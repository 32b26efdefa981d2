use mktoc::{add_toc, generate_toc, make_toc, Config};

#[test]
fn test_generate_toc() {
    // Can parse simple input to ToC
    let input = "\n# Test\n<!-- BEGIN mktoc -->\n<!-- END mktoc -->\n## Hello\n### World";
    let expected =
        "<!-- BEGIN mktoc -->\n\n- [Test](#test)\n- [Hello](#hello)\n  - [World](#world)\n<!-- END mktoc -->";
    assert_eq!(generate_toc(input.to_string(), Config::default()), expected.to_string());

    // Can find all heading levels
    let input = "\n# Test 1\n<!-- BEGIN mktoc -->\n<!-- END mktoc -->\n## Test 2\n### Test 3\n#### Test 4\n##### Test 5\n###### Test 6";
    let expected = "<!-- BEGIN mktoc -->\n\n- [Test 1](#test-1)\n- [Test 2](#test-2)\n  - [Test 3](#test-3)\n    - [Test 4](#test-4)\n      - [Test 5](#test-5)\n        - [Test 6](#test-6)\n<!-- END mktoc -->";
    assert_eq!(generate_toc(input.to_string(), Config::default()), expected.to_string());

    // Can parse with code in headings
    let input = "\n# Test\n<!-- BEGIN mktoc -->\n<!-- END mktoc -->\n## `Hello`\n### World";
    let expected =
        "<!-- BEGIN mktoc -->\n\n- [Test](#test)\n- [`Hello`](#hello)\n  - [World](#world)\n<!-- END mktoc -->";
    assert_eq!(generate_toc(input.to_string(), Config::default()), expected.to_string());

    // Can parse headings with emojis
    let input = "\n# Test\n<!-- BEGIN mktoc -->\n<!-- END mktoc -->\n## Hello 🥳\n### World";
    let expected =
        "<!-- BEGIN mktoc -->\n\n- [Test](#test)\n- [Hello 🥳](#hello-🥳)\n  - [World](#world)\n<!-- END mktoc -->";
    assert_eq!(generate_toc(input.to_string(), Config::default()), expected.to_string());

    // Can exclude code blocks
    let input = "\n# Test\n<!-- BEGIN mktoc -->\n<!-- END mktoc -->\n## Hello\n\nLorem Ipsum Dolor...\n\n```\n# inline comment\nfn some_func() -> bool {}\n```\n";
    let expected =
        "<!-- BEGIN mktoc -->\n\n- [Test](#test)\n- [Hello](#hello)\n<!-- END mktoc -->";
    assert_eq!(generate_toc(input.to_string(), Config::default()), expected.to_string());
}

#[test]
fn test_generate_toc_wrap_details() {
    // Can wrap ToC in details; the block still ends with the end sentinel.
    let input = "\n# Test\n<!-- BEGIN mktoc -->\n<!-- END mktoc -->\n## Hello\n### World";
    let expected = "<!-- BEGIN mktoc -->\n<details><summary>Table of Contents</summary>\n\n- [Test](#test)\n- [Hello](#hello)\n  - [World](#world)\n\n</details>\n<!-- END mktoc -->";
    let got = generate_toc(
        input.to_string(),
        Config { wrap_in_details: true, ..Config::default() },
    );
    assert_eq!(got, expected.to_string());
}

#[test]
fn carriage_return_line_endings() {
    // Heading lines lose the carriage return of a \r\n ending; the text
    // outside the replaced region keeps its own line endings byte-for-byte.
    let input = "# Top\r\n<!-- BEGIN mktoc -->\r\n<!-- END mktoc -->\r\n## Sub\r\n";
    let got = make_toc(input.to_string(), Config::default());
    let expected =
        "# Top\r\n<!-- BEGIN mktoc -->\n\n- [Top](#top)\n- [Sub](#sub)\n<!-- END mktoc -->\r\n## Sub\r\n";
    assert_eq!(got, expected);
}

#[test]
fn wrapped_mode_unindents_deep_levels() {
    // Four leading spaces inside an HTML wrapper would render as a code
    // block, so one run of four spaces is removed from every line.
    let input = "<!-- BEGIN mktoc -->\n<!-- END mktoc -->\n##### Five\n###### Six";
    let got = generate_toc(
        input.to_string(),
        Config { wrap_in_details: true, ..Default::default() },
    );
    let expected = "<!-- BEGIN mktoc -->\n<details><summary>Table of Contents</summary>\n\n  - [Five](#five)\n    - [Six](#six)\n\n</details>\n<!-- END mktoc -->";
    assert_eq!(got, expected);
}

#[test]
fn simple_document_entries_in_order() {
    // Every in-range heading line appears exactly once, in document order,
    // with two spaces of indentation per level beyond two.
    let got = generate_toc("# Test\n## Hello\n### World".to_string(), Config::default());
    let expected =
        "<!-- BEGIN mktoc -->\n\n- [Test](#test)\n- [Hello](#hello)\n  - [World](#world)\n<!-- END mktoc -->";
    assert_eq!(got, expected.to_string());
}

#[test]
fn fence_suppresses_heading_lines() {
    // A heading-shaped line between fence markers never reaches the list; a
    // heading after the closed fence does.
    let input = "<!-- BEGIN mktoc -->\n<!-- END mktoc -->\n```\n# inline comment\n```\n# After";
    let got = make_toc(input.to_string(), Config::default());
    let expected = "<!-- BEGIN mktoc -->\n\n- [After](#after)\n<!-- END mktoc -->\n```\n# inline comment\n```\n# After";
    assert_eq!(got, expected);
}

#[test]
fn unterminated_fence_suppresses_to_end() {
    let input = "# Top\n<!-- BEGIN mktoc -->\n<!-- END mktoc -->\n```\n# hidden\n## also hidden";
    let got = make_toc(input.to_string(), Config::default());
    let expected = "# Top\n<!-- BEGIN mktoc -->\n\n- [Top](#top)\n<!-- END mktoc -->\n```\n# hidden\n## also hidden";
    assert_eq!(got, expected);
}

#[test]
fn depth_range_filters_entries() {
    let input = "<!-- BEGIN mktoc -->\n<!-- END mktoc -->\n# One\n## Two\n### Three\n#### Four";
    let got = make_toc(
        input.to_string(),
        Config { min_depth: 2, max_depth: 3, ..Default::default() },
    );
    let expected = "<!-- BEGIN mktoc -->\n\n- [Two](#two)\n  - [Three](#three)\n<!-- END mktoc -->\n# One\n## Two\n### Three\n#### Four";
    assert_eq!(got, expected);
}

#[test]
fn embedded_config_overrides_caller() {
    // The document pins wrap_in_details=false; the caller asked for true.
    let input = "<!-- BEGIN mktoc {\"wrap_in_details\": false} -->\nold\n<!-- END mktoc -->\n# A";
    let got = make_toc(
        input.to_string(),
        Config { wrap_in_details: true, ..Default::default() },
    );
    let expected =
        "<!-- BEGIN mktoc {\"wrap_in_details\": false} -->\n\n- [A](#a)\n<!-- END mktoc -->\n# A";
    assert_eq!(got, expected);
}

#[test]
fn make_toc_is_idempotent_without_wrapper() {
    let input = "intro\n<!-- BEGIN mktoc -->\nstale entry\n<!-- END mktoc -->\n# One\n## Two";
    let once = make_toc(input.to_string(), Config::default());
    let twice = make_toc(once.clone(), Config::default());
    assert_eq!(twice, once);

    let with_cfg = "<!-- BEGIN mktoc {\"max_depth\":2} -->\n<!-- END mktoc -->\n# A\n## B\n### C";
    let once = make_toc(with_cfg.to_string(), Config::default());
    let twice = make_toc(once.clone(), Config::default());
    assert_eq!(twice, once);
}

#[test]
fn wrapped_mode_is_idempotent() {
    // The wrapped block ends with the end sentinel, so a second pass
    // replaces exactly the block it produced.
    let input = "<!-- BEGIN mktoc -->\n<!-- END mktoc -->\n# A";
    let cfg = Config { wrap_in_details: true, ..Default::default() };
    let once = make_toc(input.to_string(), cfg.clone());
    let block = "<!-- BEGIN mktoc -->\n<details><summary>Table of Contents</summary>\n\n- [A](#a)\n\n</details>\n<!-- END mktoc -->";
    assert_eq!(once, format!("{}\n# A", block));
    let twice = make_toc(once.clone(), cfg);
    assert_eq!(twice, once);
}

#[test]
fn document_without_sentinels_is_unchanged() {
    let input = "# Just a heading\nand some text";
    assert_eq!(make_toc(input.to_string(), Config::default()), input.to_string());
    assert_eq!(make_toc(String::new(), Config::default()), String::new());
}

#[test]
fn only_first_region_is_replaced() {
    let input =
        "<!-- BEGIN mktoc -->\nx\n<!-- END mktoc -->\n# A\n<!-- BEGIN mktoc -->\ny\n<!-- END mktoc -->";
    let got = make_toc(input.to_string(), Config::default());
    let expected =
        "<!-- BEGIN mktoc -->\n\n- [A](#a)\n<!-- END mktoc -->\n# A\n<!-- BEGIN mktoc -->\ny\n<!-- END mktoc -->";
    assert_eq!(got, expected);
}

#[test]
fn replacement_is_literal() {
    // The rendered block is spliced in verbatim: a dollar sign in a heading
    // is no reference to anything, it is just a character.
    let input = "<!-- BEGIN mktoc -->\n<!-- END mktoc -->\n# Pay $0 now";
    let got = make_toc(input.to_string(), Config::default());
    let expected =
        "<!-- BEGIN mktoc -->\n\n- [Pay $0 now](#pay-0-now)\n<!-- END mktoc -->\n# Pay $0 now";
    assert_eq!(got, expected);
}

#[test]
fn add_toc_replaces_region_verbatim() {
    let got = add_toc(
        "before\n<!-- BEGIN mktoc -->\nold\n<!-- END mktoc -->\nafter".to_string(),
        "NEW".to_string(),
    );
    assert_eq!(got, "before\nNEW\nafter".to_string());
}

#[test]
fn heading_quirks_follow_the_pattern() {
    // `#` without following whitespace is no heading; a deeper run than six
    // matches where six remain; the match may start after a failed run.
    let input = "<!-- BEGIN mktoc -->\n<!-- END mktoc -->\n#nospace\n####### seven\n#x # y";
    let got = make_toc(input.to_string(), Config::default());
    let expected = "<!-- BEGIN mktoc -->\n\n        - [seven](#seven)\n- [y](#y)\n<!-- END mktoc -->\n#nospace\n####### seven\n#x # y";
    assert_eq!(got, expected);
}

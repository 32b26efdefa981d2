use mktoc::{strip_markdown_links, text_to_url};

#[test]
fn test_text_to_url() {
    // Case 01: My heading
    assert_eq!(text_to_url("My heading"), String::from("my-heading"));
    // Case 02: My Heading with `code`
    assert_eq!(text_to_url("My Heading with `code`"), String::from("my-heading-with-code"));
    // Case 03: Emoji 💃
    assert_eq!(text_to_url("Emoji 💃"), String::from("emoji-💃"));
    // Case 03: Number sign
    assert_eq!(text_to_url("Why #5 is nice"), String::from("why-5-is-nice"));
    // Case 04: Special signs
    assert_eq!(
        text_to_url("Reasons to say !@;#\\!! out loud"),
        String::from("reasons-to-say-@-out-loud")
    );
    // Case 05: Empty
    assert_eq!(text_to_url(""), String::from(""));
}

#[test]
fn test_strip_markdown_links() {
    assert_eq!(
        strip_markdown_links("This is a [link](https://example.com) in a Markdown text."),
        String::from("This is a link in a Markdown text.")
    );
    assert_eq!(
        strip_markdown_links(
            "This is a [link](https://example.com) and [another one](https://example.org) in a Markdown text."
        ),
        String::from("This is a link and another one in a Markdown text.")
    );
    assert_eq!(
        strip_markdown_links("This is a text without any links."),
        String::from("This is a text without any links.")
    );
    assert_eq!(strip_markdown_links(""), String::from(""));
    assert_eq!(
        strip_markdown_links("This is a [link](https://example.com) with some text after it."),
        String::from("This is a link with some text after it.")
    );
}

#[test]
fn slug_of_heading_with_link() {
    // A Markdown link inside a heading: the label survives, the target does
    // not leak into the display text or the slug.
    let heading = "[link](https://example.com) heading";
    assert_eq!(strip_markdown_links(heading), String::from("link heading"));
    assert_eq!(text_to_url(heading), String::from("link-heading"));
}

#[test]
fn slug_is_deterministic_and_ascii_folded() {
    // Equal inputs give equal outputs, including for non-ASCII text; ASCII
    // letters are lower-cased, other characters pass through unchanged.
    let a = text_to_url("Grüße 🥳 FROM Café");
    let b = text_to_url("Grüße 🥳 FROM Café");
    assert_eq!(a, b);
    assert_eq!(a, String::from("grüße-🥳-from-café"));
}

#[test]
fn slug_trims_and_joins_spaces() {
    assert_eq!(text_to_url("  spaced   out  "), String::from("spaced---out"));
    assert_eq!(text_to_url("Dots. and, marks!"), String::from("dots-and-marks"));
}

use mktoc::{parse_json_config, parse_json_config_or_use_provided, Config};

#[test]
fn test_parse_json_config_or_use_provided() {
    // Default config used if empty input
    let cnf = parse_json_config_or_use_provided("", Config { ..Default::default() });
    assert_eq!(cnf, Config { ..Default::default() });

    // An embedded configuration overrides the provided one.
    let cnf = parse_json_config_or_use_provided(
        "<!-- BEGIN mktoc {\"wrap_in_details\": false} -->",
        Config { wrap_in_details: true, ..Default::default() },
    );
    assert_eq!(
        cnf,
        Config {
            wrap_in_details: false,
            start_comment: String::from("<!-- BEGIN mktoc {\"wrap_in_details\": false} -->"),
            ..Default::default()
        }
    );
}

#[test]
fn test_config_eq() {
    let cnf1 = Config { ..Default::default() };
    let cnf2 = Config { ..Default::default() };
    assert_eq!(cnf1, cnf2);
}

#[test]
fn test_config_ne() {
    assert!(
        Config { min_depth: 1, ..Default::default() }
            != Config { min_depth: 2, ..Default::default() }
    );
    assert!(
        Config { max_depth: 3, ..Default::default() }
            != Config { max_depth: 4, ..Default::default() }
    );
    assert!(
        Config { wrap_in_details: false, ..Default::default() }
            != Config { wrap_in_details: true, ..Default::default() }
    );
    assert!(
        Config { start_comment: String::from(""), ..Default::default() }
            != Config { start_comment: String::from("Different"), ..Default::default() }
    );
}

#[test]
fn test_parse_json_config() {
    // only min_depth set
    let input = "<!-- BEGIN mktoc {\"min_depth\":3} -->";
    let (cnf, _found) = parse_json_config(input);
    assert_eq!(cnf.max_depth, 6);
    assert_eq!(cnf.min_depth, 3);
    assert_eq!(cnf.start_comment, input.to_string());

    // min_depth and max_depth set
    let input = "<!-- BEGIN mktoc {\"min_depth\":3, \"max_depth\":4} -->";
    let (cnf, _found) = parse_json_config(input);
    assert_eq!(cnf.max_depth, 4);
    assert_eq!(cnf.min_depth, 3);
    assert_eq!(cnf.start_comment, input.to_string());

    // only max_depth set
    let input = "<!-- BEGIN mktoc {\"max_depth\":4} -->";
    let (cnf, _found) = parse_json_config(input);
    assert_eq!(cnf.max_depth, 4);
    assert_eq!(cnf.min_depth, 1);
    assert_eq!(cnf.start_comment, input.to_string());

    // no json config, returns default values
    let input = "<!-- BEGIN mktoc -->";
    let (cnf, _found) = parse_json_config(input);
    assert_eq!(cnf.max_depth, 6);
    assert_eq!(cnf.min_depth, 1);
    assert_eq!(cnf.start_comment, input.to_string());

    // invalid max_depth set results in default max_depth being used
    let input = "<!-- BEGIN mktoc {\"max_depth\":10} -->";
    let (cnf, _found) = parse_json_config(input);
    assert_eq!(cnf.max_depth, 6);
    assert_eq!(cnf.min_depth, 1);
    assert_eq!(cnf.start_comment, input.to_string());

    // invalid min_depth set results in default min_depth being used
    let input = "<!-- BEGIN mktoc {\"min_depth\":-1} -->";
    let (cnf, _found) = parse_json_config(input);
    assert_eq!(cnf.max_depth, 6);
    assert_eq!(cnf.min_depth, 1);
    assert_eq!(cnf.start_comment, input.to_string());

    // invalid config used, fallback to default
    let input = "<!-- BEGIN mktoc {\"doesn_t_exists\":false} -->";
    let (cnf, _found) = parse_json_config(input);
    assert_eq!(cnf.max_depth, 6);
    assert_eq!(cnf.min_depth, 1);
    assert_eq!(cnf.start_comment, input.to_string());
}

#[test]
fn malformed_embedded_json_falls_back() {
    // JSON present but unparsable: treated as no embedded configuration.
    let fallback = Config { min_depth: 2, ..Default::default() };
    let cnf = parse_json_config_or_use_provided(
        "<!-- BEGIN mktoc {\"min_depth\": } -->",
        fallback.clone(),
    );
    assert_eq!(cnf, fallback);

    // A present field of the wrong type rejects the whole embedded object.
    let (cnf, found) = parse_json_config("<!-- BEGIN mktoc {\"min_depth\": \"three\"} -->");
    assert!(!found);
    assert_eq!(cnf.min_depth, 1);
    assert_eq!(cnf.max_depth, 6);

    let (_cnf, found) = parse_json_config("<!-- BEGIN mktoc {\"wrap_in_details\": 1} -->");
    assert!(!found);

    let (_cnf, found) = parse_json_config("<!-- BEGIN mktoc {\"start_comment\": 5} -->");
    assert!(!found);

    // An integer too large for the depth type rejects the object too.
    let (_cnf, found) = parse_json_config("<!-- BEGIN mktoc {\"min_depth\": 3000000000} -->");
    assert!(!found);
}

#[test]
fn sentinel_close_may_follow_a_newline() {
    // Only whitespace — newlines included — may stand between the object
    // and the comment close; the sentinel is kept byte-for-byte.
    let input = "<!-- BEGIN mktoc {\"max_depth\":2}\n-->";
    let (cnf, found) = parse_json_config(input);
    assert!(found);
    assert_eq!(cnf.max_depth, 2);
    assert_eq!(cnf.start_comment, input.to_string());
}

#[test]
fn sentinel_shapes_accepted() {
    // Extra whitespace inside the sentinel is tolerated, and the sentinel's
    // exact original text survives for regeneration.
    let input = "<!--  BEGIN mktoc  {\"max_depth\":2}  -->";
    let (cnf, found) = parse_json_config(input);
    assert!(found);
    assert_eq!(cnf.max_depth, 2);
    assert_eq!(cnf.start_comment, input.to_string());
}

#[test]
fn caller_config_is_clamped() {
    // Out-of-range depth bounds are clamped to their defaults whether they
    // come embedded or from the caller.
    let cnf = parse_json_config_or_use_provided(
        "no sentinels here",
        Config { min_depth: 0, max_depth: 10, ..Default::default() },
    );
    assert_eq!(cnf.min_depth, 1);
    assert_eq!(cnf.max_depth, 6);

    let cnf = parse_json_config_or_use_provided(
        "",
        Config { min_depth: -1, ..Default::default() },
    );
    assert_eq!(cnf.min_depth, 1);
    assert_eq!(cnf.max_depth, 6);
}

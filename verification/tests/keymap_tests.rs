use libnewsboat::keymap::tokenize_key_sequence;
use libnewsboat::keymap::tokenize_operation_description;
use libnewsboat::keymap::tokenize_operation_sequence;

#[test]
fn t_tokenize_operation_sequence_works_for_all_cpp_inputs() {
    assert_eq!(
        tokenize_operation_sequence("").unwrap().0,
        Vec::<Vec<String>>::new()
    );
    assert_eq!(
        tokenize_operation_sequence("open").unwrap().0,
        vec![vec!["open"]]
    );
    assert_eq!(
        tokenize_operation_sequence("open-all-unread-in-browser-and-mark-read")
            .unwrap()
            .0,
        vec![vec!["open-all-unread-in-browser-and-mark-read"]]
    );
    assert_eq!(
        tokenize_operation_sequence("; ; ; ;").unwrap().0,
        Vec::<Vec<String>>::new()
    );
    assert_eq!(
        tokenize_operation_sequence("open ; next").unwrap().0,
        vec![vec!["open"], vec!["next"]]
    );
    assert_eq!(
        tokenize_operation_sequence("open ; next ; prev").unwrap().0,
        vec![vec!["open"], vec!["next"], vec!["prev"]]
    );
    assert_eq!(
        tokenize_operation_sequence("open ; next ; prev ; quit")
            .unwrap()
            .0,
        vec![vec!["open"], vec!["next"], vec!["prev"], vec!["quit"]]
    );
    assert_eq!(
        tokenize_operation_sequence(r#"set "arg 1""#).unwrap().0,
        vec![vec!["set", "arg 1"]]
    );
    assert_eq!(
        tokenize_operation_sequence(r#"set "arg 1" ; set "arg 2" "arg 3""#)
            .unwrap()
            .0,
        vec![vec!["set", "arg 1"], vec!["set", "arg 2", "arg 3"]]
    );
    assert_eq!(
        tokenize_operation_sequence(r#"set browser "firefox"; open-in-browser"#)
            .unwrap()
            .0,
        vec![vec!["set", "browser", "firefox"], vec!["open-in-browser"]]
    );
    assert_eq!(
        tokenize_operation_sequence("set browser firefox; open-in-browser")
            .unwrap()
            .0,
        vec![vec!["set", "browser", "firefox"], vec!["open-in-browser"]]
    );
    assert_eq!(
        tokenize_operation_sequence("open-in-browser; quit")
            .unwrap()
            .0,
        vec![vec!["open-in-browser"], vec!["quit"]]
    );
    assert_eq!(
        tokenize_operation_sequence(r#"open; set browser "firefox --private-window"; quit"#)
            .unwrap()
            .0,
        vec![
            vec!["open"],
            vec!["set", "browser", "firefox --private-window"],
            vec!["quit"]
        ]
    );
    assert_eq!(
        tokenize_operation_sequence(r#"open ;set browser "firefox --private-window" ;quit"#)
            .unwrap()
            .0,
        vec![
            vec!["open"],
            vec!["set", "browser", "firefox --private-window"],
            vec!["quit"]
        ]
    );
    assert_eq!(
        tokenize_operation_sequence(r#"open;set browser "firefox --private-window";quit"#)
            .unwrap()
            .0,
        vec![
            vec!["open"],
            vec!["set", "browser", "firefox --private-window"],
            vec!["quit"]
        ]
    );
    assert_eq!(
        tokenize_operation_sequence("; ;; ; open",).unwrap().0,
        vec![vec!["open"]]
    );
    assert_eq!(
        tokenize_operation_sequence(";;; ;; ; open",).unwrap().0,
        vec![vec!["open"]]
    );
    assert_eq!(
        tokenize_operation_sequence(";;; ;; ; open ;",).unwrap().0,
        vec![vec!["open"]]
    );
    assert_eq!(
        tokenize_operation_sequence(";;; ;; ; open ;; ;",)
            .unwrap()
            .0,
        vec![vec!["open"]]
    );
    assert_eq!(
        tokenize_operation_sequence(";;; ;; ; open ; ;;;;",)
            .unwrap()
            .0,
        vec![vec!["open"]]
    );
    assert_eq!(
        tokenize_operation_sequence(";;; open ; ;;;;",).unwrap().0,
        vec![vec!["open"]]
    );
    assert_eq!(
        tokenize_operation_sequence("; open ;; ;; ;",).unwrap().0,
        vec![vec!["open"]]
    );
    assert_eq!(
        tokenize_operation_sequence("open ; ;;; ;;",).unwrap().0,
        vec![vec!["open"]]
    );
    assert_eq!(
        tokenize_operation_sequence(
            r#"set browser "sleep 3; do-something ; echo hi"; open-in-browser"#
        )
        .unwrap()
        .0,
        vec![
            vec!["set", "browser", "sleep 3; do-something ; echo hi"],
            vec!["open-in-browser"]
        ]
    );
}

#[test]
fn t_tokenize_operation_sequence_ignores_escaped_sequences_outside_double_quotes() {
    assert_eq!(
        tokenize_operation_sequence(r#"\t"#).unwrap().0,
        vec![vec![r#"\t"#]]
    );
    assert_eq!(
        tokenize_operation_sequence(r#"\r"#).unwrap().0,
        vec![vec![r#"\r"#]]
    );
    assert_eq!(
        tokenize_operation_sequence(r#"\n"#).unwrap().0,
        vec![vec![r#"\n"#]]
    );
    assert_eq!(
        tokenize_operation_sequence(r#"\v"#).unwrap().0,
        vec![vec![r#"\v"#]]
    );
    assert_eq!(
        tokenize_operation_sequence(r#"\""#).unwrap().0,
        vec![vec![r#"\""#]]
    );
    assert_eq!(
        tokenize_operation_sequence(r#"\\"#).unwrap().0,
        vec![vec![r#"\\"#]]
    );
}

#[test]
fn t_tokenize_operation_sequence_expands_escaped_sequences_inside_double_quotes() {
    assert_eq!(
        tokenize_operation_sequence(r#""\t""#).unwrap().0,
        vec![vec!["\t"]]
    );
    assert_eq!(
        tokenize_operation_sequence(r#""\r""#).unwrap().0,
        vec![vec!["\r"]]
    );
    assert_eq!(
        tokenize_operation_sequence(r#""\n""#).unwrap().0,
        vec![vec!["\n"]]
    );
    assert_eq!(
        tokenize_operation_sequence(r#""\"""#).unwrap().0,
        vec![vec!["\""]]
    );
    assert_eq!(
        tokenize_operation_sequence(r#""\\""#).unwrap().0,
        vec![vec!["\\"]]
    );
}

#[test]
fn t_tokenize_operation_sequence_passes_through_unsupported_escaped_chars_inside_double_quotes() {
    assert_eq!(
        tokenize_operation_sequence(r#""\1""#).unwrap().0,
        vec![vec!["1"]]
    );
    assert_eq!(
        tokenize_operation_sequence(r#""\W""#).unwrap().0,
        vec![vec!["W"]]
    );
    assert_eq!(
        tokenize_operation_sequence(r#""\b""#).unwrap().0,
        vec![vec!["b"]]
    );
    assert_eq!(
        tokenize_operation_sequence(r#""\d""#).unwrap().0,
        vec![vec!["d"]]
    );
    assert_eq!(
        tokenize_operation_sequence(r#""\x""#).unwrap().0,
        vec![vec!["x"]]
    );
}

#[test]
fn t_tokenize_operation_sequence_implicitly_closes_double_quotes_at_end_of_input() {
    assert_eq!(
        tokenize_operation_sequence(r#"set "arg 1"#).unwrap().0,
        vec![vec!["set", "arg 1"]]
    );
}

#[test]
fn t_tokenize_operation_sequence_allows_single_character_unquoted() {
    assert_eq!(
        tokenize_operation_sequence(r#"set a b"#).unwrap().0,
        vec![vec!["set", "a", "b"]]
    );
}

#[test]
fn t_tokenize_operation_sequence_does_not_consumpe_dashdash() {
    let (operations, leftover) =
        tokenize_operation_sequence(r#"set a b -- "name of function""#).unwrap();
    assert_eq!(operations, vec![vec!["set", "a", "b"]]);
    assert_eq!(leftover, r#" -- "name of function""#);
}

#[test]
fn t_tokenize_operation_sequence_allows_dashdash_in_quoted() {
    let (operations, leftover) =
        tokenize_operation_sequence(r#"set a b "--" "name of function""#).unwrap();
    assert_eq!(
        operations,
        vec![vec!["set", "a", "b", "--", "name of function"]]
    );
    assert_eq!(leftover, "");
}

#[test]
fn t_tokenize_operation_description_supports_empty_input() {
    assert_eq!(tokenize_operation_description(""), None);
}

#[test]
fn t_tokenize_operation_description_ignores_preceding_spaces() {
    assert_eq!(
        tokenize_operation_description(r#"-- "description""#).unwrap(),
        "description"
    );
    assert_eq!(
        tokenize_operation_description(r#"     -- "description""#).unwrap(),
        "description"
    );
}

#[test]
fn t_tokenize_operation_description_ignores_trailing_spaces() {
    assert_eq!(
        tokenize_operation_description(r#"-- "description"   "#).unwrap(),
        "description"
    );
}

#[test]
fn t_tokenize_operation_description_includes_whitespace() {
    assert_eq!(
        tokenize_operation_description(r#"-- "multi-word description""#).unwrap(),
        "multi-word description"
    );
    assert_eq!(
        tokenize_operation_description(r#"-- "  leading and trailing  ""#).unwrap(),
        "  leading and trailing  "
    );
}

#[test]
fn t_tokenize_operation_description_requires_closing_quote() {
    assert_eq!(
        tokenize_operation_description(r#"-- "description not closed "#),
        None
    );
}

#[test]
fn t_tokenize_key_sequence_requires_at_least_1_key() {
    assert!(tokenize_key_sequence("").is_none());
}

#[test]
fn t_tokenize_key_sequence_parses_regular_keys() {
    let x = tokenize_key_sequence("a").unwrap();
    assert_eq!(x.len(), 1);
    assert_eq!(x[0].key, "a");
    assert_eq!(x[0].shift, false);
    assert_eq!(x[0].control, false);
    assert_eq!(x[0].meta, false);

    let y = tokenize_key_sequence("A").unwrap();
    assert_eq!(y.len(), 1);
    assert_eq!(y[0].key, "a");
    assert_eq!(y[0].shift, true);
    assert_eq!(y[0].control, false);
    assert_eq!(y[0].meta, false);

    let z = tokenize_key_sequence("$").unwrap();
    assert_eq!(z.len(), 1);
    assert_eq!(z[0].key, "$");
    assert_eq!(z[0].shift, false);
    assert_eq!(z[0].control, false);
    assert_eq!(z[0].meta, false);
}

use libnewsboat::filebrowser::FileBrowser;
use libnewsboat::keymap::tokenize_key_sequence;
use libnewsboat::keymap::tokenize_operation_description;
use libnewsboat::keymap::tokenize_operation_sequence;
use std::path::PathBuf;

// Joining parsed operations with " ; " and re-parsing yields the same
// structure, for operations whose tokens need no quoting.
#[test]
fn reserialization_round_trip() {
    let inputs = [
        "open",
        "open ; next ; prev",
        ";;; ;; ; set a b ;",
        "set browser firefox; open-in-browser",
    ];
    for input in inputs {
        let (ops, _) = tokenize_operation_sequence(input).unwrap();
        let joined = ops
            .iter()
            .map(|op| op.join(" "))
            .collect::<Vec<String>>()
            .join(" ; ");
        let (reparsed, leftover) = tokenize_operation_sequence(&joined).unwrap();
        assert_eq!(reparsed, ops);
        assert_eq!(leftover, "");
    }
}

#[test]
fn operation_sequence_stops_at_unquoted_marker_only() {
    // An unquoted `--` is not consumed as a token: it starts the remainder.
    let (ops, leftover) = tokenize_operation_sequence(r#"set a b -- "name""#).unwrap();
    assert_eq!(ops, vec![vec!["set", "a", "b"]]);
    assert_eq!(leftover, r#" -- "name""#);
    // A quoted `--` is ordinary content.
    let (ops, leftover) = tokenize_operation_sequence(r#"set a b "--" "x""#).unwrap();
    assert_eq!(ops, vec![vec!["set", "a", "b", "--", "x"]]);
    assert_eq!(leftover, "");
}

#[test]
fn operation_sequence_keeps_unconsumed_trailing_space() {
    let (ops, leftover) = tokenize_operation_sequence("open ").unwrap();
    assert_eq!(ops, vec![vec!["open"]]);
    assert_eq!(leftover, " ");
}

#[test]
fn operation_sequence_tab_is_not_a_token_separator() {
    // A tab does not end an unquoted token, so it stays inside it...
    assert_eq!(
        tokenize_operation_sequence("a\tb").unwrap().0,
        vec![vec!["a\tb"]]
    );
    // ...but leading tabs are consumed like spaces,
    assert_eq!(
        tokenize_operation_sequence("\topen").unwrap().0,
        vec![vec!["open"]]
    );
    // and a tab can separate tokens after a quoted token.
    assert_eq!(
        tokenize_operation_sequence("\"a\"\tb").unwrap().0,
        vec![vec!["a", "b"]]
    );
}

#[test]
fn operation_sequence_empty_quoted_token_edge_cases() {
    // A lone opening quote is closed implicitly: an empty token.
    assert_eq!(
        tokenize_operation_sequence("set \"").unwrap().0,
        vec![vec!["set", ""]]
    );
    // An immediately closed empty body does not parse as a quoted token; the
    // quotes fall back to ordinary unquoted-token characters.
    assert_eq!(
        tokenize_operation_sequence("set \"\"").unwrap().0,
        vec![vec!["set", "\"\""]]
    );
    // A backslash at the very end of the input makes the quoted form fail,
    // with the same fallback.
    assert_eq!(
        tokenize_operation_sequence("\"ab\\").unwrap().0,
        vec![vec!["\"ab\\"]]
    );
}

#[test]
fn operation_description_allows_tabs_and_ignores_trailing_text() {
    assert_eq!(
        tokenize_operation_description("--\t\"description\""),
        Some("description")
    );
    assert_eq!(
        tokenize_operation_description("-- \"description\" trailing junk"),
        Some("description")
    );
}

#[test]
fn operation_description_rejects_empty_body_and_missing_marker() {
    assert_eq!(tokenize_operation_description("-- \"\""), None);
    assert_eq!(tokenize_operation_description("\"description\""), None);
    assert_eq!(tokenize_operation_description("- \"description\""), None);
}

#[test]
fn key_sequence_parses_control_keys() {
    let x = tokenize_key_sequence("^A").unwrap();
    assert_eq!(x.len(), 1);
    assert_eq!(x[0].key, "A");
    assert_eq!(x[0].shift, false);
    assert_eq!(x[0].control, true);
    assert_eq!(x[0].meta, false);

    let y = tokenize_key_sequence("^x").unwrap();
    assert_eq!(y[0].key, "x");
    assert_eq!(y[0].control, true);

    // The chord character must be alphabetic.
    assert!(tokenize_key_sequence("^1").is_none());
}

#[test]
fn key_sequence_parses_named_keys() {
    for (input, name) in [
        ("<space>", "space"),
        ("<enter>", "enter"),
        ("<up>", "up"),
        ("<down>", "down"),
        ("<left>", "left"),
        ("<right>", "right"),
        ("<esc>", "esc"),
        ("<plus>", "plus"),
        ("<minus>", "minus"),
        ("<lt>", "lt"),
        ("<gt>", "gt"),
    ] {
        let x = tokenize_key_sequence(input).unwrap();
        assert_eq!(x.len(), 1);
        assert_eq!(x[0].key, name);
        assert_eq!(x[0].shift, false);
        assert_eq!(x[0].control, false);
        assert_eq!(x[0].meta, false);
    }
    // The vocabulary is case-insensitive and normalizes to lowercase.
    assert_eq!(tokenize_key_sequence("<ENTER>").unwrap()[0].key, "enter");
    assert_eq!(tokenize_key_sequence("<SpAcE>").unwrap()[0].key, "space");
    // An unknown name is a failure.
    assert!(tokenize_key_sequence("<foo>").is_none());
}

#[test]
fn key_sequence_parses_modifier_combinations() {
    let x = tokenize_key_sequence("<C-S-M-d>").unwrap();
    assert_eq!(x.len(), 1);
    assert_eq!(x[0].key, "d");
    assert_eq!(x[0].shift, true);
    assert_eq!(x[0].control, true);
    assert_eq!(x[0].meta, true);

    let y = tokenize_key_sequence("<C-d>").unwrap();
    assert_eq!(y[0].key, "d");
    assert_eq!(y[0].shift, false);
    assert_eq!(y[0].control, true);
    assert_eq!(y[0].meta, false);

    let z = tokenize_key_sequence("<S-$>").unwrap();
    assert_eq!(z[0].key, "$");
    assert_eq!(z[0].shift, true);

    // A named key can carry modifiers too.
    let w = tokenize_key_sequence("<C-space>").unwrap();
    assert_eq!(w[0].key, "space");
    assert_eq!(w[0].control, true);

    // The keyed character must not be whitespace.
    assert!(tokenize_key_sequence("<C- >").is_none());
    // Modifier letters are case-sensitive.
    assert!(tokenize_key_sequence("<c-d>").is_none());
}

#[test]
fn key_sequence_parses_several_keys_greedily() {
    let x = tokenize_key_sequence("ab<space>^C").unwrap();
    assert_eq!(x.len(), 4);
    assert_eq!(x[0].key, "a");
    assert_eq!(x[1].key, "b");
    assert_eq!(x[2].key, "space");
    assert_eq!(x[3].key, "C");
    assert_eq!(x[3].control, true);
}

#[test]
fn key_sequence_requires_whole_input_to_parse() {
    assert!(tokenize_key_sequence("a>").is_none());
    assert!(tokenize_key_sequence("<C-").is_none());
    assert!(tokenize_key_sequence("a<foo>b").is_none());
}

#[test]
fn key_sequence_lowercases_unicode_uppercase() {
    let x = tokenize_key_sequence("\u{c4}").unwrap();
    assert_eq!(x.len(), 1);
    assert_eq!(x[0].key, "\u{e4}");
    assert_eq!(x[0].shift, true);
    assert_eq!(x[0].control, false);
    assert_eq!(x[0].meta, false);
}

#[test]
fn file_browser_remembers_directory() {
    let browser = FileBrowser::new(PathBuf::from("/tmp"));
    browser.listDirectoryEntries();
}

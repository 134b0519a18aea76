//! The tokenizer grammar, stated as specification functions over character
//! sequences. Each parser works on a position `i` into the input `s` and
//! yields the parsed value together with the position just past what it
//! consumed; `None` marks a parse failure that the caller may recover from.
//!
//! The executable parsers in [`crate::keymap`] are verified to return exactly
//! what these functions describe.

use crate::unicode::{is_alphabetic_char, is_uppercase_char, is_whitespace_char, lowercase_of};
use vstd::prelude::*;

verus! {

/// Separator characters between tokens and around semicolons: space or tab.
pub open spec fn is_space(c: char) -> bool {
    c == ' ' || c == '\t'
}

/// Characters that end an unquoted token: space or semicolon.
/// A tab does not: it can only separate tokens after a quoted token.
pub open spec fn is_token_break(c: char) -> bool {
    c == ' ' || c == ';'
}

/// What an escaped character inside double quotes stands for: `\r`, `\n` and
/// `\t` become control characters; `\"` and `\\`, like every unsupported
/// escape, keep the escaped character itself (the backslash is dropped).
pub open spec fn escape_char(c: char) -> char {
    if c == 'r' {
        '\r'
    } else if c == 'n' {
        '\n'
    } else if c == 't' {
        '\t'
    } else {
        c
    }
}

/// End of the maximal run of spaces and tabs starting at `i`.
pub open spec fn space_end(s: Seq<char>, i: int) -> int
    decreases s.len() - i,
{
    if i < s.len() && is_space(s[i]) {
        space_end(s, i + 1)
    } else {
        i
    }
}

/// End of the maximal run of unquoted-token characters starting at `i`.
pub open spec fn run_end(s: Seq<char>, i: int) -> int
    decreases s.len() - i,
{
    if i < s.len() && !is_token_break(s[i]) {
        run_end(s, i + 1)
    } else {
        i
    }
}

/// End of the maximal run of non-quote characters starting at `i`.
pub open spec fn nonquote_end(s: Seq<char>, i: int) -> int
    decreases s.len() - i,
{
    if i < s.len() && s[i] != '"' {
        nonquote_end(s, i + 1)
    } else {
        i
    }
}

pub proof fn lemma_space_end_bounds(s: Seq<char>, i: int)
    requires
        0 <= i <= s.len(),
    ensures
        i <= space_end(s, i) <= s.len(),
    decreases s.len() - i,
{
    if i < s.len() && is_space(s[i]) {
        lemma_space_end_bounds(s, i + 1);
    }
}

pub proof fn lemma_run_end_bounds(s: Seq<char>, i: int)
    requires
        0 <= i <= s.len(),
    ensures
        i <= run_end(s, i) <= s.len(),
    decreases s.len() - i,
{
    if i < s.len() && !is_token_break(s[i]) {
        lemma_run_end_bounds(s, i + 1);
    }
}

/// The body of a double-quoted token, scanned from `i` (just past the opening
/// quote): escapes are processed, an unescaped `"` or the end of input closes
/// the token. The one failure is a backslash as the last character of the
/// input. Returns the processed body and the position past the closing quote
/// (or the input's end when the quote was implicitly supplied).
pub open spec fn quoted_body(s: Seq<char>, i: int) -> Option<(Seq<char>, int)>
    decreases s.len() - i,
{
    if i >= s.len() {
        Some((Seq::empty(), i))
    } else if s[i] == '"' {
        Some((Seq::empty(), i + 1))
    } else if s[i] == '\\' {
        if i + 1 < s.len() {
            match quoted_body(s, i + 2) {
                Some((rest, j)) => Some((seq![escape_char(s[i + 1])] + rest, j)),
                None => None,
            }
        } else {
            None
        }
    } else {
        match quoted_body(s, i + 1) {
            Some((rest, j)) => Some((seq![s[i]] + rest, j)),
            None => None,
        }
    }
}

pub proof fn lemma_quoted_body_bounds(s: Seq<char>, i: int)
    requires
        0 <= i <= s.len(),
    ensures
        quoted_body(s, i) is Some ==> i <= (quoted_body(s, i)->0).1 <= s.len(),
    decreases s.len() - i,
{
    if i < s.len() && s[i] != '"' {
        if s[i] == '\\' {
            if i + 1 < s.len() {
                lemma_quoted_body_bounds(s, i + 2);
            }
        } else {
            lemma_quoted_body_bounds(s, i + 1);
        }
    }
}

/// An unquoted token at `i`: the maximal run of characters other than space
/// and semicolon. It fails when the run is empty or is exactly the reserved
/// description marker `--`.
pub open spec fn unquoted_at(s: Seq<char>, i: int) -> Option<(Seq<char>, int)> {
    let j = run_end(s, i);
    if j == i {
        None
    } else if j == i + 2 && s[i] == '-' && s[i + 1] == '-' {
        None
    } else {
        Some((s.subrange(i, j), j))
    }
}

/// One token at `i`. A leading `"` selects the quoted form, except that a
/// quoted form that fails — an immediately closed empty body, or a trailing
/// backslash — falls back to the unquoted form, which then treats the `"`
/// as an ordinary character.
pub open spec fn token_at(s: Seq<char>, i: int) -> Option<(Seq<char>, int)> {
    if i < s.len() && s[i] == '"' && !(i + 1 < s.len() && s[i + 1] == '"') {
        match quoted_body(s, i + 1) {
            Some((t, j)) => Some((t, j)),
            None => unquoted_at(s, i),
        }
    } else {
        unquoted_at(s, i)
    }
}

pub proof fn lemma_token_at_bounds(s: Seq<char>, i: int)
    requires
        0 <= i <= s.len(),
    ensures
        token_at(s, i) is Some ==> i < (token_at(s, i)->0).1 <= s.len(),
{
    lemma_run_end_bounds(s, i);
    if i < s.len() && s[i] == '"' {
        lemma_quoted_body_bounds(s, i + 1);
    }
}

/// The tokens of one operation after its first token: zero or more
/// repetitions of one-or-more spaces followed by a token. A separator not
/// followed by a token is left unconsumed.
pub open spec fn op_rest(s: Seq<char>, i: int) -> (Seq<Seq<char>>, int)
    decreases s.len() - i,
        when 0 <= i <= s.len()
        via op_rest_decreases
{
    let j = space_end(s, i);
    if j > i {
        match token_at(s, j) {
            None => (Seq::empty(), i),
            Some((t, k)) => {
                let (rest, m) = op_rest(s, k);
                (seq![t] + rest, m)
            },
        }
    } else {
        (Seq::empty(), i)
    }
}

#[via_fn]
proof fn op_rest_decreases(s: Seq<char>, i: int) {
    lemma_space_end_bounds(s, i);
    lemma_token_at_bounds(s, space_end(s, i));
}

/// One operation at `i`: a non-empty list of tokens separated by spaces.
pub open spec fn operation_at(s: Seq<char>, i: int) -> Option<(Seq<Seq<char>>, int)> {
    match token_at(s, i) {
        None => None,
        Some((t, j)) => {
            let (rest, k) = op_rest(s, j);
            Some((seq![t] + rest, k))
        },
    }
}

pub proof fn lemma_op_rest_bounds(s: Seq<char>, i: int)
    requires
        0 <= i <= s.len(),
    ensures
        i <= op_rest(s, i).1 <= s.len(),
    decreases s.len() - i,
{
    lemma_space_end_bounds(s, i);
    let j = space_end(s, i);
    if j > i {
        lemma_token_at_bounds(s, j);
        match token_at(s, j) {
            None => {},
            Some((t, k)) => {
                lemma_op_rest_bounds(s, k);
            },
        }
    }
}

pub proof fn lemma_operation_at_bounds(s: Seq<char>, i: int)
    requires
        0 <= i <= s.len(),
    ensures
        operation_at(s, i) is Some ==> i < (operation_at(s, i)->0).1 <= s.len(),
{
    lemma_token_at_bounds(s, i);
    match token_at(s, i) {
        None => {},
        Some((t, j)) => {
            lemma_op_rest_bounds(s, j);
        },
    }
}

/// End of a run of zero or more semicolons, each optionally surrounded by
/// spaces. The spaces after the last consumed semicolon are consumed too; a
/// run of spaces not followed by a semicolon is left unconsumed.
pub open spec fn semis_end(s: Seq<char>, i: int) -> int
    decreases s.len() - i,
        when 0 <= i <= s.len()
        via semis_end_decreases
{
    let j = space_end(s, i);
    if j < s.len() && s[j] == ';' {
        semis_end(s, space_end(s, j + 1))
    } else {
        i
    }
}

#[via_fn]
proof fn semis_end_decreases(s: Seq<char>, i: int) {
    lemma_space_end_bounds(s, i);
    let j = space_end(s, i);
    if j < s.len() && s[j] == ';' {
        lemma_space_end_bounds(s, j + 1);
    }
}

pub proof fn lemma_semis_end_bounds(s: Seq<char>, i: int)
    requires
        0 <= i <= s.len(),
    ensures
        i <= semis_end(s, i) <= s.len(),
    decreases s.len() - i,
{
    lemma_space_end_bounds(s, i);
    let j = space_end(s, i);
    if j < s.len() && s[j] == ';' {
        lemma_space_end_bounds(s, j + 1);
        lemma_semis_end_bounds(s, space_end(s, j + 1));
    }
}

/// The operations after the first one: zero or more repetitions of
/// one-or-more semicolons followed by an operation. Separators not followed
/// by an operation are left unconsumed.
pub open spec fn ops_rest(s: Seq<char>, i: int) -> (Seq<Seq<Seq<char>>>, int)
    decreases s.len() - i,
        when 0 <= i <= s.len()
        via ops_rest_decreases
{
    let j = space_end(s, i);
    if j < s.len() && s[j] == ';' {
        let k = semis_end(s, i);
        match operation_at(s, k) {
            None => (Seq::empty(), i),
            Some((op, m)) => {
                let (rest, r) = ops_rest(s, m);
                (seq![op] + rest, r)
            },
        }
    } else {
        (Seq::empty(), i)
    }
}

#[via_fn]
proof fn ops_rest_decreases(s: Seq<char>, i: int) {
    lemma_space_end_bounds(s, i);
    let j = space_end(s, i);
    if j < s.len() && s[j] == ';' {
        lemma_semis_end_strict(s, i);
        lemma_operation_at_bounds(s, semis_end(s, i));
    }
}

/// When a semicolon is ahead, `semis_end` consumes it: the result lands
/// strictly past the semicolon's position.
pub proof fn lemma_semis_end_strict(s: Seq<char>, i: int)
    requires
        0 <= i <= s.len(),
        space_end(s, i) < s.len(),
        s[space_end(s, i)] == ';',
    ensures
        space_end(s, i) < semis_end(s, i) <= s.len(),
{
    let j = space_end(s, i);
    lemma_space_end_bounds(s, i);
    lemma_space_end_bounds(s, j + 1);
    lemma_semis_end_bounds(s, space_end(s, j + 1));
}

/// Zero or more operations separated by runs of semicolons.
pub open spec fn ops_at(s: Seq<char>, i: int) -> (Seq<Seq<Seq<char>>>, int) {
    match operation_at(s, i) {
        None => (Seq::empty(), i),
        Some((op, j)) => {
            let (rest, k) = ops_rest(s, j);
            (seq![op] + rest, k)
        },
    }
}

/// Every parsed operation is non-empty: its first element is the operation's
/// name.
pub proof fn lemma_ops_rest_nonempty(s: Seq<char>, i: int)
    requires
        0 <= i <= s.len(),
    ensures
        forall|k: int|
            0 <= k < ops_rest(s, i).0.len() ==> #[trigger] ops_rest(s, i).0[k].len() >= 1,
    decreases s.len() - i,
{
    lemma_space_end_bounds(s, i);
    let j = space_end(s, i);
    if j < s.len() && s[j] == ';' {
        lemma_semis_end_strict(s, i);
        let k = semis_end(s, i);
        lemma_operation_at_bounds(s, k);
        match operation_at(s, k) {
            None => {},
            Some((op, m)) => {
                lemma_ops_rest_nonempty(s, m);
                let (rest, r) = ops_rest(s, m);
                assert forall|x: int|
                    0 <= x < ops_rest(s, i).0.len() implies #[trigger] ops_rest(s, i).0[x].len()
                    >= 1 by {
                    if x > 0 {
                        assert(ops_rest(s, i).0[x] == rest[x - 1]);
                    }
                }
            },
        }
    }
}

/// Every operation in a parsed sequence is non-empty: its first element is
/// the operation's name.
pub proof fn lemma_ops_at_nonempty(s: Seq<char>, i: int)
    requires
        0 <= i <= s.len(),
    ensures
        forall|k: int| 0 <= k < ops_at(s, i).0.len() ==> #[trigger] ops_at(s, i).0[k].len() >= 1,
{
    lemma_operation_at_bounds(s, i);
    match operation_at(s, i) {
        None => {},
        Some((op, j)) => {
            lemma_ops_rest_nonempty(s, j);
            let (rest, r) = ops_rest(s, j);
            assert forall|x: int|
                0 <= x < ops_at(s, i).0.len() implies #[trigger] ops_at(s, i).0[x].len() >= 1 by {
                if x > 0 {
                    assert(ops_at(s, i).0[x] == rest[x - 1]);
                }
            }
        },
    }
}

/// A whole operation sequence: optional leading spaces, leading semicolon
/// runs, the semicolon-separated operations, trailing semicolon runs.
/// Returns the operations and the position where the grammar stopped
/// matching; it never fails.
pub open spec fn op_sequence_at(s: Seq<char>) -> (Seq<Seq<Seq<char>>>, int) {
    let a = space_end(s, 0);
    let b = semis_end(s, a);
    let (ops, c) = ops_at(s, b);
    (ops, semis_end(s, c))
}

/// What `tokenize_operation_sequence` returns: the operations, and the
/// unconsumed remainder of the input.
pub open spec fn spec_tokenize_operation_sequence(s: Seq<char>) -> (Seq<Seq<Seq<char>>>, Seq<char>) {
    let (ops, j) = op_sequence_at(s);
    (ops, s.subrange(j, s.len() as int))
}

/// What `tokenize_operation_description` returns: optional spaces, the
/// literal `--`, optional spaces, then a double-quoted body returned without
/// escape processing. Here the closing quote is mandatory and the body must
/// be non-empty; everything after the closing quote is discarded.
pub open spec fn spec_tokenize_operation_description(s: Seq<char>) -> Option<Seq<char>> {
    let i = space_end(s, 0);
    if i + 2 <= s.len() && s[i] == '-' && s[i + 1] == '-' {
        let j = space_end(s, i + 2);
        if j < s.len() && s[j] == '"' {
            let k = nonquote_end(s, j + 1);
            if k > j + 1 && k < s.len() {
                Some(s.subrange(j + 1, k))
            } else {
                None
            }
        } else {
            None
        }
    } else {
        None
    }
}

/// The specification-level image of one parsed key: its label and the three
/// modifier flags.
pub struct KeyView {
    pub key: Seq<char>,
    pub shift: bool,
    pub control: bool,
    pub meta: bool,
}

/// A plain key pressed on its own: the label is the key's lowercase mapping,
/// and an uppercase key sets the shift flag.
pub open spec fn regular_key_view(c: char) -> KeyView {
    KeyView { key: lowercase_of(c), shift: is_uppercase_char(c), control: false, meta: false }
}

/// A control-chord key `^X`: the label keeps the character's own case.
pub open spec fn control_key_view(c: char) -> KeyView {
    KeyView { key: seq![c], shift: false, control: true, meta: false }
}

/// A named key such as `<space>`: the label is the canonical lowercase name.
pub open spec fn named_key_view(name: Seq<char>) -> KeyView {
    KeyView { key: name, shift: false, control: false, meta: false }
}

/// ASCII-case-insensitive match of one input character against a character
/// of a (lowercase ASCII) key name.
pub open spec fn matches_nocase(c: char, n: char) -> bool {
    c == n || c as int == n as int - 32
}

/// Whether the input at `i` spells `name` (a lowercase ASCII key name),
/// ignoring ASCII case.
pub open spec fn name_matches_at(s: Seq<char>, i: int, name: Seq<char>) -> bool {
    &&& 0 <= i
    &&& i + name.len() <= s.len()
    &&& forall|k: int| 0 <= k < name.len() ==> #[trigger] matches_nocase(s[i + k], name[k])
}

/// The fixed named-key vocabulary, tried in order; yields the canonical
/// lowercase name and the position past it.
pub open spec fn named_at(s: Seq<char>, i: int) -> Option<(Seq<char>, int)> {
    if name_matches_at(s, i, "space"@) {
        Some(("space"@, i + "space"@.len()))
    } else if name_matches_at(s, i, "enter"@) {
        Some(("enter"@, i + "enter"@.len()))
    } else if name_matches_at(s, i, "up"@) {
        Some(("up"@, i + "up"@.len()))
    } else if name_matches_at(s, i, "down"@) {
        Some(("down"@, i + "down"@.len()))
    } else if name_matches_at(s, i, "left"@) {
        Some(("left"@, i + "left"@.len()))
    } else if name_matches_at(s, i, "right"@) {
        Some(("right"@, i + "right"@.len()))
    } else if name_matches_at(s, i, "esc"@) {
        Some(("esc"@, i + "esc"@.len()))
    } else if name_matches_at(s, i, "plus"@) {
        Some(("plus"@, i + "plus"@.len()))
    } else if name_matches_at(s, i, "minus"@) {
        Some(("minus"@, i + "minus"@.len()))
    } else if name_matches_at(s, i, "lt"@) {
        Some(("lt"@, i + "lt"@.len()))
    } else if name_matches_at(s, i, "gt"@) {
        Some(("gt"@, i + "gt"@.len()))
    } else {
        None
    }
}

/// A named key inside angle brackets, with no modifiers.
pub open spec fn named_tag_at(s: Seq<char>, i: int) -> Option<(KeyView, int)> {
    if i < s.len() && s[i] == '<' {
        match named_at(s, i + 1) {
            Some((name, j)) => if j < s.len() && s[j] == '>' {
                Some((named_key_view(name), j + 1))
            } else {
                None
            },
            None => None,
        }
    } else {
        None
    }
}

/// A modifier letter of the `<C-S-M-x>` syntax.
pub open spec fn is_mod_letter(c: char) -> bool {
    c == 'C' || c == 'S' || c == 'M'
}

/// A character that can stand for itself as a key: anything but the three
/// characters that open the other key forms.
pub open spec fn is_plain_key_char(c: char) -> bool {
    c != '<' && c != '>' && c != '^'
}

/// One or more modifier letters, each followed by `-`: yields which of
/// shift, control and meta appeared (duplicates and order are immaterial)
/// and the position past the last `-`.
pub open spec fn mods_at(s: Seq<char>, i: int) -> Option<(bool, bool, bool, int)>
    decreases s.len() - i,
{
    if 0 <= i && i + 1 < s.len() && is_mod_letter(s[i]) && s[i + 1] == '-' {
        let sh = s[i] == 'S';
        let ct = s[i] == 'C';
        let me = s[i] == 'M';
        match mods_at(s, i + 2) {
            Some((sh2, ct2, me2, j)) => Some((sh || sh2, ct || ct2, me || me2, j)),
            None => Some((sh, ct, me, i + 2)),
        }
    } else {
        None
    }
}

pub proof fn lemma_mods_at_bounds(s: Seq<char>, i: int)
    requires
        0 <= i <= s.len(),
    ensures
        mods_at(s, i) is Some ==> i + 2 <= (mods_at(s, i)->0).3 <= s.len(),
    decreases s.len() - i,
{
    if 0 <= i && i + 1 < s.len() && is_mod_letter(s[i]) && s[i + 1] == '-' {
        lemma_mods_at_bounds(s, i + 2);
    }
}

/// A modifier-combination key `<C-S-M-x>`: modifiers, then either a single
/// non-whitespace plain character or a named key, inside angle brackets.
pub open spec fn modifier_tag_at(s: Seq<char>, i: int) -> Option<(KeyView, int)> {
    if i < s.len() && s[i] == '<' {
        match mods_at(s, i + 1) {
            Some((sh, ct, me, j)) => if j + 1 < s.len() && is_plain_key_char(s[j])
                && !is_whitespace_char(s[j]) && s[j + 1] == '>' {
                Some((KeyView { key: seq![s[j]], shift: sh, control: ct, meta: me }, j + 2))
            } else {
                match named_at(s, j) {
                    Some((name, k)) => if k < s.len() && s[k] == '>' {
                        Some((KeyView { key: name, shift: sh, control: ct, meta: me }, k + 1))
                    } else {
                        None
                    },
                    None => None,
                }
            },
            None => None,
        }
    } else {
        None
    }
}

/// One key at `i`, trying the four forms in order: a plain character, a
/// control chord `^X` with alphabetic `X`, a named key in angle brackets, a
/// modifier combination in angle brackets.
pub open spec fn key_at(s: Seq<char>, i: int) -> Option<(KeyView, int)> {
    if 0 <= i && i < s.len() && is_plain_key_char(s[i]) {
        Some((regular_key_view(s[i]), i + 1))
    } else if 0 <= i && i + 1 < s.len() && s[i] == '^' && is_alphabetic_char(s[i + 1]) {
        Some((control_key_view(s[i + 1]), i + 2))
    } else {
        match named_tag_at(s, i) {
            Some(r) => Some(r),
            None => modifier_tag_at(s, i),
        }
    }
}

pub proof fn lemma_named_at_bounds(s: Seq<char>, i: int)
    ensures
        named_at(s, i) is Some ==> i < (named_at(s, i)->0).1 <= s.len(),
{
    reveal_strlit("space");
    reveal_strlit("enter");
    reveal_strlit("up");
    reveal_strlit("down");
    reveal_strlit("left");
    reveal_strlit("right");
    reveal_strlit("esc");
    reveal_strlit("plus");
    reveal_strlit("minus");
    reveal_strlit("lt");
    reveal_strlit("gt");
}

pub proof fn lemma_key_at_bounds(s: Seq<char>, i: int)
    requires
        0 <= i <= s.len(),
    ensures
        key_at(s, i) is Some ==> i < (key_at(s, i)->0).1 <= s.len(),
{
    lemma_named_at_bounds(s, i + 1);
    if i + 1 <= s.len() {
        lemma_mods_at_bounds(s, i + 1);
        if mods_at(s, i + 1) is Some {
            let j = (mods_at(s, i + 1)->0).3;
            lemma_named_at_bounds(s, j);
        }
    }
}

/// As many keys as parse, greedily, from `i`.
pub open spec fn keys_at(s: Seq<char>, i: int) -> (Seq<KeyView>, int)
    decreases s.len() - i,
        when 0 <= i <= s.len()
        via keys_at_decreases
{
    match key_at(s, i) {
        None => (Seq::empty(), i),
        Some((k, j)) => {
            let (rest, m) = keys_at(s, j);
            (seq![k] + rest, m)
        },
    }
}

#[via_fn]
proof fn keys_at_decreases(s: Seq<char>, i: int) {
    lemma_key_at_bounds(s, i);
}

/// What `tokenize_key_sequence` returns: at least one key, and the whole
/// input consumed.
pub open spec fn spec_tokenize_key_sequence(s: Seq<char>) -> Option<Seq<KeyView>> {
    let (ks, j) = keys_at(s, 0);
    if ks.len() >= 1 && j == s.len() {
        Some(ks)
    } else {
        None
    }
}

} // verus!

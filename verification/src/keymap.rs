//! The executable tokenizers. Each parser is verified to return exactly what
//! the specification functions in [`crate::grammar`] describe.
//!
//! A known sharp edge, kept deliberately: `tokenize_operation_sequence`
//! cannot fail, so a caller cannot tell a malformed binding apart from an
//! intentionally empty one — both come back as an empty sequence.

use crate::grammar::{
    escape_char, key_at, keys_at, lemma_semis_end_strict, lemma_token_at_bounds, matches_nocase,
    mods_at, name_matches_at, named_at, nonquote_end, op_rest, operation_at, ops_at, ops_rest,
    quoted_body, run_end, semis_end, space_end, spec_tokenize_key_sequence,
    spec_tokenize_operation_description, spec_tokenize_operation_sequence, token_at, unquoted_at,
    KeyView,
};
use crate::unicode::{
    char_is_alphabetic, char_is_uppercase, char_is_whitespace, char_lowercase, chars_to_string,
};
use vstd::prelude::*;
use vstd::string::StrSliceExecFns;
use vstd::string::StringExecFns;

verus! {

/// The characters of `s`, as an indexable vector.
fn chars_of(s: &str) -> (v: Vec<char>)
    ensures
        v@ == s@,
{
    let n = s.unicode_len();
    let mut v: Vec<char> = Vec::new();
    let mut i: usize = 0;
    while i < n
        invariant
            i <= n,
            n == s@.len(),
            v@ == s@.subrange(0, i as int),
        decreases n - i,
    {
        let c = s.get_char(i);
        proof {
            assert(v@.push(s@[i as int]) =~= s@.subrange(0, i + 1));
        }
        v.push(c);
        i = i + 1;
    }
    proof {
        assert(s@.subrange(0, n as int) =~= s@);
    }
    v
}

/// The characters `s[from..to]`, copied out.
fn subvec(s: &Vec<char>, from: usize, to: usize) -> (r: Vec<char>)
    requires
        from <= to <= s.len(),
    ensures
        r@ == s@.subrange(from as int, to as int),
{
    let mut v: Vec<char> = Vec::new();
    let mut i: usize = from;
    proof {
        assert(Seq::<char>::empty() =~= s@.subrange(from as int, from as int));
    }
    while i < to
        invariant
            from <= i <= to <= s.len(),
            v@ == s@.subrange(from as int, i as int),
        decreases to - i,
    {
        proof {
            assert(v@.push(s@[i as int]) =~= s@.subrange(from as int, i + 1));
        }
        v.push(s[i]);
        i = i + 1;
    }
    v
}

fn space_end_x(s: &Vec<char>, from: usize) -> (r: usize)
    requires
        from <= s.len(),
    ensures
        r as int == space_end(s@, from as int),
        from <= r <= s.len(),
{
    let mut i: usize = from;
    while i < s.len() && (s[i] == ' ' || s[i] == '\t')
        invariant
            from <= i <= s.len(),
            space_end(s@, from as int) == space_end(s@, i as int),
        decreases s@.len() - i,
    {
        i = i + 1;
    }
    i
}

fn run_end_x(s: &Vec<char>, from: usize) -> (r: usize)
    requires
        from <= s.len(),
    ensures
        r as int == run_end(s@, from as int),
        from <= r <= s.len(),
{
    let mut i: usize = from;
    while i < s.len() && !(s[i] == ' ' || s[i] == ';')
        invariant
            from <= i <= s.len(),
            run_end(s@, from as int) == run_end(s@, i as int),
        decreases s@.len() - i,
    {
        i = i + 1;
    }
    i
}

fn nonquote_end_x(s: &Vec<char>, from: usize) -> (r: usize)
    requires
        from <= s.len(),
    ensures
        r as int == nonquote_end(s@, from as int),
        from <= r <= s.len(),
{
    let mut i: usize = from;
    while i < s.len() && s[i] != '"'
        invariant
            from <= i <= s.len(),
            nonquote_end(s@, from as int) == nonquote_end(s@, i as int),
        decreases s@.len() - i,
    {
        i = i + 1;
    }
    i
}

fn escape_char_x(c: char) -> (r: char)
    ensures
        r == escape_char(c),
{
    if c == 'r' {
        '\r'
    } else if c == 'n' {
        '\n'
    } else if c == 't' {
        '\t'
    } else {
        c
    }
}

/// How an executable token result must relate to its specification: same
/// failure, or same characters and same end position.
spec fn token_result_matches(r: Option<(String, usize)>, o: Option<(Seq<char>, int)>) -> bool {
    match r {
        Some(p) => o is Some && p.0@ == (o->0).0 && p.1 as int == (o->0).1,
        None => o is None,
    }
}

fn quoted_body_x(s: &Vec<char>, start: usize) -> (r: Option<(Vec<char>, usize)>)
    requires
        start <= s.len(),
    ensures
        r is Some <==> quoted_body(s@, start as int) is Some,
        r is Some ==> (r->0).0@ == (quoted_body(s@, start as int)->0).0,
        r is Some ==> (r->0).1 as int == (quoted_body(s@, start as int)->0).1,
{
    let mut acc: Vec<char> = Vec::new();
    let mut i: usize = start;
    loop
        invariant
            start <= i <= s.len(),
            quoted_body(s@, start as int) is Some <==> quoted_body(s@, i as int) is Some,
            quoted_body(s@, start as int) is Some ==> (quoted_body(s@, start as int)->0).0 == acc@ + (
            quoted_body(s@, i as int)->0).0,
            quoted_body(s@, start as int) is Some ==> (quoted_body(s@, start as int)->0).1 == (quoted_body(
                s@,
                i as int,
            )->0).1,
        decreases s@.len() - i,
    {
        if i >= s.len() {
            proof {
                assert(acc@ + Seq::<char>::empty() =~= acc@);
            }
            return Some((acc, i));
        }
        let c = s[i];
        if c == '"' {
            proof {
                assert(acc@ + Seq::<char>::empty() =~= acc@);
            }
            return Some((acc, i + 1));
        }
        if c == '\\' {
            if i + 1 < s.len() {
                let e = escape_char_x(s[i + 1]);
                proof {
                    if quoted_body(s@, i + 2) is Some {
                        assert(acc@ + (seq![e] + (quoted_body(s@, i + 2)->0).0) =~= acc@.push(e) + (
                        quoted_body(s@, i + 2)->0).0);
                    }
                }
                acc.push(e);
                i = i + 2;
            } else {
                return None;
            }
        } else {
            proof {
                if quoted_body(s@, i + 1) is Some {
                    assert(acc@ + (seq![c] + (quoted_body(s@, i + 1)->0).0) =~= acc@.push(c) + (
                    quoted_body(s@, i + 1)->0).0);
                }
            }
            acc.push(c);
            i = i + 1;
        }
    }
}

fn unquoted_x(s: &Vec<char>, i: usize) -> (r: Option<(String, usize)>)
    requires
        i <= s.len(),
    ensures
        token_result_matches(r, unquoted_at(s@, i as int)),
{
    let j = run_end_x(s, i);
    if j == i {
        None
    } else if j - i == 2 && s[i] == '-' && s[i + 1] == '-' {
        None
    } else {
        let v = subvec(s, i, j);
        Some((chars_to_string(&v), j))
    }
}

fn token_x(s: &Vec<char>, i: usize) -> (r: Option<(String, usize)>)
    requires
        i <= s.len(),
    ensures
        token_result_matches(r, token_at(s@, i as int)),
{
    if i < s.len() && s[i] == '"' && !(i + 1 < s.len() && s[i + 1] == '"') {
        match quoted_body_x(s, i + 1) {
            Some((v, j)) => Some((chars_to_string(&v), j)),
            None => unquoted_x(s, i),
        }
    } else {
        unquoted_x(s, i)
    }
}

/// The views of a vector of strings: what its tokens spell.
pub open spec fn views_of_strings(v: Seq<String>) -> Seq<Seq<char>> {
    Seq::new(v.len(), |i: int| v[i]@)
}

/// The views of a vector of operations: what each operation's tokens spell.
pub open spec fn views_of_ops(v: Seq<Vec<String>>) -> Seq<Seq<Seq<char>>> {
    Seq::new(v.len(), |i: int| views_of_strings(v[i]@))
}

fn op_rest_x(s: &Vec<char>, from: usize) -> (r: (Vec<String>, usize))
    requires
        from <= s.len(),
    ensures
        views_of_strings(r.0@) == op_rest(s@, from as int).0,
        r.1 as int == op_rest(s@, from as int).1,
        from <= r.1 <= s.len(),
{
    let mut acc: Vec<String> = Vec::new();
    let mut i: usize = from;
    proof {
        assert(views_of_strings(acc@) =~= Seq::<Seq<char>>::empty());
    }
    loop
        invariant
            from <= i <= s.len(),
            op_rest(s@, from as int).0 == views_of_strings(acc@) + op_rest(s@, i as int).0,
            op_rest(s@, from as int).1 == op_rest(s@, i as int).1,
        decreases s@.len() - i,
    {
        let j = space_end_x(s, i);
        if j > i {
            match token_x(s, j) {
                Some((t, k)) => {
                    proof {
                        lemma_token_at_bounds(s@, j as int);
                        assert(views_of_strings(acc@.push(t)) =~= views_of_strings(acc@).push(t@));
                        assert(views_of_strings(acc@) + (seq![t@] + op_rest(s@, k as int).0)
                            =~= views_of_strings(acc@).push(t@) + op_rest(s@, k as int).0);
                    }
                    acc.push(t);
                    i = k;
                },
                None => {
                    proof {
                        assert(views_of_strings(acc@) + Seq::<Seq<char>>::empty() =~= views_of_strings(
                        acc@));
                    }
                    return (acc, i);
                },
            }
        } else {
            proof {
                assert(views_of_strings(acc@) + Seq::<Seq<char>>::empty() =~= views_of_strings(
                acc@));
            }
            return (acc, i);
        }
    }
}

fn operation_x(s: &Vec<char>, i: usize) -> (r: Option<(Vec<String>, usize)>)
    requires
        i <= s.len(),
    ensures
        r is Some <==> operation_at(s@, i as int) is Some,
        r is Some ==> views_of_strings((r->0).0@) == (operation_at(s@, i as int)->0).0,
        r is Some ==> (r->0).1 as int == (operation_at(s@, i as int)->0).1,
        r is Some ==> i < (r->0).1 <= s.len(),
{
    match token_x(s, i) {
        None => None,
        Some((t, j)) => {
            proof {
                lemma_token_at_bounds(s@, i as int);
            }
            let (mut rest, k) = op_rest_x(s, j);
            let mut v: Vec<String> = Vec::new();
            v.push(t);
            v.append(&mut rest);
            proof {
                assert(views_of_strings(v@) =~= seq![t@] + op_rest(s@, j as int).0);
            }
            Some((v, k))
        },
    }
}

fn semis_end_x(s: &Vec<char>, from: usize) -> (r: usize)
    requires
        from <= s.len(),
    ensures
        r as int == semis_end(s@, from as int),
        from <= r <= s.len(),
{
    let mut i: usize = from;
    loop
        invariant
            from <= i <= s.len(),
            semis_end(s@, from as int) == semis_end(s@, i as int),
        decreases s@.len() - i,
    {
        let j = space_end_x(s, i);
        if j < s.len() && s[j] == ';' {
            let k = space_end_x(s, j + 1);
            i = k;
        } else {
            return i;
        }
    }
}

fn ops_x(s: &Vec<char>, from: usize) -> (r: (Vec<Vec<String>>, usize))
    requires
        from <= s.len(),
    ensures
        views_of_ops(r.0@) == ops_at(s@, from as int).0,
        r.1 as int == ops_at(s@, from as int).1,
        from <= r.1 <= s.len(),
{
    let mut acc: Vec<Vec<String>> = Vec::new();
    let mut cur: usize = from;
    match operation_x(s, from) {
        None => {
            proof {
                assert(views_of_ops(acc@) =~= Seq::<Seq<Seq<char>>>::empty());
            }
            return (acc, from);
        },
        Some((op, j)) => {
            proof {
                assert(views_of_ops(acc@.push(op)) =~= seq![views_of_strings(op@)]);
            }
            acc.push(op);
            cur = j;
        },
    }
    loop
        invariant
            from <= cur <= s.len(),
            ops_at(s@, from as int).0 == views_of_ops(acc@) + ops_rest(s@, cur as int).0,
            ops_at(s@, from as int).1 == ops_rest(s@, cur as int).1,
        decreases s@.len() - cur,
    {
        let j = space_end_x(s, cur);
        if j < s.len() && s[j] == ';' {
            let k = semis_end_x(s, cur);
            proof {
                lemma_semis_end_strict(s@, cur as int);
            }
            match operation_x(s, k) {
                Some((op, m)) => {
                    proof {
                        assert(views_of_ops(acc@.push(op)) =~= views_of_ops(acc@).push(
                        views_of_strings(op@)));
                        assert(views_of_ops(acc@) + (seq![views_of_strings(op@)] + ops_rest(
                            s@,
                            m as int,
                        ).0) =~= views_of_ops(acc@).push(views_of_strings(op@)) + ops_rest(
                            s@,
                            m as int,
                        ).0);
                    }
                    acc.push(op);
                    cur = m;
                },
                None => {
                    proof {
                        assert(views_of_ops(acc@) + Seq::<Seq<Seq<char>>>::empty() =~= views_of_ops(
                        acc@));
                    }
                    return (acc, cur);
                },
            }
        } else {
            proof {
                assert(views_of_ops(acc@) + Seq::<Seq<Seq<char>>>::empty() =~= views_of_ops(acc@));
            }
            return (acc, cur);
        }
    }
}

/// Split a semicolon-separated list of operations. Each operation is a
/// non-empty vector whose first element names the operation and whose other
/// elements are its arguments; the second component is the unconsumed
/// remainder of the input, from the position where the grammar stopped
/// matching (for example at an unquoted `--` marker).
///
/// Tokens can be double-quoted; such tokens can contain spaces and escape
/// sequences (`\n`, `\r`, `\t`, `\"`, `\\`; any other escaped character
/// stands for itself). A missing closing quote is supplied implicitly at the
/// end of the input.
///
/// The result is never `None`: degenerate input and unparseable input both
/// come back as an empty sequence, which callers cannot tell apart.
pub fn tokenize_operation_sequence(input: &str) -> (r: Option<(Vec<Vec<String>>, String)>)
    ensures
        r is Some,
        views_of_ops((r->0).0@) == spec_tokenize_operation_sequence(input@).0,
        (r->0).1@ == spec_tokenize_operation_sequence(input@).1,
        forall|k: int| 0 <= k < (r->0).0@.len() ==> #[trigger] (r->0).0@[k]@.len() >= 1,
{
    let s = chars_of(input);
    let a = space_end_x(&s, 0);
    let b = semis_end_x(&s, a);
    let (ops, c) = ops_x(&s, b);
    let k = semis_end_x(&s, c);
    let rest = input.substring_char(k, s.len());
    proof {
        crate::grammar::lemma_ops_at_nonempty(s@, b as int);
        assert forall|x: int| 0 <= x < ops@.len() implies #[trigger] ops@[x]@.len() >= 1 by {
            assert(views_of_ops(ops@)[x].len() >= 1);
        }
    }
    Some((ops, rest.to_owned()))
}

/// Extract the human-readable description trailing a `--` marker: optional
/// spaces, the literal `--`, optional spaces, then a double-quoted body,
/// returned without escape processing. Unlike in operation tokens, the
/// closing quote is mandatory here, and the body must be non-empty; whatever
/// follows the closing quote is discarded.
pub fn tokenize_operation_description<'a>(input: &'a str) -> (r: Option<&'a str>)
    ensures
        r is Some <==> spec_tokenize_operation_description(input@) is Some,
        r is Some ==> (r->0)@ == spec_tokenize_operation_description(input@)->0,
        r is Some ==> (r->0)@.len() >= 1,
{
    let s = chars_of(input);
    let i = space_end_x(&s, 0);
    if i < s.len() && s[i] == '-' && i + 1 < s.len() && s[i + 1] == '-' {
        let j = space_end_x(&s, i + 2);
        if j < s.len() && s[j] == '"' {
            let k = nonquote_end_x(&s, j + 1);
            if k > j + 1 && k < s.len() {
                Some(input.substring_char(j + 1, k))
            } else {
                None
            }
        } else {
            None
        }
    } else {
        None
    }
}

/// One parsed key: its label (never empty) and the three modifier flags.
#[derive(Debug)]
pub struct Key {
    pub key: String,
    pub shift: bool,
    pub control: bool,
    pub meta: bool,
}

impl View for Key {
    type V = KeyView;

    open spec fn view(&self) -> KeyView {
        KeyView { key: self.key@, shift: self.shift, control: self.control, meta: self.meta }
    }
}

impl Key {
    /// A plain key pressed on its own: the label is the key's lowercase
    /// mapping, and an uppercase key sets the shift flag.
    pub fn regular_key(key: char) -> (r: Key)
        ensures
            r@ == crate::grammar::regular_key_view(key),
            r.key@.len() >= 1,
    {
        Key { key: char_lowercase(key), shift: char_is_uppercase(key), control: false, meta: false }
    }

    /// A control-chord key `^X`: the label keeps the character's own case.
    pub fn control_key(key: char) -> (r: Key)
        ensures
            r@ == crate::grammar::control_key_view(key),
    {
        Key { key: char_string(key), shift: false, control: true, meta: false }
    }

    /// A named key such as `<space>`, with no modifiers.
    pub fn named_key(key: String) -> (r: Key)
        ensures
            r@ == crate::grammar::named_key_view(key@),
    {
        Key { key, shift: false, control: false, meta: false }
    }
}

/// A one-character string.
fn char_string(c: char) -> (r: String)
    ensures
        r@ == seq![c],
{
    let mut v: Vec<char> = Vec::new();
    v.push(c);
    proof {
        assert(v@ =~= seq![c]);
    }
    chars_to_string(&v)
}

/// One character of the ASCII-case-insensitive comparison: `c` is `nc`
/// itself or, when `nc` is a lowercase ASCII letter, its uppercase form.
fn match_nocase_x(c: char, nc: char) -> (r: bool)
    ensures
        r == matches_nocase(c, nc),
{
    let cu = c as u32;
    let ncu = nc as u32;
    cu == ncu || (ncu >= 32 && cu == ncu - 32)
}

/// Whether `s[i..]` spells `name` — a lowercase-ASCII key name — ignoring
/// ASCII case.
fn has_name_at(s: &Vec<char>, i: usize, name: &str) -> (r: bool)
    requires
        i <= s.len(),
    ensures
        r == name_matches_at(s@, i as int, name@),
{
    let n = name.unicode_len();
    if n > s.len() - i {
        return false;
    }
    let mut k: usize = 0;
    while k < n
        invariant
            k <= n,
            i + n <= s.len(),
            n == name@.len(),
            forall|x: int| 0 <= x < k ==> #[trigger] matches_nocase(s@[i + x], name@[x]),
        decreases n - k,
    {
        let c = s[i + k];
        let nc = name.get_char(k);
        if !match_nocase_x(c, nc) {
            return false;
        }
        k = k + 1;
    }
    true
}

/// The named-key vocabulary, tried in the fixed order; yields the canonical
/// lowercase name and the position past it.
fn named_x(s: &Vec<char>, i: usize) -> (r: Option<(String, usize)>)
    requires
        i <= s.len(),
    ensures
        token_result_matches(r, named_at(s@, i as int)),
{
    proof {
        reveal_strlit("space");
        reveal_strlit("enter");
        reveal_strlit("up");
        reveal_strlit("down");
        reveal_strlit("left");
        reveal_strlit("right");
        reveal_strlit("esc");
        reveal_strlit("plus");
        reveal_strlit("minus");
        reveal_strlit("lt");
        reveal_strlit("gt");
    }
    if has_name_at(s, i, "space") {
        Some((String::from_str("space"), i + 5))
    } else if has_name_at(s, i, "enter") {
        Some((String::from_str("enter"), i + 5))
    } else if has_name_at(s, i, "up") {
        Some((String::from_str("up"), i + 2))
    } else if has_name_at(s, i, "down") {
        Some((String::from_str("down"), i + 4))
    } else if has_name_at(s, i, "left") {
        Some((String::from_str("left"), i + 4))
    } else if has_name_at(s, i, "right") {
        Some((String::from_str("right"), i + 5))
    } else if has_name_at(s, i, "esc") {
        Some((String::from_str("esc"), i + 3))
    } else if has_name_at(s, i, "plus") {
        Some((String::from_str("plus"), i + 4))
    } else if has_name_at(s, i, "minus") {
        Some((String::from_str("minus"), i + 5))
    } else if has_name_at(s, i, "lt") {
        Some((String::from_str("lt"), i + 2))
    } else if has_name_at(s, i, "gt") {
        Some((String::from_str("gt"), i + 2))
    } else {
        None
    }
}

/// One or more modifier letters of `C`, `S`, `M`, each followed by `-`.
fn mods_x(s: &Vec<char>, i: usize) -> (r: Option<(bool, bool, bool, usize)>)
    requires
        i <= s.len(),
    ensures
        r is Some <==> mods_at(s@, i as int) is Some,
        r is Some ==> (r->0).0 == (mods_at(s@, i as int)->0).0,
        r is Some ==> (r->0).1 == (mods_at(s@, i as int)->0).1,
        r is Some ==> (r->0).2 == (mods_at(s@, i as int)->0).2,
        r is Some ==> (r->0).3 as int == (mods_at(s@, i as int)->0).3,
        r is Some ==> i + 2 <= (r->0).3 <= s.len(),
    decreases s@.len() - i,
{
    if i < s.len() && i + 1 < s.len() && (s[i] == 'C' || s[i] == 'S' || s[i] == 'M') && s[i + 1]
        == '-' {
        let sh = s[i] == 'S';
        let ct = s[i] == 'C';
        let me = s[i] == 'M';
        match mods_x(s, i + 2) {
            Some((sh2, ct2, me2, j)) => Some((sh || sh2, ct || ct2, me || me2, j)),
            None => Some((sh, ct, me, i + 2)),
        }
    } else {
        None
    }
}

/// How an executable key result must relate to its specification.
spec fn key_result_matches(r: Option<(Key, usize)>, o: Option<(KeyView, int)>) -> bool {
    match r {
        Some(p) => o is Some && p.0@ == (o->0).0 && p.1 as int == (o->0).1,
        None => o is None,
    }
}

/// One key, trying the four forms in order: a plain character, a control
/// chord `^X`, a named key in angle brackets, a modifier combination in
/// angle brackets.
fn key_x(s: &Vec<char>, i: usize) -> (r: Option<(Key, usize)>)
    requires
        i <= s.len(),
    ensures
        key_result_matches(r, key_at(s@, i as int)),
        r is Some ==> (r->0).0.key@.len() >= 1,
{
    proof {
        reveal_strlit("space");
        reveal_strlit("enter");
        reveal_strlit("up");
        reveal_strlit("down");
        reveal_strlit("left");
        reveal_strlit("right");
        reveal_strlit("esc");
        reveal_strlit("plus");
        reveal_strlit("minus");
        reveal_strlit("lt");
        reveal_strlit("gt");
    }
    if i >= s.len() {
        return None;
    }
    let c = s[i];
    if c != '<' && c != '>' && c != '^' {
        return Some((Key::regular_key(c), i + 1));
    }
    if c == '^' {
        if i + 1 < s.len() && char_is_alphabetic(s[i + 1]) {
            return Some((Key::control_key(s[i + 1]), i + 2));
        }
        return None;
    }
    if c == '>' {
        return None;
    }
    match named_x(s, i + 1) {
        Some((name, j)) => {
            if j < s.len() && s[j] == '>' {
                return Some((Key::named_key(name), j + 1));
            }
        },
        None => {},
    }
    match mods_x(s, i + 1) {
        Some((sh, ct, me, j)) => {
            if j < s.len() && j + 1 < s.len() && s[j + 1] == '>' {
                let c2 = s[j];
                if c2 != '<' && c2 != '>' && c2 != '^' && !char_is_whitespace(c2) {
                    let k = Key { key: char_string(c2), shift: sh, control: ct, meta: me };
                    return Some((k, j + 2));
                }
            }
            match named_x(s, j) {
                Some((name, k)) => {
                    if k < s.len() && s[k] == '>' {
                        return Some((Key { key: name, shift: sh, control: ct, meta: me }, k + 1));
                    }
                    return None;
                },
                None => {
                    return None;
                },
            }
        },
        None => {
            return None;
        },
    }
}

/// The views of a vector of keys.
pub open spec fn views_of_keys(v: Seq<Key>) -> Seq<KeyView> {
    Seq::new(v.len(), |i: int| v[i]@)
}

/// Parse a whole key sequence: one or more keys, with the whole input
/// consumed. Fails on empty input and on any unparseable remainder.
pub fn tokenize_key_sequence(input: &str) -> (r: Option<Vec<Key>>)
    ensures
        r is Some <==> spec_tokenize_key_sequence(input@) is Some,
        r is Some ==> views_of_keys((r->0)@) == spec_tokenize_key_sequence(input@)->0,
        r is Some ==> (r->0)@.len() >= 1,
        r is Some ==> forall|k: int|
            0 <= k < (r->0)@.len() ==> #[trigger] (r->0)@[k].key@.len() >= 1,
{
    let s = chars_of(input);
    let mut acc: Vec<Key> = Vec::new();
    let mut i: usize = 0;
    proof {
        assert(views_of_keys(acc@) =~= Seq::<KeyView>::empty());
    }
    loop
        invariant
            i <= s.len(),
            s@ == input@,
            acc@.len() == views_of_keys(acc@).len(),
            keys_at(s@, 0).0 == views_of_keys(acc@) + keys_at(s@, i as int).0,
            keys_at(s@, 0).1 == keys_at(s@, i as int).1,
            forall|k: int| 0 <= k < acc@.len() ==> #[trigger] acc@[k].key@.len() >= 1,
        ensures
            i <= s.len(),
            s@ == input@,
            acc@.len() == views_of_keys(acc@).len(),
            keys_at(s@, 0).0 == views_of_keys(acc@),
            keys_at(s@, 0).1 == i as int,
            forall|k: int| 0 <= k < acc@.len() ==> #[trigger] acc@[k].key@.len() >= 1,
        decreases s@.len() - i,
    {
        match key_x(&s, i) {
            Some((k, j)) => {
                proof {
                    crate::grammar::lemma_key_at_bounds(s@, i as int);
                    assert(views_of_keys(acc@.push(k)) =~= views_of_keys(acc@).push(k@));
                    assert(views_of_keys(acc@) + (seq![k@] + keys_at(s@, j as int).0)
                        =~= views_of_keys(acc@).push(k@) + keys_at(s@, j as int).0);
                }
                let ghost prev = acc@;
                acc.push(k);
                proof {
                    assert forall|x: int|
                        0 <= x < acc@.len() implies #[trigger] acc@[x].key@.len() >= 1 by {
                        if x < prev.len() {
                            assert(acc@[x] == prev[x]);
                            assert(prev[x].key@.len() >= 1);
                        } else {
                            assert(acc@[x] == k);
                        }
                    }
                }
                i = j;
            },
            None => {
                proof {
                    assert(views_of_keys(acc@) + Seq::<KeyView>::empty() =~= views_of_keys(acc@));
                }
                break;
            },
        }
    }
    if acc.len() >= 1 && i == s.len() {
        Some(acc)
    } else {
        None
    }
}

} // verus!

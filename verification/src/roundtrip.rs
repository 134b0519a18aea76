//! The re-serialization round trip: joining the operations that
//! `tokenize_operation_sequence` returns with `" ; "` and parsing the result
//! again yields the same operations and leaves nothing over.
//!
//! The law is stated for operations whose tokens can be written back without
//! quoting: a token that contains a space or a semicolon, begins with a
//! double quote or a tab, or is exactly the reserved marker `--` would need
//! to be re-quoted to survive a round trip, and such tokens are excluded by
//! [`simple_operations`].

use crate::grammar::{
    is_space, is_token_break, op_rest, operation_at, ops_rest, run_end, semis_end, space_end,
    spec_tokenize_operation_sequence, token_at,
};
use vstd::prelude::*;

verus! {

/// A token that re-parses as itself when written back unquoted: non-empty,
/// free of spaces and semicolons, not starting with a double quote or a tab,
/// and not the reserved marker `--`.
pub open spec fn simple_token(t: Seq<char>) -> bool {
    &&& t.len() >= 1
    &&& (forall|k: int| 0 <= k < t.len() ==> !is_token_break(#[trigger] t[k]))
    &&& t[0] != '"'
    &&& t[0] != '\t'
    &&& !(t.len() == 2 && t[0] == '-' && t[1] == '-')
}

/// A non-empty operation all of whose tokens are simple.
pub open spec fn simple_operation(op: Seq<Seq<char>>) -> bool {
    &&& op.len() >= 1
    &&& (forall|k: int| 0 <= k < op.len() ==> simple_token(#[trigger] op[k]))
}

/// Operations that can be re-serialized without quoting.
pub open spec fn simple_operations(ops: Seq<Seq<Seq<char>>>) -> bool {
    forall|k: int| 0 <= k < ops.len() ==> simple_operation(#[trigger] ops[k])
}

/// The writing-back of an operation's tokens after its first one: a single
/// space before each.
pub open spec fn rest_tokens_text(toks: Seq<Seq<char>>) -> Seq<char>
    decreases toks.len(),
{
    if toks.len() == 0 {
        Seq::empty()
    } else {
        seq![' '] + toks[0] + rest_tokens_text(toks.drop_first())
    }
}

/// An operation written back: its tokens joined with single spaces.
pub open spec fn join_tokens(op: Seq<Seq<char>>) -> Seq<char> {
    if op.len() == 0 {
        Seq::empty()
    } else {
        op[0] + rest_tokens_text(op.drop_first())
    }
}

/// The writing-back of the operations after the first one: `" ; "` before
/// each.
pub open spec fn rest_operations_text(ops: Seq<Seq<Seq<char>>>) -> Seq<char>
    decreases ops.len(),
{
    if ops.len() == 0 {
        Seq::empty()
    } else {
        seq![' ', ';', ' '] + join_tokens(ops[0]) + rest_operations_text(ops.drop_first())
    }
}

/// An operation sequence written back: the operations joined with `" ; "`.
pub open spec fn join_operations(ops: Seq<Seq<Seq<char>>>) -> Seq<char> {
    if ops.len() == 0 {
        Seq::empty()
    } else {
        join_tokens(ops[0]) + rest_operations_text(ops.drop_first())
    }
}

/// A run of spaces stops right away at a non-space (or at the end).
proof fn lemma_space_stop(s: Seq<char>, i: int)
    requires
        0 <= i <= s.len(),
        i == s.len() || !is_space(s[i]),
    ensures
        space_end(s, i) == i,
{
}

/// The maximal unquoted run over known characters: all of `[i, j)` can be in
/// a token, and `j` is the end of input or a token break.
proof fn lemma_run_exact(s: Seq<char>, i: int, j: int)
    requires
        0 <= i <= j <= s.len(),
        forall|k: int| i <= k < j ==> !is_token_break(#[trigger] s[k]),
        j == s.len() || is_token_break(s[j]),
    ensures
        run_end(s, i) == j,
    decreases j - i,
{
    if i < j {
        lemma_run_exact(s, i + 1, j);
    }
}

/// Splitting a known stretch of the input: when `s[i..]` starts with the
/// concatenation `a + b`, it starts with `a`, and `b` follows.
proof fn lemma_layout_split(s: Seq<char>, i: int, a: Seq<char>, b: Seq<char>)
    requires
        0 <= i,
        i + a.len() + b.len() <= s.len(),
        s.subrange(i, i + a.len() + b.len()) == a + b,
    ensures
        s.subrange(i, i + a.len()) == a,
        s.subrange(i + a.len(), i + a.len() + b.len()) == b,
{
    assert forall|k: int| 0 <= k < a.len() implies s.subrange(i, i + a.len())[k] == a[k] by {
        assert(s.subrange(i, i + a.len())[k] == s[i + k]);
        assert(s.subrange(i, i + a.len() + b.len())[k] == s[i + k]);
        assert((a + b)[k] == a[k]);
    }
    assert(s.subrange(i, i + a.len()) =~= a);
    assert forall|k: int| 0 <= k < b.len() implies s.subrange(
        i + a.len(),
        i + a.len() + b.len(),
    )[k] == b[k] by {
        assert(s.subrange(i + a.len(), i + a.len() + b.len())[k] == s[i + a.len() + k]);
        assert(s.subrange(i, i + a.len() + b.len())[a.len() + k] == s[i + a.len() + k]);
        assert((a + b)[a.len() + k] == b[k]);
    }
    assert(s.subrange(i + a.len(), i + a.len() + b.len()) =~= b);
}

/// A simple token laid out at `i` and followed by a token break (or the end
/// of input) parses as exactly itself.
proof fn lemma_token_exact(s: Seq<char>, i: int, t: Seq<char>)
    requires
        0 <= i,
        i + t.len() <= s.len(),
        s.subrange(i, i + t.len()) == t,
        simple_token(t),
        i + t.len() == s.len() || is_token_break(s[i + t.len()]),
    ensures
        token_at(s, i) == Some((t, i + t.len())),
{
    assert forall|k: int| i <= k < i + t.len() implies !is_token_break(s[k]) by {
        assert(s.subrange(i, i + t.len())[k - i] == s[k]);
        assert(t[k - i] == s[k]);
    }
    assert(s[i] == t[0]) by {
        assert(s.subrange(i, i + t.len())[0] == s[i]);
    }
    lemma_run_exact(s, i, i + t.len());
    if t.len() == 2 {
        assert(s.subrange(i, i + t.len())[1] == s[i + 1]);
    }
}

/// The space-prefixed tokens after an operation's first one, laid out at
/// `p` and followed by the end of input or a `" ;"` separator, parse as
/// exactly themselves.
proof fn lemma_op_rest_exact(s: Seq<char>, p: int, toks: Seq<Seq<char>>)
    requires
        0 <= p,
        p + rest_tokens_text(toks).len() <= s.len(),
        s.subrange(p, p + rest_tokens_text(toks).len()) == rest_tokens_text(toks),
        forall|k: int| 0 <= k < toks.len() ==> simple_token(#[trigger] toks[k]),
        ({
            let q = p + rest_tokens_text(toks).len();
            q == s.len() || (q + 1 < s.len() && s[q] == ' ' && s[q + 1] == ';')
        }),
    ensures
        op_rest(s, p) == (toks, p + rest_tokens_text(toks).len()),
    decreases toks.len(),
{
    let q = p + rest_tokens_text(toks).len();
    if toks.len() == 0 {
        if p == s.len() {
            lemma_space_stop(s, p);
        } else {
            lemma_space_stop(s, p + 1);
            assert(space_end(s, p) == p + 1);
            lemma_run_exact(s, p + 1, p + 1);
            assert(token_at(s, p + 1) is None);
        }
    } else {
        let t = toks[0];
        let rest = toks.drop_first();
        let rl = rest_tokens_text(rest);
        assert(rest_tokens_text(toks) == seq![' '] + t + rl);
        lemma_layout_split(s, p, seq![' '] + t, rl);
        lemma_layout_split(s, p, seq![' '], t);
        assert(s[p] == ' ') by {
            assert(s.subrange(p, p + 1)[0] == s[p]);
        }
        let p1 = p + 1;
        assert(s[p1] == t[0]) by {
            assert(s.subrange(p1, p1 + t.len())[0] == s[p1]);
        }
        lemma_space_stop(s, p1);
        assert(space_end(s, p) == p1);
        let p2 = p1 + t.len();
        if rest.len() == 0 {
            assert(p2 == q);
        } else {
            assert(rl[0] == ' ');
            assert(s[p2] == ' ') by {
                assert(s.subrange(p2, p2 + rl.len())[0] == s[p2]);
            }
        }
        lemma_token_exact(s, p1, t);
        assert forall|k: int| 0 <= k < rest.len() implies simple_token(#[trigger] rest[k]) by {
            assert(rest[k] == toks[k + 1]);
        }
        lemma_op_rest_exact(s, p2, rest);
        assert(seq![t] + rest =~= toks);
    }
}

/// A simple operation laid out at `i` and followed by the end of input or a
/// `" ;"` separator parses as exactly itself.
proof fn lemma_operation_exact(s: Seq<char>, i: int, op: Seq<Seq<char>>)
    requires
        0 <= i,
        i + join_tokens(op).len() <= s.len(),
        s.subrange(i, i + join_tokens(op).len()) == join_tokens(op),
        simple_operation(op),
        ({
            let e = i + join_tokens(op).len();
            e == s.len() || (e + 1 < s.len() && s[e] == ' ' && s[e + 1] == ';')
        }),
    ensures
        operation_at(s, i) == Some((op, i + join_tokens(op).len())),
{
    let t = op[0];
    let rest = op.drop_first();
    let rl = rest_tokens_text(rest);
    let e = i + join_tokens(op).len();
    assert(join_tokens(op) == t + rl);
    lemma_layout_split(s, i, t, rl);
    let p2 = i + t.len();
    if rest.len() == 0 {
        assert(p2 == e);
    } else {
        assert(rl[0] == ' ');
        assert(s[p2] == ' ') by {
            assert(s.subrange(p2, p2 + rl.len())[0] == s[p2]);
        }
    }
    lemma_token_exact(s, i, t);
    assert forall|k: int| 0 <= k < rest.len() implies simple_token(#[trigger] rest[k]) by {
        assert(rest[k] == op[k + 1]);
    }
    lemma_op_rest_exact(s, p2, rest);
    assert(seq![t] + rest =~= op);
}

/// The `" ; "`-prefixed operations after the first one, laid out at `p` and
/// running to the end of the input, parse as exactly themselves.
proof fn lemma_ops_rest_exact(s: Seq<char>, p: int, ops: Seq<Seq<Seq<char>>>)
    requires
        0 <= p,
        p + rest_operations_text(ops).len() == s.len(),
        s.subrange(p, s.len() as int) == rest_operations_text(ops),
        simple_operations(ops),
    ensures
        ops_rest(s, p) == (ops, s.len() as int),
    decreases ops.len(),
{
    if ops.len() == 0 {
        lemma_space_stop(s, p);
    } else {
        let op = ops[0];
        let rest = ops.drop_first();
        let jt = join_tokens(op);
        let rl = rest_operations_text(rest);
        assert(rest_operations_text(ops) == seq![' ', ';', ' '] + jt + rl);
        lemma_layout_split(s, p, seq![' ', ';', ' '] + jt, rl);
        lemma_layout_split(s, p, seq![' ', ';', ' '], jt);
        assert(s[p] == ' ' && s[p + 1] == ';' && s[p + 2] == ' ') by {
            assert(s.subrange(p, p + 3)[0] == s[p]);
            assert(s.subrange(p, p + 3)[1] == s[p + 1]);
            assert(s.subrange(p, p + 3)[2] == s[p + 2]);
        }
        let p3 = p + 3;
        assert(jt.len() >= 1 && jt[0] == op[0][0]) by {
            assert(simple_operation(op));
            assert(simple_token(op[0]));
        }
        assert(s[p3] == jt[0]) by {
            assert(s.subrange(p3, p3 + jt.len())[0] == s[p3]);
        }
        assert(!is_space(s[p3]) && s[p3] != ';' && s[p3] != ' ') by {
            assert(simple_token(op[0]));
            assert(!is_token_break(op[0][0]));
        }
        // the separator run: one semicolon with its surrounding spaces
        lemma_space_stop(s, p + 1);
        assert(space_end(s, p) == p + 1);
        lemma_space_stop(s, p3);
        assert(space_end(s, p + 2) == p3);
        assert(semis_end(s, p3) == p3);
        assert(semis_end(s, p) == p3);
        // the operation after it
        let m = p3 + jt.len();
        if rest.len() == 0 {
            assert(m == s.len());
        } else {
            assert(rl[0] == ' ' && rl[1] == ';');
            assert(s[m] == ' ' && s[m + 1] == ';') by {
                assert(s.subrange(m, m + rl.len())[0] == s[m]);
                assert(s.subrange(m, m + rl.len())[1] == s[m + 1]);
            }
        }
        assert(simple_operation(op));
        lemma_operation_exact(s, p3, op);
        assert forall|k: int| 0 <= k < rest.len() implies simple_operation(#[trigger] rest[k]) by {
            assert(rest[k] == ops[k + 1]);
        }
        lemma_ops_rest_exact(s, m, rest);
        assert(seq![op] + rest =~= ops);
    }
}

/// The re-serialization round trip. For operations whose tokens need no
/// quoting, writing them back — tokens joined with single spaces, operations
/// joined with `" ; "` — and tokenizing the result again yields exactly the
/// same operations, with nothing left over.
pub proof fn lemma_tokenize_roundtrip(ops: Seq<Seq<Seq<char>>>)
    requires
        simple_operations(ops),
    ensures
        spec_tokenize_operation_sequence(join_operations(ops)).0 == ops,
        spec_tokenize_operation_sequence(join_operations(ops)).1 == Seq::<char>::empty(),
{
    let s = join_operations(ops);
    assert(s.subrange(0, s.len() as int) =~= s);
    if ops.len() == 0 {
        lemma_space_stop(s, 0);
        lemma_run_exact(s, 0, 0);
        assert(ops =~= Seq::<Seq<Seq<char>>>::empty());
        assert(s.subrange(0, 0) =~= Seq::<char>::empty());
    } else {
        let op = ops[0];
        let rest = ops.drop_first();
        let jt = join_tokens(op);
        let rl = rest_operations_text(rest);
        assert(s == jt + rl);
        lemma_layout_split(s, 0, jt, rl);
        assert(jt.len() >= 1 && jt[0] == op[0][0]) by {
            assert(simple_operation(op));
            assert(simple_token(op[0]));
        }
        assert(s[0] == jt[0]) by {
            assert(s.subrange(0, jt.len() as int)[0] == s[0]);
        }
        assert(!is_space(s[0]) && s[0] != ';') by {
            assert(simple_token(op[0]));
            assert(!is_token_break(op[0][0]));
        }
        lemma_space_stop(s, 0);
        assert(semis_end(s, 0) == 0);
        let e = jt.len() as int;
        if rest.len() == 0 {
            assert(e == s.len());
        } else {
            assert(rl[0] == ' ' && rl[1] == ';');
            assert(s[e] == ' ' && s[e + 1] == ';') by {
                assert(s.subrange(e, e + rl.len())[0] == s[e]);
                assert(s.subrange(e, e + rl.len())[1] == s[e + 1]);
            }
        }
        lemma_operation_exact(s, 0, op);
        assert forall|k: int| 0 <= k < rest.len() implies simple_operation(#[trigger] rest[k]) by {
            assert(rest[k] == ops[k + 1]);
        }
        lemma_ops_rest_exact(s, e, rest);
        assert(seq![op] + rest =~= ops);
        lemma_space_stop(s, s.len() as int);
        assert(semis_end(s, s.len() as int) == s.len());
        assert(s.subrange(s.len() as int, s.len() as int) =~= Seq::<char>::empty());
    }
}

/// Idempotence under re-serialization: when an input tokenizes to operations
/// that need no quoting, writing those operations back and tokenizing again
/// yields the same operations.
pub proof fn lemma_reserialize_idempotent(input: Seq<char>)
    requires
        simple_operations(spec_tokenize_operation_sequence(input).0),
    ensures
        spec_tokenize_operation_sequence(
            join_operations(spec_tokenize_operation_sequence(input).0),
        ).0 == spec_tokenize_operation_sequence(input).0,
{
    lemma_tokenize_roundtrip(spec_tokenize_operation_sequence(input).0);
}

} // verus!

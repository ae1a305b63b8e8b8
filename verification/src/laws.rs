//! Properties of the tokenizer that relate whole runs of the machine:
//! whitespace collapsing, indifference to leading and trailing whitespace,
//! and idempotence of re-tokenizing rejoined output.

use vstd::prelude::*;

use crate::error_types::ParseError;
use crate::machine::{
    finish, init, is_quote, is_space, lemma_run_concat, run, spec_tokenize, step, LexState, Lexer,
};

verus! {

/// A token with no internal special characters: no whitespace, no quote, no
/// backslash, and at least one character.
pub open spec fn plain_token(t: Seq<char>) -> bool {
    &&& t.len() > 0
    &&& forall|k: int|
        0 <= k < t.len() ==> !is_space(#[trigger] t[k]) && !is_quote(t[k]) && t[k] != '\\'
}

/// The tokens rejoined into one line, with a single space between neighbours.
pub open spec fn join_spaced(ts: Seq<Seq<char>>) -> Seq<char>
    decreases ts.len(),
{
    if ts.len() == 0 {
        Seq::empty()
    } else if ts.len() == 1 {
        ts[0]
    } else {
        ts[0] + seq![' '] + join_spaced(ts.drop_first())
    }
}

/// Between tokens, whitespace is skipped: a machine that is `Idle` stays
/// exactly as it is over any run of whitespace.
proof fn lemma_run_spaces_idle(m: Lexer, ws: Seq<char>)
    requires
        m.state is Idle,
        forall|k: int| 0 <= k < ws.len() ==> is_space(#[trigger] ws[k]),
    ensures
        run(m, ws) == m,
    decreases ws.len(),
{
    if ws.len() > 0 {
        assert(is_space(ws[0]));
        assert(step(m, ws[0]) == m);
        lemma_run_spaces_idle(m, ws.drop_first());
    }
}

/// A nonempty run of whitespace after an unquoted token finalizes that token
/// and leaves the machine `Idle`, no matter how long the run is.
proof fn lemma_run_spaces_in_token(m: Lexer, ws: Seq<char>)
    requires
        m.state is InToken,
        ws.len() > 0,
        forall|k: int| 0 <= k < ws.len() ==> is_space(#[trigger] ws[k]),
    ensures
        run(m, ws) == (Lexer {
            state: LexState::Idle,
            current: Seq::<char>::empty(),
            tokens: m.tokens.push(m.current),
        }),
{
    assert(is_space(ws[0]));
    let m2 = step(m, ws[0]);
    lemma_run_spaces_idle(m2, ws.drop_first());
}

/// Any run of one or more whitespace characters between tokens is equivalent
/// to a single space: as long as the text before the run leaves the machine
/// between tokens or inside an unquoted token, replacing the run by one space
/// changes nothing about the result.
pub proof fn lemma_whitespace_collapse(prefix: Seq<char>, ws: Seq<char>, suffix: Seq<char>)
    requires
        ws.len() >= 1,
        forall|k: int| 0 <= k < ws.len() ==> is_space(#[trigger] ws[k]),
        run(init(), prefix).state is Idle || run(init(), prefix).state is InToken,
    ensures
        spec_tokenize(prefix + ws + suffix) == spec_tokenize(prefix + seq![' '] + suffix),
{
    let m = run(init(), prefix);
    let one = seq![' '];
    assert(is_space(one[0]));
    assert(prefix + ws + suffix =~= prefix + (ws + suffix));
    assert(prefix + one + suffix =~= prefix + (one + suffix));
    lemma_run_concat(init(), prefix, ws + suffix);
    lemma_run_concat(init(), prefix, one + suffix);
    lemma_run_concat(m, ws, suffix);
    lemma_run_concat(m, one, suffix);
    if m.state is Idle {
        lemma_run_spaces_idle(m, ws);
        lemma_run_spaces_idle(m, one);
    } else {
        lemma_run_spaces_in_token(m, ws);
        lemma_run_spaces_in_token(m, one);
    }
}

/// Leading whitespace never contributes a token: stripping it leaves the
/// result of tokenization unchanged, for every input.
pub proof fn lemma_leading_whitespace(ws: Seq<char>, s: Seq<char>)
    requires
        forall|k: int| 0 <= k < ws.len() ==> is_space(#[trigger] ws[k]),
    ensures
        spec_tokenize(ws + s) == spec_tokenize(s),
{
    lemma_run_concat(init(), ws, s);
    lemma_run_spaces_idle(init(), ws);
}

/// Trailing whitespace never contributes a token: whatever a successful
/// tokenization produced, appending whitespace produces exactly the same
/// tokens.
pub proof fn lemma_trailing_whitespace(s: Seq<char>, ws: Seq<char>, ts: Seq<Seq<char>>)
    requires
        spec_tokenize(s) == Ok::<Seq<Seq<char>>, ParseError>(ts),
        forall|k: int| 0 <= k < ws.len() ==> is_space(#[trigger] ws[k]),
    ensures
        spec_tokenize(s + ws) == Ok::<Seq<Seq<char>>, ParseError>(ts),
{
    let m = run(init(), s);
    lemma_run_concat(init(), s, ws);
    if ws.len() == 0 {
        assert(s + ws =~= s);
    } else if m.state is Idle {
        lemma_run_spaces_idle(m, ws);
    } else {
        lemma_run_spaces_in_token(m, ws);
    }
}

/// A machine inside an unquoted token appends every plain character it meets,
/// staying inside that token.
proof fn lemma_run_plain_in_token(m: Lexer, t: Seq<char>)
    requires
        m.state is InToken,
        forall|k: int|
            0 <= k < t.len() ==> !is_space(#[trigger] t[k]) && !is_quote(t[k]) && t[k] != '\\',
    ensures
        run(m, t) == (Lexer {
            state: LexState::InToken,
            current: m.current + t,
            tokens: m.tokens,
        }),
    decreases t.len(),
{
    if t.len() == 0 {
        assert(m.current + t =~= m.current);
        assert(run(m, t) =~= Lexer {
            state: LexState::InToken,
            current: m.current + t,
            tokens: m.tokens,
        });
    } else {
        let m2 = step(m, t[0]);
        assert(m2 == Lexer {
            state: LexState::InToken,
            current: m.current.push(t[0]),
            tokens: m.tokens,
        });
        lemma_run_plain_in_token(m2, t.drop_first());
        assert(m.current.push(t[0]) + t.drop_first() =~= m.current + t);
    }
}

/// From between tokens, a plain token is read as exactly one new token.
proof fn lemma_run_plain_idle(m: Lexer, t: Seq<char>)
    requires
        m.state is Idle,
        plain_token(t),
    ensures
        run(m, t) == (Lexer { state: LexState::InToken, current: t, tokens: m.tokens }),
{
    let m2 = step(m, t[0]);
    assert(m2 == Lexer { state: LexState::InToken, current: seq![t[0]], tokens: m.tokens });
    lemma_run_plain_in_token(m2, t.drop_first());
    assert(seq![t[0]] + t.drop_first() =~= t);
}

/// Reading rejoined plain tokens from between tokens yields those very
/// tokens: all but the last finalized, the last still open.
proof fn lemma_run_join(m: Lexer, ts: Seq<Seq<char>>)
    requires
        m.state is Idle,
        ts.len() > 0,
        forall|k: int| 0 <= k < ts.len() ==> plain_token(#[trigger] ts[k]),
    ensures
        run(m, join_spaced(ts)) == (Lexer {
            state: LexState::InToken,
            current: ts.last(),
            tokens: m.tokens + ts.drop_last(),
        }),
    decreases ts.len(),
{
    if ts.len() == 1 {
        lemma_run_plain_idle(m, ts[0]);
        assert(m.tokens + ts.drop_last() =~= m.tokens);
    } else {
        let rest = ts.drop_first();
        let j = join_spaced(rest);
        assert(join_spaced(ts) == ts[0] + seq![' '] + j);
        assert(ts[0] + seq![' '] + j =~= ts[0] + (seq![' '] + j));
        lemma_run_concat(m, ts[0], seq![' '] + j);
        lemma_run_plain_idle(m, ts[0]);
        let m1 = Lexer { state: LexState::InToken, current: ts[0], tokens: m.tokens };
        lemma_run_concat(m1, seq![' '], j);
        assert(is_space(seq![' '][0]));
        let m2 = step(m1, seq![' '][0]);
        lemma_run_spaces_idle(m2, seq![' '].drop_first());
        assert(run(m1, seq![' ']) == m2);
        assert(m2 == Lexer {
            state: LexState::Idle,
            current: Seq::<char>::empty(),
            tokens: m.tokens.push(ts[0]),
        });
        lemma_run_join(m2, rest);
        assert(rest.last() == ts.last());
        assert(m.tokens.push(ts[0]) + rest.drop_last() =~= m.tokens + ts.drop_last());
    }
}

/// Re-tokenizing rejoined output is the identity: when an input tokenizes
/// successfully and none of its tokens holds a special character, joining the
/// tokens with single spaces and tokenizing again yields the same tokens.
pub proof fn lemma_retokenize_idempotent(s: Seq<char>, ts: Seq<Seq<char>>)
    requires
        spec_tokenize(s) == Ok::<Seq<Seq<char>>, ParseError>(ts),
        forall|k: int| 0 <= k < ts.len() ==> plain_token(#[trigger] ts[k]),
    ensures
        spec_tokenize(join_spaced(ts)) == Ok::<Seq<Seq<char>>, ParseError>(ts),
{
    if ts.len() == 0 {
        assert(ts =~= Seq::<Seq<char>>::empty());
        assert(finish(run(init(), join_spaced(ts))) == Ok::<Seq<Seq<char>>, ParseError>(ts));
    } else {
        lemma_run_join(init(), ts);
        assert(Seq::<Seq<char>>::empty() + ts.drop_last() =~= ts.drop_last());
        assert(ts.drop_last().push(ts.last()) =~= ts);
    }
}

} // verus!

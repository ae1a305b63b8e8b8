//! The mathematical model of the tokenizer: a four-state character machine
//! that decides token boundaries, escape translation, and quote handling.

use vstd::prelude::*;

use crate::error_types::ParseError;

verus! {

/// The Unicode code points with the White_Space property. Any of them acts as
/// a token boundary outside of quoted regions.
pub open spec fn is_space(c: char) -> bool {
    ||| c as u32 == 0x20
    ||| (0x09 <= c as u32 && c as u32 <= 0x0D)
    ||| c as u32 == 0x85
    ||| c as u32 == 0xA0
    ||| c as u32 == 0x1680
    ||| (0x2000 <= c as u32 && c as u32 <= 0x200A)
    ||| c as u32 == 0x2028
    ||| c as u32 == 0x2029
    ||| c as u32 == 0x202F
    ||| c as u32 == 0x205F
    ||| c as u32 == 0x3000
}

/// The two characters that open a quoted region.
pub open spec fn is_quote(c: char) -> bool {
    c == '"' || c == '\''
}

/// What a backslash-prefixed character resolves to: `n`, `r`, and `t` map to
/// the matching control characters; every other character is copied verbatim.
pub open spec fn escape_value(c: char) -> char {
    if c == 'n' {
        '\n'
    } else if c == 'r' {
        '\r'
    } else if c == 't' {
        '\t'
    } else {
        c
    }
}

/// The tokenizer's mode: between tokens, inside an unquoted token, inside a
/// quoted region opened by the carried quote character, or just past an
/// unconsumed backslash (remembering which mode the escape returns to).
#[derive(Clone, Copy)]
pub enum LexState {
    Idle,
    InToken,
    InQuote(char),
    EscapedToken,
    EscapedQuote(char),
}

/// A snapshot of the whole machine: the mode, the token accumulated so far,
/// and the tokens already finalized, in input order.
#[verifier::ext_equal]
pub struct Lexer {
    pub state: LexState,
    pub current: Seq<char>,
    pub tokens: Seq<Seq<char>>,
}

/// The machine's starting point: between tokens, nothing accumulated.
pub open spec fn init() -> Lexer {
    Lexer { state: LexState::Idle, current: Seq::empty(), tokens: Seq::empty() }
}

/// One transition of the machine on the next input character.
pub open spec fn step(m: Lexer, c: char) -> Lexer {
    match m.state {
        LexState::Idle => {
            if is_space(c) {
                m
            } else if is_quote(c) {
                Lexer { state: LexState::InQuote(c), current: Seq::empty(), tokens: m.tokens }
            } else if c == '\\' {
                Lexer { state: LexState::EscapedToken, current: Seq::empty(), tokens: m.tokens }
            } else {
                Lexer { state: LexState::InToken, current: seq![c], tokens: m.tokens }
            }
        },
        LexState::InToken => {
            if is_space(c) {
                Lexer {
                    state: LexState::Idle,
                    current: Seq::empty(),
                    tokens: m.tokens.push(m.current),
                }
            } else if is_quote(c) {
                Lexer { state: LexState::InQuote(c), current: m.current, tokens: m.tokens }
            } else if c == '\\' {
                Lexer { state: LexState::EscapedToken, current: m.current, tokens: m.tokens }
            } else {
                Lexer { state: LexState::InToken, current: m.current.push(c), tokens: m.tokens }
            }
        },
        LexState::InQuote(q) => {
            if c == q {
                Lexer { state: LexState::InToken, current: m.current, tokens: m.tokens }
            } else if c == '\\' {
                Lexer { state: LexState::EscapedQuote(q), current: m.current, tokens: m.tokens }
            } else {
                Lexer { state: LexState::InQuote(q), current: m.current.push(c), tokens: m.tokens }
            }
        },
        LexState::EscapedToken => Lexer {
            state: LexState::InToken,
            current: m.current.push(escape_value(c)),
            tokens: m.tokens,
        },
        LexState::EscapedQuote(q) => Lexer {
            state: LexState::InQuote(q),
            current: m.current.push(escape_value(c)),
            tokens: m.tokens,
        },
    }
}

/// The machine run over a whole character sequence, one step per character.
pub open spec fn run(m: Lexer, s: Seq<char>) -> Lexer
    decreases s.len(),
{
    if s.len() == 0 {
        m
    } else {
        run(step(m, s[0]), s.drop_first())
    }
}

/// What the machine yields at end of input: the finalized tokens when it is
/// between tokens or inside an unquoted token, and the matching error when a
/// quoted region or an escape was left open.
pub open spec fn finish(m: Lexer) -> Result<Seq<Seq<char>>, ParseError> {
    match m.state {
        LexState::Idle => Ok(m.tokens),
        LexState::InToken => Ok(m.tokens.push(m.current)),
        LexState::InQuote(_) => Err(ParseError::UnterminatedQuote),
        LexState::EscapedToken => Err(ParseError::UnterminatedEscape),
        LexState::EscapedQuote(_) => Err(ParseError::UnterminatedEscape),
    }
}

/// The tokenization of an input line: run the machine from its starting point
/// over the whole input and read off the result.
pub open spec fn spec_tokenize(s: Seq<char>) -> Result<Seq<Seq<char>>, ParseError> {
    finish(run(init(), s))
}

/// Running over a sequence extended by one character is one more step.
pub proof fn lemma_run_snoc(m: Lexer, s: Seq<char>, c: char)
    ensures
        run(m, s.push(c)) == step(run(m, s), c),
    decreases s.len(),
{
    if s.len() == 0 {
        assert(s.push(c).drop_first() =~= Seq::<char>::empty());
        assert(s.push(c)[0] == c);
        assert(run(m, s.push(c)) == run(step(m, c), s.push(c).drop_first()));
        assert(run(step(m, c), Seq::<char>::empty()) == step(m, c));
        assert(run(m, s) == m);
    } else {
        assert(s.push(c)[0] == s[0]);
        assert(s.push(c).drop_first() =~= s.drop_first().push(c));
        assert(run(m, s.push(c)) == run(step(m, s[0]), s.drop_first().push(c)));
        lemma_run_snoc(step(m, s[0]), s.drop_first(), c);
        assert(run(m, s) == run(step(m, s[0]), s.drop_first()));
    }
}

/// Running over a concatenation is running over each part in turn.
pub proof fn lemma_run_concat(m: Lexer, a: Seq<char>, b: Seq<char>)
    ensures
        run(m, a + b) == run(run(m, a), b),
    decreases a.len(),
{
    if a.len() == 0 {
        assert(a + b =~= b);
    } else {
        assert((a + b)[0] == a[0]);
        assert((a + b).drop_first() =~= a.drop_first() + b);
        lemma_run_concat(step(m, a[0]), a.drop_first(), b);
    }
}

} // verus!

//! `comma` parses command-line-style strings. See [`parse_command`] for details.

use vstd::prelude::*;

pub mod characters;
pub mod error_types;
pub mod laws;
pub mod machine;

use crate::characters::ParserData;
use crate::error_types::{EmptyCommandError, ParseError};
use crate::machine::{
    escape_value, finish, init, is_quote, is_space, lemma_run_snoc, run, spec_tokenize, LexState,
    Lexer,
};

verus! {

/// Decides whitespace as the machine does: true exactly on the Unicode
/// White_Space code points.
fn is_whitespace_char(c: char) -> (r: bool)
    ensures
        r == is_space(c),
{
    let u = c as u32;
    u == 0x20 || (0x09 <= u && u <= 0x0D) || u == 0x85 || u == 0xA0 || u == 0x1680 || (0x2000 <= u
        && u <= 0x200A) || u == 0x2028 || u == 0x2029 || u == 0x202F || u == 0x205F || u == 0x3000
}

/// Decides whether a character opens a quoted region.
fn is_quote_char(c: char) -> (r: bool)
    ensures
        r == is_quote(c),
{
    c == '"' || c == '\''
}

/// Resolves a backslash-prefixed character to the character it stands for.
fn escape_char(c: char) -> (r: char)
    ensures
        r == escape_value(c),
{
    if c == 'n' {
        '\n'
    } else if c == 'r' {
        '\r'
    } else if c == 't' {
        '\t'
    } else {
        c
    }
}

/// The executable state agrees with the machine snapshot, and the parser's
/// output holds the finalized tokens plus, outside of `Idle`, the open one.
spec fn loop_sync(pd: ParserData, st: LexState, m: Lexer) -> bool {
    &&& st == m.state
    &&& (m.state is Idle ==> m.current == Seq::<char>::empty() && pd.out() == m.tokens)
    &&& (m.state !is Idle ==> pd.out() == m.tokens.push(m.current))
}

/// Splits one line of command text into tokens: maximal runs of characters
/// separated by unquoted whitespace, with `'…'`/`"…"` spans keeping their
/// whitespace literal and backslash escapes resolved. Fails when the input
/// ends inside a quoted region or right after a backslash.
pub fn tokenize(input: &str) -> (r: Result<Vec<String>, ParseError>)
    ensures
        (match spec_tokenize(input@) {
            Ok(ts) => r matches Ok(v) && v.deep_view() == ts,
            Err(e) => r matches Err(e2) && e2 == e,
        }),
{
    let owned: String = input.to_owned();
    let mut pd = ParserData::new(&owned);
    let mut st = LexState::Idle;
    let ghost s = input@;
    let ghost mut i: int = 0;
    while pd.not_empty()
        invariant
            pd.wf(),
            0 <= i <= s.len(),
            pd.remaining() == s.skip(i),
            loop_sync(pd, st, run(init(), s.take(i))),
        decreases s.len() - i,
    {
        proof {
            assert(s.skip(i).len() == s.len() - i);
        }
        let c = match pd.eat() {
            Ok(c) => c,
            Err(_) => unreached(),
        };
        proof {
            assert(s.skip(i)[0] == s[i]);
            assert(pd.remaining() =~= s.skip(i + 1));
            assert(s.take(i + 1) =~= s.take(i).push(s[i]));
            lemma_run_snoc(init(), s.take(i), s[i]);
        }
        let ghost m = run(init(), s.take(i));
        let ghost m2 = run(init(), s.take(i + 1));
        match st {
            LexState::Idle => {
                if is_whitespace_char(c) {
                } else if is_quote_char(c) {
                    pd.new_token();
                    st = LexState::InQuote(c);
                } else if c == '\\' {
                    pd.new_token();
                    st = LexState::EscapedToken;
                } else {
                    pd.new_token();
                    pd.push(c);
                    st = LexState::InToken;
                    proof {
                        assert(pd.out() =~= m2.tokens.push(m2.current));
                    }
                }
            },
            LexState::InToken => {
                if is_whitespace_char(c) {
                    st = LexState::Idle;
                } else if is_quote_char(c) {
                    st = LexState::InQuote(c);
                } else if c == '\\' {
                    st = LexState::EscapedToken;
                } else {
                    pd.push(c);
                    proof {
                        assert(pd.out() =~= m2.tokens.push(m2.current));
                    }
                }
            },
            LexState::InQuote(q) => {
                if c == q {
                    st = LexState::InToken;
                } else if c == '\\' {
                    st = LexState::EscapedQuote(q);
                } else {
                    pd.push(c);
                    proof {
                        assert(pd.out() =~= m2.tokens.push(m2.current));
                    }
                }
            },
            LexState::EscapedToken => {
                pd.push(escape_char(c));
                st = LexState::InToken;
                proof {
                    assert(pd.out() =~= m2.tokens.push(m2.current));
                }
            },
            LexState::EscapedQuote(q) => {
                pd.push(escape_char(c));
                st = LexState::InQuote(q);
                proof {
                    assert(pd.out() =~= m2.tokens.push(m2.current));
                }
            },
        }
        proof {
            i = i + 1;
        }
    }
    proof {
        assert(s.skip(i).len() == s.len() - i);
        assert(s.take(i) =~= s);
    }
    let ghost m = run(init(), s);
    match st {
        LexState::Idle | LexState::InToken => {
            proof {
                assert(finish(m) == Ok::<Seq<Seq<char>>, ParseError>(pd.out()));
            }
            let produced = pd.get_result();
            let v = produced.clone();
            proof {
                assert forall|j: int| 0 <= j < v.deep_view().len() implies v.deep_view()[j]
                    == pd.out()[j] by {
                    assert(cloned::<String>(produced@[j], v@[j]));
                }
                assert(v.deep_view() =~= pd.out());
            }
            Ok(v)
        },
        LexState::InQuote(_) => Err(ParseError::UnterminatedQuote),
        LexState::EscapedToken => Err(ParseError::UnterminatedEscape),
        LexState::EscapedQuote(_) => Err(ParseError::UnterminatedEscape),
    }
}

/// Parses a command into a list of individual tokens.
/// Each token is separated by one or more characters of whitespace.
/// Pairs of single- or double-quotes can be used to ignore whitespace. Within
/// pairs of quotation marks, a backslash (\) can be used to escape any
/// character. The special escape sequences '\n', '\r', and '\t' are also
/// handled as Newlines, Carriage Returns, and Tabs, respectively.
/// Should a quotation mark be mismatched (no counterpart terminating mark
/// exists), or the input end right after a backslash, this function returns
/// None. Otherwise, it returns a list of tokens in the input string.
pub fn parse_command(input: &str) -> (r: Option<Vec<String>>)
    ensures
        (match spec_tokenize(input@) {
            Ok(ts) => r matches Some(v) && v.deep_view() == ts,
            Err(_) => r is None,
        }),
{
    match tokenize(input) {
        Ok(v) => Some(v),
        Err(_) => None,
    }
}

/// A tokenized command line, split into the command's name (the first token)
/// and its arguments (the remaining tokens, in input order).
#[derive(Debug, Clone)]
pub struct Command {
    pub name: String,
    pub arguments: Vec<String>,
}

/// Classifies a token sequence into a name/arguments pair: the first token is
/// the name, the rest are the arguments. Fails exactly when no tokens were
/// produced, so a command never exists without a name.
pub fn build_command(tokens: Vec<String>) -> (r: Result<Command, EmptyCommandError>)
    ensures
        tokens.deep_view().len() == 0 ==> (r matches Err(_)),
        tokens.deep_view().len() > 0 ==> (r matches Ok(c) && c.name@ == tokens.deep_view()[0]
            && c.arguments.deep_view() == tokens.deep_view().drop_first()),
{
    let ghost toks = tokens.deep_view();
    if tokens.len() == 0 {
        Err(EmptyCommandError)
    } else {
        let mut args = tokens;
        let name = args.remove(0);
        proof {
            assert(args.deep_view() =~= toks.drop_first());
        }
        Ok(Command { name, arguments: args })
    }
}

} // verus!

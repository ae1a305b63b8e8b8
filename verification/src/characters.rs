//! The parser's working data: a cursor over the input characters and the
//! growing list of output tokens, the last of which is still open.

use vstd::prelude::*;
use vstd::string::StrSliceExecFns;

use crate::error_types::OutOfInputError;

verus! {

/// One tokenize call's working state: the input characters, how many of them
/// are already consumed, and the tokens produced so far.
pub struct ParserData {
    input: Vec<char>,
    pos: usize,
    output: Vec<String>,
}

impl ParserData {
    /// The cursor never runs past the end of the input.
    pub closed spec fn wf(self) -> bool {
        self.pos <= self.input@.len()
    }

    /// The characters not yet consumed, in input order.
    pub closed spec fn remaining(self) -> Seq<char> {
        self.input@.skip(self.pos as int)
    }

    /// The tokens produced so far, each as its character sequence.
    pub closed spec fn out(self) -> Seq<Seq<char>> {
        self.output.deep_view()
    }

    pub fn new(input: &String) -> (r: ParserData)
        ensures
            r.wf(),
            r.remaining() == input@,
            r.out() == Seq::<Seq<char>>::empty(),
    {
        let s = input.as_str();
        let n = s.unicode_len();
        let mut chars: Vec<char> = Vec::new();
        let mut i: usize = 0;
        while i < n
            invariant
                i <= n,
                n == s@.len(),
                chars@ == s@.take(i as int),
            decreases n - i,
        {
            chars.push(s.get_char(i));
            assert(chars@ =~= s@.take(i + 1));
            i = i + 1;
        }
        assert(chars@ =~= s@);
        let r = ParserData { input: chars, pos: 0, output: Vec::new() };
        assert(r.remaining() =~= input@);
        assert(r.out() =~= Seq::<Seq<char>>::empty());
        r
    }

    /// Consumes and returns the next character, or fails if none remains.
    pub fn eat(&mut self) -> (r: Result<char, OutOfInputError>)
        requires
            old(self).wf(),
        ensures
            final(self).wf(),
            final(self).out() == old(self).out(),
            old(self).remaining().len() > 0 ==> (r matches Ok(c) && c == old(self).remaining()[0]
                && final(self).remaining() == old(self).remaining().drop_first()),
            old(self).remaining().len() == 0 ==> (r matches Err(_) && *final(self) == *old(self)),
    {
        match self.peek() {
            Ok(c) => {
                let n = self.input.len();
                assert(self.remaining().len() == self.input@.len() - self.pos);
                assert(self.pos < n);
                self.pos = self.pos + 1;
                assert(self.remaining() =~= old(self).remaining().drop_first());
                Ok(c)
            },
            Err(e) => Err(e),
        }
    }

    /// Consumes the next character and appends it to the open token.
    pub fn eat_and_push(&mut self) -> (r: Result<(), OutOfInputError>)
        requires
            old(self).wf(),
            old(self).remaining().len() > 0 ==> old(self).out().len() > 0,
        ensures
            final(self).wf(),
            old(self).remaining().len() > 0 ==> (r matches Ok(_) && final(self).remaining()
                == old(self).remaining().drop_first() && final(self).out() == old(self).out().update(
                old(self).out().len() - 1,
                old(self).out().last().push(old(self).remaining()[0]),
            )),
            old(self).remaining().len() == 0 ==> (r matches Err(_) && *final(self) == *old(self)),
    {
        match self.eat() {
            Ok(c) => {
                self.push(c);
                Ok(())
            },
            Err(e) => Err(e),
        }
    }

    /// Returns the next character without consuming it, or fails if none
    /// remains.
    pub fn peek(&self) -> (r: Result<char, OutOfInputError>)
        requires
            self.wf(),
        ensures
            self.remaining().len() > 0 ==> (r matches Ok(c) && c == self.remaining()[0]),
            self.remaining().len() == 0 ==> (r matches Err(_)),
    {
        if self.pos < self.input.len() {
            Ok(self.input[self.pos])
        } else {
            Err(OutOfInputError)
        }
    }

    /// Whether any input remains to be consumed.
    pub fn not_empty(&self) -> (r: bool)
        requires
            self.wf(),
        ensures
            r == (self.remaining().len() > 0),
    {
        self.pos < self.input.len()
    }

    /// Opens a fresh, empty token at the end of the output.
    pub fn new_token(&mut self)
        requires
            old(self).wf(),
        ensures
            final(self).wf(),
            final(self).remaining() == old(self).remaining(),
            final(self).out() == old(self).out().push(Seq::<char>::empty()),
    {
        self.output.push(String::new());
        assert(self.out() =~= old(self).out().push(Seq::<char>::empty()));
    }

    /// Appends a character to the open token, which must exist.
    pub fn push(&mut self, c: char)
        requires
            old(self).wf(),
            old(self).out().len() > 0,
        ensures
            final(self).wf(),
            final(self).remaining() == old(self).remaining(),
            final(self).out() == old(self).out().update(
                old(self).out().len() - 1,
                old(self).out().last().push(c),
            ),
    {
        let mut last = match self.output.pop() {
            Some(s) => s,
            None => unreached(),
        };
        push_char(&mut last, c);
        self.output.push(last);
        assert(self.out() =~= old(self).out().update(
            old(self).out().len() - 1,
            old(self).out().last().push(c),
        ));
    }

    /// The tokens produced so far.
    pub fn get_result(&self) -> (r: &Vec<String>)
        ensures
            r.deep_view() == self.out(),
    {
        &self.output
    }
}

/// Relies on String::push: appends the given character to the end of the
/// string.
#[verifier::external_body]
fn push_char(s: &mut String, c: char)
    ensures
        final(s)@ == old(s)@.push(c),
{
    s.push(c);
}

} // verus!

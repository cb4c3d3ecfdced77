//! What the console shows of the connection checks.

use vstd::prelude::*;

verus! {

/// A connection check that failed: what was being done, and the error that came back.
#[derive(Debug, Clone, PartialEq, Eq)]
pub struct InitError {
    pub message: String,
    pub error: String,
}

impl InitError {
    pub fn new(message: &str, error: &str) -> (r: InitError)
        ensures
            r.message@ == message@,
            r.error@ == error@,
    {
        InitError { message: message.to_owned(), error: error.to_owned() }
    }

    /// The line that reports the failed check: the error, ` | `, and the message.
    pub fn report(&self) -> (r: String)
        ensures
            r@ == self.error@ + seq![' ', '|', ' '] + self.message@,
    {
        proof {
            reveal_strlit(" | ");
        }
        let mut r = self.error.clone();
        r.append(" | ");
        r.append(self.message.as_str());
        r
    }
}

/// A separator line: the first character of `character`, `length` times.
pub fn delimiter(character: &str, length: u8) -> (r: String)
    requires
        character@.len() > 0,
    ensures
        r@ == Seq::new(length as nat, |_i: int| character@[0]),
{
    let c = character.get_char(0);
    let mut r = String::new();
    let mut i: u8 = 0;
    while i < length
        invariant
            i <= length,
            c == character@[0],
            r@ == Seq::new(i as nat, |_i: int| character@[0]),
        decreases length - i,
    {
        r.push(c);
        assert(r@ =~= Seq::new((i + 1) as nat, |_i: int| character@[0]));
        i = i + 1;
    }
    r
}

} // verus!

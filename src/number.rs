//! Numeric arguments: signed decimal literals, kept exactly as written.

use vstd::prelude::*;
use crate::lexer::{chars_of, text_between};

verus! {

/// Whether `c` is one of the ASCII digits `0` to `9`.
pub open spec fn is_digit(c: char) -> bool {
    '0' as u32 <= c as u32 && c as u32 <= '9' as u32
}

/// Whether `s` holds nothing but digits (the empty sequence does).
pub open spec fn all_digits(s: Seq<char>) -> bool {
    forall|i: int| 0 <= i < s.len() ==> is_digit(#[trigger] s[i])
}

/// The length of the sign at the start of `s`: 1 for a leading `+` or `-`, else 0.
pub open spec fn sign_len(s: Seq<char>) -> int {
    if s.len() > 0 && (s[0] == '+' || s[0] == '-') {
        1
    } else {
        0
    }
}

/// The index of the first `.` in `s`, or its length where it has none.
pub open spec fn point_index(s: Seq<char>) -> int
    decreases s.len(),
{
    if s.len() == 0 {
        0
    } else if s[0] == '.' {
        0
    } else {
        1 + point_index(s.drop_first())
    }
}

/// A number as written: whether it is negative, the digits before the point
/// and the digits after it.
pub type NumberModel = (bool, Seq<char>, Seq<char>);

/// The number that a token denotes, if it is a decimal literal: an optional
/// sign, digits, and optionally a point followed by more digits, with at least
/// one digit in all (`7`, `-1.5`, `+.5`, `2.`).
pub open spec fn number_of(t: Seq<char>) -> Option<NumberModel> {
    let body = t.skip(sign_len(t));
    let p = point_index(body);
    let whole = body.take(p);
    let fraction = if p < body.len() {
        body.skip(p + 1)
    } else {
        Seq::empty()
    };
    if all_digits(whole) && all_digits(fraction) && whole.len() + fraction.len() > 0 {
        Some((sign_len(t) == 1 && t[0] == '-', whole, fraction))
    } else {
        None
    }
}

/// A decimal number as it was written in a program. Its value is
/// `±(whole.fraction)`; converting it to a machine float is left to the consumer.
#[derive(Debug, Clone, PartialEq, Eq)]
pub struct Number {
    pub negative: bool,
    pub whole: String,
    pub fraction: String,
}

impl View for Number {
    type V = NumberModel;

    open spec fn view(&self) -> NumberModel {
        (self.negative, self.whole@, self.fraction@)
    }
}

/// The digits as written, or a single `0` where there are none.
pub open spec fn digits_or_zero(d: Seq<char>) -> Seq<char> {
    if d.len() == 0 {
        seq!['0']
    } else {
        d
    }
}

/// A number written out in full: its sign if negative, the whole digits, a
/// point and the fraction digits, with `0` for an empty part.
pub open spec fn written(n: NumberModel) -> Seq<char> {
    (if n.0 {
        seq!['-']
    } else {
        Seq::empty()
    }) + digits_or_zero(n.1) + seq!['.'] + digits_or_zero(n.2)
}

impl Number {
    /// The number written out as a decimal literal, for conversion to a float.
    pub fn to_text(&self) -> (r: String)
        ensures
            r@ == written(self@),
    {
        proof {
            reveal_strlit("-");
            reveal_strlit("0");
            reveal_strlit(".");
        }
        let mut r = if self.negative {
            String::from_str("-")
        } else {
            String::new()
        };
        if self.whole.as_str().is_empty() {
            r.append("0");
        } else {
            r.append(self.whole.as_str());
        }
        r.append(".");
        if self.fraction.as_str().is_empty() {
            r.append("0");
        } else {
            r.append(self.fraction.as_str());
        }
        assert(r@ =~= written(self@));
        r
    }
}

/// Where no point comes before `p`, and a point or the end stands at `p`, the first point is at `p`.
proof fn lemma_point_index(s: Seq<char>, p: int)
    requires
        0 <= p <= s.len(),
        forall|m: int| 0 <= m < p ==> s[m] != '.',
        p == s.len() || s[p] == '.',
    ensures
        point_index(s) == p,
    decreases p,
{
    if p > 0 {
        lemma_point_index(s.drop_first(), p - 1);
    }
}

/// Whether `c` is an ASCII digit.
fn is_digit_char(c: char) -> (r: bool)
    ensures
        r == is_digit(c),
{
    '0' <= c && c <= '9'
}

/// Whether `cs[from..to]` holds nothing but digits.
fn digits_between(cs: &Vec<char>, from: usize, to: usize) -> (r: bool)
    requires
        from <= to <= cs.len(),
    ensures
        r == all_digits(cs@.subrange(from as int, to as int)),
{
    let mut i: usize = from;
    while i < to
        invariant
            from <= i <= to <= cs.len(),
            all_digits(cs@.subrange(from as int, i as int)),
        decreases to - i,
    {
        if !is_digit_char(cs[i]) {
            assert(cs@.subrange(from as int, to as int)[i - from] == cs@[i as int]);
            return false;
        }
        assert(cs@.subrange(from as int, i + 1) =~= cs@.subrange(from as int, i as int).push(cs@[i as int]));
        i = i + 1;
    }
    true
}

/// Reads a decimal literal. `None` when `token` is not one.
pub fn parse_number(token: &str) -> (r: Option<Number>)
    ensures
        match r {
            Some(n) => number_of(token@) == Some(n@),
            None => number_of(token@) is None,
        },
{
    let cs = chars_of(token);
    let n = cs.len();
    let s: usize = if n > 0 && (cs[0] == '+' || cs[0] == '-') { 1 } else { 0 };
    let mut p: usize = s;
    while p < n && cs[p] != '.'
        invariant
            s <= p <= n == cs.len(),
            forall|m: int| s <= m < p ==> cs@[m] != '.',
        decreases n - p,
    {
        p = p + 1;
    }
    let ghost body = token@.skip(s as int);
    proof {
        assert(cs@ == token@);
        assert(sign_len(token@) == s);
        lemma_point_index(body, p - s);
        assert(body.take(p - s) =~= cs@.subrange(s as int, p as int));
    }
    let f: usize = if p < n { p + 1 } else { n };
    proof {
        if p < n {
            assert(body.skip(p - s + 1) =~= cs@.subrange(f as int, n as int));
        } else {
            assert(cs@.subrange(f as int, n as int) =~= Seq::<char>::empty());
        }
    }
    if (p - s) + (n - f) > 0 && digits_between(&cs, s, p) && digits_between(&cs, f, n) {
        let negative = s == 1 && cs[0] == '-';
        Some(Number { negative, whole: text_between(&cs, s, p), fraction: text_between(&cs, f, n) })
    } else {
        None
    }
}

} // verus!

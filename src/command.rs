//! The command table, and the extraction of one typed command from a line's tokens.

use vstd::prelude::*;
use crate::lexer::{chars_of, texts};
use crate::number::{number_of, parse_number, Number, NumberModel};

verus! {

/// The single axis that a manual jog moves, with its target values.
#[derive(Debug, Clone, PartialEq, Eq)]
pub enum Axis {
    X(Number),
    Y(Number),
    Z(Number),
    A(Number),
    /// The paired (differential) axis, which takes two values.
    B(Number, Number),
    C(Number),
}

impl View for Axis {
    /// The axis letter, and the values in order.
    type V = (char, Seq<NumberModel>);

    open spec fn view(&self) -> (char, Seq<NumberModel>) {
        match self {
            Axis::X(v) => ('X', seq![v@]),
            Axis::Y(v) => ('Y', seq![v@]),
            Axis::Z(v) => ('Z', seq![v@]),
            Axis::A(v) => ('A', seq![v@]),
            Axis::B(v, w) => ('B', seq![v@, w@]),
            Axis::C(v) => ('C', seq![v@]),
        }
    }
}

/// One instruction for the arm.
#[derive(Debug, Clone, PartialEq, Eq)]
pub enum Command {
    /// No operation.
    NO,
    /// Homing target coordinates.
    HM(Number, Number, Number),
    /// Move-to-target coordinates.
    TG(Number, Number, Number),
    /// Claw actuator positions.
    CL(Number, Number, Number, Number, Number),
    /// Manual jog of one axis.
    MN(Axis),
    /// Return home.
    RH,
    /// Reset.
    RS,
    /// Force stop.
    FS,
}

/// A command as its mnemonic, the axis letter of a manual jog, and its values in order.
pub type CommandModel = (Seq<char>, Option<char>, Seq<NumberModel>);

impl View for Command {
    type V = CommandModel;

    open spec fn view(&self) -> CommandModel {
        match self {
            Command::NO => (seq!['N', 'O'], None, seq![]),
            Command::HM(a, b, c) => (seq!['H', 'M'], None, seq![a@, b@, c@]),
            Command::TG(a, b, c) => (seq!['T', 'G'], None, seq![a@, b@, c@]),
            Command::CL(a, b, c, d, e) => (seq!['C', 'L'], None, seq![a@, b@, c@, d@, e@]),
            Command::MN(axis) => (seq!['M', 'N'], Some(axis@.0), axis@.1),
            Command::RH => (seq!['R', 'H'], None, seq![]),
            Command::RS => (seq!['R', 'S'], None, seq![]),
            Command::FS => (seq!['F', 'S'], None, seq![]),
        }
    }
}

/// Why the tokens of a line do not form a command.
#[derive(Debug, Clone, PartialEq, Eq)]
pub enum ParseError {
    /// The mnemonic is not in the command table.
    UnknownMnemonic,
    /// The first argument of `MN` is not an axis letter.
    UnknownAxis,
    /// The line has the wrong number of arguments.
    ArityMismatch { expected: usize, actual: usize },
    /// The argument at `position` (counted from 0) is not a number.
    InvalidNumber { position: usize, text: String },
}

/// The mathematical form of a `ParseError`.
pub enum Fault {
    UnknownMnemonic,
    UnknownAxis,
    ArityMismatch { expected: nat, actual: nat },
    InvalidNumber { position: nat, text: Seq<char> },
}

impl View for ParseError {
    type V = Fault;

    open spec fn view(&self) -> Fault {
        match self {
            ParseError::UnknownMnemonic => Fault::UnknownMnemonic,
            ParseError::UnknownAxis => Fault::UnknownAxis,
            ParseError::ArityMismatch { expected, actual } => Fault::ArityMismatch {
                expected: *expected as nat,
                actual: *actual as nat,
            },
            ParseError::InvalidNumber { position, text } => Fault::InvalidNumber {
                position: *position as nat,
                text: text@,
            },
        }
    }
}

/// The number of arguments of each mnemonic but `MN`; `None` for `MN` and for
/// text outside the table.
pub open spec fn fixed_arity(m: Seq<char>) -> Option<nat> {
    if m == seq!['N', 'O'] || m == seq!['R', 'H'] || m == seq!['R', 'S'] || m == seq!['F', 'S'] {
        Some(0)
    } else if m == seq!['H', 'M'] || m == seq!['T', 'G'] {
        Some(3)
    } else if m == seq!['C', 'L'] {
        Some(5)
    } else {
        None
    }
}

/// The number of values that a manual jog of an axis takes.
pub open spec fn axis_arity(c: char) -> Option<nat> {
    if c == 'X' || c == 'Y' || c == 'Z' || c == 'A' || c == 'C' {
        Some(1)
    } else if c == 'B' {
        Some(2)
    } else {
        None
    }
}

/// The axis letter that a token names, if it names one.
pub open spec fn axis_of(t: Seq<char>) -> Option<char> {
    if t.len() == 1 && axis_arity(t[0]) is Some {
        Some(t[0])
    } else {
        None
    }
}

/// The position of the first argument, from `from` on, that is not a number;
/// `args.len()` where there is none.
pub open spec fn first_invalid(args: Seq<Seq<char>>, from: int) -> int
    decreases args.len() - from,
{
    if from >= args.len() {
        args.len() as int
    } else if number_of(args[from]) is None {
        from
    } else {
        first_invalid(args, from + 1)
    }
}

/// The numbers that the arguments from `from` on denote.
pub open spec fn numbers_from(args: Seq<Seq<char>>, from: int) -> Seq<NumberModel> {
    args.subrange(from, args.len() as int).map_values(|t: Seq<char>| number_of(t)->Some_0)
}

/// The command with mnemonic `m` and axis letter `axis`, whose values are the
/// arguments from `from` on; or the first of them that is not a number.
pub open spec fn converted(m: Seq<char>, axis: Option<char>, args: Seq<Seq<char>>, from: int) -> Result<
    CommandModel,
    Fault,
> {
    let k = first_invalid(args, from);
    if k < args.len() {
        Err(Fault::InvalidNumber { position: k as nat, text: args[k] })
    } else {
        Ok((m, axis, numbers_from(args, from)))
    }
}

/// What a mnemonic and its argument tokens stand for. The mnemonic is looked up
/// first, then (for `MN`) the axis letter, then the number of arguments, and
/// last each argument in turn.
pub open spec fn extraction(m: Seq<char>, args: Seq<Seq<char>>) -> Result<CommandModel, Fault> {
    if m == seq!['M', 'N'] {
        if args.len() == 0 {
            Err(Fault::ArityMismatch { expected: 1, actual: 0 })
        } else {
            match axis_of(args[0]) {
                None => Err(Fault::UnknownAxis),
                Some(c) => {
                    let n = axis_arity(c)->Some_0;
                    if args.len() - 1 != n {
                        Err(Fault::ArityMismatch { expected: n, actual: (args.len() - 1) as nat })
                    } else {
                        converted(m, Some(c), args, 1)
                    }
                },
            }
        }
    } else {
        match fixed_arity(m) {
            None => Err(Fault::UnknownMnemonic),
            Some(n) => {
                if args.len() != n {
                    Err(Fault::ArityMismatch { expected: n, actual: args.len() })
                } else {
                    converted(m, None, args, 0)
                }
            },
        }
    }
}

/// Whether `cs` is exactly the two characters `a`, `b`.
fn is_pair(cs: &Vec<char>, a: char, b: char) -> (r: bool)
    ensures
        r == (cs@ == seq![a, b]),
{
    if cs.len() == 2 && cs[0] == a && cs[1] == b {
        assert(cs@ =~= seq![a, b]);
        true
    } else {
        false
    }
}

/// Looks a mnemonic up in the table of fixed-arity commands.
fn fixed_arity_of(m: &Vec<char>) -> (r: Option<usize>)
    ensures
        match r {
            Some(n) => fixed_arity(m@) == Some(n as nat),
            None => fixed_arity(m@) is None,
        },
{
    if is_pair(m, 'N', 'O') || is_pair(m, 'R', 'H') || is_pair(m, 'R', 'S') || is_pair(m, 'F', 'S') {
        Some(0)
    } else if is_pair(m, 'H', 'M') || is_pair(m, 'T', 'G') {
        Some(3)
    } else if is_pair(m, 'C', 'L') {
        Some(5)
    } else {
        None
    }
}

/// The axis letter that a token names, with the number of values that the axis takes.
fn axis_letter(t: &str) -> (r: Option<(char, usize)>)
    ensures
        match r {
            Some((c, n)) => axis_of(t@) == Some(c) && axis_arity(c) == Some(n as nat),
            None => axis_of(t@) is None,
        },
{
    let cs = chars_of(t);
    if cs.len() != 1 {
        return None;
    }
    let c = cs[0];
    if c == 'X' || c == 'Y' || c == 'Z' || c == 'A' || c == 'C' {
        Some((c, 1))
    } else if c == 'B' {
        Some((c, 2))
    } else {
        None
    }
}

/// Reads the arguments from `from` on as numbers.
fn numbers(args: &[String], from: usize) -> (r: Result<Vec<Number>, ParseError>)
    requires
        from <= args@.len(),
    ensures
        match r {
            Ok(v) => first_invalid(texts(args@), from as int) == args@.len()
                && v@.map_values(|n: Number| n@) == numbers_from(texts(args@), from as int),
            Err(e) => first_invalid(texts(args@), from as int) < args@.len()
                && e@ == Fault::InvalidNumber {
                    position: first_invalid(texts(args@), from as int) as nat,
                    text: texts(args@)[first_invalid(texts(args@), from as int)],
                },
        },
{
    let ghost ts = texts(args@);
    let mut v: Vec<Number> = Vec::new();
    let mut i: usize = from;
    while i < args.len()
        invariant
            from <= i <= args@.len(),
            ts == texts(args@),
            first_invalid(ts, from as int) == first_invalid(ts, i as int),
            v@.map_values(|n: Number| n@) == ts.subrange(from as int, i as int).map_values(
                |t: Seq<char>| number_of(t)->Some_0,
            ),
        decreases args@.len() - i,
    {
        match parse_number(args[i].as_str()) {
            Some(n) => {
                let ghost before = v@;
                v.push(n);
                proof {
                    assert(ts[i as int] == args@[i as int]@);
                    assert(v@.map_values(|n: Number| n@) =~= before.map_values(|n: Number| n@).push(n@));
                    assert(ts.subrange(from as int, i + 1) =~= ts.subrange(from as int, i as int).push(ts[i as int]));
                }
            },
            None => {
                return Err(ParseError::InvalidNumber { position: i, text: args[i].clone() });
            },
        }
        i = i + 1;
    }
    Ok(v)
}

/// Extracts the command that a mnemonic and its argument tokens stand for, or
/// says why they stand for none.
pub fn extract(mnemonic: &str, arguments: &[String]) -> (r: Result<Command, ParseError>)
    ensures
        match r {
            Ok(c) => extraction(mnemonic@, texts(arguments@)) == Ok::<CommandModel, Fault>(c@),
            Err(e) => extraction(mnemonic@, texts(arguments@)) == Err::<CommandModel, Fault>(e@),
        },
{
    let m = chars_of(mnemonic);
    let n = arguments.len();
    let ghost ts = texts(arguments@);
    if is_pair(&m, 'M', 'N') {
        if n == 0 {
            return Err(ParseError::ArityMismatch { expected: 1, actual: 0 });
        }
        match axis_letter(arguments[0].as_str()) {
            None => {
                assert(ts[0] == arguments@[0]@);
                Err(ParseError::UnknownAxis)
            },
            Some((c, k)) => {
                assert(ts[0] == arguments@[0]@);
                if n - 1 != k {
                    return Err(ParseError::ArityMismatch { expected: k, actual: n - 1 });
                }
                let mut v = numbers(arguments, 1)?;
                let ghost vs = v@.map_values(|x: Number| x@);
                assert(vs.len() == v.len() && numbers_from(ts, 1).len() == n - 1);
                let axis = if k == 1 {
                    let a = v.pop().unwrap();
                    if c == 'X' {
                        Axis::X(a)
                    } else if c == 'Y' {
                        Axis::Y(a)
                    } else if c == 'Z' {
                        Axis::Z(a)
                    } else if c == 'A' {
                        Axis::A(a)
                    } else {
                        Axis::C(a)
                    }
                } else {
                    let b = v.pop().unwrap();
                    let a = v.pop().unwrap();
                    Axis::B(a, b)
                };
                assert(axis@.1 =~= vs);
                Ok(Command::MN(axis))
            },
        }
    } else {
        match fixed_arity_of(&m) {
            None => Err(ParseError::UnknownMnemonic),
            Some(k) => {
                if n != k {
                    return Err(ParseError::ArityMismatch { expected: k, actual: n });
                }
                let mut v = numbers(arguments, 0)?;
                let ghost vs = v@.map_values(|x: Number| x@);
                assert(vs.len() == v.len() && numbers_from(ts, 0).len() == n);
                let command = if k == 0 {
                    if is_pair(&m, 'N', 'O') {
                        Command::NO
                    } else if is_pair(&m, 'R', 'H') {
                        Command::RH
                    } else if is_pair(&m, 'R', 'S') {
                        Command::RS
                    } else {
                        Command::FS
                    }
                } else if k == 3 {
                    let c = v.pop().unwrap();
                    let b = v.pop().unwrap();
                    let a = v.pop().unwrap();
                    if is_pair(&m, 'H', 'M') {
                        Command::HM(a, b, c)
                    } else {
                        Command::TG(a, b, c)
                    }
                } else {
                    let e = v.pop().unwrap();
                    let d = v.pop().unwrap();
                    let c = v.pop().unwrap();
                    let b = v.pop().unwrap();
                    let a = v.pop().unwrap();
                    Command::CL(a, b, c, d, e)
                };
                assert(command@.2 =~= vs);
                Ok(command)
            },
        }
    }
}

} // verus!

//! Parsing of whole documents: every non-blank line gives one result, in order.

use vstd::prelude::*;
use crate::command::{extract, extraction, Command, CommandModel, Fault, ParseError};
use crate::lexer::{
    is_blank, lemma_entries_follow_lines, lemma_one_entry_per_nonblank_line, lines_of, texts,
    tokenize, tokenized, tokens_of, LineModel, LineTokens,
};

verus! {

/// Why one line of a document does not parse: its 1-based number, the line as
/// it stands in the document, and the reason.
#[derive(Debug, Clone, PartialEq, Eq)]
pub struct ParseDiagnostic {
    pub line: usize,
    pub text: String,
    pub reason: ParseError,
}

impl View for ParseDiagnostic {
    type V = (int, Seq<char>, Fault);

    open spec fn view(&self) -> (int, Seq<char>, Fault) {
        (self.line as int, self.text@, self.reason@)
    }
}

/// The decimal digit for `d < 10`.
pub open spec fn digit_char(d: nat) -> char {
    seq!['0', '1', '2', '3', '4', '5', '6', '7', '8', '9'][d as int]
}

/// `n` written in decimal, without leading zeros.
pub open spec fn decimal(n: nat) -> Seq<char>
    decreases n,
{
    if n < 10 {
        seq![digit_char(n)]
    } else {
        decimal(n / 10).push(digit_char(n % 10))
    }
}

/// `n` written in decimal.
pub fn decimal_text(n: usize) -> (r: String)
    ensures
        r@ == decimal(n as nat),
    decreases n,
{
    proof {
        reveal_strlit("0123456789");
    }
    let digits = "0123456789";
    let d = n % 10;
    let last = digits.substring_char(d, d + 1);
    assert(last@ =~= seq![digit_char(d as nat)]);
    if n < 10 {
        last.to_owned()
    } else {
        let mut r = decimal_text(n / 10);
        r.append(last);
        r
    }
}

/// The reason for a fault, in words.
pub open spec fn fault_text(f: Fault) -> Seq<char> {
    match f {
        Fault::UnknownMnemonic => "unknown mnemonic"@,
        Fault::UnknownAxis => "unknown axis letter"@,
        Fault::ArityMismatch { expected, actual } => "expected "@ + decimal(expected) + " arguments, found "@
            + decimal(actual),
        Fault::InvalidNumber { position, text } => "argument "@ + decimal(position) + " is not a number: "@
            + text,
    }
}

impl ParseError {
    /// The reason, in words.
    pub fn describe(&self) -> (r: String)
        ensures
            r@ == fault_text(self@),
    {
        match self {
            ParseError::UnknownMnemonic => String::from_str("unknown mnemonic"),
            ParseError::UnknownAxis => String::from_str("unknown axis letter"),
            ParseError::ArityMismatch { expected, actual } => {
                let mut r = String::from_str("expected ");
                r.append(decimal_text(*expected).as_str());
                r.append(" arguments, found ");
                r.append(decimal_text(*actual).as_str());
                r
            },
            ParseError::InvalidNumber { position, text } => {
                let mut r = String::from_str("argument ");
                r.append(decimal_text(*position).as_str());
                r.append(" is not a number: ");
                r.append(text.as_str());
                r
            },
        }
    }
}

impl ParseDiagnostic {
    /// The diagnostic as an operator reads it: `line N: <reason>: <line text>`.
    pub fn describe(&self) -> (r: String)
        ensures
            r@ == "line "@ + decimal(self.line as nat) + ": "@ + fault_text(self.reason@) + ": "@
                + self.text@,
    {
        let mut r = String::from_str("line ");
        r.append(decimal_text(self.line).as_str());
        r.append(": ");
        r.append(self.reason.describe().as_str());
        r.append(": ");
        r.append(self.text.as_str());
        r
    }
}

/// What one line parses to.
pub type OutcomeModel = Result<CommandModel, (int, Seq<char>, Fault)>;

pub open spec fn outcome_of(r: Result<Command, ParseDiagnostic>) -> OutcomeModel {
    match r {
        Ok(c) => Ok(c@),
        Err(d) => Err(d@),
    }
}

/// What a tokenized line parses to: its command, or its number and text with the fault.
pub open spec fn line_outcome(l: LineModel) -> OutcomeModel {
    match extraction(l.2[0], l.2.skip(1)) {
        Ok(c) => Ok(c),
        Err(f) => Err((l.0, l.1, f)),
    }
}

/// What a document parses to: one outcome per non-blank line, in order.
pub open spec fn parsed(doc: Seq<char>) -> Seq<OutcomeModel> {
    tokenized(doc).map_values(|l: LineModel| line_outcome(l))
}

/// Parses the command of one tokenized line.
pub fn parse_line(tokens: &LineTokens) -> (r: Result<Command, ParseDiagnostic>)
    ensures
        outcome_of(r) == line_outcome(tokens@),
{
    proof {
        assert(tokens@.2[0] == tokens.mnemonic@);
        assert(tokens@.2.skip(1) =~= texts(tokens.arguments@));
    }
    match extract(tokens.mnemonic.as_str(), tokens.arguments.as_slice()) {
        Ok(c) => Ok(c),
        Err(reason) => Err(ParseDiagnostic { line: tokens.line, text: tokens.text.clone(), reason }),
    }
}

/// Parses a whole document. Blank lines give nothing; every other line gives
/// its command or a diagnostic, in the order of the lines, and a bad line does
/// not stop the lines after it from being parsed.
pub fn parse_document(document: &str) -> (r: Vec<Result<Command, ParseDiagnostic>>)
    ensures
        r@.map_values(|x: Result<Command, ParseDiagnostic>| outcome_of(x)) == parsed(document@),
{
    let lines = tokenize(document);
    let ghost ls = lines@.map_values(|t: LineTokens| t@);
    let mut r: Vec<Result<Command, ParseDiagnostic>> = Vec::new();
    let mut i: usize = 0;
    while i < lines.len()
        invariant
            i <= lines.len(),
            r.len() == i,
            ls == lines@.map_values(|t: LineTokens| t@),
            ls == tokenized(document@),
            r@.map_values(|x: Result<Command, ParseDiagnostic>| outcome_of(x)) == ls.take(
                i as int,
            ).map_values(|l: LineModel| line_outcome(l)),
        decreases lines.len() - i,
    {
        let ghost before = r@;
        let x = parse_line(&lines[i]);
        r.push(x);
        proof {
            assert(ls[i as int] == lines@[i as int]@);
            let f = |x: Result<Command, ParseDiagnostic>| outcome_of(x);
            let g = |l: LineModel| line_outcome(l);
            assert forall|j: int| 0 <= j < i implies #[trigger] f(r@[j]) == g(ls[j]) by {
                assert(r@[j] == before[j]);
                assert(before.map_values(f)[j] == ls.take(i as int).map_values(g)[j]);
            }
            assert(r@.map_values(|x: Result<Command, ParseDiagnostic>| outcome_of(x)) =~= ls.take(
                i + 1,
            ).map_values(|l: LineModel| line_outcome(l)));
        }
        i = i + 1;
    }
    proof {
        assert(ls.take(ls.len() as int) =~= ls);
    }
    r
}

/// Parsing a document gives exactly one result per line that is not blank
/// once trimmed; blank lines give neither a command nor a diagnostic.
pub proof fn lemma_one_result_per_nonblank_line(doc: Seq<char>)
    ensures
        parsed(doc).len() == lines_of(doc).filter(|l: Seq<char>| !is_blank(l)).len(),
{
    lemma_one_entry_per_nonblank_line(doc);
}

/// The results of a document come in the order of its lines. The result at
/// each place is what the tokens of one line give, lines further down giving
/// later results, and a diagnostic holds the number and the text of its line.
pub proof fn lemma_results_follow_lines(doc: Seq<char>)
    ensures
        parsed(doc).len() == tokenized(doc).len(),
        forall|i: int, j: int|
            0 <= i < j < tokenized(doc).len() ==> #[trigger] tokenized(doc)[i].0
                < #[trigger] tokenized(doc)[j].0,
        forall|i: int|
            0 <= i < parsed(doc).len() ==> {
                let n = tokenized(doc)[i].0;
                let line = lines_of(doc)[n - 1];
                &&& 1 <= n <= lines_of(doc).len()
                &&& #[trigger] parsed(doc)[i] == line_outcome((n, line, tokens_of(line)))
                &&& parsed(doc)[i] is Err ==> parsed(doc)[i]->Err_0.0 == n
                    && parsed(doc)[i]->Err_0.1 == line
            },
{
    lemma_entries_follow_lines(doc);
    assert forall|i: int| 0 <= i < parsed(doc).len() implies #[trigger] parsed(doc)[i] == line_outcome(
        tokenized(doc)[i],
    ) by {}
}

} // verus!

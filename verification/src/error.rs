//! The parser's closed error taxonomy and its rendering.
use vstd::prelude::*;
use vstd::string::StringExecFns;

verus! {

/// Why a parse failed. Each variant carries the 1-indexed line number and
/// free-form diagnostic text where that helps a reader; the diagnostic text
/// is not part of the programmatic contract.
#[derive(Debug, Clone, PartialEq)]
pub enum ParseError {
    EmptyFile,
    InvalidAtomCount(String),
    MissingCommentLine,
    InvalidAtomLine(usize, String),
    InvalidCoordinate(usize, String),
    AtomCountMismatch { expected: usize, actual: usize },
}

/// The contractual content of a `ParseError`: its kind and its structured
/// fields, with the free-form diagnostic text dropped.
pub enum ErrorView {
    EmptyFile,
    InvalidAtomCount,
    MissingCommentLine,
    InvalidAtomLine(int),
    InvalidCoordinate(int),
    AtomCountMismatch { expected: int, actual: int },
}

impl View for ParseError {
    type V = ErrorView;

    open spec fn view(&self) -> ErrorView {
        match self {
            ParseError::EmptyFile => ErrorView::EmptyFile,
            ParseError::InvalidAtomCount(_) => ErrorView::InvalidAtomCount,
            ParseError::MissingCommentLine => ErrorView::MissingCommentLine,
            ParseError::InvalidAtomLine(line, _) => ErrorView::InvalidAtomLine(*line as int),
            ParseError::InvalidCoordinate(line, _) => ErrorView::InvalidCoordinate(*line as int),
            ParseError::AtomCountMismatch { expected, actual } => ErrorView::AtomCountMismatch {
                expected: *expected as int,
                actual: *actual as int,
            },
        }
    }
}

pub open spec fn dec_digit(d: int) -> char {
    if d == 0 {
        '0'
    } else if d == 1 {
        '1'
    } else if d == 2 {
        '2'
    } else if d == 3 {
        '3'
    } else if d == 4 {
        '4'
    } else if d == 5 {
        '5'
    } else if d == 6 {
        '6'
    } else if d == 7 {
        '7'
    } else if d == 8 {
        '8'
    } else {
        '9'
    }
}

/// The decimal rendering of a number, most significant digit first.
pub open spec fn dec_chars(n: nat) -> Seq<char>
    decreases n,
{
    if n < 10 {
        seq![dec_digit(n as int)]
    } else {
        dec_chars(n / 10).push(dec_digit((n % 10) as int))
    }
}

fn digit_str(d: usize) -> (r: &'static str)
    requires
        d < 10,
    ensures
        r@ =~= seq![dec_digit(d as int)],
{
    proof {
        reveal_strlit("0");
        reveal_strlit("1");
        reveal_strlit("2");
        reveal_strlit("3");
        reveal_strlit("4");
        reveal_strlit("5");
        reveal_strlit("6");
        reveal_strlit("7");
        reveal_strlit("8");
        reveal_strlit("9");
    }
    match d {
        0 => "0",
        1 => "1",
        2 => "2",
        3 => "3",
        4 => "4",
        5 => "5",
        6 => "6",
        7 => "7",
        8 => "8",
        _ => "9",
    }
}

/// The decimal rendering of a number as an owned string.
pub fn decimal_string(n: usize) -> (r: String)
    ensures
        r@ == dec_chars(n as nat),
    decreases n,
{
    if n < 10 {
        String::from_str(digit_str(n))
    } else {
        let mut s = decimal_string(n / 10);
        s.append(digit_str(n % 10));
        proof {
            assert(dec_chars((n / 10) as nat) + seq![dec_digit((n % 10) as int)] =~= dec_chars(
                (n / 10) as nat,
            ).push(dec_digit((n % 10) as int)));
        }
        s
    }
}

impl ParseError {
    /// The human-readable, line-numbered description of the error.
    pub open spec fn message_view(self) -> Seq<char> {
        match self {
            ParseError::EmptyFile => "empty file"@,
            ParseError::InvalidAtomCount(m) => "invalid atom count: "@ + m@,
            ParseError::MissingCommentLine => "missing comment line"@,
            ParseError::InvalidAtomLine(line, m) => "invalid atom line at line "@ + dec_chars(
                line as nat,
            ) + ": "@ + m@,
            ParseError::InvalidCoordinate(line, m) => "invalid coordinate at line "@ + dec_chars(
                line as nat,
            ) + ": "@ + m@,
            ParseError::AtomCountMismatch { expected, actual } => "atom count mismatch: expected "@
                + dec_chars(expected as nat) + " atoms, found "@ + dec_chars(actual as nat),
        }
    }

    /// Renders the error for a reader, kind by kind.
    pub fn message(&self) -> (r: String)
        ensures
            r@ == self.message_view(),
    {
        match self {
            ParseError::EmptyFile => String::from_str("empty file"),
            ParseError::InvalidAtomCount(m) => {
                let mut s = String::from_str("invalid atom count: ");
                s.append(m.as_str());
                s
            },
            ParseError::MissingCommentLine => String::from_str("missing comment line"),
            ParseError::InvalidAtomLine(line, m) => {
                let mut s = String::from_str("invalid atom line at line ");
                let num = decimal_string(*line);
                s.append(num.as_str());
                s.append(": ");
                s.append(m.as_str());
                s
            },
            ParseError::InvalidCoordinate(line, m) => {
                let mut s = String::from_str("invalid coordinate at line ");
                let num = decimal_string(*line);
                s.append(num.as_str());
                s.append(": ");
                s.append(m.as_str());
                s
            },
            ParseError::AtomCountMismatch { expected, actual } => {
                let mut s = String::from_str("atom count mismatch: expected ");
                let e = decimal_string(*expected);
                s.append(e.as_str());
                s.append(" atoms, found ");
                let a = decimal_string(*actual);
                s.append(a.as_str());
                s
            },
        }
    }
}

} // verus!

use vstd::prelude::*;

use crate::text::push_char;

verus! {

/// A range of character positions in the parsed text, `start` inclusive, `end` exclusive.
#[derive(Clone, Copy, Debug, PartialEq, Eq, Structural)]
pub struct Span {
    pub start: usize,
    pub end: usize,
}

/// Representation of errors encountered during .acf parsing
#[derive(Debug, PartialEq, Eq)]
pub enum AcfError {
    /// An error occurred reading a file
    Read(String),
    /// An error occurring during parsing (with specific sub-type)
    Parse(ParseError),
    /// An unknown/uncategorized error
    Unknown,
}

/// Errors of the I/O layer that lie outside the categories above.
#[derive(Clone, Copy, Debug, PartialEq, Eq, Structural)]
pub enum IOError {
    /// An unknown/uncategorized error
    Unknown,
}

/// Grammar violations.
#[derive(Clone, Copy, Debug, PartialEq, Eq, Structural)]
pub enum ParseError {
    /// The input ended inside a block: its closing brace was never found. The span runs from
    /// the block's opening brace to the point where the closing brace was owed.
    ExpectedClosingBrace(Span),
    /// An unknown/uncategorized error
    Unknown,
}

impl Default for AcfError {
    fn default() -> (r: AcfError)
        ensures
            r is Unknown,
    {
        AcfError::Unknown
    }
}

impl Default for IOError {
    fn default() -> (r: IOError)
        ensures
            r is Unknown,
    {
        IOError::Unknown
    }
}

impl Default for ParseError {
    fn default() -> (r: ParseError)
        ensures
            r is Unknown,
    {
        ParseError::Unknown
    }
}

/// The human-readable text of an `AcfError`.
pub open spec fn acf_error_text(e: AcfError) -> Seq<char> {
    match e {
        AcfError::Read(path) => "failed to read '"@ + path@ + "'"@,
        AcfError::Parse(_) => "the provided input could not be parsed"@,
        AcfError::Unknown => "an unknown error occurred"@,
    }
}

impl AcfError {
    /// Renders the error for a reader.
    pub fn message(&self) -> (r: String)
        ensures
            r@ == acf_error_text(*self),
    {
        match self {
            AcfError::Read(path) => {
                let mut r = String::from_str("failed to read '");
                r.append(path.as_str());
                r.append("'");
                r
            },
            AcfError::Parse(_) => String::from_str("the provided input could not be parsed"),
            AcfError::Unknown => String::from_str("an unknown error occurred"),
        }
    }

    /// The underlying cause: the grammar violation of a parse failure, nothing otherwise.
    pub fn source(&self) -> (r: Option<ParseError>)
        ensures
            r == (match *self {
                AcfError::Parse(p) => Some(p),
                _ => None::<ParseError>,
            }),
    {
        match self {
            AcfError::Parse(p) => Some(*p),
            _ => None,
        }
    }
}

impl IOError {
    /// Renders the error for a reader.
    pub fn message(&self) -> (r: String)
        ensures
            r@ == "an unknown I/O error occurred"@,
    {
        String::from_str("an unknown I/O error occurred")
    }
}

/// The decimal digits of `n`, without leading zeros.
pub open spec fn decimal(n: nat) -> Seq<char>
    decreases n,
{
    if n < 10 {
        seq![((48 + n) as u8) as char]
    } else {
        decimal(n / 10).push(((48 + n % 10) as u8) as char)
    }
}

/// Appends the decimal digits of `n` to `out`.
fn push_decimal(out: &mut String, n: usize)
    ensures
        final(out)@ == old(out)@ + decimal(n as nat),
    decreases n,
{
    if n >= 10 {
        push_decimal(out, n / 10);
    }
    let d = (n % 10) as u8;
    push_char(out, (48 + d) as char);
    assert(final(out)@ =~= old(out)@ + decimal(n as nat));
}

/// The human-readable text of a `ParseError`.
pub open spec fn parse_error_text(e: ParseError) -> Seq<char> {
    match e {
        ParseError::ExpectedClosingBrace(span) => "expected a closing brace within '"@ + decimal(
            span.start as nat,
        ) + ".."@ + decimal(span.end as nat) + "'"@,
        ParseError::Unknown => "an unknown parsing error occurred"@,
    }
}

impl ParseError {
    /// Renders the error for a reader.
    pub fn message(&self) -> (r: String)
        ensures
            r@ == parse_error_text(*self),
    {
        match self {
            ParseError::ExpectedClosingBrace(span) => {
                let mut r = String::from_str("expected a closing brace within '");
                push_decimal(&mut r, span.start);
                r.append("..");
                push_decimal(&mut r, span.end);
                r.append("'");
                r
            },
            ParseError::Unknown => String::from_str("an unknown parsing error occurred"),
        }
    }
}

} // verus!

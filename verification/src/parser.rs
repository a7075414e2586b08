//! What a syntax error says.
//!
//! The parser itself is generated from the grammar and is not part of this
//! library. What it reports when the source does not parse is turned into a
//! message here.

use vstd::prelude::*;
use lalrpop_util::lexer::Token;
use lalrpop_util::ParseError;
use crate::text::{decimal, push_decimal};

verus! {

/// `lalrpop_util::ParseError`, what a generated parser returns for a source
/// that it cannot parse. Nothing is known of a value of it here.
#[verifier::external_type_specification]
#[verifier::external_body]
#[verifier::reject_recursive_types(L)]
#[verifier::reject_recursive_types(T)]
#[verifier::reject_recursive_types(E)]
pub struct ExParseError<L, T, E>(ParseError<L, T, E>);

/// `lalrpop_util::lexer::Token`, a token by its kind and its text. Nothing
/// is known of a value of it here.
#[verifier::external_type_specification]
#[verifier::external_body]
pub struct ExToken<'input>(Token<'input>);

/// A syntax error, with the text of the token that it is about.
#[derive(Debug, PartialEq, Eq)]
pub enum SyntaxError {
    InvalidToken { location: usize },
    UnrecognizedToken { found: String, expected: Vec<String> },
    UnrecognizedEof { location: usize },
    ExtraToken { found: String },
    User { error: String },
}

/// Tells the variants of `lalrpop_util::ParseError` apart and moves their
/// fields over. Of a `lalrpop_util::lexer::Token` the text is kept, its
/// second field, and of an unexpected end of input the location only.
/// Nothing is claimed of the result.
#[verifier::external_body]
fn classify(error: ParseError<usize, Token<'_>, &'static str>) -> SyntaxError {
    match error {
        ParseError::InvalidToken { location } => SyntaxError::InvalidToken { location },
        ParseError::UnrecognizedToken { token, expected } => SyntaxError::UnrecognizedToken {
            found: (token.1).1.to_string(),
            expected,
        },
        ParseError::UnrecognizedEof { location, .. } => SyntaxError::UnrecognizedEof { location },
        ParseError::ExtraToken { token } => SyntaxError::ExtraToken {
            found: (token.1).1.to_string(),
        },
        ParseError::User { error } => SyntaxError::User { error: error.to_string() },
    }
}

/// A [`SyntaxError`] as plain values.
pub enum SyntaxFault {
    InvalidToken { location: nat },
    UnrecognizedToken { found: Seq<char>, expected: Seq<Seq<char>> },
    UnrecognizedEof { location: nat },
    ExtraToken { found: Seq<char> },
    User { error: Seq<char> },
}

/// The texts of a list of strings.
pub open spec fn texts(strings: Seq<String>) -> Seq<Seq<char>> {
    strings.map_values(|s: String| s@)
}

impl View for SyntaxError {
    type V = SyntaxFault;

    open spec fn view(&self) -> SyntaxFault {
        match self {
            SyntaxError::InvalidToken { location } => SyntaxFault::InvalidToken {
                location: *location as nat,
            },
            SyntaxError::UnrecognizedToken { found, expected } => SyntaxFault::UnrecognizedToken {
                found: found@,
                expected: texts(expected@),
            },
            SyntaxError::UnrecognizedEof { location } => SyntaxFault::UnrecognizedEof {
                location: *location as nat,
            },
            SyntaxError::ExtraToken { found } => SyntaxFault::ExtraToken { found: found@ },
            SyntaxError::User { error } => SyntaxFault::User { error: error@ },
        }
    }
}

/// What `{:?}` prints for a string: the string between double quotes, with
/// the characters that need it escaped.
pub uninterp spec fn debug_quoted(s: Seq<char>) -> Seq<char>;

/// `format!("{:?}", s)`, which is `<str as core::fmt::Debug>::fmt`: what it
/// prints is a function of the characters of `s` alone, and that function
/// has the name `debug_quoted`. Nothing more is claimed of it.
#[verifier::external_body]
fn debug_text(s: &str) -> (r: String)
    ensures
        r@ == debug_quoted(s@),
{
    format!("{:?}", s)
}

/// How the grammar names the identifiers among the tokens it expects.
pub open spec fn identifier_pattern() -> Seq<char> {
    "r#\"[a-zA-z][a-zA-z0-9_]*\"#"@
}

/// How the grammar names the string literals among the tokens it expects.
pub open spec fn literal_pattern() -> Seq<char> {
    "r#\"'.*'\"#"@
}

/// The name of an expected token for people: the two patterns have names,
/// every other token is named as the grammar names it.
pub open spec fn friendly(expected: Seq<char>) -> Seq<char> {
    if expected == identifier_pattern() {
        "an identifier"@
    } else if expected == literal_pattern() {
        "a string literal"@
    } else {
        expected
    }
}

/// The expected tokens by their friendly names, each as `{:?}` prints it,
/// with `, ` between them.
pub open spec fn listed(expected: Seq<Seq<char>>) -> Seq<char>
    decreases expected.len(),
{
    if expected.len() == 0 {
        Seq::empty()
    } else if expected.len() == 1 {
        debug_quoted(friendly(expected[0]))
    } else {
        listed(expected.drop_last()) + ", "@ + debug_quoted(friendly(expected.last()))
    }
}

/// The message of a syntax error.
pub open spec fn syntax_message(fault: SyntaxFault) -> Seq<char> {
    match fault {
        SyntaxFault::InvalidToken { location } => "invalid token at "@ + decimal(location),
        SyntaxFault::UnrecognizedToken { found, expected } => "expected ["@ + listed(expected)
            + "], found "@ + found,
        SyntaxFault::UnrecognizedEof { location } => "unexpected EoF at location "@ + decimal(
            location,
        ),
        SyntaxFault::ExtraToken { found } => "extra token: "@ + found,
        SyntaxFault::User { error } => error,
    }
}

/// The friendly name of an expected token.
pub fn friendly_name(expected: &String) -> (r: String)
    ensures
        r@ == friendly(expected@),
{
    let identifier: String = "r#\"[a-zA-z][a-zA-z0-9_]*\"#".to_owned();
    let literal: String = "r#\"'.*'\"#".to_owned();
    if *expected == identifier {
        "an identifier".to_owned()
    } else if *expected == literal {
        "a string literal".to_owned()
    } else {
        expected.clone()
    }
}

impl SyntaxError {
    /// The message of the error.
    pub fn message(&self) -> (r: String)
        ensures
            r@ == syntax_message(self@),
    {
        let mut out: String = String::new();
        match self {
            SyntaxError::InvalidToken { location } => {
                out.append("invalid token at ");
                push_decimal(&mut out, *location as u64);
            },
            SyntaxError::UnrecognizedToken { found, expected } => {
                out.append("expected [");
                let ghost names = texts(expected@);
                let mut i: usize = 0;
                while i < expected.len()
                    invariant
                        i <= expected.len(),
                        names == texts(expected@),
                        out@ == "expected ["@ + listed(names.take(i as int)),
                    decreases expected.len() - i,
                {
                    if i > 0 {
                        out.append(", ");
                    }
                    let name: String = friendly_name(&expected[i]);
                    let quoted: String = debug_text(name.as_str());
                    out.append(quoted.as_str());
                    proof {
                        let next = names.take(i + 1);
                        assert(next.drop_last() =~= names.take(i as int));
                    }
                    i = i + 1;
                }
                assert(names.take(expected.len() as int) =~= names);
                out.append("], found ");
                out.append(found.as_str());
            },
            SyntaxError::UnrecognizedEof { location } => {
                out.append("unexpected EoF at location ");
                push_decimal(&mut out, *location as u64);
            },
            SyntaxError::ExtraToken { found } => {
                out.append("extra token: ");
                out.append(found.as_str());
            },
            SyntaxError::User { error } => {
                out.append(error.as_str());
            },
        }
        out
    }
}

/// The message for what the parser reports: that of some syntax error.
pub fn parse_error_message(error: ParseError<usize, Token<'_>, &'static str>) -> (r: String)
    ensures
        exists|fault: SyntaxFault| r@ == syntax_message(fault),
{
    let syntax_error: SyntaxError = classify(error);
    let r = syntax_error.message();
    r
}

} // verus!

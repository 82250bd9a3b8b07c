//! Why a formula does not compile, and the message that says so.
use crate::expr::lexer::{Lexeme, Token};
use crate::text::{debug_of, debug_text, decimal, decimal_text};
use vstd::prelude::*;

verus! {

/// The reason a formula is refused.
#[derive(Debug)]
pub enum Fault {
    /// A run of number characters that is not a number.
    InvalidNumber(String),
    /// A character that starts no token.
    UnexpectedCharacter(char),
    /// A token that starts no term.
    UnexpectedToken(Token),
    /// A call of something that is not a built-in function.
    UnknownFunction(String),
    /// A call with the wrong number of arguments.
    WrongArity { name: String, takes: usize, got: usize },
    /// A name that is neither a constant nor a variable.
    UnknownName(String),
    /// A missing token, and what stands in its place.
    Expected { expected: Token, found: Token },
    /// Tokens left over after a complete expression.
    TrailingInput,
    /// An evaluation-stack depth past the cap.
    TooDeep,
}

/// What a [`Fault`] says, over character sequences.
pub ghost enum Failure {
    InvalidNumber(Seq<char>),
    UnexpectedCharacter(char),
    UnexpectedToken(Lexeme),
    UnknownFunction(Seq<char>),
    WrongArity(Seq<char>, nat, nat),
    UnknownName(Seq<char>),
    Expected(Lexeme, Lexeme),
    TrailingInput,
    TooDeep,
}

impl View for Fault {
    type V = Failure;

    open spec fn view(&self) -> Failure {
        match self {
            Fault::InvalidNumber(text) => Failure::InvalidNumber(text@),
            Fault::UnexpectedCharacter(c) => Failure::UnexpectedCharacter(*c),
            Fault::UnexpectedToken(t) => Failure::UnexpectedToken(t@),
            Fault::UnknownFunction(name) => Failure::UnknownFunction(name@),
            Fault::WrongArity { name, takes, got } => Failure::WrongArity(
                name@,
                *takes as nat,
                *got as nat,
            ),
            Fault::UnknownName(name) => Failure::UnknownName(name@),
            Fault::Expected { expected, found } => Failure::Expected(expected@, found@),
            Fault::TrailingInput => Failure::TrailingInput,
            Fault::TooDeep => Failure::TooDeep,
        }
    }
}

/// `shown` takes every numeral.
pub open spec fn shows_all<F: Fn(&str) -> String>(shown: F) -> bool {
    forall|s: &str| #[trigger] call_requires(shown, (s,))
}

/// `shown` prints a numeral as `m` says.
pub open spec fn shows<F: Fn(&str) -> String>(shown: F, m: spec_fn(Seq<char>) -> Seq<char>) -> bool {
    forall|s: &str, r: String| #[trigger] call_ensures(shown, (s,), r) ==> r@ == m(s@)
}

/// The name under which a message mentions a token. `shown` prints the value of a numeral.
pub open spec fn lexeme_text(t: Lexeme, shown: spec_fn(Seq<char>) -> Seq<char>) -> Seq<char> {
    match t {
        Lexeme::Number(text) => "Number("@ + shown(text) + ")"@,
        Lexeme::Ident(name) => "Ident("@ + debug_of(name) + ")"@,
        Lexeme::Plus => "Plus"@,
        Lexeme::Minus => "Minus"@,
        Lexeme::Star => "Star"@,
        Lexeme::Slash => "Slash"@,
        Lexeme::Caret => "Caret"@,
        Lexeme::LParen => "LParen"@,
        Lexeme::RParen => "RParen"@,
        Lexeme::Comma => "Comma"@,
        Lexeme::End => "End"@,
    }
}

/// The message of a failure. `shown` prints the value of a numeral.
pub open spec fn failure_text(f: Failure, shown: spec_fn(Seq<char>) -> Seq<char>) -> Seq<char> {
    match f {
        Failure::InvalidNumber(text) => "invalid number \""@ + text + "\""@,
        Failure::UnexpectedCharacter(c) => ("unexpected character '"@).push(c) + "'"@,
        Failure::UnexpectedToken(t) => "unexpected token "@ + lexeme_text(t, shown),
        Failure::UnknownFunction(name) => "unknown function \""@ + name + "\""@,
        Failure::WrongArity(name, takes, got) => name + " takes "@ + decimal(takes)
            + " argument(s), got "@ + decimal(got),
        Failure::UnknownName(name) => "unknown name \""@ + name + "\""@,
        Failure::Expected(expected, found) => "expected "@ + lexeme_text(expected, shown)
            + ", found "@ + lexeme_text(found, shown),
        Failure::TrailingInput => "unexpected trailing input"@,
        Failure::TooDeep => "expression is too deeply nested"@,
    }
}

/// A compile failure.
#[derive(Debug)]
pub struct ExprError {
    /// The reason.
    pub fault: Fault,
}

impl ExprError {
    /// The error for a reason.
    pub fn new(fault: Fault) -> (r: Self)
        ensures
            r.fault == fault,
    {
        ExprError { fault }
    }

    /// The human-readable message for the node to surface, e.g. `unknown name "heigth"`. `shown`
    /// prints the value of a numeral.
    pub fn message<F: Fn(&str) -> String>(&self, shown: &F) -> (r: String)
        requires
            shows_all(*shown),
        ensures
            forall|m: spec_fn(Seq<char>) -> Seq<char>| #[trigger]
                shows(*shown, m) ==> r@ == failure_text(self.fault@, m),
    {
        fault_text(&self.fault, shown)
    }
}

/// `head`, `body` and `tail`, one after the other.
fn surround(head: &str, body: &str, tail: &str) -> (r: String)
    ensures
        r@ == head@ + body@ + tail@,
{
    head.to_owned().concat(body).concat(tail)
}

/// The name under which a message mentions a token.
fn token_text<F: Fn(&str) -> String>(t: &Token, shown: &F) -> (r: String)
    requires
        shows_all(*shown),
    ensures
        forall|m: spec_fn(Seq<char>) -> Seq<char>| #[trigger]
            shows(*shown, m) ==> r@ == lexeme_text(t@, m),
{
    match t {
        Token::Number(text) => {
            let value: String = shown(text.as_str());
            surround("Number(", value.as_str(), ")")
        },
        Token::Ident(name) => surround("Ident(", debug_text(name.as_str()).as_str(), ")"),
        Token::Plus => "Plus".to_owned(),
        Token::Minus => "Minus".to_owned(),
        Token::Star => "Star".to_owned(),
        Token::Slash => "Slash".to_owned(),
        Token::Caret => "Caret".to_owned(),
        Token::LParen => "LParen".to_owned(),
        Token::RParen => "RParen".to_owned(),
        Token::Comma => "Comma".to_owned(),
        Token::End => "End".to_owned(),
    }
}

/// The message of a reason.
fn fault_text<F: Fn(&str) -> String>(f: &Fault, shown: &F) -> (r: String)
    requires
        shows_all(*shown),
    ensures
        forall|m: spec_fn(Seq<char>) -> Seq<char>| #[trigger]
            shows(*shown, m) ==> r@ == failure_text(f@, m),
{
    match f {
        Fault::InvalidNumber(text) => surround("invalid number \"", text.as_str(), "\""),
        Fault::UnexpectedCharacter(c) => {
            let mut out: String = "unexpected character '".to_owned();
            out.push(*c);
            out.concat("'")
        },
        Fault::UnexpectedToken(t) => {
            "unexpected token ".to_owned().concat(token_text(t, shown).as_str())
        },
        Fault::UnknownFunction(name) => surround("unknown function \"", name.as_str(), "\""),
        Fault::WrongArity { name, takes, got } => {
            surround(name.as_str(), " takes ", decimal_text(*takes).as_str()).concat(
                " argument(s), got ",
            ).concat(decimal_text(*got).as_str())
        },
        Fault::UnknownName(name) => surround("unknown name \"", name.as_str(), "\""),
        Fault::Expected { expected, found } => {
            surround("expected ", token_text(expected, shown).as_str(), ", found ").concat(
                token_text(found, shown).as_str(),
            )
        },
        Fault::TrailingInput => "unexpected trailing input".to_owned(),
        Fault::TooDeep => "expression is too deeply nested".to_owned(),
    }
}

} // verus!

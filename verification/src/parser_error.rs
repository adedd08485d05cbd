//! Syntax errors, and the slot that holds the one that was reported last.
//! The parser reports nothing while the slot is full, so that the first
//! error of a parse stays in it.

use crate::text::{join, owned};
use crate::token::{Token, TokenView};
use vstd::prelude::*;

verus! {

/// The classes of errors that the parser reports.
#[derive(Clone, Copy, Debug, PartialEq, Eq, Structural)]
pub enum ParserErrorKind {
    SyntaxError,
}

impl ParserErrorKind {
    /// The label of the class, as it is shown.
    pub open spec fn text(self) -> Seq<char> {
        "[Syntax Error]"@
    }

    /// The label of the class, as it is shown.
    pub fn to_string(&self) -> (r: String)
        ensures
            r@ == self.text(),
    {
        owned("[Syntax Error]")
    }
}

/// A syntax error: its class and a message.
#[derive(Debug, PartialEq)]
pub struct ParserError {
    kind: ParserErrorKind,
    msg: String,
}

/// The mathematical model of a [`ParserError`].
pub struct ParserErrorView {
    pub kind: ParserErrorKind,
    pub msg: Seq<char>,
}

impl View for ParserError {
    type V = ParserErrorView;

    closed spec fn view(&self) -> ParserErrorView {
        ParserErrorView { kind: self.kind, msg: self.msg@ }
    }
}

impl ParserErrorView {
    /// The error as one line: the label of its class, a colon, the message.
    pub open spec fn text(self) -> Seq<char> {
        self.kind.text() + ": "@ + self.msg
    }
}

impl Clone for ParserError {
    fn clone(&self) -> (r: Self)
        ensures
            r@ == self@,
    {
        ParserError { kind: self.kind, msg: self.msg.clone() }
    }
}

impl ParserError {
    /// The class of the error.
    pub fn kind(&self) -> (r: ParserErrorKind)
        ensures
            r == self@.kind,
    {
        self.kind
    }

    /// The message of the error.
    pub fn message(&self) -> (r: &String)
        ensures
            r@ == self@.msg,
    {
        &self.msg
    }

    /// The error as one line.
    pub fn to_string(&self) -> (r: String)
        ensures
            r@ == self@.text(),
    {
        let label = self.kind.to_string();
        let mut out = join(label.as_str(), ": ");
        out.append(self.msg.as_str());
        out
    }
}

/// The message for a token that stands where a name is expected.
pub open spec fn identifier_message(token: TokenView) -> Seq<char> {
    "'"@ + token.text() + "' cannot be used as identifier"@
}

/// The message for a token that stands where another is expected.
pub open spec fn expected_message(expected: TokenView, provided: TokenView) -> Seq<char> {
    "expected '"@ + expected.text() + "' but provided '"@ + provided.text() + "'"@
}

/// The message for a token that can start nothing where it stands.
pub open spec fn unexpected_message(token: TokenView) -> Seq<char> {
    "unexpected "@ + token.text()
}

/// The message for a token that stands where a type is expected.
pub open spec fn type_annot_message(token: TokenView) -> Seq<char> {
    "Invalid type: "@ + token.text()
}

/// The message for an assignment whose left side is no name.
pub open spec fn assignment_message() -> Seq<char> {
    "Left side of assignment must an identifier"@
}

/// The message for a declaration of the type `void`.
pub open spec fn void_variable_message(name: Seq<char>) -> Seq<char> {
    "Variable '"@ + name + "' can't be of type 'void'"@
}

/// The message for a declaration with neither a type nor an initializer.
pub open spec fn missing_type_message(name: Seq<char>) -> Seq<char> {
    "Missing type of '"@ + name + "', provide it's type or initialize it"@
}

/// The message for a parameter of the type `void`.
pub open spec fn void_parameter_message() -> Seq<char> {
    "Function parameter can't not be of type 'void'"@
}

/// The slot after a syntax error with the message `msg` is reported to it:
/// that error, whatever the slot held.
pub open spec fn reported(msg: Seq<char>) -> Option<ParserErrorView> {
    Some(ParserErrorView { kind: ParserErrorKind::SyntaxError, msg })
}

/// The slot for the error of a parse.
#[derive(Debug)]
pub struct ParserErrorHandler {
    error: Option<ParserError>,
}

impl View for ParserErrorHandler {
    type V = Option<ParserErrorView>;

    closed spec fn view(&self) -> Option<ParserErrorView> {
        match self.error {
            Some(e) => Some(e@),
            None => None,
        }
    }
}

impl ParserErrorHandler {
    /// An empty slot.
    pub fn new() -> (r: Self)
        ensures
            r@ is None,
    {
        Self { error: None }
    }

    /// Whether an error is held.
    pub fn has_error(&self) -> (r: bool)
        ensures
            r == (self@ is Some),
    {
        if self.error.is_some() {
            return true;
        }
        false
    }

    /// Records an error in place of what the slot held.
    pub fn set_error(&mut self, kind: ParserErrorKind, msg: String)
        ensures
            final(self)@ == Some(ParserErrorView { kind, msg: msg@ }),
    {
        self.error = Some(ParserError { kind, msg });
    }

    /// A copy of the error that is held, if any.
    pub fn get_error(&self) -> (r: Option<ParserError>)
        ensures
            match self@ {
                Some(e) => r is Some && r->Some_0@ == e,
                None => r is None,
            },
    {
        match &self.error {
            Some(e) => Some(e.clone()),
            None => None,
        }
    }

    /// Reports an assignment whose left side is no name.
    pub fn set_invalid_left_side_of_assignment_error(&mut self)
        ensures
            final(self)@ == reported(assignment_message()),
    {
        self.set_error(
            ParserErrorKind::SyntaxError,
            owned("Left side of assignment must an identifier"),
        );
    }

    /// Reports a token that stands where a name is expected.
    pub fn set_identifier_error(&mut self, token: &Token)
        ensures
            final(self)@ == reported(identifier_message(token@)),
    {
        let shown = token.to_string();
        let mut msg = join("'", shown.as_str());
        msg.append("' cannot be used as identifier");
        self.set_error(ParserErrorKind::SyntaxError, msg);
    }

    /// Reports a token that stands where another is expected.
    pub fn set_expected_but_provided_error(&mut self, expected: &Token, provided: &Token)
        ensures
            final(self)@ == reported(expected_message(expected@, provided@)),
    {
        let want = expected.to_string();
        let got = provided.to_string();
        let mut msg = join("expected '", want.as_str());
        msg.append("' but provided '");
        msg.append(got.as_str());
        msg.append("'");
        self.set_error(ParserErrorKind::SyntaxError, msg);
    }

    /// Reports a token that can start nothing where it stands.
    pub fn set_unexpexted_token_error(&mut self, token: &Token)
        ensures
            final(self)@ == reported(unexpected_message(token@)),
    {
        let shown = token.to_string();
        let msg = join("unexpected ", shown.as_str());
        self.set_error(ParserErrorKind::SyntaxError, msg);
    }

    /// Reports a token that stands where a type is expected.
    pub fn set_not_type_annot_error(&mut self, token: &Token)
        ensures
            final(self)@ == reported(type_annot_message(token@)),
    {
        let shown = token.to_string();
        let msg = join("Invalid type: ", shown.as_str());
        self.set_error(ParserErrorKind::SyntaxError, msg);
    }
}

} // verus!

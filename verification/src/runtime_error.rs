//! Errors of evaluation, and the slot that holds the first of them.

use crate::text::{join, owned};
use vstd::prelude::*;

verus! {

/// The classes of runtime errors.
#[derive(Clone, Copy, Debug, PartialEq, Eq, Structural)]
pub enum ErrorKind {
    /// An unknown name, a second declaration, an assignment to a constant.
    NameError,
    /// A value of the wrong type.
    TypeError,
    /// A built-in called with the wrong number or kind of arguments.
    ArgumentError,
    /// A value that the operation cannot take.
    ValueError,
    /// Input or output failed.
    IOError,
}

impl ErrorKind {
    /// The label of the class, as it is shown.
    pub open spec fn text(self) -> Seq<char> {
        match self {
            ErrorKind::NameError => "[Name error]"@,
            ErrorKind::TypeError => "[Type Error]"@,
            ErrorKind::ArgumentError => "[Argument Error]"@,
            ErrorKind::ValueError => "[Value Error]"@,
            ErrorKind::IOError => "[IO Error]"@,
        }
    }

    /// The label of the class, as it is shown.
    pub fn to_string(&self) -> (r: String)
        ensures
            r@ == self.text(),
    {
        match self {
            ErrorKind::NameError => owned("[Name error]"),
            ErrorKind::TypeError => owned("[Type Error]"),
            ErrorKind::ArgumentError => owned("[Argument Error]"),
            ErrorKind::ValueError => owned("[Value Error]"),
            ErrorKind::IOError => owned("[IO Error]"),
        }
    }
}

/// A runtime error: its class and a message.
#[derive(Debug, PartialEq)]
pub struct RuntimeError {
    pub kind: ErrorKind,
    pub msg: String,
}

/// The mathematical model of a [`RuntimeError`].
pub struct RuntimeErrorView {
    pub kind: ErrorKind,
    pub msg: Seq<char>,
}

impl View for RuntimeError {
    type V = RuntimeErrorView;

    open spec fn view(&self) -> RuntimeErrorView {
        RuntimeErrorView { kind: self.kind, msg: self.msg@ }
    }
}

impl RuntimeErrorView {
    /// The error as one line: the label of its class, a space, the message.
    pub open spec fn text(self) -> Seq<char> {
        self.kind.text() + " "@ + self.msg
    }
}

impl Clone for RuntimeError {
    fn clone(&self) -> (r: Self)
        ensures
            r@ == self@,
    {
        RuntimeError { kind: self.kind, msg: self.msg.clone() }
    }
}

impl RuntimeError {
    /// An error of class `kind` with the message `msg`.
    pub fn new(kind: ErrorKind, msg: &str) -> (r: Self)
        ensures
            r@ == (RuntimeErrorView { kind, msg: msg@ }),
    {
        RuntimeError { kind, msg: owned(msg) }
    }

    /// The error as one line.
    pub fn to_string(&self) -> (r: String)
        ensures
            r@ == self@.text(),
    {
        let label = self.kind.to_string();
        let mut out = join(label.as_str(), " ");
        out.append(self.msg.as_str());
        out
    }
}

/// The slot for the first error of an evaluation.
#[derive(Debug)]
pub struct RuntimeErrorHandler {
    error: Option<RuntimeError>,
}

impl View for RuntimeErrorHandler {
    type V = Option<RuntimeErrorView>;

    closed spec fn view(&self) -> Option<RuntimeErrorView> {
        match self.error {
            Some(e) => Some(e@),
            None => None,
        }
    }
}

impl RuntimeErrorHandler {
    /// An empty slot.
    pub fn new() -> (r: Self)
        ensures
            r@ is None,
    {
        Self { error: None }
    }

    /// Whether an error is held.
    pub fn has_error(&self) -> (r: bool)
        ensures
            r == (self@ is Some),
    {
        self.error.is_some()
    }

    /// A copy of the error that is held, if any.
    pub fn get_error(&self) -> (r: Option<RuntimeError>)
        ensures
            match self@ {
                Some(e) => r is Some && r->Some_0@ == e,
                None => r is None,
            },
    {
        match &self.error {
            Some(e) => Some(e.clone()),
            None => None,
        }
    }

    /// Records a name error, unless an error is held already.
    pub fn set_name_error(&mut self, msg: String)
        ensures
            final(self)@ == record(old(self)@, ErrorKind::NameError, msg@),
    {
        self.set_error(ErrorKind::NameError, msg)
    }

    /// Records a type error, unless an error is held already.
    pub fn set_type_error(&mut self, msg: String)
        ensures
            final(self)@ == record(old(self)@, ErrorKind::TypeError, msg@),
    {
        self.set_error(ErrorKind::TypeError, msg)
    }

    /// Records a failure of the program's meaning, such as a `return`
    /// outside of a function. It counts as a name error.
    pub fn set_sematic(&mut self, msg: String)
        ensures
            final(self)@ == record(old(self)@, ErrorKind::NameError, msg@),
    {
        self.set_error(ErrorKind::NameError, msg)
    }

    /// Records an error, unless an error is held already: the first error
    /// stays.
    pub fn set_error(&mut self, kind: ErrorKind, msg: String)
        ensures
            final(self)@ == record(old(self)@, kind, msg@),
    {
        if self.error.is_none() {
            self.error = Some(RuntimeError { kind, msg });
        }
    }

    /// Empties the slot.
    pub fn clear(&mut self)
        ensures
            final(self)@ is None,
    {
        self.error = None;
    }
}

/// The slot after an error of class `kind` with message `msg` is reported to
/// it: what it held, or else the new error.
pub open spec fn record(slot: Option<RuntimeErrorView>, kind: ErrorKind, msg: Seq<char>) -> Option<
    RuntimeErrorView,
> {
    if slot is Some {
        slot
    } else {
        Some(RuntimeErrorView { kind, msg })
    }
}

} // verus!

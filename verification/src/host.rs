//! What the interpreter asks of the machine it runs on: the standard
//! streams, the end of the process, and arithmetic on floats.

use crate::ast::Infix;
use vstd::prelude::*;

verus! {

/// The services of the machine. The interpreter holds floats as the bit
/// patterns of IEEE 754 doubles and leaves every computation on them to the
/// host. Nothing is assumed of what a host returns.
pub trait Host {
    /// Writes `text` to the standard output and flushes it; says whether
    /// that worked.
    fn write(&mut self, text: &str) -> bool;

    /// Writes `text` and a line end to the standard error.
    fn write_error(&mut self, text: &str);

    /// Reads one line from the standard input, or nothing where that fails.
    fn read_line(&mut self) -> Option<String>;

    /// Ends the process with the exit code `code`. A host that returns
    /// instead lets the evaluation go on.
    fn exit(&mut self, code: i32);

    /// The float that a float literal's text denotes.
    fn float_from_text(&self, text: &str) -> u64;

    /// The text of a float, as it is shown.
    fn float_to_text(&self, bits: u64) -> String;

    /// The float that `+`, `-`, `*`, `/` or `%` gives on two floats.
    fn float_arith(&self, lhs: u64, infix: Infix, rhs: u64) -> u64;

    /// What a comparison gives on two floats.
    fn float_compare(&self, lhs: u64, infix: Infix, rhs: u64) -> bool;

    /// The square root of a float.
    fn float_sqrt(&self, bits: u64) -> u64;

    /// The float nearest to an integer.
    fn float_from_int(&self, value: i64) -> u64;
}

} // verus!

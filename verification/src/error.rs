//! Structured parse failures.
//!
//! A failure names the grammar rule that could not match and the position in
//! the input where it gave up.  As a failure propagates outward, every
//! enclosing rule adds a frame of its own, so one error value carries the
//! whole derivation path: innermost rule first, outermost rule last.

use vstd::prelude::*;

verus! {

/// A grammar rule, named in failure traces.
#[derive(Clone, Copy, Debug, PartialEq, Eq)]
pub enum Rule {
    /// The two-valued build-profile token.
    Profile,
    /// A release-channel token.
    Channel,
    /// A dotted version number.
    Version,
    /// The architecture segment of a platform triple.
    Architecture,
    /// The vendor segment of a platform triple.
    Vendor,
    /// The operating-system segment of a platform triple.
    System,
    /// The ABI tag that follows an operating-system keyword.
    SystemAbi,
    /// A whole platform triple.
    Host,
    /// A pinned calendar date.
    Date,
    /// A calendar date with a time of day.
    Datetime,
    /// A whole toolchain specifier.
    Toolchain,
}

/// How the input failed, broadly.
#[derive(Clone, Copy, Debug, PartialEq, Eq)]
pub enum ErrorKind {
    /// The input at the failing position matches no alternative of the rule.
    Syntax,
    /// Every rule matched but input remained after the last one.
    TrailingInput,
    /// A well-formed numeral or date does not denote a valid value.
    Value,
}

/// One step of a failure trace.
#[derive(Clone, Copy, Debug, PartialEq, Eq)]
pub struct Frame {
    /// The rule that failed.
    pub rule: Rule,
    /// The input position at which it failed.
    pub position: usize,
}

/// A parse failure: its kind and the rules it passed through on the way out.
#[derive(Debug)]
pub struct Error {
    /// Broad classification of the failure.
    pub kind: ErrorKind,
    /// The derivation path, innermost rule first.
    pub frames: Vec<Frame>,
}

impl Error {
    /// A fresh failure of `rule` at `position`.
    pub fn new(kind: ErrorKind, rule: Rule, position: usize) -> (r: Error)
        ensures
            r.kind == kind,
            r.frames@.len() == 1,
            r.frames@[0] == (Frame { rule, position }),
    {
        let mut frames: Vec<Frame> = Vec::new();
        frames.push(Frame { rule, position });
        Error { kind, frames }
    }

    /// The same failure, seen one rule further out.
    pub fn within(self, rule: Rule, position: usize) -> (r: Error)
        ensures
            r.kind == self.kind,
            r.frames@ == self.frames@.push(Frame { rule, position }),
    {
        let mut e = self;
        e.frames.push(Frame { rule, position });
        e
    }
}

} // verus!

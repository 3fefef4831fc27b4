//! Located errors, carried as data.

use vstd::prelude::*;

verus! {

/// A handle on a place in the source text.
///
/// The caller numbers the places it may need to point at and keeps the table;
/// the library only hands the numbers back.
#[derive(Clone, Copy, Debug, PartialEq, Eq, Structural)]
pub struct Location {
    pub slot: usize,
}

/// A message tied to a place in the source text.
#[derive(Debug, PartialEq, Eq)]
pub struct Diagnostic {
    pub message: String,
    pub location: Location,
}

/// What a check found wrong, as mathematics: the message and the place.
pub type Finding = (Seq<char>, Location);

impl Diagnostic {
    /// Ties `message` to `location`.
    pub fn new(message: String, location: Location) -> (d: Diagnostic)
        ensures
            d.finding() == (message@, location),
    {
        Diagnostic { message, location }
    }

    /// The message and the place of this diagnostic.
    pub open spec fn finding(self) -> Finding {
        (self.message@, self.location)
    }
}

/// Whether `result` reports exactly `finding`: success where there is none,
/// and otherwise a diagnostic with that message at that place.
pub open spec fn reports(result: Result<(), Diagnostic>, finding: Option<Finding>) -> bool {
    match result {
        Ok(_) => finding.is_none(),
        Err(d) => finding == Some(d.finding()),
    }
}

/// The first of two findings: `first` where there is one, else `second`.
pub open spec fn first_of(first: Option<Finding>, second: Option<Finding>) -> Option<Finding> {
    if first.is_some() {
        first
    } else {
        second
    }
}

/// What a transformation hands back for one annotated unit.
#[derive(Debug, PartialEq, Eq)]
pub enum Fragment<G> {
    /// The unit, followed by generated code.
    Generated(G),
    /// The unit as it was written.
    Verbatim,
    /// The unit as it was written, with a diagnostic that fails the build.
    Flagged(Diagnostic),
}

} // verus!

//! The first failure of the worker that stores activity events.

use vstd::prelude::*;
use crate::report::opt_text;

verus! {

/// The error that stopped the event worker, if any; only the first one is
/// kept.
#[derive(Debug)]
pub struct DispatcherFailure {
    first: Option<String>,
}

impl View for DispatcherFailure {
    type V = Option<Seq<char>>;

    closed spec fn view(&self) -> Option<Seq<char>> {
        opt_text(self.first)
    }
}

impl DispatcherFailure {
    /// No failure yet.
    pub fn new() -> (failure: DispatcherFailure)
        ensures
            failure@ is None,
    {
        DispatcherFailure { first: None }
    }

    /// The recorded error.
    pub fn error(&self) -> (error: Option<String>)
        ensures
            opt_text(error) == self@,
    {
        match &self.first {
            Some(e) => Some(e.clone()),
            None => None,
        }
    }

    /// Records an error unless one is recorded already: the first error wins.
    pub fn record(&mut self, error: &str)
        ensures
            final(self)@ == match old(self)@ {
                Some(e) => Some(e),
                None => Some(error@),
            },
    {
        if self.first.is_none() {
            self.first = Some(error.to_owned());
        }
    }
}

/// Once an error is recorded, further errors leave it unchanged.
pub proof fn law_first_failure_wins(recorded: Option<Seq<char>>, later: Seq<char>)
    requires
        recorded is Some,
    ensures
        (match recorded {
            Some(e) => Some(e),
            None => Some(later),
        }) == recorded,
{
}

} // verus!

use vstd::prelude::*;

verus! {

/// An internal failure, surfaced by the HTTP layer as a generic server error
/// without detail.
#[derive(Debug)]
pub struct TimelineFilterError(pub String);

impl TimelineFilterError {
    pub fn new(message: &str) -> (r: TimelineFilterError)
        ensures
            r.0@ == message@,
    {
        TimelineFilterError(message.to_owned())
    }

    /// The error's text.
    pub fn text(&self) -> (r: &String)
        ensures
            r == self.0,
    {
        &self.0
    }
}

} // verus!

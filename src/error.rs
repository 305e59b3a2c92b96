//! The kinds of failure the library reports.
use vstd::prelude::*;

verus! {

#[derive(PartialEq, Eq, Structural, Clone, Copy, Debug)]
pub enum Error {
    /// The markup could not be turned into a document.
    Parse,
    /// The selector text is not a valid CSS selector.
    Selector,
    /// A node identifier did not resolve in its document.
    Lookup,
    /// The document has more nodes than positions can address.
    Capacity,
}

impl Error {
    pub fn message(&self) -> (r: &'static str)
        ensures
            *self == Error::Parse ==> r@ == "markup could not be parsed"@,
            *self == Error::Selector ==> r@ == "invalid css selection string"@,
            *self == Error::Lookup ==> r@ == "node not found in its document"@,
            *self == Error::Capacity ==> r@ == "document has too many nodes"@,
    {
        match self {
            Error::Parse => "markup could not be parsed",
            Error::Selector => "invalid css selection string",
            Error::Lookup => "node not found in its document",
            Error::Capacity => "document has too many nodes",
        }
    }
}

} // verus!

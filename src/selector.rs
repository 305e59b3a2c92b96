//! CSS selectors, compiled once and matched against any scope.
use vstd::prelude::*;
use crate::error::Error;
use crate::markup::{compile_matcher, compiled_from, css_valid};

verus! {

/// A compiled CSS selector together with the text it was compiled from.
pub struct Selector {
    matcher: nipper::Matcher,
    source: String,
}

impl Selector {
    /// The text the selector was compiled from.
    pub closed spec fn text(&self) -> Seq<char> {
        self.source@
    }

    /// The matcher is what the text compiles to.
    #[verifier::type_invariant]
    closed spec fn inv(&self) -> bool {
        self.matcher == compiled_from(self.source@)
    }

    /// The compiled form, which the text alone determines.
    pub open spec fn compiled(&self) -> nipper::Matcher {
        compiled_from(self.text())
    }

    /// Compiles `selector`; the only failure is a selector-syntax error.
    pub fn parse(selector: &str) -> (r: Result<Selector, Error>)
        ensures
            r is Ok == css_valid(selector@),
            match r {
                Ok(s) => s.text() == selector@,
                Err(e) => e == Error::Selector,
            },
    {
        match compile_matcher(selector) {
            Some(matcher) => Ok(Selector { matcher, source: selector.to_owned() }),
            None => Err(Error::Selector),
        }
    }

    /// The text the selector was compiled from.
    pub fn as_str(&self) -> (r: &str)
        ensures
            r@ == self.text(),
    {
        self.source.as_str()
    }

    pub(crate) fn matcher(&self) -> (r: &nipper::Matcher)
        ensures
            *r == self.compiled(),
    {
        proof {
            use_type_invariant(self);
        }
        &self.matcher
    }
}

} // verus!

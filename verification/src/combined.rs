//! Containers of the parser layer: a parser made of alternatives, and the
//! scopes that value generators draw from.
use vstd::prelude::*;

verus! {

/// Alternative parsers, tried in order.
pub struct CombinedParser<P> {
    pub ps: Vec<P>,
}

impl<P> CombinedParser<P> {
    pub fn new() -> (r: Self)
        ensures
            r.ps@ == Seq::<P>::empty(),
    {
        CombinedParser { ps: Vec::new() }
    }
}

impl<P> Default for CombinedParser<P> {
    fn default() -> (r: Self)
        ensures
            r.ps@ == Seq::<P>::empty(),
    {
        CombinedParser::new()
    }
}

/// The bounds a generated value is drawn between.
#[derive(Debug)]
pub struct GenScope<T> {
    pub beg: T,
    pub end: T,
}

} // verus!

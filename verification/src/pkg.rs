//! Package identifiers: a base taken from the clock once, plus an order
//! counter.
use vstd::prelude::*;

verus! {

/// Identifier of a package.
pub type PkgID = u64;

/// Key under which unnamed items are stored.
pub const DEFAULT_KEY: &'static str = "_";

/// The base of identifiers for a clock reading of `secs` seconds: its low
/// 32 bits shifted left by 24.
pub open spec fn id_base(secs: u64) -> u64 {
    ((secs % 0x1_0000_0000) * 0x100_0000) as u64
}

pub fn pkg_id_base_of(secs: u64) -> (r: u64)
    ensures
        r == id_base(secs),
{
    let low = secs & 0xFFFF_FFFF;
    assert(low == secs % 0x1_0000_0000 && low << 24 == low * 0x100_0000) by (bit_vector)
        requires
            low == secs & 0xFFFF_FFFF,
    ;
    low << 24
}

/// Calls `SystemTime::now()` and returns the whole seconds since the Unix
/// epoch (0 when the clock reads before it). Nothing is stated of the value:
/// it is the time.
#[verifier::external_body]
fn unix_time_secs() -> u64 {
    std::time::SystemTime::now().duration_since(std::time::UNIX_EPOCH).unwrap_or_default().as_secs()
}

/// The base of identifiers for the current time.
pub fn pkg_id_base() -> (r: u64)
    ensures
        exists|secs: u64| r == id_base(secs),
{
    let secs = unix_time_secs();
    pkg_id_base_of(secs)
}

/// A source of package identifiers: a fixed base and a counter of the
/// identifiers handed out.
#[derive(Debug)]
pub struct PkgIdGen {
    base: u64,
    counter: u64,
}

impl PkgIdGen {
    pub closed spec fn base_spec(&self) -> u64 {
        self.base
    }

    pub closed spec fn counter_spec(&self) -> u64 {
        self.counter
    }

    /// A source with the given base whose counter starts at 0.
    pub fn with_base(base: u64) -> (r: PkgIdGen)
        ensures
            r.base_spec() == base,
            r.counter_spec() == 0,
    {
        PkgIdGen { base, counter: 0 }
    }

    /// A source whose base is taken from the current time.
    pub fn starting_now() -> (r: PkgIdGen)
        ensures
            exists|secs: u64| r.base_spec() == id_base(secs),
            r.counter_spec() == 0,
    {
        PkgIdGen::with_base(pkg_id_base())
    }

    /// Identifiers can still be handed out without overflow.
    pub open spec fn can_issue(&self) -> bool {
        self.base_spec() + self.counter_spec() < u64::MAX
    }

    /// Whether another identifier can be handed out.
    pub fn has_next(&self) -> (r: bool)
        ensures
            r == self.can_issue(),
    {
        self.counter < u64::MAX - self.base
    }
}

/// `id` is what a source in state `before` hands out, leaving it in state `after`:
/// its base plus the number of identifiers handed out before, the count growing by one.
pub open spec fn issued(before: PkgIdGen, after: PkgIdGen, id: u64) -> bool {
    &&& id == before.base_spec() + before.counter_spec()
    &&& after.base_spec() == before.base_spec()
    &&& after.counter_spec() == before.counter_spec() + 1
}

/// The next identifier: the base plus the number of identifiers handed out
/// before.
pub fn gen_pkg_id(source: &mut PkgIdGen) -> (r: u64)
    requires
        old(source).can_issue(),
    ensures
        issued(*old(source), *final(source), r),
{
    let id = source.base + source.counter;
    source.counter = source.counter + 1;
    id
}

/// Identifiers handed out one after another by the same source differ: the
/// second is one more than the first.
pub proof fn law_ids_increase(g0: PkgIdGen, g1: PkgIdGen, g2: PkgIdGen, first: u64, second: u64)
    requires
        issued(g0, g1, first),
        issued(g1, g2, second),
    ensures
        first < second,
        second == first + 1,
{
}

/// Identifiers handed out by the same source are pairwise distinct: the ones
/// handed out at counts `m` and `n` differ when `m` and `n` do.
pub proof fn law_ids_distinct(g: PkgIdGen, h: PkgIdGen, g2: PkgIdGen, h2: PkgIdGen, a: u64, b: u64)
    requires
        g.base_spec() == h.base_spec(),
        g.counter_spec() != h.counter_spec(),
        issued(g, g2, a),
        issued(h, h2, b),
    ensures
        a != b,
{
}

/// A source started at a clock reading of `secs` seconds hands out, as its
/// `n`-th identifier (counting from 0), the reading's low 32 bits shifted left
/// by 24, plus `n`.
pub proof fn law_nth_id(g: PkgIdGen, after: PkgIdGen, secs: u64, id: u64)
    requires
        g.base_spec() == id_base(secs),
        issued(g, after, id),
    ensures
        id == ((secs % 0x1_0000_0000) * 0x100_0000) as u64 + g.counter_spec(),
{
}

} // verus!

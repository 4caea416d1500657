//! The compiler's record of trailing literals, kept in a `SmallVec`.
use smallvec::SmallVec;
use vstd::prelude::*;

verus! {

/// A `SmallVec` of positions; Verus does not take `SmallVec` itself, so it
/// is held here out of the prover's sight and reached through the functions
/// below.
#[verifier::external_body]
pub struct LiteralCache {
    items: SmallVec<[usize; 4]>,
}

/// The positions a literal cache holds, oldest first.
pub uninterp spec fn cached(c: LiteralCache) -> Seq<usize>;

/// Relies on `SmallVec::new`: a vector with no items.
#[verifier::external_body]
pub fn cache_new() -> (r: LiteralCache)
    ensures
        cached(r) == Seq::<usize>::empty(),
{
    LiteralCache { items: SmallVec::new() }
}

/// Relies on `SmallVec::len`: the number of items.
#[verifier::external_body]
pub fn cache_len(c: &LiteralCache) -> (r: usize)
    ensures
        r == cached(*c).len(),
{
    c.items.len()
}

/// Relies on `SmallVec::index` with one position: the item there.
#[verifier::external_body]
pub fn cache_get(c: &LiteralCache, i: usize) -> (r: usize)
    requires
        i < cached(*c).len(),
    ensures
        r == cached(*c)[i as int],
{
    c.items[i]
}

/// Relies on `SmallVec::push`: appends an item. Growing doubles the room to
/// the next power of two and panics where that count, or its size in bytes,
/// overflows; below a thirty-second of `usize::MAX` items neither can.
#[verifier::external_body]
pub fn cache_push(c: &mut LiteralCache, x: usize)
    requires
        cached(*old(c)).len() < usize::MAX / 32,
    ensures
        cached(*final(c)) == cached(*old(c)).push(x),
{
    c.items.push(x)
}

/// Relies on `SmallVec::truncate`: keeps the first `n` items, or all of them
/// where there are fewer.
#[verifier::external_body]
pub fn cache_truncate(c: &mut LiteralCache, n: usize)
    ensures
        cached(*final(c)) == if n < cached(*old(c)).len() {
            cached(*old(c)).subrange(0, n as int)
        } else {
            cached(*old(c))
        },
{
    c.items.truncate(n)
}

/// Relies on `SmallVec::clear`: removes every item.
#[verifier::external_body]
pub fn cache_clear(c: &mut LiteralCache)
    ensures
        cached(*final(c)) == Seq::<usize>::empty(),
{
    c.items.clear()
}

} // verus!

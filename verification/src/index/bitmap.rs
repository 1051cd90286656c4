//! Sets of 32-bit node ids held in roaring bitmaps.

use roaring::RoaringBitmap;
use vstd::prelude::*;

verus! {

#[verifier::external_type_specification]
#[verifier::external_body]
pub struct ExRoaringBitmap(RoaringBitmap);

/// The ids a bitmap holds.
pub uninterp spec fn bitmap_values(b: RoaringBitmap) -> Set<u32>;

/// Calls `RoaringBitmap::new`: an empty set.
#[verifier::external_body]
pub(crate) fn bitmap_new() -> (r: RoaringBitmap)
    ensures
        bitmap_values(r) == Set::<u32>::empty(),
{
    RoaringBitmap::new()
}

/// Calls `RoaringBitmap::insert`: adds `v`; true when `v` was absent.
#[verifier::external_body]
pub(crate) fn bitmap_insert(b: &mut RoaringBitmap, v: u32) -> (r: bool)
    ensures
        bitmap_values(*final(b)) == bitmap_values(*old(b)).insert(v),
        r == !bitmap_values(*old(b)).contains(v),
{
    b.insert(v)
}

/// Calls `RoaringBitmap::remove`: removes `v`; true when `v` was present.
#[verifier::external_body]
pub(crate) fn bitmap_remove(b: &mut RoaringBitmap, v: u32) -> (r: bool)
    ensures
        bitmap_values(*final(b)) == bitmap_values(*old(b)).remove(v),
        r == bitmap_values(*old(b)).contains(v),
{
    b.remove(v)
}

/// Calls `RoaringBitmap::len`: the number of ids held.
#[verifier::external_body]
pub(crate) fn bitmap_len(b: &RoaringBitmap) -> (r: u64)
    ensures
        r == bitmap_values(*b).len(),
{
    b.len()
}

/// Calls `RoaringBitmap::clone`: a bitmap with the same ids.
#[verifier::external_body]
pub(crate) fn bitmap_clone(b: &RoaringBitmap) -> (r: RoaringBitmap)
    ensures
        bitmap_values(r) == bitmap_values(*b),
{
    b.clone()
}

/// Calls `RoaringBitmap &= &RoaringBitmap`: keeps the ids `other` holds too.
#[verifier::external_body]
pub(crate) fn bitmap_and_assign(b: &mut RoaringBitmap, other: &RoaringBitmap)
    ensures
        bitmap_values(*final(b)) == bitmap_values(*old(b)).intersect(bitmap_values(*other)),
{
    *b &= other;
}

/// Calls `RoaringBitmap |= &RoaringBitmap`: adds the ids `other` holds.
#[verifier::external_body]
pub(crate) fn bitmap_or_assign(b: &mut RoaringBitmap, other: &RoaringBitmap)
    ensures
        bitmap_values(*final(b)) == bitmap_values(*old(b)).union(bitmap_values(*other)),
{
    *b |= other;
}

} // verus!

//! Sets of fragment ids.
use roaring::RoaringBitmap;
use vstd::prelude::*;

verus! {

/// The compressed set of the `roaring` crate.
#[verifier::external_type_specification]
#[verifier::external_body]
pub struct ExRoaringBitmap(RoaringBitmap);

/// The numbers that a set holds.
pub uninterp spec fn members(bitmap: RoaringBitmap) -> Set<u32>;

/// Calls `RoaringBitmap::new`. The contract claims that the set is empty.
#[verifier::external_body]
pub(crate) fn empty_bitmap() -> (r: RoaringBitmap)
    ensures
        members(r) == Set::<u32>::empty(),
{
    RoaringBitmap::new()
}

/// Calls `RoaringBitmap::insert`. The contract claims that the number is in the set afterwards,
/// that no other number comes or goes, and that the result tells whether it was not there before.
#[verifier::external_body]
pub(crate) fn insert_member(bitmap: &mut RoaringBitmap, value: u32) -> (r: bool)
    ensures
        members(*final(bitmap)) == members(*old(bitmap)).insert(value),
        r == !members(*old(bitmap)).contains(value),
{
    bitmap.insert(value)
}

/// Calls `RoaringBitmap::iter`. The contract claims that it hands out the numbers of the set, each
/// once and in ascending order.
#[verifier::external_body]
pub(crate) fn list_members(bitmap: &RoaringBitmap) -> (r: Vec<u32>)
    ensures
        forall|x: u32| #[trigger] r@.contains(x) <==> members(*bitmap).contains(x),
        forall|i: int, j: int| 0 <= i < j < r@.len() ==> r@[i] < r@[j],
{
    bitmap.iter().collect()
}

/// Calls `RoaringBitmap::clone`. The contract claims that the copy holds the same numbers.
#[verifier::external_body]
pub(crate) fn copy_bitmap(bitmap: &RoaringBitmap) -> (r: RoaringBitmap)
    ensures
        members(r) == members(*bitmap),
{
    bitmap.clone()
}

/// The set of the numbers of a list.
pub fn collect_fragments(ids: &Vec<u32>) -> (r: RoaringBitmap)
    ensures
        members(r) == ids@.to_set(),
{
    let mut bitmap = empty_bitmap();
    let mut i: usize = 0;
    proof {
        assert(ids@.take(0).to_set() =~= Set::<u32>::empty());
    }
    while i < ids.len()
        invariant
            i <= ids@.len(),
            members(bitmap) == ids@.take(i as int).to_set(),
        decreases ids@.len() - i,
    {
        let ghost before = members(bitmap);
        let _ = insert_member(&mut bitmap, ids[i]);
        proof {
            let shorter = ids@.take(i as int);
            let longer = ids@.take(i + 1);
            assert(longer =~= shorter.push(ids@[i as int]));
            assert(longer.to_set() =~= shorter.to_set().insert(ids@[i as int])) by {
                assert forall|x: u32| longer.to_set().contains(x) == shorter.to_set().insert(
                    ids@[i as int],
                ).contains(x) by {
                    if longer.contains(x) {
                        let j = choose|j: int| 0 <= j < longer.len() && longer[j] == x;
                        if j < i {
                            assert(shorter[j] == x);
                        }
                    }
                    if shorter.contains(x) {
                        let j = choose|j: int| 0 <= j < shorter.len() && shorter[j] == x;
                        assert(longer[j] == x);
                    }
                    assert(longer[i as int] == ids@[i as int]);
                }
            }
        }
        i = i + 1;
    }
    assert(ids@.take(ids@.len() as int) =~= ids@);
    bitmap
}

/// The numbers of a set, in ascending order.
pub fn fragment_ids(bitmap: &RoaringBitmap) -> (r: Vec<u32>)
    ensures
        r@.to_set() == members(*bitmap),
        forall|i: int, j: int| 0 <= i < j < r@.len() ==> r@[i] < r@[j],
{
    let r = list_members(bitmap);
    assert(r@.to_set() =~= members(*bitmap)) by {
        assert forall|x: u32| r@.to_set().contains(x) == members(*bitmap).contains(x) by {
            assert(r@.contains(x) <==> members(*bitmap).contains(x));
        }
    }
    r
}

} // verus!

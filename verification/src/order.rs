//! The order in which the enumerants of an enumeration are shown.

use crate::objs::Enumerant;
use itertools::Itertools;
use std::cmp::Ordering;
use vstd::prelude::*;

verus! {

/// The code orders of the enumerants, in the order declared.
pub open spec fn codes(items: Seq<Enumerant>) -> Seq<u16> {
    Seq::new(items.len(), |i: int| items[i].code_order)
}

/// The places that a shown list names, in the order shown.
pub open spec fn places(shown: Seq<(usize, String)>) -> Seq<usize> {
    Seq::new(shown.len(), |k: int| shown[k].0)
}

/// The enumerant at place `p` is shown before the one at place `q`: its
/// code order is lower, or the same and `p` is the lower place.
pub open spec fn shown_before(codes: Seq<u16>, p: usize, q: usize) -> bool {
    codes[p as int] < codes[q as int] || (codes[p as int] == codes[q as int] && p < q)
}

/// `places` lists the places of `codes` in the order shown: every place
/// once, by rising code order, and places of one code order with the lower
/// place first.
pub open spec fn is_shown_order(codes: Seq<u16>, places: Seq<usize>) -> bool {
    &&& places.len() == codes.len()
    &&& forall|k: int| 0 <= k < places.len() ==> (#[trigger] places[k]) < codes.len()
    &&& forall|a: int, b: int|
        0 <= a < b < places.len() ==> shown_before(codes, #[trigger] places[a], #[trigger] places[b])
}

/// Compares two enumerants by their code orders.
pub fn by_code_order(a: u16, b: u16) -> (o: Ordering)
    ensures
        match o {
            Ordering::Less => a < b,
            Ordering::Equal => a == b,
            Ordering::Greater => a > b,
        },
{
    if a < b {
        Ordering::Less
    } else if a == b {
        Ordering::Equal
    } else {
        Ordering::Greater
    }
}

/// `Itertools::sorted_by`, on the places of `codes` and by the code order at
/// each place. The sort is that of `slice::sort_by` and is stable: the places
/// come out by rising code order, and places of one code order come out as
/// they went in, the lower place first.
#[verifier::external_body]
fn sorted_places(codes: &Vec<u16>) -> (places: Vec<usize>)
    ensures
        is_shown_order(codes@, places@),
{
    codes.iter().enumerate().sorted_by(|a, b| by_code_order(*a.1, *b.1)).map(|item| item.0).collect()
}

impl Enumerant {
    /// The enumerants in the order in which they are shown: by code order,
    /// and those of one code order in the order declared. Each is given by
    /// its place in `items` and its name; `items` itself stays as it is.
    pub fn display_order(items: &Vec<Enumerant>) -> (shown: Vec<(usize, String)>)
        ensures
            is_shown_order(codes(items@), places(shown@)),
            forall|k: int|
                0 <= k < shown@.len() ==> (#[trigger] shown@[k]).1@ == items@[shown@[k].0 as int].name@,
    {
        let mut read: Vec<u16> = Vec::with_capacity(items.len());
        let mut i: usize = 0;
        while i < items.len()
            invariant
                i <= items@.len(),
                read@ == codes(items@).take(i as int),
            decreases items@.len() - i,
        {
            read.push(items[i].code_order);
            proof {
                assert(codes(items@).take(i + 1) == codes(items@).take(i as int).push(
                    items@[i as int].code_order,
                ));
            }
            i += 1;
        }
        proof {
            assert(codes(items@).take(items@.len() as int) == codes(items@));
        }
        let order = sorted_places(&read);
        let mut shown: Vec<(usize, String)> = Vec::with_capacity(order.len());
        let mut k: usize = 0;
        while k < order.len()
            invariant
                is_shown_order(codes(items@), order@),
                k <= order@.len(),
                places(shown@) == order@.take(k as int),
                forall|j: int|
                    0 <= j < shown@.len() ==> (#[trigger] shown@[j]).1@ == items@[shown@[j].0 as int].name@,
            decreases order@.len() - k,
        {
            let place = order[k];
            proof {
                assert(order@[k as int] < codes(items@).len());
            }
            let ghost before = shown@;
            shown.push((place, items[place].name.clone()));
            proof {
                assert(places(before).len() == k);
                assert forall|j: int| 0 <= j < k + 1 implies places(shown@)[j] == order@.take(
                    k + 1,
                )[j] by {
                    if j < k {
                        assert(places(before)[j] == order@.take(k as int)[j]);
                    }
                }
                assert(places(shown@) =~= order@.take(k + 1));
            }
            k += 1;
        }
        proof {
            assert(order@.take(order@.len() as int) == order@);
        }
        shown
    }
}

} // verus!

//! The `k` largest of a list of non-negative integers of any size.
use crate::bignum::{accepted_decimal, decimal_text_value, BigNat};
use vstd::prelude::*;
use vstd::relations::{sorted_by, total_ordering};

verus! {

/// Why the `k` largest numbers cannot be given.
#[derive(Debug, Clone, Copy, PartialEq, Eq)]
pub enum MaxKError {
    /// `k` exceeds the number of items.
    KTooLarge,
    /// The item at `index` (the first such) is not a non-negative integer.
    NotAnInteger { index: usize },
}

/// An item is a non-negative integer: a text that `BigUint::from_str` reads.
pub open spec fn item_ok(item: Option<Seq<char>>) -> bool {
    item matches Some(s) && accepted_decimal(s)
}

/// The number an item writes.
pub open spec fn item_value(item: Option<Seq<char>>) -> nat {
    decimal_text_value(item->Some_0)
}

/// The numbers of a list of big integers.
pub open spec fn values(s: Seq<BigNat>) -> Seq<nat> {
    s.map_values(|b: BigNat| b@)
}

/// "Comes no later than" for largest-first order.
pub open spec fn largest_first_order() -> spec_fn(nat, nat) -> bool {
    |x: nat, y: nat| x >= y
}

/// The numbers, largest first.
pub open spec fn largest_first(s: Seq<nat>) -> Seq<nat> {
    s.sort_by(largest_first_order())
}

/// Largest-first is a total order.
pub proof fn lemma_largest_first_total()
    ensures
        total_ordering(largest_first_order()),
{
}

/// Any largest-first arrangement of the same numbers is `largest_first`.
pub proof fn lemma_largest_first_unique(s: Seq<nat>, t: Seq<nat>)
    requires
        sorted_by(t, largest_first_order()),
        t.to_multiset() == s.to_multiset(),
    ensures
        t == largest_first(s),
{
    lemma_largest_first_total();
    s.lemma_sort_by_ensures(largest_first_order());
    vstd::seq_lib::lemma_sorted_unique(t, largest_first(s), largest_first_order());
}

/// The numbers of `v`, largest first.
pub fn sort_largest_first(v: Vec<BigNat>) -> (r: Vec<BigNat>)
    ensures
        values(r@) == largest_first(values(v@)),
{
    let ghost orig: Seq<nat> = values(v@);
    let mut rest: Vec<BigNat> = v;
    let mut sorted: Vec<BigNat> = Vec::new();
    proof {
        assert(values(sorted@) =~= Seq::<nat>::empty());
        assert(Seq::<nat>::empty().to_multiset() =~= vstd::multiset::Multiset::<nat>::empty()) by {
            broadcast use vstd::seq_lib::group_to_multiset_ensures;
        }
    }
    while rest.len() > 0
        invariant
            sorted_by(values(sorted@), largest_first_order()),
            values(sorted@).to_multiset().add(values(rest@).to_multiset()) == orig.to_multiset(),
        decreases rest@.len(),
    {
        let ghost rest_before: Seq<BigNat> = rest@;
        let x: BigNat = match rest.pop() {
            Some(x) => x,
            None => {
                assert(false);
                return sorted;
            },
        };
        proof {
            assert(rest_before =~= rest@.push(x));
            assert(values(rest_before) =~= values(rest@).push(x@));
            vstd::seq_lib::to_multiset_build(values(rest@), x@);
        }
        let ghost old_sorted: Seq<nat> = values(sorted@);
        let mut j: usize = 0;
        while j < sorted.len()
            invariant
                j <= sorted@.len(),
                values(sorted@) == old_sorted,
                forall|t: int| 0 <= t < j ==> old_sorted[t] >= x@,
            ensures
                j < old_sorted.len() ==> old_sorted[j as int] < x@,
            decreases sorted@.len() - j,
        {
            if sorted[j].is_less(&x) {
                break;
            }
            j += 1;
        }
        sorted.insert(j, x);
        proof {
            let new_sorted: Seq<nat> = old_sorted.insert(j as int, x@);
            assert(values(sorted@) =~= new_sorted);
            vstd::seq_lib::to_multiset_insert(old_sorted, j as int, x@);
            assert forall|a: int, b: int| 0 <= a < b < new_sorted.len() implies #[trigger] (
            largest_first_order())(new_sorted[a], new_sorted[b]) by {
                if b < j {
                } else if b == j {
                } else if a < j {
                    assert((largest_first_order())(old_sorted[a], old_sorted[b - 1]));
                } else if a == j {
                    assert((largest_first_order())(old_sorted[j as int], old_sorted[b - 1]));
                } else {
                    assert((largest_first_order())(old_sorted[a - 1], old_sorted[b - 1]));
                }
            }
        }
    }
    proof {
        assert(values(rest@) =~= Seq::<nat>::empty());
        assert(values(rest@).to_multiset() =~= vstd::multiset::Multiset::<nat>::empty()) by {
            broadcast use vstd::seq_lib::group_to_multiset_ensures;
        }
        assert(values(sorted@).to_multiset() =~= orig.to_multiset());
        lemma_largest_first_unique(orig, values(sorted@));
    }
    sorted
}

/// The `k` largest numbers among `items`, largest first. Each item is the
/// decimal text of a number (as Python's `str` writes an `int`), or `None`
/// for an item that is no integer at all.
///
/// Fails where `k` exceeds the number of items; gives nothing for `k` equal to
/// 0; else fails at the first item that is not a non-negative integer.
pub fn max_k(items: Vec<Option<String>>, k: usize) -> (r: Result<Vec<BigNat>, MaxKError>)
    ensures
        (r == Err::<Vec<BigNat>, MaxKError>(MaxKError::KTooLarge)) <==> items@.len() < k,
        items@.len() >= k && k == 0 ==> (r matches Ok(v) && v@.len() == 0),
        items@.len() >= k && k > 0 ==> match r {
            Ok(v) => {
                &&& forall|j: int| 0 <= j < items@.len() ==> item_ok(#[trigger] items.deep_view()[j])
                &&& values(v@) == largest_first(items.deep_view().map_values(|item: Option<Seq<char>>| item_value(item))).take(k as int)
            },
            Err(MaxKError::NotAnInteger { index }) => {
                &&& index < items@.len()
                &&& !item_ok(items.deep_view()[index as int])
                &&& forall|j: int| 0 <= j < index ==> item_ok(#[trigger] items.deep_view()[j])
            },
            Err(MaxKError::KTooLarge) => false,
        },
{
    if items.len() < k {
        return Err(MaxKError::KTooLarge);
    }
    if k == 0 {
        return Ok(Vec::new());
    }
    let ghost its: Seq<Option<Seq<char>>> = items.deep_view();
    let ghost wanted: Seq<nat> = its.map_values(|item: Option<Seq<char>>| item_value(item));
    let mut nums: Vec<BigNat> = Vec::new();
    let mut i: usize = 0;
    while i < items.len()
        invariant
            i <= items@.len(),
            0 < k <= items@.len(),
            its == items.deep_view(),
            wanted == its.map_values(|item: Option<Seq<char>>| item_value(item)),
            nums@.len() == i,
            forall|j: int| 0 <= j < i ==> item_ok(#[trigger] its[j]),
            forall|j: int| 0 <= j < i ==> #[trigger] nums@[j]@ == wanted[j],
        decreases items@.len() - i,
    {
        match &items[i] {
            Some(text) => match BigNat::parse(text.as_str()) {
                Some(b) => {
                    nums.push(b);
                },
                None => {
                    return Err(MaxKError::NotAnInteger { index: i });
                },
            },
            None => {
                return Err(MaxKError::NotAnInteger { index: i });
            },
        }
        i += 1;
    }
    assert(values(nums@) =~= wanted);
    let mut sorted: Vec<BigNat> = sort_largest_first(nums);
    sorted.truncate(k);
    assert(values(sorted@) =~= largest_first(wanted).take(k as int)) by {
        wanted.lemma_sort_by_ensures(largest_first_order());
        lemma_largest_first_total();
        vstd::seq_lib::to_multiset_len(wanted);
        vstd::seq_lib::to_multiset_len(largest_first(wanted));
    }
    Ok(sorted)
}

} // verus!

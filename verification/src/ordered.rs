//! Sorted lists of texts without repetition.

use vstd::prelude::*;
use vstd::string::*;

use crate::text;

verus! {

/// Every text comes before all those after it.
pub open spec fn sorted(items: Seq<Seq<char>>) -> bool {
    forall|i: int, j: int|
        0 <= i < j < items.len() ==> text::precedes(#[trigger] items[i], #[trigger] items[j])
}

/// Tells where a text stands in a sorted list, or where it would have to be inserted.
fn position(items: &Vec<String>, item: &str) -> (r: (usize, bool))
    requires
        sorted(text::views(items@)),
    ensures
        r.0 <= items@.len(),
        r.1 == text::views(items@).contains(item@),
        r.1 ==> r.0 < items@.len() && items@[r.0 as int]@ == item@,
        forall|j: int| 0 <= j < r.0 ==> text::precedes(#[trigger] items@[j]@, item@),
        !r.1 ==> forall|j: int|
            r.0 <= j < items@.len() ==> text::precedes(item@, #[trigger] items@[j]@),
{
    let mut i: usize = 0;
    while i < items.len()
        invariant
            i <= items@.len(),
            sorted(text::views(items@)),
            forall|j: int| 0 <= j < i ==> text::precedes(#[trigger] items@[j]@, item@),
        decreases items@.len() - i,
    {
        if !text::before(&items[i], item) {
            let found = text::same(&items[i], item);
            proof {
                let all = text::views(items@);
                text::lemma_precedes_total(items@[i as int]@, item@);
                if found {
                    assert(all[i as int] == item@);
                } else {
                    assert forall|j: int| i <= j < items@.len() implies text::precedes(
                        item@,
                        #[trigger] items@[j]@,
                    ) by {
                        if j > i {
                            assert(text::precedes(all[i as int], all[j]));
                            text::lemma_precedes_transitive(item@, items@[i as int]@, items@[j]@);
                        }
                    }
                    assert forall|j: int| 0 <= j < all.len() implies all[j] != item@ by {
                        text::lemma_precedes_total(items@[j]@, item@);
                    }
                }
            }
            return (i, found);
        }
        i += 1;
    }
    proof {
        let all = text::views(items@);
        assert forall|j: int| 0 <= j < all.len() implies all[j] != item@ by {
            text::lemma_precedes_total(items@[j]@, item@);
        }
    }
    (i, false)
}

/// Puts a text in its place, and tells whether it was new.
pub fn insert(items: &mut Vec<String>, item: &str) -> (r: bool)
    requires
        sorted(text::views(old(items)@)),
    ensures
        sorted(text::views(final(items)@)),
        r == !text::views(old(items)@).contains(item@),
        !r ==> final(items)@ == old(items)@,
        forall|x: Seq<char>| #[trigger]
            text::views(final(items)@).contains(x) <==> (x == item@ || text::views(
                old(items)@,
            ).contains(x)),
{
    let (at, found) = position(items, item);
    let ghost before = text::views(items@);
    if found {
        proof {
            assert(before[at as int] == item@);
        }
        return false;
    }
    items.insert(at, item.to_owned());
    proof {
        let after = text::views(items@);
        assert(after == before.insert(at as int, item@));
        assert forall|i: int, j: int| 0 <= i < j < after.len() implies text::precedes(
            #[trigger] after[i],
            #[trigger] after[j],
        ) by {
            if i < at && j > at {
                assert(after[i] == before[i] && after[j] == before[j - 1]);
            } else if i < at && j < at {
                assert(after[i] == before[i] && after[j] == before[j]);
            } else if i > at {
                assert(after[i] == before[i - 1] && after[j] == before[j - 1]);
            } else if j == at {
                assert(text::precedes(old(items)@[i]@, item@));
            } else {
                assert(text::precedes(item@, old(items)@[j - 1]@));
            }
        }
        assert forall|x: Seq<char>| #[trigger] after.contains(x) <==> (x == item@
            || before.contains(x)) by {
            if after.contains(x) {
                let k = choose|k: int| 0 <= k < after.len() && after[k] == x;
                if k < at {
                    assert(before[k] == x);
                } else if k > at {
                    assert(before[k - 1] == x);
                }
            }
            if before.contains(x) {
                let k = choose|k: int| 0 <= k < before.len() && before[k] == x;
                if k < at {
                    assert(after[k] == x);
                } else {
                    assert(after[k + 1] == x);
                }
            }
            assert(after[at as int] == item@);
        }
    }
    true
}

} // verus!

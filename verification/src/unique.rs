//! Lists without repetition, in the order in which their items were first seen.

use crate::text::string_views;
use vstd::prelude::*;

verus! {

/// `items` followed by `item`, unless `items` holds it already.
pub open spec fn push_unique<T>(items: Seq<T>, item: T) -> Seq<T> {
    if items.contains(item) {
        items
    } else {
        items.push(item)
    }
}

/// The items of `items` in order, each kept where it first occurs and dropped
/// wherever it occurs again.
pub open spec fn dedup<T>(items: Seq<T>) -> Seq<T>
    decreases items.len(),
{
    if items.len() == 0 {
        Seq::empty()
    } else {
        push_unique(dedup(items.drop_last()), items.last())
    }
}

/// Whether `k` is the first position of `items` that holds `items[k]`.
pub open spec fn is_first_occurrence<T>(items: Seq<T>, k: int) -> bool {
    &&& 0 <= k < items.len()
    &&& forall|j: int| 0 <= j < k ==> items[j] != items[k]
}

/// Adding an item to a list without repetition, unless it is there, gives a list
/// without repetition.
pub proof fn lemma_push_unique_no_duplicates<T>(items: Seq<T>, item: T)
    requires
        items.no_duplicates(),
    ensures
        push_unique(items, item).no_duplicates(),
{
}

/// `dedup(items)` holds exactly the items of `items`, and each of them once.
pub proof fn lemma_dedup_elements<T>(items: Seq<T>)
    ensures
        dedup(items).no_duplicates(),
        forall|x: T| dedup(items).contains(x) <==> items.contains(x),
    decreases items.len(),
{
    if items.len() > 0 {
        let front = items.drop_last();
        lemma_dedup_elements(front);
        let d = dedup(front);
        let r = dedup(items);
        assert forall|x: T| r.contains(x) <==> items.contains(x) by {
            if r.contains(x) {
                let i = choose|i: int| 0 <= i < r.len() && r[i] == x;
                if i < d.len() {
                    assert(d[i] == x);
                    assert(d.contains(x));
                    assert(front.contains(x));
                    let j = choose|j: int| 0 <= j < front.len() && front[j] == x;
                    assert(items[j] == x);
                } else {
                    assert(items[items.len() - 1] == x);
                }
            }
            if items.contains(x) {
                let j = choose|j: int| 0 <= j < items.len() && items[j] == x;
                if j < front.len() {
                    assert(front[j] == x);
                    assert(front.contains(x));
                    assert(d.contains(x));
                    let i = choose|i: int| 0 <= i < d.len() && d[i] == x;
                    assert(r[i] == x);
                } else {
                    if d.contains(x) {
                    } else {
                        assert(r[r.len() - 1] == x);
                    }
                }
            }
        }
    }
}

/// `dedup(items)` lists the first occurrences of `items` in their order: the
/// returned positions rise strictly, each is a first occurrence in `items`, the
/// result holds the items at these positions, and every first occurrence is
/// among them.
pub proof fn lemma_dedup_first_seen<T>(items: Seq<T>) -> (at: Seq<int>)
    ensures
        at.len() == dedup(items).len(),
        forall|i: int|
            0 <= i < at.len() ==> is_first_occurrence(items, #[trigger] at[i]) && items[at[i]]
                == dedup(items)[i],
        forall|i: int, j: int| 0 <= i < j < at.len() ==> at[i] < at[j],
        forall|k: int| is_first_occurrence(items, k) ==> at.contains(k),
    decreases items.len(),
{
    if items.len() == 0 {
        Seq::empty()
    } else {
        let front = items.drop_last();
        let last = items.len() - 1;
        let before = lemma_dedup_first_seen(front);
        lemma_dedup_elements(front);
        let d = dedup(front);
        assert forall|i: int| 0 <= i < before.len() implies is_first_occurrence(
            items,
            #[trigger] before[i],
        ) && items[before[i]] == d[i] by {
            let k = before[i];
            assert(is_first_occurrence(front, k));
            assert(0 <= k < front.len());
            assert forall|j: int| 0 <= j < k implies items[j] != items[k] by {
                assert(front[j] != front[k]);
            }
        }
        if d.contains(items.last()) {
            assert forall|k: int| is_first_occurrence(items, k) implies before.contains(k) by {
                if k == last {
                    assert(front.contains(items.last()));
                    let j = choose|j: int| 0 <= j < front.len() && front[j] == items.last();
                    assert(items[j] == items[k]);
                } else {
                    assert forall|j: int| 0 <= j < k implies front[j] != front[k] by {
                        assert(items[j] != items[k]);
                    }
                    assert(is_first_occurrence(front, k));
                }
            }
            before
        } else {
            let at = before.push(last);
            assert(is_first_occurrence(items, last)) by {
                assert forall|j: int| 0 <= j < last implies items[j] != items[last] by {
                    if items[j] == items[last] {
                        assert(front[j] == items.last());
                        assert(front.contains(items.last()));
                    }
                }
            }
            assert forall|k: int| is_first_occurrence(items, k) implies at.contains(k) by {
                if k == last {
                    assert(at[at.len() - 1] == k);
                } else {
                    assert forall|j: int| 0 <= j < k implies front[j] != front[k] by {
                        assert(items[j] != items[k]);
                    }
                    assert(is_first_occurrence(front, k));
                    assert(before.contains(k));
                    let i = choose|i: int| 0 <= i < before.len() && before[i] == k;
                    assert(at[i] == k);
                }
            }
            at
        }
    }
}

/// Whether a list of strings holds a given text.
pub fn contains_string(items: &Vec<String>, item: &String) -> (b: bool)
    ensures
        b == string_views(items@).contains(item@),
{
    let mut i: usize = 0;
    while i < items.len()
        invariant
            i <= items.len(),
            forall|j: int| 0 <= j < i ==> string_views(items@)[j] != item@,
        decreases items.len() - i,
    {
        if items[i] == *item {
            assert(string_views(items@)[i as int] == item@);
            return true;
        }
        i += 1;
    }
    false
}

/// Appends `item` to `items` unless a string with the same text is there.
pub fn push_unique_string(items: &mut Vec<String>, item: String)
    ensures
        string_views(final(items)@) == push_unique(string_views(old(items)@), item@),
{
    if !contains_string(items, &item) {
        items.push(item);
        assert(string_views(items@) =~= string_views(old(items)@).push(item@));
    }
}

} // verus!

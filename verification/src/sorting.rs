//! Ordering names by a key: the order of texts, and a stable sort by it.

use vstd::prelude::*;

verus! {

/// Whether `a` comes before `b` or equals it in the order of texts: texts are
/// compared character by character, by the numbers of the characters, and a
/// text comes before every text that it starts.
pub open spec fn text_le(a: Seq<char>, b: Seq<char>) -> bool
    decreases a.len(),
{
    if a.len() == 0 {
        true
    } else if b.len() == 0 {
        false
    } else if a[0] != b[0] {
        a[0] < b[0]
    } else {
        text_le(a.skip(1), b.skip(1))
    }
}

/// Of two texts, one comes before the other or equals it.
pub proof fn lemma_text_le_total(a: Seq<char>, b: Seq<char>)
    ensures
        text_le(a, b) || text_le(b, a),
    decreases a.len(),
{
    if a.len() > 0 && b.len() > 0 {
        if a[0] == b[0] {
            lemma_text_le_total(a.skip(1), b.skip(1));
        }
    }
}

/// A text comes before itself or equals it.
pub proof fn lemma_text_le_reflexive(a: Seq<char>)
    ensures
        text_le(a, a),
    decreases a.len(),
{
    if a.len() > 0 {
        lemma_text_le_reflexive(a.skip(1));
    }
}

/// The order of texts is transitive.
pub proof fn lemma_text_le_transitive(a: Seq<char>, b: Seq<char>, c: Seq<char>)
    requires
        text_le(a, b),
        text_le(b, c),
    ensures
        text_le(a, c),
    decreases a.len(),
{
    if a.len() > 0 && b.len() > 0 && c.len() > 0 {
        if a[0] == b[0] && b[0] == c[0] {
            lemma_text_le_transitive(a.skip(1), b.skip(1), c.skip(1));
        }
    }
}

/// Decides `text_le`.
pub fn text_le_slice(a: &[char], b: &[char]) -> (r: bool)
    ensures
        r == text_le(a@, b@),
{
    let mut i: usize = 0;
    assert(a@.skip(0) =~= a@);
    assert(b@.skip(0) =~= b@);
    loop
        invariant
            i <= a.len(),
            i <= b.len(),
            text_le(a@, b@) == text_le(a@.skip(i as int), b@.skip(i as int)),
        decreases a.len() - i,
    {
        if i == a.len() {
            return true;
        }
        if i == b.len() {
            return false;
        }
        let ghost ra = a@.skip(i as int);
        let ghost rb = b@.skip(i as int);
        assert(ra[0] == a@[i as int] && rb[0] == b@[i as int]);
        if a[i] != b[i] {
            return a[i] < b[i];
        }
        assert(ra.skip(1) =~= a@.skip(i + 1));
        assert(rb.skip(1) =~= b@.skip(i + 1));
        i += 1;
    }
}

/// A name with the key by which it is ordered.
pub struct KeyedName {
    pub key: String,
    pub name: String,
}

/// The mathematical content of a `KeyedName`.
pub struct Keyed {
    pub key: Seq<char>,
    pub name: Seq<char>,
}

impl View for KeyedName {
    type V = Keyed;

    open spec fn view(&self) -> Keyed {
        Keyed { key: self.key@, name: self.name@ }
    }
}

/// The keyed names that a vector holds.
pub open spec fn keyed_views(items: Seq<KeyedName>) -> Seq<Keyed> {
    items.map_values(|k: KeyedName| k@)
}

/// Whether the keys of a list never fall.
pub open spec fn is_sorted(items: Seq<Keyed>) -> bool {
    forall|i: int, j: int| 0 <= i < j < items.len() ==> text_le(items[i].key, items[j].key)
}

/// A sorted list with one more item, put behind the last item whose key does
/// not come after its own.
pub open spec fn insert_sorted(sorted: Seq<Keyed>, item: Keyed) -> Seq<Keyed>
    decreases sorted.len(),
{
    if sorted.len() == 0 {
        seq![item]
    } else if text_le(sorted.last().key, item.key) {
        sorted.push(item)
    } else {
        insert_sorted(sorted.drop_last(), item).push(sorted.last())
    }
}

/// The items ordered by their keys; items with equal keys keep the order in
/// which they came.
pub open spec fn sorted_by_key(items: Seq<Keyed>) -> Seq<Keyed>
    decreases items.len(),
{
    if items.len() == 0 {
        Seq::empty()
    } else {
        insert_sorted(sorted_by_key(items.drop_last()), items.last())
    }
}

/// The place at which `insert_sorted` puts an item is behind an item whose key
/// does not come after its own, or at the front, and before items whose keys
/// all come after its own; such a place is the place that it takes.
pub proof fn lemma_insert_sorted_at(sorted: Seq<Keyed>, item: Keyed, at: int)
    requires
        0 <= at <= sorted.len(),
        at > 0 ==> text_le(sorted[at - 1].key, item.key),
        forall|j: int| at <= j < sorted.len() ==> !text_le(#[trigger] sorted[j].key, item.key),
    ensures
        insert_sorted(sorted, item) == sorted.insert(at, item),
    decreases sorted.len(),
{
    if sorted.len() == 0 {
        assert(sorted.insert(at, item) =~= seq![item]);
    } else if at == sorted.len() {
        assert(sorted.insert(at, item) =~= sorted.push(item));
    } else {
        let front = sorted.drop_last();
        assert(!text_le(sorted[sorted.len() - 1].key, item.key));
        assert forall|j: int| at <= j < front.len() implies !text_le(
            #[trigger] front[j].key,
            item.key,
        ) by {
            assert(front[j] == sorted[j]);
        }
        if at > 0 {
            assert(front[at - 1] == sorted[at - 1]);
        }
        lemma_insert_sorted_at(front, item, at);
        assert(front.insert(at, item).push(sorted.last()) =~= sorted.insert(at, item));
    }
}

/// Putting an item into a sorted list gives a sorted list with the same items
/// and the new one.
pub proof fn lemma_insert_sorted(sorted: Seq<Keyed>, item: Keyed)
    requires
        is_sorted(sorted),
    ensures
        is_sorted(insert_sorted(sorted, item)),
        insert_sorted(sorted, item).to_multiset() == sorted.to_multiset().insert(item),
        insert_sorted(sorted, item).len() == sorted.len() + 1,
    decreases sorted.len(),
{
    broadcast use vstd::seq_lib::group_to_multiset_ensures;

    if sorted.len() == 0 {
        assert(seq![item] =~= Seq::<Keyed>::empty().push(item));
    } else if text_le(sorted.last().key, item.key) {
        let r = sorted.push(item);
        assert forall|i: int, j: int| 0 <= i < j < r.len() implies text_le(r[i].key, r[j].key) by {
            if j == r.len() - 1 {
                if i < sorted.len() - 1 {
                    assert(text_le(sorted[i].key, sorted[sorted.len() - 1].key));
                } else {
                    lemma_text_le_reflexive(sorted.last().key);
                }
                lemma_text_le_transitive(r[i].key, sorted.last().key, item.key);
            }
        }
    } else {
        let front = sorted.drop_last();
        let last = sorted.last();
        assert forall|i: int, j: int| 0 <= i < j < front.len() implies text_le(
            front[i].key,
            front[j].key,
        ) by {
            assert(front[i] == sorted[i] && front[j] == sorted[j]);
        }
        lemma_insert_sorted(front, item);
        let mid = insert_sorted(front, item);
        let r = mid.push(last);
        lemma_text_le_total(last.key, item.key);
        assert forall|i: int, j: int| 0 <= i < j < r.len() implies text_le(r[i].key, r[j].key) by {
            if j == r.len() - 1 {
                assert(mid.to_multiset().count(mid[i]) > 0);
                if mid[i] == item {
                } else {
                    assert(front.to_multiset().count(mid[i]) > 0);
                    let k = choose|k: int| 0 <= k < front.len() && front[k] == mid[i];
                    assert(sorted[k] == mid[i]);
                    assert(text_le(sorted[k].key, sorted[sorted.len() - 1].key));
                }
            } else {
                assert(r[i] == mid[i] && r[j] == mid[j]);
            }
        }
        assert(sorted =~= front.push(last));
        assert(r.to_multiset() =~= sorted.to_multiset().insert(item));
    }
}

/// Sorting by key gives a sorted list that holds the same items as many times.
pub proof fn lemma_sorted_by_key(items: Seq<Keyed>)
    ensures
        is_sorted(sorted_by_key(items)),
        sorted_by_key(items).to_multiset() == items.to_multiset(),
        sorted_by_key(items).len() == items.len(),
    decreases items.len(),
{
    broadcast use vstd::seq_lib::group_to_multiset_ensures;

    if items.len() > 0 {
        lemma_sorted_by_key(items.drop_last());
        lemma_insert_sorted(sorted_by_key(items.drop_last()), items.last());
        assert(items =~= items.drop_last().push(items.last()));
    }
}

/// Puts one more item into a sorted vector, at the place of `insert_sorted`.
pub fn insert_by_key(sorted: &mut Vec<KeyedName>, item: KeyedName)
    ensures
        keyed_views(final(sorted)@) == insert_sorted(keyed_views(old(sorted)@), item@),
{
    let ghost before = keyed_views(sorted@);
    let key = crate::text::to_chars(item.key.as_str());
    let mut at: usize = sorted.len();
    let mut placed = false;
    while at > 0 && !placed
        invariant
            at <= sorted.len(),
            before == keyed_views(sorted@),
            key@ == item@.key,
            placed ==> at > 0 && text_le(before[at - 1].key, item@.key),
            forall|j: int| at <= j < sorted.len() ==> !text_le(#[trigger] before[j].key, item@.key),
        decreases at, if placed { 0int } else { 1int },
    {
        let other = crate::text::to_chars(sorted[at - 1].key.as_str());
        assert(before[at - 1] == sorted@[at - 1]@);
        if text_le_slice(other.as_slice(), key.as_slice()) {
            placed = true;
        } else {
            at -= 1;
        }
    }
    proof {
        lemma_insert_sorted_at(before, item@, at as int);
    }
    sorted.insert(at, item);
    assert(keyed_views(sorted@) =~= before.insert(at as int, item@));
}

/// Orders names by their keys; names with equal keys keep their order.
pub fn sort_keyed(items: Vec<KeyedName>) -> (sorted: Vec<KeyedName>)
    ensures
        keyed_views(sorted@) == sorted_by_key(keyed_views(items@)),
{
    let ghost all = keyed_views(items@);
    let mut sorted: Vec<KeyedName> = Vec::new();
    let mut items = items;
    let mut taken: Vec<KeyedName> = Vec::new();
    // Items are taken from the back, so that each can be moved; `taken` holds
    // them in reverse.
    while items.len() > 0
        invariant
            items@.len() + taken@.len() == all.len(),
            forall|i: int| 0 <= i < items@.len() ==> (#[trigger] items@[i])@ == all[i],
            forall|i: int|
                0 <= i < taken@.len() ==> (#[trigger] taken@[i])@ == all[all.len() - 1 - i],
        decreases items.len(),
    {
        let item = items.pop().unwrap();
        taken.push(item);
    }
    assert(all.take(0) =~= Seq::empty());
    assert(keyed_views(sorted@) =~= Seq::empty());
    while taken.len() > 0
        invariant
            taken@.len() <= all.len(),
            forall|i: int|
                0 <= i < taken@.len() ==> (#[trigger] taken@[i])@ == all[all.len() - 1 - i],
            keyed_views(sorted@) == sorted_by_key(all.take(all.len() - taken@.len())),
        decreases taken.len(),
    {
        let ghost n = all.len() - taken@.len();
        let item = taken.pop().unwrap();
        proof {
            assert(item@ == all[n]);
            assert(all.take(n + 1).drop_last() =~= all.take(n));
            assert(all.take(n + 1).last() == all[n]);
        }
        insert_by_key(&mut sorted, item);
    }
    assert(all.take(all.len() as int) =~= all);
    sorted
}

} // verus!

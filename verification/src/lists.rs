//! Lists without duplicates, and how often items occur.
use vstd::hash_map::StringHashMap;
use vstd::prelude::*;

use crate::text::texts;

verus! {

/// A list with only the first of equal items kept.
pub open spec fn distinct<T>(items: Seq<T>) -> Seq<T>
    decreases items.len(),
{
    if items.len() == 0 {
        Seq::empty()
    } else {
        let before = distinct(items.drop_last());
        if before.contains(items.last()) {
            before
        } else {
            before.push(items.last())
        }
    }
}

/// [`distinct`] drops no item and keeps none twice.
pub proof fn distinct_keeps_each_once<T>(items: Seq<T>)
    ensures
        distinct(items).no_duplicates(),
        forall|x: T| distinct(items).contains(x) <==> items.contains(x),
    decreases items.len(),
{
    if items.len() > 0 {
        let before = items.drop_last();
        distinct_keeps_each_once(before);
        assert forall|x: T| distinct(items).contains(x) <==> items.contains(x) by {
            if items.contains(x) {
                let i = items.index_of(x);
                if i < before.len() {
                    assert(before[i] == x);
                    assert(before.contains(x));
                    let j = distinct(before).index_of(x);
                    assert(distinct(items)[j] == x);
                } else {
                    if !distinct(before).contains(items.last()) {
                        assert(distinct(items).last() == x);
                    }
                }
            }
            if distinct(items).contains(x) {
                let j = distinct(items).index_of(x);
                if j < distinct(before).len() {
                    assert(distinct(before)[j] == x);
                    assert(before.contains(x));
                    assert(items[before.index_of(x)] == x);
                } else {
                    assert(items[items.len() - 1] == x);
                }
            }
        }
    }
}

/// [`distinct`] keeps an item where it first stands: one that was there before adds nothing,
/// and one that was not comes last.
pub proof fn distinct_keeps_first_places<T>(items: Seq<T>, item: T)
    ensures
        items.contains(item) ==> distinct(items.push(item)) == distinct(items),
        !items.contains(item) ==> distinct(items.push(item)) == distinct(items).push(item),
        distinct(Seq::<T>::empty()).len() == 0,
{
    distinct_keeps_each_once(items);
    assert(items.push(item).drop_last() =~= items);
}

/// How often `item` occurs in `items`.
pub open spec fn occurrences<T>(items: Seq<T>, item: T) -> nat
    decreases items.len(),
{
    if items.len() == 0 {
        0
    } else {
        occurrences(items.drop_last(), item) + if items.last() == item {
            1nat
        } else {
            0
        }
    }
}

/// Whether a character occurs more often than `limit` in a text.
pub fn occurs_more_than(text: &str, item: char, limit: usize) -> (more: bool)
    requires
        limit < usize::MAX,
    ensures
        more == (occurrences(text@, item) > limit),
{
    let mut count: usize = 0;
    for c in it: text.chars()
        invariant
            it.seq() == text@,
            limit < usize::MAX,
            count <= limit + 1,
            count <= limit ==> count == occurrences(text@.take(it.index() as int), item),
            count > limit ==> occurrences(text@.take(it.index() as int), item) > limit,
    {
        assert(text@.take(it.index() as int + 1).drop_last() =~= text@.take(it.index() as int));
        if c == item && count <= limit {
            count += 1;
        }
    }
    assert(text@.take(text@.len() as int) =~= text@);
    count > limit
}

/// An item occurs in a list as often as its multiset counts it.
pub proof fn occurrences_count<T>(items: Seq<T>, item: T)
    ensures
        occurrences(items, item) == items.to_multiset().count(item),
    decreases items.len(),
{
    broadcast use vstd::multiset::group_multiset_axioms;

    if items.len() > 0 {
        let rest = items.drop_last();
        occurrences_count(rest, item);
        rest.to_multiset_ensures();
        assert(rest.push(items.last()) =~= items);
    } else {
        items.to_multiset_ensures();
        assert(!items.contains(item));
    }
}

/// An item occurs in two lists together as often as in the one and the other.
pub proof fn occurrences_add<T>(a: Seq<T>, b: Seq<T>, item: T)
    ensures
        occurrences(a + b, item) == occurrences(a, item) + occurrences(b, item),
    decreases b.len(),
{
    if b.len() > 0 {
        occurrences_add(a, b.drop_last(), item);
        assert((a + b).drop_last() =~= a + b.drop_last());
    } else {
        assert(a + b =~= a);
    }
}

/// Strings without duplicates, in the order in which they came.
pub struct TextSet {
    pub list: Vec<String>,
    pub index: StringHashMap<bool>,
}

impl TextSet {
    pub open spec fn well_formed(&self) -> bool {
        forall|text: Seq<char>| #[trigger]
            self.index@.contains_key(text) <==> texts(self.list@).contains(text)
    }

    pub fn new() -> (set: TextSet)
        ensures
            set.well_formed(),
            texts(set.list@) == Seq::<Seq<char>>::empty(),
    {
        let set = TextSet { list: Vec::new(), index: StringHashMap::new() };
        assert(texts(set.list@) =~= Seq::empty());
        set
    }

    /// Adds `text` to the end, unless it is there.
    pub fn insert(&mut self, text: &String)
        requires
            old(self).well_formed(),
        ensures
            final(self).well_formed(),
            texts(final(self).list@) == (if texts(old(self).list@).contains(text@) {
                texts(old(self).list@)
            } else {
                texts(old(self).list@).push(text@)
            }),
    {
        let ghost before = texts(self.list@);
        if !self.index.contains_key(text.as_str()) {
            self.index.insert(text.clone(), true);
            self.list.push(text.clone());
            assert(texts(self.list@) =~= before.push(text@));
            assert forall|t: Seq<char>| #[trigger]
                self.index@.contains_key(t) <==> texts(self.list@).contains(t) by {
                contains_after_push(before, text@, t);
            }
        }
    }

    /// The strings of a list.
    pub fn of(items: &Vec<String>) -> (set: TextSet)
        ensures
            set.well_formed(),
            texts(set.list@) == distinct(texts(items@)),
    {
        let ghost all = texts(items@);
        let mut set = TextSet::new();
        let mut i: usize = 0;
        assert(all.take(0) =~= Seq::empty());
        while i < items.len()
            invariant
                i <= items@.len() == all.len(),
                all == texts(items@),
                set.well_formed(),
                texts(set.list@) == distinct(all.take(i as int)),
            decreases items@.len() - i,
        {
            assert(all.take(i + 1).drop_last() =~= all.take(i as int));
            assert(all.take(i + 1).last() == items@[i as int]@);
            set.insert(&items[i]);
            i += 1;
        }
        assert(all.take(i as int) =~= all);
        set
    }

    /// Whether `text` is one of the strings.
    pub fn contains(&self, text: &String) -> (found: bool)
        requires
            self.well_formed(),
        ensures
            found == texts(self.list@).contains(text@),
    {
        self.index.contains_key(text.as_str())
    }
}

/// A list with one more item holds that item and what it held.
pub proof fn contains_after_push<T>(list: Seq<T>, item: T, x: T)
    ensures
        list.push(item).contains(x) <==> list.contains(x) || x == item,
{
    let more = list.push(item);
    assert(more[list.len() as int] == item);
    if list.contains(x) {
        assert(more[list.index_of(x)] == x);
    }
    if more.contains(x) && x != item {
        assert(list[more.index_of(x)] == x);
    }
}

/// Removes duplicate strings, keeping first occurrences.
pub fn dedup_in_place(items: &mut Vec<String>)
    ensures
        texts(final(items)@) == distinct(texts(old(items)@)),
{
    let set = TextSet::of(items);
    *items = set.list;
}

/// Whether `after` begins with `before`.
pub open spec fn extends<A>(before: Seq<A>, after: Seq<A>) -> bool {
    &&& before.len() <= after.len()
    &&& forall|i: int|
        #![trigger before[i]]
        #![trigger after[i]]
        0 <= i < before.len() ==> after[i] == before[i]
}

} // verus!

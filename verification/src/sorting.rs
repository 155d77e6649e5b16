//! Sorting by a total order.
use vstd::prelude::*;
use vstd::relations::{sorted_by, total_ordering};
use vstd::seq_lib::{lemma_multiset_commutative, lemma_sorted_unique};

use crate::text::{
    comes_before, text_less, text_less_irreflexive, text_less_total, text_less_transitive,
};

verus! {

/// What the items of a sequence stand for.
pub open spec fn views<T: View>(items: Seq<T>) -> Seq<T::V> {
    items.map_values(|x: T| x@)
}

/// Items with a total order on what they stand for.
pub trait Ordered: View + Sized {
    /// Whether one item comes before another or is the same.
    spec fn order() -> spec_fn(Self::V, Self::V) -> bool;

    /// The order is total.
    proof fn ordered()
        ensures
            total_ordering(Self::order()),
    ;

    /// Whether this item comes before the other or stands for the same.
    fn not_after(&self, other: &Self) -> (r: bool)
        ensures
            r == Self::order()(self@, other@),
    ;
}

/// Whether every item of `a` comes before every item of `b`, or is the same.
spec fn below<T: Ordered>(a: Seq<T::V>, b: Seq<T::V>) -> bool {
    forall|i: int, j: int|
        0 <= i < a.len() && 0 <= j < b.len() ==> T::order()(#[trigger] a[i], #[trigger] b[j])
}

/// Moves the last item of `from`, which no other comes after, to the end of `to`.
fn move_last<T: Ordered>(from: &mut Vec<T>, to: &mut Vec<T>)
    requires
        old(from)@.len() > 0,
    ensures
        old(from)@.len() == final(from)@.len() + 1,
        views(final(from)@) == views(old(from)@).drop_last(),
        views(final(to)@) == views(old(to)@).push(views(old(from)@).last()),
{
    let ghost source = from@;
    let ghost target = to@;
    match from.pop() {
        Some(item) => {
            to.push(item);
            assert(views(from@) =~= views(source).drop_last());
            assert(views(to@) =~= views(target).push(views(source).last()));
        },
        None => {},
    }
}

/// The items of two sorted lists, the last ones first.
fn merge_down<T: Ordered>(left: Vec<T>, right: Vec<T>) -> (out: Vec<T>)
    requires
        sorted_by(views(left@), T::order()),
        sorted_by(views(right@), T::order()),
    ensures
        sorted_by(views(out@).reverse(), T::order()),
        views(out@).to_multiset() == views(left@).to_multiset().add(views(right@).to_multiset()),
{
    broadcast use vstd::seq_lib::group_to_multiset_ensures;
    broadcast use vstd::multiset::group_multiset_axioms;

    let ghost all = views(left@).to_multiset().add(views(right@).to_multiset());
    let mut left = left;
    let mut right = right;
    let mut out: Vec<T> = Vec::new();
    assert(views(out@) =~= Seq::empty());
    assert(all =~= views(left@).to_multiset().add(views(right@).to_multiset()).add(
        views(out@).to_multiset(),
    ));
    while left.len() > 0 || right.len() > 0
        invariant
            sorted_by(views(left@), T::order()),
            sorted_by(views(right@), T::order()),
            sorted_by(views(out@).reverse(), T::order()),
            below::<T>(views(left@), views(out@)),
            below::<T>(views(right@), views(out@)),
            all == views(left@).to_multiset().add(views(right@).to_multiset()).add(
                views(out@).to_multiset(),
            ),
        decreases left@.len() + right@.len(),
    {
        let from_right = if left.len() == 0 {
            true
        } else if right.len() == 0 {
            false
        } else {
            left[left.len() - 1].not_after(&right[right.len() - 1])
        };
        let ghost l = views(left@);
        let ghost r = views(right@);
        let ghost o = views(out@);
        proof {
            T::ordered();
        }
        if from_right {
            move_last(&mut right, &mut out);
            proof {
                last_moved::<T>(r, l, o);
            }
        } else {
            move_last(&mut left, &mut out);
            proof {
                last_moved::<T>(l, r, o);
            }
        }
        proof {
            let (a, b) = (l.to_multiset(), r.to_multiset());
            assert(a.add(b) =~= b.add(a));
            let (a, b) = (views(left@).to_multiset(), views(right@).to_multiset());
            assert(a.add(b) =~= b.add(a));
        }
    }
    assert(views(left@) =~= Seq::empty());
    assert(views(right@) =~= Seq::empty());
    assert(all =~= views(out@).to_multiset());
    out
}

/// Moving the last of the items in `from` and `other` behind `out` keeps all three
/// sorted.
proof fn last_moved<T: Ordered>(from: Seq<T::V>, other: Seq<T::V>, out: Seq<T::V>)
    requires
        from.len() > 0,
        sorted_by(from, T::order()),
        sorted_by(other, T::order()),
        sorted_by(out.reverse(), T::order()),
        below::<T>(from, out),
        below::<T>(other, out),
        other.len() > 0 ==> T::order()(other.last(), from.last()),
        total_ordering(T::order()),
    ensures
        sorted_by(from.drop_last(), T::order()),
        sorted_by(out.push(from.last()).reverse(), T::order()),
        below::<T>(from.drop_last(), out.push(from.last())),
        below::<T>(other, out.push(from.last())),
        from.to_multiset().add(other.to_multiset()).add(out.to_multiset())
            == from.drop_last().to_multiset().add(other.to_multiset()).add(
            out.push(from.last()).to_multiset(),
        ),
{
    broadcast use vstd::multiset::group_multiset_axioms;

    let leq = T::order();
    let last = from.last();
    let more = out.push(last).reverse();
    let was = out.reverse();
    assert forall|i: int, j: int| 0 <= i < j < more.len() implies #[trigger] leq(
        more[i],
        more[j],
    ) by {
        if i == 0 {
            assert(more[0] == last);
            assert(more[j] == out[out.len() - j]);
        } else {
            assert(more[i] == was[i - 1]);
            assert(more[j] == was[j - 1]);
            assert(leq(was[i - 1], was[j - 1]));
        }
    }
    let next = out.push(last);
    assert forall|i: int, j: int|
        0 <= i < from.drop_last().len() && 0 <= j < next.len() implies leq(
        #[trigger] from.drop_last()[i],
        #[trigger] next[j],
    ) by {
        assert(from.drop_last()[i] == from[i]);
        if j == out.len() {
            assert(leq(from[i], from[from.len() - 1]));
        } else {
            assert(next[j] == out[j]);
        }
    }
    assert forall|i: int, j: int| 0 <= i < other.len() && 0 <= j < next.len() implies leq(
        #[trigger] other[i],
        #[trigger] next[j],
    ) by {
        if j == out.len() {
            if i < other.len() - 1 {
                assert(leq(other[i], other[other.len() - 1]));
                assert(leq(other.last(), last));
                assert(leq(other[i], last));
            }
        } else {
            assert(next[j] == out[j]);
        }
    }
    assert forall|i: int, j: int| 0 <= i < j < from.drop_last().len() implies #[trigger] leq(
        from.drop_last()[i],
        from.drop_last()[j],
    ) by {
        assert(leq(from[i], from[j]));
    }
    from.drop_last().to_multiset_ensures();
    out.to_multiset_ensures();
    assert(from.drop_last().push(last) =~= from);
    assert(from.to_multiset().add(other.to_multiset()).add(out.to_multiset())
        =~= from.drop_last().to_multiset().add(other.to_multiset()).add(
        out.push(last).to_multiset(),
    ));
}

/// `items`, the last one first.
fn reversed<T: Ordered>(items: Vec<T>) -> (out: Vec<T>)
    ensures
        views(out@) == views(items@).reverse(),
{
    let ghost all = views(items@);
    let mut items = items;
    let mut out: Vec<T> = Vec::new();
    assert(all.take(all.len() as int) =~= all);
    assert(views(out@) =~= all.skip(all.len() as int).reverse());
    while items.len() > 0
        invariant
            items@.len() <= all.len(),
            views(items@) == all.take(items@.len() as int),
            views(out@) == all.skip(items@.len() as int).reverse(),
        decreases items@.len(),
    {
        let ghost n = items@.len() as int;
        move_last(&mut items, &mut out);
        assert(all.take(n).drop_last() =~= all.take(n - 1));
        assert(all.skip(n).reverse().push(all[n - 1]) =~= all.skip(n - 1).reverse());
    }
    assert(all.skip(0) =~= all);
    out
}

/// `items` in their order.
pub fn sorted<T: Ordered>(items: Vec<T>) -> (out: Vec<T>)
    ensures
        views(out@) == views(items@).sort_by(T::order()),
    decreases items@.len(),
{
    let ghost all = views(items@);
    proof {
        T::ordered();
        all.lemma_sort_by_ensures(T::order());
    }
    if items.len() <= 1 {
        proof {
            lemma_sorted_unique(all, all.sort_by(T::order()), T::order());
        }
        return items;
    }
    let mut left = items;
    let middle = left.len() / 2;
    let right = left.split_off(middle);
    let ghost l = views(left@);
    let ghost r = views(right@);
    proof {
        assert(all =~= l + r);
        lemma_multiset_commutative(l, r);
        l.lemma_sort_by_ensures(T::order());
        r.lemma_sort_by_ensures(T::order());
    }
    let down = merge_down(sorted(left), sorted(right));
    let ghost merged = views(down@);
    let out = reversed(down);
    proof {
        merged.lemma_reverse_to_multiset();
        lemma_sorted_unique(views(out@), all.sort_by(T::order()), T::order());
    }
    out
}

/// Whether the text `a` comes before `b` or is the same.
pub open spec fn text_leq(a: Seq<char>, b: Seq<char>) -> bool {
    !text_less(b, a)
}

impl Ordered for String {
    open spec fn order() -> spec_fn(Seq<char>, Seq<char>) -> bool {
        |a: Seq<char>, b: Seq<char>| text_leq(a, b)
    }

    proof fn ordered() {
        let leq = String::order();
        assert forall|a: Seq<char>| #[trigger] leq(a, a) by {
            text_less_irreflexive(a);
        }
        assert forall|a: Seq<char>, b: Seq<char>| #[trigger] leq(a, b) && #[trigger] leq(
            b,
            a,
        ) implies a == b by {
            text_less_total(a, b);
        }
        assert forall|a: Seq<char>, b: Seq<char>, c: Seq<char>| #[trigger] leq(
            a,
            b,
        ) && #[trigger] leq(b, c) implies leq(a, c) by {
            text_leq_transitive(a, b, c);
        }
        assert forall|a: Seq<char>, b: Seq<char>| #[trigger] leq(a, b) || #[trigger] leq(b, a) by {
            if text_less(b, a) && text_less(a, b) {
                text_less_transitive(a, b, a);
                text_less_irreflexive(a);
            }
        }
    }

    fn not_after(&self, other: &String) -> (r: bool) {
        !comes_before(other.as_str(), self.as_str())
    }
}

/// The order of texts is transitive.
pub proof fn text_leq_transitive(a: Seq<char>, b: Seq<char>, c: Seq<char>)
    requires
        text_leq(a, b),
        text_leq(b, c),
    ensures
        text_leq(a, c),
{
    if text_less(c, a) {
        text_less_total(a, b);
        if text_less(a, b) {
            text_less_transitive(c, a, b);
        }
    }
}

impl Ordered for u32 {
    open spec fn order() -> spec_fn(u32, u32) -> bool {
        |a: u32, b: u32| a <= b
    }

    proof fn ordered() {
    }

    fn not_after(&self, other: &u32) -> (r: bool) {
        *self <= *other
    }
}

} // verus!

//! Syntax trees as plain values.
//!
//! A parser reports its tree as the list of its nodes in preorder, each with
//! its distance from the root. [`build_tree`] turns that list back into a tree.
use vstd::prelude::*;

verus! {

/// A node together with the trees below it, in source order.
pub struct SourceTree<T> {
    pub data: T,
    pub children: Vec<SourceTree<T>>,
}

/// What a [`SourceTree`] stands for.
pub struct SourceTreeView<V> {
    pub data: V,
    pub children: Seq<SourceTreeView<V>>,
}

/// What `tree` stands for.
pub open spec fn tree_view<T: View>(tree: SourceTree<T>) -> SourceTreeView<T::V>
    decreases tree,
{
    SourceTreeView {
        data: tree.data@,
        children: Seq::new(
            tree.children@.len(),
            |i: int|
                if 0 <= i < tree.children@.len() {
                    tree_view(tree.children@[i])
                } else {
                    arbitrary()
                },
        ),
    }
}

impl<T: View> View for SourceTree<T> {
    type V = SourceTreeView<T::V>;

    open spec fn view(&self) -> SourceTreeView<T::V> {
        tree_view(*self)
    }
}

/// The views of a list of trees.
pub open spec fn tree_views<T: View>(trees: Seq<SourceTree<T>>) -> Seq<SourceTreeView<T::V>> {
    trees.map_values(|t: SourceTree<T>| t@)
}

/// A tree stands for what its parts stand for.
pub(crate) proof fn tree_view_parts<T: View>(tree: SourceTree<T>)
    ensures
        tree@.data == tree.data@,
        tree@.children == tree_views(tree.children@),
{
    assert forall|i: int| 0 <= i < tree.children@.len() implies tree@.children[i]
        == tree.children@[i]@ by {}
    assert(tree@.children =~= tree_views(tree.children@));
}

/// One entry of a preorder listing: a node and its distance from the root.
pub struct Located<T> {
    pub depth: u32,
    pub data: T,
}

impl<T: View> View for Located<T> {
    type V = (nat, T::V);

    open spec fn view(&self) -> (nat, T::V) {
        (self.depth as nat, self.data@)
    }
}

/// The views of a preorder listing.
pub open spec fn listing<T: View>(records: Seq<Located<T>>) -> Seq<(nat, T::V)> {
    records.map_values(|r: Located<T>| r@)
}

/// The nodes of `tree` in preorder, the root at distance `depth`.
pub open spec fn preorder<V>(tree: SourceTreeView<V>, depth: nat) -> Seq<(nat, V)>
    decreases tree,
{
    seq![(depth, tree.data)] + forest_preorder(tree.children, depth + 1)
}

/// The nodes of `trees` in preorder, one tree after the other.
pub open spec fn forest_preorder<V>(trees: Seq<SourceTreeView<V>>, depth: nat) -> Seq<(nat, V)>
    decreases trees,
{
    if trees.len() == 0 {
        Seq::empty()
    } else {
        forest_preorder(trees.drop_last(), depth) + preorder(trees.last(), depth)
    }
}

/// Whether a listing is that of one tree: it starts with the root, every later
/// node lies below the root, and a node lies at most one step below the node
/// listed before it.
pub open spec fn well_nested<V>(records: Seq<(nat, V)>) -> bool {
    &&& records.len() > 0
    &&& records[0].0 == 0
    &&& forall|i: int| 0 < i < records.len() ==> 1 <= (#[trigger] records[i]).0
    &&& forall|i: int|
        0 < i < records.len() ==> (#[trigger] records[i]).0 <= records[i - 1].0 + 1
}

/// A tree under construction and its distance from the root.
struct Pending<T> {
    depth: u32,
    tree: SourceTree<T>,
}

spec fn pending_preorder<T: View>(stack: Seq<Pending<T>>) -> Seq<(nat, T::V)>
    decreases stack.len(),
{
    if stack.len() == 0 {
        Seq::empty()
    } else {
        preorder(stack.last().tree@, stack.last().depth as nat) + pending_preorder(
            stack.drop_last(),
        )
    }
}

fn is_well_nested<T: View>(records: &Vec<Located<T>>) -> (ok: bool)
    ensures
        ok == well_nested(listing(records@)),
{
    if records.len() == 0 {
        return false;
    }
    assert(listing(records@)[0] == records@[0]@);
    if records[0].depth != 0 {
        return false;
    }
    let mut i: usize = 1;
    while i < records.len()
        invariant
            1 <= i <= records@.len(),
            records@[0].depth == 0,
            forall|j: int|
                0 < j < i ==> 1 <= (#[trigger] records@[j]).depth && records@[j].depth
                    <= records@[j - 1].depth + 1,
        decreases records@.len() - i,
    {
        let depth = records[i].depth;
        assert(listing(records@)[i as int] == records@[i as int]@);
        assert(listing(records@)[i - 1] == records@[i - 1]@);
        if depth == 0 || depth - 1 > records[i - 1].depth {
            return false;
        }
        i += 1;
    }
    assert forall|j: int| 0 <= j < records@.len() implies (#[trigger] listing(records@)[j])
        == records@[j]@ by {}
    true
}

/// The tree that `records` lists.
///
/// There is one exactly when the listing is [`well_nested`], and its preorder is
/// then the listing itself.
pub fn build_tree<T: View>(records: Vec<Located<T>>) -> (tree: Option<SourceTree<T>>)
    ensures
        tree is Some == well_nested(listing(records@)),
        tree matches Some(t) ==> preorder(t@, 0) == listing(records@),
{
    if !is_well_nested(&records) {
        return None;
    }
    let ghost all = listing(records@);
    let mut rest = records;
    let mut stack: Vec<Pending<T>> = Vec::new();
    assert(all.skip(all.len() as int) =~= Seq::empty());
    while rest.len() > 0
        invariant
            well_nested(all),
            rest@.len() <= all.len(),
            listing(rest@) == all.take(rest@.len() as int),
            pending_preorder(stack@) == all.skip(rest@.len() as int),
            rest@.len() < all.len() ==> stack@.len() > 0 && stack@.last().depth
                == all[rest@.len() as int].0,
            rest@.len() == all.len() ==> stack@.len() == 0,
            forall|k: int, l: int|
                0 <= k <= l < stack@.len() ==> (#[trigger] stack@[k]).depth <= (
                #[trigger] stack@[l]).depth,
            rest@.len() > 0 ==> forall|k: int|
                0 <= k < stack@.len() ==> 1 <= (#[trigger] stack@[k]).depth,
            rest@.len() == 0 ==> stack@.len() == 1 && stack@[0].depth == 0,
        decreases rest@.len(),
    {
        let ghost before = rest@;
        let node = match rest.pop() {
            Some(node) => node,
            None => return None,
        };
        let ghost at = rest@.len() as int;
        assert(node@ == all[at]) by {
            assert(listing(before)[at] == before[at]@);
            assert(all.take(at + 1)[at] == all[at]);
        }
        assert(listing(rest@) =~= all.take(at)) by {
            assert forall|j: int| 0 <= j < at implies listing(rest@)[j] == all.take(at)[j] by {
                assert(listing(before)[j] == before[j]@);
            }
        }
        let mut children: Vec<SourceTree<T>> = Vec::new();
        let ghost mut kids: Seq<SourceTreeView<T::V>> = Seq::empty();
        assert(forest_preorder(kids, node.depth as nat + 1) =~= Seq::empty());
        assert(forall|k: int|
            0 <= k < stack@.len() ==> (#[trigger] stack@[k]).depth <= node.depth + 1) by {
            if stack@.len() > 0 {
                assert(all[at + 1].0 <= all[at].0 + 1);
            }
        }
        while stack.len() > 0 && stack[stack.len() - 1].depth > node.depth
            invariant
                well_nested(all),
                0 <= at < all.len(),
                children@.len() == kids.len(),
                forall|k: int| 0 <= k < kids.len() ==> (#[trigger] children@[k])@ == kids[k],
                forest_preorder(kids, node.depth as nat + 1) + pending_preorder(stack@)
                    == all.skip(at + 1),
                forall|k: int, l: int|
                    0 <= k <= l < stack@.len() ==> (#[trigger] stack@[k]).depth <= (
                    #[trigger] stack@[l]).depth,
                forall|k: int|
                    0 <= k < stack@.len() ==> 1 <= (#[trigger] stack@[k]).depth <= node.depth + 1,
            decreases stack@.len(),
        {
            let ghost earlier = stack@;
            let child = match stack.pop() {
                Some(child) => child,
                None => return None,
            };
            assert(stack@ =~= earlier.drop_last());
            proof {
                let more = kids.push(child.tree@);
                assert(more.drop_last() =~= kids);
                assert(forest_preorder(more, node.depth as nat + 1) + pending_preorder(stack@)
                    =~= forest_preorder(kids, node.depth as nat + 1) + pending_preorder(earlier));
                kids = more;
            }
            children.push(child.tree);
        }
        let depth = node.depth;
        let tree = SourceTree { data: node.data, children };
        proof {
            assert(tree@.children =~= kids);
            assert(all.skip(at) =~= seq![all[at]] + all.skip(at + 1));
        }
        let ghost earlier = stack@;
        stack.push(Pending { depth, tree });
        proof {
            assert(stack@.drop_last() =~= earlier);
            assert(pending_preorder(stack@) =~= all.skip(at));
        }
    }
    let ghost last = stack@;
    match stack.pop() {
        Some(root) => {
            assert(last.drop_last() =~= Seq::empty());
            assert(pending_preorder(last.drop_last()) =~= Seq::empty());
            assert(preorder(root.tree@, 0) =~= all);
            Some(root.tree)
        },
        None => None,
    }
}

/// Every node of a forest lies at the distance it is listed at or below.
proof fn forest_depths<V>(trees: Seq<SourceTreeView<V>>, depth: nat)
    ensures
        forall|i: int|
            0 <= i < forest_preorder(trees, depth).len() ==> depth <= (
            #[trigger] forest_preorder(trees, depth)[i]).0,
        trees.len() > 0 ==> forest_preorder(trees, depth).len() > 0 && forest_preorder(
            trees,
            depth,
        )[0].0 == depth,
    decreases trees,
{
    if trees.len() > 0 {
        forest_depths(trees.drop_last(), depth);
        tree_depths(trees.last(), depth);
        if trees.len() == 1 {
            assert(forest_preorder(trees.drop_last(), depth) =~= Seq::empty());
        }
    }
}

/// The root of a tree is listed first, and every other node lies below it.
proof fn tree_depths<V>(tree: SourceTreeView<V>, depth: nat)
    ensures
        preorder(tree, depth).len() > 0,
        preorder(tree, depth)[0] == (depth, tree.data),
        forall|i: int|
            0 < i < preorder(tree, depth).len() ==> depth < (#[trigger] preorder(tree, depth)[i]).0,
    decreases tree,
{
    forest_depths(tree.children, depth + 1);
}

/// A listing determines its tree: two trees with the same preorder are the same.
pub proof fn preorder_injective<V>(a: SourceTreeView<V>, b: SourceTreeView<V>, depth: nat)
    requires
        preorder(a, depth) == preorder(b, depth),
    ensures
        a == b,
    decreases a,
{
    let x = preorder(a, depth);
    assert(x[0] == (depth, a.data));
    assert(x[0] == (depth, b.data));
    assert(x.skip(1) =~= forest_preorder(a.children, depth + 1));
    assert(x.skip(1) =~= forest_preorder(b.children, depth + 1));
    forest_preorder_injective(a.children, b.children, depth + 1);
}

proof fn forest_preorder_injective<V>(
    a: Seq<SourceTreeView<V>>,
    b: Seq<SourceTreeView<V>>,
    depth: nat,
)
    requires
        forest_preorder(a, depth) == forest_preorder(b, depth),
    ensures
        a == b,
    decreases a,
{
    forest_depths(a, depth);
    forest_depths(b, depth);
    if a.len() > 0 && b.len() > 0 {
        let x = forest_preorder(a, depth);
        let last_a = preorder(a.last(), depth);
        let last_b = preorder(b.last(), depth);
        tree_depths(a.last(), depth);
        tree_depths(b.last(), depth);
        let start_a = x.len() - last_a.len();
        let start_b = x.len() - last_b.len();
        // The last tree starts at the last entry at distance `depth`.
        assert(x[start_a] == last_a[0]);
        assert(x[start_b] == last_b[0]);
        if start_a < start_b {
            assert(x[start_b] == last_a[start_b - start_a]);
        }
        if start_b < start_a {
            assert(x[start_a] == last_b[start_a - start_b]);
        }
        assert(last_a =~= x.skip(start_a));
        assert(last_b =~= x.skip(start_a));
        assert(forest_preorder(a.drop_last(), depth) =~= x.take(start_a));
        assert(forest_preorder(b.drop_last(), depth) =~= x.take(start_a));
        forest_preorder_injective(a.drop_last(), b.drop_last(), depth);
        preorder_injective(a.last(), b.last(), depth);
        assert(a =~= a.drop_last().push(a.last()));
        assert(b =~= b.drop_last().push(b.last()));
    } else {
        assert(a =~= b);
    }
}

/// The tree a listing describes.
pub open spec fn tree_from<V>(records: Seq<(nat, V)>) -> SourceTreeView<V> {
    choose|tree: SourceTreeView<V>| preorder(tree, 0) == records
}

/// The listing of a tree is well nested, and so describes it: a tree can be listed
/// and built again.
pub proof fn listed_trees_are_well_nested<V>(tree: SourceTreeView<V>)
    ensures
        well_nested(preorder(tree, 0)),
        tree_from(preorder(tree, 0)) == tree,
{
    tree_depths(tree, 0);
    tree_steps(tree, 0);
    let records = preorder(tree, 0);
    assert forall|i: int| 0 < i < records.len() implies (#[trigger] records[i]).0
        <= records[i - 1].0 + 1 by {
        assert(small_step(records, i));
    }
    preorder_injective(tree_from(records), tree, 0);
}

spec fn small_step<V>(records: Seq<(nat, V)>, i: int) -> bool {
    records[i].0 <= records[i - 1].0 + 1
}

/// No node of a tree lies more than one step below the node listed before it.
proof fn tree_steps<V>(tree: SourceTreeView<V>, depth: nat)
    ensures
        forall|i: int|
            0 < i < preorder(tree, depth).len() ==> #[trigger] small_step(
                preorder(tree, depth),
                i,
            ),
    decreases tree,
{
    let below = forest_preorder(tree.children, depth + 1);
    let all = preorder(tree, depth);
    forest_steps(tree.children, depth + 1);
    forest_depths(tree.children, depth + 1);
    assert forall|i: int| 0 < i < all.len() implies #[trigger] small_step(all, i) by {
        assert(all[i] == below[i - 1]);
        if i > 1 {
            assert(all[i - 1] == below[i - 2]);
            assert(small_step(below, i - 1));
        }
    }
}

proof fn forest_steps<V>(trees: Seq<SourceTreeView<V>>, depth: nat)
    ensures
        forall|i: int|
            0 < i < forest_preorder(trees, depth).len() ==> #[trigger] small_step(
                forest_preorder(trees, depth),
                i,
            ),
    decreases trees,
{
    if trees.len() > 0 {
        let head = forest_preorder(trees.drop_last(), depth);
        let tail = preorder(trees.last(), depth);
        let all = forest_preorder(trees, depth);
        forest_steps(trees.drop_last(), depth);
        forest_depths(trees.drop_last(), depth);
        tree_steps(trees.last(), depth);
        tree_depths(trees.last(), depth);
        assert forall|i: int| 0 < i < all.len() implies #[trigger] small_step(all, i) by {
            if i < head.len() {
                assert(all[i] == head[i] && all[i - 1] == head[i - 1]);
                assert(small_step(head, i));
            } else if i == head.len() {
                assert(all[i] == tail[0]);
                assert(all[i - 1] == head[i - 1]);
            } else {
                assert(all[i] == tail[i - head.len()]);
                assert(all[i - 1] == tail[i - 1 - head.len()]);
                assert(small_step(tail, i - head.len()));
            }
        }
    }
}

/// The last entry at distance `depth` of a listing that starts with one.
proof fn last_at<V>(records: Seq<(nat, V)>, depth: nat) -> (k: int)
    requires
        records.len() > 0,
        records[0].0 == depth,
    ensures
        0 <= k < records.len(),
        records[k].0 == depth,
        forall|i: int| k < i < records.len() ==> (#[trigger] records[i]).0 != depth,
    decreases records.len(),
{
    let n = records.len() - 1;
    if records[n].0 == depth {
        n
    } else {
        let k = last_at(records.drop_last(), depth);
        assert forall|i: int| k < i < records.len() implies (#[trigger] records[i]).0 != depth by {
            if i < n {
                assert(records.drop_last()[i] == records[i]);
            }
        }
        k
    }
}

/// The trees that a listing of trees at distance `depth` describes.
proof fn listed_forest<V>(records: Seq<(nat, V)>, depth: nat) -> (trees: Seq<SourceTreeView<V>>)
    requires
        records.len() > 0 ==> records[0].0 == depth,
        forall|i: int| 0 <= i < records.len() ==> depth <= (#[trigger] records[i]).0,
        forall|i: int| 0 < i < records.len() ==> #[trigger] small_step(records, i),
    ensures
        forest_preorder(trees, depth) == records,
    decreases records.len(),
{
    if records.len() == 0 {
        assert(forest_preorder(Seq::<SourceTreeView<V>>::empty(), depth) =~= records);
        Seq::empty()
    } else {
        let k = last_at(records, depth);
        let head = records.take(k);
        let tail = records.skip(k + 1);
        assert forall|i: int| 0 < i < head.len() implies #[trigger] small_step(head, i) by {
            assert(small_step(records, i));
        }
        assert forall|i: int| 0 < i < tail.len() implies #[trigger] small_step(tail, i) by {
            assert(small_step(records, k + 1 + i));
        }
        assert forall|i: int| 0 <= i < tail.len() implies depth + 1 <= (#[trigger] tail[i]).0 by {
            assert(records[k + 1 + i].0 != depth);
        }
        if tail.len() > 0 {
            assert(small_step(records, k + 1));
        }
        let before = listed_forest(head, depth);
        let children = listed_forest(tail, depth + 1);
        let last = SourceTreeView { data: records[k].1, children };
        let trees = before.push(last);
        assert(trees.drop_last() =~= before);
        assert(forest_preorder(trees, depth) =~= records) by {
            assert(preorder(last, depth) =~= seq![records[k]] + tail);
        }
        trees
    }
}

/// A well-nested listing is that of a tree, which it describes.
pub proof fn well_nested_lists_a_tree<V>(records: Seq<(nat, V)>)
    requires
        well_nested(records),
    ensures
        preorder(tree_from(records), 0) == records,
{
    let below = records.skip(1);
    assert forall|i: int| 0 < i < below.len() implies #[trigger] small_step(below, i) by {
        assert(records[i + 1].0 <= records[i].0 + 1);
    }
    if below.len() > 0 {
        assert(records[1].0 <= records[0].0 + 1);
    }
    let children = listed_forest(below, 1);
    let tree = SourceTreeView { data: records[0].1, children };
    assert(preorder(tree, 0) =~= records);
}

} // verus!

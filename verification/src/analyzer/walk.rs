//! Collecting the parts of a source file while a parser's syntax tree is walked.
use vstd::prelude::*;

use super::tree::{SourceTree, SourceTreeView, tree_view_parts, tree_views};

verus! {

/// The parts that a walk over a syntax tree has met so far, as trees: those inside
/// the construct it is in, and those around it.
pub struct TreeWalk<T> {
    /// What was met inside the construct that the walk is in.
    pub trees: Vec<SourceTree<T>>,
    /// What was met before that, for each construct around, outermost first.
    pub around: Vec<Vec<SourceTree<T>>>,
}

impl<T: View> TreeWalk<T> {
    /// What was met inside the construct that the walk is in.
    pub open spec fn met(&self) -> Seq<SourceTreeView<T::V>> {
        tree_views(self.trees@)
    }

    /// A walk that has met nothing.
    pub fn new() -> (walk: TreeWalk<T>)
        ensures
            walk.met() == Seq::<SourceTreeView<T::V>>::empty(),
    {
        let walk = TreeWalk { trees: Vec::new(), around: Vec::new() };
        assert(walk.met() =~= Seq::empty());
        walk
    }

    /// Goes into a construct.
    pub fn enter(&mut self)
        ensures
            final(self).met() == Seq::<SourceTreeView<T::V>>::empty(),
            final(self).around@ == old(self).around@.push(old(self).trees),
    {
        let mut outer: Vec<SourceTree<T>> = Vec::new();
        std::mem::swap(&mut outer, &mut self.trees);
        self.around.push(outer);
        assert(self.met() =~= Seq::empty());
    }

    /// Comes out of a construct, which is `part` and holds what was met inside.
    pub fn leave(&mut self, part: T)
        requires
            old(self).around@.len() > 0,
        ensures
            final(self).met() == tree_views(old(self).around@.last()@) + seq![
                SourceTreeView { data: part@, children: old(self).met() },
            ],
            final(self).around@ == old(self).around@.drop_last(),
    {
        let mut children: Vec<SourceTree<T>> = match self.around.pop() {
            Some(outer) => outer,
            None => Vec::new(),
        };
        let ghost outer = children@;
        std::mem::swap(&mut children, &mut self.trees);
        let tree = SourceTree { data: part, children };
        proof {
            tree_view_parts(tree);
        }
        self.trees.push(tree);
        assert(self.met() =~= tree_views(outer) + seq![tree@]);
    }
}

/// Whether a walk met `trees` next, and is where it was.
pub open spec fn met_next<T: View>(
    before: TreeWalk<T>,
    after: TreeWalk<T>,
    trees: Seq<SourceTreeView<T::V>>,
) -> bool {
    &&& after.met() == before.met() + trees
    &&& after.around@ == before.around@
}

} // verus!

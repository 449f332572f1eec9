//! The path from the query root to the currently-resolving field, kept as an
//! append-only arena of parent-pointing nodes: descending into a field adds a
//! node, and nothing already in the arena is ever changed.

use vstd::prelude::*;
use crate::error::PathSegment;
use crate::error::PathSegModel;
use crate::error::path_model;

verus! {

/// One immutable path node: a segment and a back-reference to its parent.
pub struct QueryPathNode {
    pub segment: PathSegment,
    pub parent: Option<usize>,
}

/// The arena that owns every path node of one request.
pub struct PathArena {
    pub nodes: Vec<QueryPathNode>,
}

/// The decreases measure for walking a node reference towards the root.
pub open spec fn node_measure(node: Option<usize>) -> int {
    match node {
        Some(i) => i as int + 1,
        None => 0,
    }
}

/// The root-to-leaf segment sequence a node reference stands for.
pub open spec fn spec_chain(nodes: Seq<QueryPathNode>, node: Option<usize>) -> Seq<PathSegModel>
    decreases node_measure(node),
{
    match node {
        None => Seq::empty(),
        Some(i) => if i < nodes.len() {
            let nd = nodes[i as int];
            let prefix = match nd.parent {
                Some(p) => if p < i {
                    spec_chain(nodes, Some(p))
                } else {
                    Seq::empty()
                },
                None => Seq::empty(),
            };
            prefix.push(nd.segment.model())
        } else {
            Seq::empty()
        },
    }
}

impl PathArena {
    /// Every node's parent comes strictly before it, so chains are acyclic.
    pub open spec fn wf(self) -> bool {
        forall|j: int| 0 <= j < self.nodes@.len() ==> match #[trigger] self.nodes@[j].parent {
            Some(p) => p < j,
            None => true,
        }
    }

    /// A node reference that points into this arena.
    pub open spec fn valid(self, node: Option<usize>) -> bool {
        match node {
            Some(i) => i < self.nodes@.len(),
            None => true,
        }
    }

    pub fn new() -> (r: PathArena)
        ensures
            r.wf(),
            r.nodes@.len() == 0,
    {
        PathArena { nodes: Vec::new() }
    }

    /// Extend the chain ending at `parent` by one segment; the new node's
    /// chain is the parent's chain plus that segment, and no existing chain
    /// changes.
    pub fn push_node(&mut self, segment: PathSegment, parent: Option<usize>) -> (idx: usize)
        requires
            old(self).wf(),
            old(self).valid(parent),
        ensures
            final(self).wf(),
            idx == old(self).nodes@.len(),
            final(self).nodes@.len() == old(self).nodes@.len() + 1,
            final(self).nodes@ =~= old(self).nodes@.push(
                QueryPathNode { segment, parent },
            ),
            spec_chain(final(self).nodes@, Some(idx))
                == spec_chain(old(self).nodes@, parent).push(segment.model()),
            forall|nd: Option<usize>| old(self).valid(nd)
                ==> spec_chain(final(self).nodes@, nd) == spec_chain(old(self).nodes@, nd),
    {
        let idx = self.nodes.len();
        self.nodes.push(QueryPathNode { segment, parent });
        proof {
            lemma_chain_extend(old(self).nodes@, self.nodes@, idx);
            assert forall|nd: Option<usize>| old(self).valid(nd)
                implies spec_chain(self.nodes@, nd) == spec_chain(old(self).nodes@, nd) by {
                lemma_chain_stable(old(self).nodes@, self.nodes@, nd);
            }
            lemma_chain_stable(old(self).nodes@, self.nodes@, parent);
        }
        idx
    }

    /// Copy the chain ending at `node` out of the arena, root first.
    pub fn materialize(&self, node: Option<usize>) -> (r: Vec<PathSegment>)
        requires
            self.wf(),
            self.valid(node),
        ensures
            path_model(r@) == spec_chain(self.nodes@, node),
        decreases node_measure(node),
    {
        match node {
            None => Vec::new(),
            Some(i) => {
                let parent = self.nodes[i].parent;
                let mut prefix = self.materialize(parent);
                let ghost pre = prefix@;
                let seg = self.nodes[i].segment.clone_seg();
                prefix.push(seg);
                proof {
                    assert(prefix@.drop_last() =~= pre);
                }
                prefix
            },
        }
    }
}

/// Chains that stay inside a prefix of the arena do not see appended nodes.
proof fn lemma_chain_stable(
    before: Seq<QueryPathNode>,
    after: Seq<QueryPathNode>,
    node: Option<usize>,
)
    requires
        before.len() <= after.len(),
        forall|j: int| 0 <= j < before.len() ==> after[j] == before[j],
        match node {
            Some(i) => i < before.len(),
            None => true,
        },
    ensures
        spec_chain(after, node) == spec_chain(before, node),
    decreases node_measure(node),
{
    match node {
        None => {},
        Some(i) => {
            match before[i as int].parent {
                Some(p) => if p < i {
                    lemma_chain_stable(before, after, Some(p));
                },
                None => {},
            }
        },
    }
}

/// The chain of a node just appended is its parent's old chain plus its own
/// segment.
proof fn lemma_chain_extend(before: Seq<QueryPathNode>, after: Seq<QueryPathNode>, i: usize)
    requires
        after.len() == before.len() + 1,
        i as int == before.len(),
        forall|j: int| 0 <= j < before.len() ==> after[j] == before[j],
        match after[i as int].parent {
            Some(p) => p < i,
            None => true,
        },
    ensures
        spec_chain(after, Some(i))
            == spec_chain(before, after[i as int].parent).push(after[i as int].segment.model()),
{
    match after[i as int].parent {
        Some(p) => {
            lemma_chain_stable(before, after, Some(p));
        },
        None => {},
    }
}

} // verus!

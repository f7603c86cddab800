//! A read-only snapshot of the commit graph, as navigation queries it.

use vstd::prelude::*;

verus! {

/// A commit as navigation sees it: its identifier, its commit time, its
/// parents, and whether a later rewrite has made it obsolete.
pub struct CommitNode {
    pub id: u64,
    pub time: i64,
    pub parents: Vec<u64>,
    pub obsolete: bool,
}

/// Strict canonical order: by commit time, then by identifier.
pub open spec fn key_lt(a: CommitNode, b: CommitNode) -> bool {
    a.time < b.time || (a.time == b.time && a.id < b.id)
}

/// Canonical order, not strict.
pub open spec fn key_le(a: CommitNode, b: CommitNode) -> bool {
    key_lt(a, b) || (a.time == b.time && a.id == b.id)
}

/// The commits are listed in strictly increasing canonical order, each
/// identifier once.
pub open spec fn canonical(nodes: Seq<CommitNode>) -> bool {
    &&& forall|i: int, j: int| 0 <= i < j < nodes.len() ==> #[trigger] key_lt(nodes[i], nodes[j])
    &&& forall|i: int, j: int| 0 <= i < j < nodes.len() ==> nodes[i].id != nodes[j].id
}

/// `node` is a child of `parent` that has not been made obsolete.
pub open spec fn is_live_child(node: CommitNode, parent: u64) -> bool {
    !node.obsolete && node.parents@.contains(parent)
}

/// The live children of `parent` among the first `m` commits, in listing order.
pub open spec fn children_upto(nodes: Seq<CommitNode>, parent: u64, m: int) -> Seq<u64>
    decreases m,
{
    if m <= 0 {
        seq![]
    } else {
        let before = children_upto(nodes, parent, m - 1);
        if is_live_child(nodes[m - 1], parent) {
            before.push(nodes[m - 1].id)
        } else {
            before
        }
    }
}

/// `children(parent) \ obsolete`, in canonical order.
pub open spec fn live_children(nodes: Seq<CommitNode>, parent: u64) -> Seq<u64> {
    children_upto(nodes, parent, nodes.len() as int)
}

/// Some commit of the snapshot has identifier `id`.
pub open spec fn contains_id(nodes: Seq<CommitNode>, id: u64) -> bool {
    exists|i: int| 0 <= i < nodes.len() && nodes[i].id == id
}

/// No live child is listed exactly when none of the first `m` commits is one.
pub proof fn lemma_children_empty(nodes: Seq<CommitNode>, parent: u64, m: int)
    requires
        0 <= m <= nodes.len(),
    ensures
        children_upto(nodes, parent, m).len() == 0 <==> forall|j: int|
            0 <= j < m ==> !is_live_child(#[trigger] nodes[j], parent),
    decreases m,
{
    if m > 0 {
        lemma_children_empty(nodes, parent, m - 1);
    }
}

/// The first live child listed is the earliest live child in the listing.
pub proof fn lemma_first_child(nodes: Seq<CommitNode>, parent: u64, m: int)
    requires
        0 <= m <= nodes.len(),
        children_upto(nodes, parent, m).len() > 0,
    ensures
        exists|k: int|
            0 <= k < m && is_live_child(#[trigger] nodes[k], parent) && nodes[k].id == children_upto(
                nodes,
                parent,
                m,
            )[0] && forall|j: int| 0 <= j < k ==> !is_live_child(#[trigger] nodes[j], parent),
    decreases m,
{
    let before = children_upto(nodes, parent, m - 1);
    if before.len() > 0 {
        lemma_first_child(nodes, parent, m - 1);
        let k = choose|k: int|
            0 <= k < m - 1 && is_live_child(#[trigger] nodes[k], parent) && nodes[k].id == before[0]
                && forall|j: int| 0 <= j < k ==> !is_live_child(#[trigger] nodes[j], parent);
        assert(children_upto(nodes, parent, m)[0] == before[0]);
        assert(is_live_child(nodes[k], parent));
    } else {
        lemma_children_empty(nodes, parent, m - 1);
        assert(is_live_child(nodes[m - 1], parent));
        assert(children_upto(nodes, parent, m)[0] == nodes[m - 1].id);
    }
}

/// The last live child listed is the latest live child in the listing.
pub proof fn lemma_last_child(nodes: Seq<CommitNode>, parent: u64, m: int)
    requires
        0 <= m <= nodes.len(),
        children_upto(nodes, parent, m).len() > 0,
    ensures
        exists|k: int|
            0 <= k < m && is_live_child(#[trigger] nodes[k], parent) && nodes[k].id == children_upto(
                nodes,
                parent,
                m,
            ).last() && forall|j: int| k < j < m ==> !is_live_child(#[trigger] nodes[j], parent),
    decreases m,
{
    if is_live_child(nodes[m - 1], parent) {
        assert(nodes[m - 1].id == children_upto(nodes, parent, m).last());
    } else {
        lemma_last_child(nodes, parent, m - 1);
        let k = choose|k: int|
            0 <= k < m - 1 && is_live_child(#[trigger] nodes[k], parent) && nodes[k].id
                == children_upto(nodes, parent, m - 1).last() && forall|j: int|
                k < j < m - 1 ==> !is_live_child(#[trigger] nodes[j], parent);
        assert(is_live_child(nodes[k], parent));
    }
}

/// Every parent that a commit names is itself in the snapshot.
pub open spec fn parents_present(nodes: Seq<CommitNode>) -> bool {
    forall|i: int, k: int|
        0 <= i < nodes.len() && 0 <= k < nodes[i].parents@.len() ==> contains_id(
            nodes,
            #[trigger] nodes[i].parents@[k],
        )
}

/// A commit that some commit names as a parent is in the snapshot.
pub proof fn lemma_parent_present(nodes: Seq<CommitNode>, parent: u64, j: int)
    requires
        parents_present(nodes),
        0 <= j < nodes.len(),
        nodes[j].parents@.contains(parent),
    ensures
        contains_id(nodes, parent),
{
    let k = choose|k: int| 0 <= k < nodes[j].parents@.len() && nodes[j].parents@[k] == parent;
    assert(contains_id(nodes, nodes[j].parents@[k]));
}

/// A commit with a live child is in the snapshot.
pub proof fn lemma_live_parent_present(nodes: Seq<CommitNode>, parent: u64)
    requires
        parents_present(nodes),
        live_children(nodes, parent).len() > 0,
    ensures
        contains_id(nodes, parent),
{
    lemma_first_child(nodes, parent, nodes.len() as int);
    let k = choose|k: int|
        0 <= k < nodes.len() && is_live_child(#[trigger] nodes[k], parent) && nodes[k].id
            == live_children(nodes, parent)[0] && forall|j: int|
            0 <= j < k ==> !is_live_child(#[trigger] nodes[j], parent);
    lemma_parent_present(nodes, parent, k);
}

fn id_listed(commits: &Vec<CommitNode>, id: u64) -> (r: bool)
    ensures
        r == contains_id(commits@, id),
{
    let mut i: usize = 0;
    while i < commits.len()
        invariant
            i <= commits@.len(),
            forall|j: int| 0 <= j < i ==> commits@[j].id != id,
        decreases commits@.len() - i,
    {
        if commits[i].id == id {
            return true;
        }
        i += 1;
    }
    false
}

fn all_parents_listed(commits: &Vec<CommitNode>) -> (r: bool)
    ensures
        r == parents_present(commits@),
{
    let mut i: usize = 0;
    while i < commits.len()
        invariant
            i <= commits@.len(),
            forall|a: int, k: int|
                0 <= a < i && 0 <= k < commits@[a].parents@.len() ==> contains_id(
                    commits@,
                    #[trigger] commits@[a].parents@[k],
                ),
        decreases commits@.len() - i,
    {
        let parents = &commits[i].parents;
        let mut k: usize = 0;
        while k < parents.len()
            invariant
                i < commits@.len(),
                parents@ == commits@[i as int].parents@,
                k <= parents@.len(),
                forall|a: int, b: int|
                    0 <= a < i && 0 <= b < commits@[a].parents@.len() ==> contains_id(
                        commits@,
                        #[trigger] commits@[a].parents@[b],
                    ),
                forall|b: int| 0 <= b < k ==> contains_id(commits@, #[trigger] parents@[b]),
            decreases parents@.len() - k,
        {
            if !id_listed(commits, parents[k]) {
                assert(!contains_id(commits@, commits@[i as int].parents@[k as int]));
                return false;
            }
            k += 1;
        }
        i += 1;
    }
    true
}

/// A snapshot of the commit graph. Its commits are kept in canonical order,
/// so that any subset of them read in listing order is canonically sorted.
pub struct DagSnapshot {
    commits: Vec<CommitNode>,
}

impl View for DagSnapshot {
    type V = Seq<CommitNode>;

    closed spec fn view(&self) -> Seq<CommitNode> {
        self.commits@
    }
}

fn has_parent(node: &CommitNode, parent: u64) -> (r: bool)
    ensures
        r == node.parents@.contains(parent),
{
    let mut i: usize = 0;
    while i < node.parents.len()
        invariant
            i <= node.parents@.len(),
            forall|j: int| 0 <= j < i ==> node.parents@[j] != parent,
        decreases node.parents@.len() - i,
    {
        if node.parents[i] == parent {
            assert(node.parents@[i as int] == parent);
            return true;
        }
        i += 1;
    }
    false
}

impl DagSnapshot {
    /// The snapshot's commits are canonically ordered with unique
    /// identifiers, and every parent they name is among them.
    pub open spec fn wf(&self) -> bool {
        canonical(self@) && parents_present(self@)
    }

    /// Builds a snapshot from commits listed in canonical order; `None` when
    /// they are out of order, an identifier repeats, or a parent is missing.
    pub fn new(commits: Vec<CommitNode>) -> (r: Option<DagSnapshot>)
        ensures
            r is Some <==> canonical(commits@) && parents_present(commits@),
            r matches Some(d) ==> d@ == commits@ && d.wf(),
    {
        let n = commits.len();
        let mut i: usize = 0;
        while i < n
            invariant
                n == commits@.len(),
                i <= n,
                forall|a: int, b: int| 0 <= a < b < i ==> #[trigger] key_lt(commits@[a], commits@[b]),
                forall|a: int, b: int| 0 <= a < b < i ==> commits@[a].id != commits@[b].id,
            decreases n - i,
        {
            if i > 0 {
                let p = &commits[i - 1];
                let c = &commits[i];
                if !(p.time < c.time || (p.time == c.time && p.id < c.id)) {
                    assert(!key_lt(commits@[i - 1], commits@[i as int]));
                    return None;
                }
                assert forall|a: int| 0 <= a < i implies #[trigger] key_lt(commits@[a], commits@[i as int]) by {
                    if a < i - 1 {
                        assert(key_lt(commits@[a], commits@[i - 1]));
                    }
                }
            }
            let mut j: usize = 0;
            while j < i
                invariant
                    n == commits@.len(),
                    i < n,
                    j <= i,
                    forall|a: int| 0 <= a < j ==> commits@[a].id != commits@[i as int].id,
                decreases i - j,
            {
                if commits[j].id == commits[i].id {
                    return None;
                }
                j += 1;
            }
            i += 1;
        }
        if !all_parents_listed(&commits) {
            return None;
        }
        Some(DagSnapshot { commits })
    }

    /// `children(parent) \ obsolete`, canonically sorted.
    pub fn live_children(&self, parent: u64) -> (r: Vec<u64>)
        ensures
            r@ == live_children(self@, parent),
    {
        let mut r: Vec<u64> = Vec::new();
        let mut i: usize = 0;
        while i < self.commits.len()
            invariant
                i <= self.commits@.len(),
                r@ == children_upto(self.commits@, parent, i as int),
            decreases self.commits@.len() - i,
        {
            let node = &self.commits[i];
            if !node.obsolete && has_parent(node, parent) {
                r.push(node.id);
            }
            i += 1;
        }
        r
    }

    /// Whether the snapshot holds a commit with identifier `id`.
    pub fn contains(&self, id: u64) -> (r: bool)
        ensures
            r == contains_id(self@, id),
    {
        id_listed(&self.commits, id)
    }
}

} // verus!

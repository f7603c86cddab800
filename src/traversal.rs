//! Forward traversal: step from a commit to one of its live children, a
//! given number of times, resolving branch points by policy.

use vstd::prelude::*;

use crate::dag::{
    canonical, contains_id, is_live_child, key_le, key_lt, lemma_children_empty, lemma_first_child,
    lemma_last_child, lemma_live_parent_present, lemma_parent_present, live_children,
    parents_present, CommitNode, DagSnapshot,
};

verus! {

/// Some commits have multiple children, which makes going forward ambiguous.
/// These values disambiguate which child to go to, by canonical order
/// (commit time, then identifier).
#[derive(Clone, Copy, Debug, PartialEq, Eq, Structural)]
pub enum Towards {
    /// When encountering multiple children, select the newest one.
    Newest,
    /// When encountering multiple children, select the oldest one.
    Oldest,
}

/// Conditions that stop a navigation before anything is checked out.
#[derive(Clone, Copy, Debug, PartialEq, Eq, Structural)]
pub enum NavError {
    /// There is no current commit to navigate from.
    NoCurrentPosition,
    /// The commit to start from is not in the snapshot.
    UnknownCommit(u64),
    /// No commit carries the selected number.
    UnknownLabel(usize),
}

/// The mathematical result of a traversal.
pub enum Walk {
    /// The traversal ended at this commit.
    Reached(u64),
    /// The traversal stopped at a commit with several live children and no
    /// policy: that commit, the steps made before it, and its children.
    Ambiguous(u64, nat, Seq<u64>),
}

/// The child that the policy takes among several (or the only one).
pub open spec fn chosen_child(children: Seq<u64>, towards: Option<Towards>) -> u64 {
    if towards == Some(Towards::Newest) {
        children.last()
    } else {
        children[0]
    }
}

/// Up to `remaining` steps forward from `cur`, `taken` steps having been made
/// before. A commit without live children ends the traversal early; several
/// live children with no policy end it as ambiguous.
pub open spec fn walk(
    nodes: Seq<CommitNode>,
    cur: u64,
    remaining: nat,
    towards: Option<Towards>,
    taken: nat,
) -> Walk
    decreases remaining,
{
    if remaining == 0 {
        Walk::Reached(cur)
    } else {
        let children = live_children(nodes, cur);
        if children.len() == 0 {
            Walk::Reached(cur)
        } else if children.len() == 1 || towards is Some {
            walk(nodes, chosen_child(children, towards), (remaining - 1) as nat, towards, taken + 1)
        } else {
            Walk::Ambiguous(cur, taken, children)
        }
    }
}

/// What `advance` returns: no step for a count of zero or less; an error
/// when steps are asked of a commit outside the snapshot; else the walk.
pub open spec fn advance_spec(
    nodes: Seq<CommitNode>,
    start: u64,
    num_commits: int,
    towards: Option<Towards>,
) -> Result<Walk, NavError> {
    if num_commits <= 0 {
        Ok(Walk::Reached(start))
    } else if !contains_id(nodes, start) {
        Err(NavError::UnknownCommit(start))
    } else {
        Ok(walk(nodes, start, num_commits as nat, towards, 0))
    }
}

/// The outcome of a traversal.
#[derive(Debug)]
pub enum Advance {
    /// The traversal ended at this commit.
    Reached(u64),
    /// At `at`, after `taken` steps, the traversal met several live children
    /// (canonically sorted) and had no policy to choose among them.
    Ambiguous { at: u64, taken: usize, children: Vec<u64> },
}

impl View for Advance {
    type V = Walk;

    open spec fn view(&self) -> Walk {
        match self {
            Advance::Reached(c) => Walk::Reached(*c),
            Advance::Ambiguous { at, taken, children } => Walk::Ambiguous(*at, *taken as nat, children@),
        }
    }
}

/// The view of a traversal's result.
pub open spec fn advance_view(r: Result<Advance, NavError>) -> Result<Walk, NavError> {
    match r {
        Ok(a) => Ok(a@),
        Err(e) => Err(e),
    }
}

/// Steps forward `num_commits` times from `current_oid` through live
/// children. Each step with several children takes the one that `towards`
/// names; with no policy the traversal stops there and reports the choice.
pub fn advance(
    dag: &DagSnapshot,
    current_oid: u64,
    num_commits: isize,
    towards: Option<Towards>,
) -> (r: Result<Advance, NavError>)
    ensures
        advance_view(r) == advance_spec(dag@, current_oid, num_commits as int, towards),
        num_commits == 0 ==> (r matches Ok(Advance::Reached(c)) && c == current_oid),
        r matches Ok(Advance::Ambiguous { taken, .. }) ==> taken < num_commits,
{
    if num_commits <= 0 {
        return Ok(Advance::Reached(current_oid));
    }
    if !dag.contains(current_oid) {
        return Err(NavError::UnknownCommit(current_oid));
    }
    let n = num_commits as usize;
    let ghost nodes = dag@;
    assert(advance_spec(nodes, current_oid, num_commits as int, towards) == Ok::<Walk, NavError>(
        walk(nodes, current_oid, n as nat, towards, 0),
    ));
    let mut cur = current_oid;
    let mut i: usize = 0;
    while i < n
        invariant
            n == num_commits as int,
            advance_spec(nodes, current_oid, num_commits as int, towards) == Ok::<Walk, NavError>(
                walk(nodes, current_oid, n as nat, towards, 0),
            ),
            i <= n,
            nodes == dag@,
            walk(nodes, current_oid, n as nat, towards, 0) == walk(nodes, cur, (n - i) as nat, towards, i as nat),
        decreases n - i,
    {
        let children = dag.live_children(cur);
        assert(walk(nodes, cur, (n - i) as nat, towards, i as nat) == if children@.len() == 0 {
            Walk::Reached(cur)
        } else if children@.len() == 1 || towards is Some {
            walk(nodes, chosen_child(children@, towards), (n - i - 1) as nat, towards, (i + 1) as nat)
        } else {
            Walk::Ambiguous(cur, i as nat, children@)
        });
        if children.len() == 0 {
            return Ok(Advance::Reached(cur));
        }
        if children.len() == 1 {
            cur = children[0];
        } else {
            match towards {
                Some(Towards::Newest) => {
                    cur = children[children.len() - 1];
                },
                Some(Towards::Oldest) => {
                    cur = children[0];
                },
                None => {
                    return Ok(Advance::Ambiguous { at: cur, taken: i, children });
                },
            }
        }
        i += 1;
    }
    Ok(Advance::Reached(cur))
}

/// Every commit has at most one live child.
pub open spec fn linear(nodes: Seq<CommitNode>) -> bool {
    forall|x: u64| #[trigger] live_children(nodes, x).len() <= 1
}

/// Following the first live child `n` times, or until there is none.
pub open spec fn descendant(nodes: Seq<CommitNode>, cur: u64, n: nat) -> u64
    decreases n,
{
    if n == 0 {
        cur
    } else {
        let children = live_children(nodes, cur);
        if children.len() == 0 {
            cur
        } else {
            descendant(nodes, children[0], (n - 1) as nat)
        }
    }
}

proof fn lemma_linear_walk(
    nodes: Seq<CommitNode>,
    cur: u64,
    remaining: nat,
    t1: Option<Towards>,
    t2: Option<Towards>,
    taken: nat,
)
    requires
        linear(nodes),
    ensures
        walk(nodes, cur, remaining, t1, taken) == walk(nodes, cur, remaining, t2, taken),
        walk(nodes, cur, remaining, t1, taken) == Walk::Reached(descendant(nodes, cur, remaining)),
    decreases remaining,
{
    if remaining > 0 {
        let children = live_children(nodes, cur);
        assert(children.len() <= 1);
        if children.len() == 1 {
            lemma_linear_walk(nodes, children[0], (remaining - 1) as nat, t1, t2, taken + 1);
        }
    }
}

/// On a graph where every commit has at most one live child, the traversal
/// reaches the same commit whatever the policy: the `n`th descendant, or the
/// last commit of the chain when it is shorter. A start commit with a live
/// child is always in the snapshot; one without is asked to be.
pub proof fn lemma_linear_chain(
    nodes: Seq<CommitNode>,
    start: u64,
    n: int,
    t1: Option<Towards>,
    t2: Option<Towards>,
)
    requires
        parents_present(nodes),
        linear(nodes),
    ensures
        advance_spec(nodes, start, n, t1) == advance_spec(nodes, start, n, t2),
        n <= 0 ==> advance_spec(nodes, start, n, t1) == Ok::<Walk, NavError>(Walk::Reached(start)),
        n > 0 && (contains_id(nodes, start) || live_children(nodes, start).len() > 0)
            ==> advance_spec(nodes, start, n, t1) == Ok::<Walk, NavError>(
            Walk::Reached(descendant(nodes, start, n as nat)),
        ),
{
    if n > 0 {
        lemma_linear_walk(nodes, start, n as nat, t1, t2, 0);
        if live_children(nodes, start).len() > 0 {
            lemma_live_parent_present(nodes, start);
        }
    }
}

/// Following the child that `towards` names, `n` times or until a commit
/// has no live child.
pub open spec fn follow(nodes: Seq<CommitNode>, cur: u64, n: nat, towards: Towards) -> u64
    decreases n,
{
    if n == 0 {
        cur
    } else {
        let children = live_children(nodes, cur);
        if children.len() == 0 {
            cur
        } else {
            follow(nodes, chosen_child(children, Some(towards)), (n - 1) as nat, towards)
        }
    }
}

proof fn lemma_walk_follows(
    nodes: Seq<CommitNode>,
    cur: u64,
    remaining: nat,
    towards: Towards,
    taken: nat,
)
    ensures
        walk(nodes, cur, remaining, Some(towards), taken) == Walk::Reached(
            follow(nodes, cur, remaining, towards),
        ),
    decreases remaining,
{
    if remaining > 0 {
        let children = live_children(nodes, cur);
        if children.len() > 0 {
            lemma_walk_follows(
                nodes,
                chosen_child(children, Some(towards)),
                (remaining - 1) as nat,
                towards,
                taken + 1,
            );
        }
    }
}

/// With a policy, no step is ever left undecided: every step takes the
/// last live child in canonical order (`Newest`) or the first (`Oldest`),
/// and the traversal ends where `follow` does.
pub proof fn lemma_policy_follows(nodes: Seq<CommitNode>, start: u64, n: int, towards: Towards)
    requires
        parents_present(nodes),
        n <= 0 || contains_id(nodes, start) || live_children(nodes, start).len() > 0,
    ensures
        advance_spec(nodes, start, n, Some(towards)) == Ok::<Walk, NavError>(
            Walk::Reached(
                follow(
                    nodes,
                    start,
                    if n <= 0 {
                        0
                    } else {
                        n as nat
                    },
                    towards,
                ),
            ),
        ),
{
    if n > 0 {
        lemma_walk_follows(nodes, start, n as nat, towards, 0);
        if live_children(nodes, start).len() > 0 {
            lemma_live_parent_present(nodes, start);
        }
    }
}

/// At a commit with several live children, `Newest` steps to the child with
/// the greatest canonical key.
pub proof fn lemma_newest_takes_greatest(
    nodes: Seq<CommitNode>,
    cur: u64,
    remaining: nat,
    taken: nat,
)
    requires
        canonical(nodes),
        remaining > 0,
        live_children(nodes, cur).len() >= 2,
    ensures
        walk(nodes, cur, remaining, Some(Towards::Newest), taken) == walk(
            nodes,
            live_children(nodes, cur).last(),
            (remaining - 1) as nat,
            Some(Towards::Newest),
            taken + 1,
        ),
        exists|k: int|
            0 <= k < nodes.len() && #[trigger] nodes[k].id == live_children(nodes, cur).last()
                && is_live_child(nodes[k], cur) && forall|j: int|
                0 <= j < nodes.len() && is_live_child(#[trigger] nodes[j], cur) ==> key_le(
                    nodes[j],
                    nodes[k],
                ),
{
    lemma_last_child(nodes, cur, nodes.len() as int);
    let k = choose|k: int|
        0 <= k < nodes.len() && is_live_child(#[trigger] nodes[k], cur) && nodes[k].id == live_children(
            nodes,
            cur,
        ).last() && forall|j: int| k < j < nodes.len() ==> !is_live_child(#[trigger] nodes[j], cur);
    assert forall|j: int| 0 <= j < nodes.len() && is_live_child(#[trigger] nodes[j], cur) implies key_le(
        nodes[j],
        nodes[k],
    ) by {
        if j < k {
            assert(key_lt(nodes[j], nodes[k]));
        }
    }
}

/// At a commit with several live children, `Oldest` steps to the child with
/// the least canonical key.
pub proof fn lemma_oldest_takes_least(
    nodes: Seq<CommitNode>,
    cur: u64,
    remaining: nat,
    taken: nat,
)
    requires
        canonical(nodes),
        remaining > 0,
        live_children(nodes, cur).len() >= 2,
    ensures
        walk(nodes, cur, remaining, Some(Towards::Oldest), taken) == walk(
            nodes,
            live_children(nodes, cur)[0],
            (remaining - 1) as nat,
            Some(Towards::Oldest),
            taken + 1,
        ),
        exists|k: int|
            0 <= k < nodes.len() && #[trigger] nodes[k].id == live_children(nodes, cur)[0]
                && is_live_child(nodes[k], cur) && forall|j: int|
                0 <= j < nodes.len() && is_live_child(#[trigger] nodes[j], cur) ==> key_le(
                    nodes[k],
                    nodes[j],
                ),
{
    lemma_first_child(nodes, cur, nodes.len() as int);
    let k = choose|k: int|
        0 <= k < nodes.len() && is_live_child(#[trigger] nodes[k], cur) && nodes[k].id
            == live_children(nodes, cur)[0] && forall|j: int|
            0 <= j < k ==> !is_live_child(#[trigger] nodes[j], cur);
    assert forall|j: int| 0 <= j < nodes.len() && is_live_child(#[trigger] nodes[j], cur) implies key_le(
        nodes[k],
        nodes[j],
    ) by {
        if k < j {
            assert(key_lt(nodes[k], nodes[j]));
        }
    }
}

/// When every child of `cur` is obsolete, the traversal stops at `cur`,
/// whatever the policy and the number of steps asked. A commit with a
/// child is always in the snapshot; one without any is asked to be.
pub proof fn lemma_obsolete_children_stop(
    nodes: Seq<CommitNode>,
    cur: u64,
    n: int,
    towards: Option<Towards>,
)
    requires
        parents_present(nodes),
        contains_id(nodes, cur) || exists|j: int|
            0 <= j < nodes.len() && (#[trigger] nodes[j]).parents@.contains(cur),
        forall|j: int|
            0 <= j < nodes.len() && (#[trigger] nodes[j]).parents@.contains(cur) ==> nodes[j].obsolete,
    ensures
        live_children(nodes, cur).len() == 0,
        advance_spec(nodes, cur, n, towards) == Ok::<Walk, NavError>(Walk::Reached(cur)),
{
    lemma_children_empty(nodes, cur, nodes.len() as int);
    if !contains_id(nodes, cur) {
        let j = choose|j: int| 0 <= j < nodes.len() && (#[trigger] nodes[j]).parents@.contains(cur);
        lemma_parent_present(nodes, cur, j);
    }
}

} // verus!

//! The three navigation commands as decisions: what to check out, when to
//! ask the user, and what to report once the checkout has run.

use vstd::prelude::*;

use crate::dag::{lemma_live_parent_present, live_children, parents_present, DagSnapshot};
use crate::selection::{prompt_for_range, selection, trimmed};
use crate::traversal::{
    advance, advance_spec, lemma_obsolete_children_stop, walk, Advance, NavError, Towards, Walk,
};

verus! {

/// What a checkout is asked to move to.
#[derive(Clone, Copy, Debug, PartialEq, Eq, Structural)]
pub enum Target {
    /// The `n`th ancestor of the current commit along first parents.
    Ancestor(isize),
    /// A commit by identifier.
    Commit(u64),
}

/// What a navigation command asks of its caller next.
#[derive(Debug)]
pub enum NavPlan {
    /// Check out `target`; on success refresh the graph view when
    /// `refresh_view` holds.
    Checkout { target: Target, refresh_view: bool },
    /// Going forward met several children at `at` after `taken` steps, with
    /// no policy and no prompt allowed: list them, hint at the policy flags,
    /// and end with exit code 1.
    Ambiguous { at: u64, taken: usize, children: Vec<u64> },
    /// Going forward met several children at `at` after `taken` steps: list
    /// them numbered from 1, read a choice, and hand it to
    /// `next_after_choice` with `taken` and with the `remaining` steps still
    /// to go after it.
    Choose { at: u64, taken: usize, children: Vec<u64>, remaining: isize },
    /// Stop with this exit code, without a checkout.
    Exit(isize),
}

/// The mathematical form of a `NavPlan`.
pub enum PlanView {
    Checkout(Target, bool),
    Ambiguous(u64, nat, Seq<u64>),
    Choose(u64, nat, Seq<u64>, int),
    Exit(int),
}

impl View for NavPlan {
    type V = PlanView;

    open spec fn view(&self) -> PlanView {
        match self {
            NavPlan::Checkout { target, refresh_view } => PlanView::Checkout(*target, *refresh_view),
            NavPlan::Ambiguous { at, taken, children } => PlanView::Ambiguous(
                *at,
                *taken as nat,
                children@,
            ),
            NavPlan::Choose { at, taken, children, remaining } => PlanView::Choose(
                *at,
                *taken as nat,
                children@,
                *remaining as int,
            ),
            NavPlan::Exit(code) => PlanView::Exit(*code as int),
        }
    }
}

/// The view of a command's result.
pub open spec fn plan_view(r: Result<NavPlan, NavError>) -> Result<PlanView, NavError> {
    match r {
        Ok(p) => Ok(p@),
        Err(e) => Err(e),
    }
}

/// How a command ends once its checkout has run.
#[derive(Clone, Copy, Debug, PartialEq, Eq, Structural)]
pub struct Completion {
    pub refresh_view: bool,
    pub exit_code: isize,
}

/// A commit with the number that the rendered graph shows beside it.
#[derive(Clone, Copy, Debug, PartialEq, Eq, Structural)]
pub struct NumberedNode {
    pub id: u64,
    pub label: usize,
}

/// Go back a certain number of commits (one when none is given), refreshing
/// the graph view after a successful checkout.
pub fn prev(num_commits: Option<isize>) -> (r: NavPlan)
    ensures
        r@ == PlanView::Checkout(
            Target::Ancestor(
                match num_commits {
                    Some(n) => n,
                    None => 1,
                },
            ),
            true,
        ),
{
    let n = match num_commits {
        Some(n) => n,
        None => 1,
    };
    NavPlan::Checkout { target: Target::Ancestor(n), refresh_view: true }
}

/// How a command ends after its checkout returned `exit_code`: the code
/// unchanged, and a view refresh only when one was planned and the
/// checkout succeeded.
pub fn finish_checkout(refresh_view: bool, exit_code: isize) -> (r: Completion)
    ensures
        r.exit_code == exit_code,
        r.refresh_view == (refresh_view && exit_code == 0),
{
    Completion { refresh_view: refresh_view && exit_code == 0, exit_code }
}

/// The plan that follows a traversal of `num_commits` steps: check out
/// where it ended, or settle an ambiguity by prompt or by giving up.
pub open spec fn plan_from_walk(
    adv: Result<Walk, NavError>,
    num_commits: int,
    interactive: bool,
) -> Result<PlanView, NavError> {
    match adv {
        Err(e) => Err(e),
        Ok(Walk::Reached(c)) => Ok(PlanView::Checkout(Target::Commit(c), true)),
        Ok(Walk::Ambiguous(at, taken, children)) => if interactive {
            Ok(PlanView::Choose(at, taken, children, num_commits - taken - 1))
        } else {
            Ok(PlanView::Ambiguous(at, taken, children))
        },
    }
}

fn plan_from_advance(adv: Result<Advance, NavError>, num_commits: isize, interactive: bool) -> (r:
    Result<NavPlan, NavError>)
    requires
        adv matches Ok(Advance::Ambiguous { taken, .. }) ==> taken < num_commits,
    ensures
        plan_view(r) == plan_from_walk(
            crate::traversal::advance_view(adv),
            num_commits as int,
            interactive,
        ),
        r matches Ok(NavPlan::Ambiguous { taken, .. }) ==> taken < num_commits,
        r matches Ok(NavPlan::Choose { taken, .. }) ==> taken < num_commits,
{
    match adv {
        Err(e) => Err(e),
        Ok(Advance::Reached(c)) => Ok(NavPlan::Checkout { target: Target::Commit(c), refresh_view: true }),
        Ok(Advance::Ambiguous { at, taken, children }) => {
            if interactive {
                let remaining = num_commits - (taken as isize) - 1;
                Ok(NavPlan::Choose { at, taken, children, remaining })
            } else {
                Ok(NavPlan::Ambiguous { at, taken, children })
            }
        },
    }
}

/// What `next` decides.
pub open spec fn next_spec(
    nodes: Seq<crate::dag::CommitNode>,
    head: Option<u64>,
    num_commits: Option<isize>,
    towards: Option<Towards>,
    interactive: bool,
) -> Result<PlanView, NavError> {
    match head {
        None => Err(NavError::NoCurrentPosition),
        Some(h) => {
            let n: int = match num_commits {
                Some(n) => n as int,
                None => 1,
            };
            plan_from_walk(advance_spec(nodes, h, n, towards), n, interactive)
        },
    }
}

/// Go forward a certain number of commits (one when none is given) from
/// the current commit `head`, then check out where the traversal ended and
/// refresh the graph view.
pub fn next(
    dag: &DagSnapshot,
    head: Option<u64>,
    num_commits: Option<isize>,
    towards: Option<Towards>,
    interactive: bool,
) -> (r: Result<NavPlan, NavError>)
    ensures
        plan_view(r) == next_spec(dag@, head, num_commits, towards, interactive),
{
    let head_oid = match head {
        Some(h) => h,
        None => {
            return Err(NavError::NoCurrentPosition);
        },
    };
    let n = match num_commits {
        Some(n) => n,
        None => 1,
    };
    plan_from_advance(advance(dag, head_oid, n, towards), n, interactive)
}

/// A plan whose steps are counted from `by` steps earlier.
pub open spec fn shift_taken(plan: Result<PlanView, NavError>, by: nat) -> Result<
    PlanView,
    NavError,
> {
    match plan {
        Ok(PlanView::Ambiguous(at, taken, children)) => Ok(PlanView::Ambiguous(at, taken + by, children)),
        Ok(PlanView::Choose(at, taken, children, remaining)) => Ok(
            PlanView::Choose(at, taken + by, children, remaining),
        ),
        other => other,
    }
}

/// What `next_after_choice` decides.
pub open spec fn after_choice_spec(
    nodes: Seq<crate::dag::CommitNode>,
    children: Seq<u64>,
    line: Seq<char>,
    taken: usize,
    remaining: isize,
    towards: Option<Towards>,
) -> Result<PlanView, NavError> {
    match selection(trimmed(line), 1, children.len()) {
        None => Ok(PlanView::Exit(1)),
        Some(s) => shift_taken(
            plan_from_walk(
                advance_spec(nodes, children[s - 1], remaining as int, towards),
                remaining as int,
                true,
            ),
            taken as nat + 1,
        ),
    }
}

/// Goes on from a `Choose` plan (its `taken` and `remaining`) with the line
/// the user typed: no valid choice ends with exit code 1; else the chosen
/// child is the next step, and `remaining` steps follow from it. Steps are
/// counted from the start of the whole traversal.
pub fn next_after_choice(
    dag: &DagSnapshot,
    children: &Vec<u64>,
    line: &str,
    taken: usize,
    remaining: isize,
    towards: Option<Towards>,
) -> (r: Result<NavPlan, NavError>)
    requires
        taken + 1 + remaining <= isize::MAX,
    ensures
        plan_view(r) == after_choice_spec(dag@, children@, line@, taken, remaining, towards),
{
    match prompt_for_range(line, 1, children.len()) {
        None => Ok(NavPlan::Exit(1)),
        Some(selected) => {
            let child = children[selected - 1];
            match plan_from_advance(advance(dag, child, remaining, towards), remaining, true) {
                Ok(NavPlan::Ambiguous { at, taken: t, children }) => Ok(
                    NavPlan::Ambiguous { at, taken: taken + 1 + t, children },
                ),
                Ok(NavPlan::Choose { at, taken: t, children, remaining }) => Ok(
                    NavPlan::Choose { at, taken: taken + 1 + t, children, remaining },
                ),
                other => other,
            }
        },
    }
}

/// At a commit whose live children are `b` then `c` in canonical order, one
/// step forward checks out `c` under `Newest` and `b` under `Oldest`, with a
/// view refresh; with no policy and no prompt it lists both and gives up.
pub proof fn lemma_next_at_fork(
    nodes: Seq<crate::dag::CommitNode>,
    a: u64,
    b: u64,
    c: u64,
    interactive: bool,
)
    requires
        parents_present(nodes),
        live_children(nodes, a) == seq![b, c],
    ensures
        next_spec(nodes, Some(a), Some(1), Some(Towards::Newest), interactive) == Ok::<
            PlanView,
            NavError,
        >(PlanView::Checkout(Target::Commit(c), true)),
        next_spec(nodes, Some(a), Some(1), Some(Towards::Oldest), interactive) == Ok::<
            PlanView,
            NavError,
        >(PlanView::Checkout(Target::Commit(b), true)),
        next_spec(nodes, Some(a), Some(1), None, false) == Ok::<PlanView, NavError>(
            PlanView::Ambiguous(a, 0, seq![b, c]),
        ),
{
    lemma_live_parent_present(nodes, a);
    reveal_with_fuel(walk, 2);
}

/// When the only children of the current commit are obsolete, going forward
/// stops early at the current commit: it is checked out, with a view
/// refresh, whatever the policy.
pub proof fn lemma_next_past_obsolete_children(
    nodes: Seq<crate::dag::CommitNode>,
    a: u64,
    d: int,
    num_commits: Option<isize>,
    towards: Option<Towards>,
    interactive: bool,
)
    requires
        parents_present(nodes),
        0 <= d < nodes.len(),
        nodes[d].parents@.contains(a),
        forall|j: int|
            0 <= j < nodes.len() && (#[trigger] nodes[j]).parents@.contains(a) ==> nodes[j].obsolete,
    ensures
        next_spec(nodes, Some(a), num_commits, towards, interactive) == Ok::<PlanView, NavError>(
            PlanView::Checkout(Target::Commit(a), true),
        ),
{
    let n: int = match num_commits {
        Some(n) => n as int,
        None => 1,
    };
    lemma_obsolete_children_stop(nodes, a, n, towards);
}

/// The identifier of the first commit numbered `label`.
pub open spec fn label_lookup(nodes: Seq<NumberedNode>, label: nat) -> Option<u64>
    decreases nodes.len(),
{
    if nodes.len() == 0 {
        None
    } else if nodes[0].label == label {
        Some(nodes[0].id)
    } else {
        label_lookup(nodes.skip(1), label)
    }
}

fn find_label(nodes: &Vec<NumberedNode>, label: usize) -> (r: Option<u64>)
    ensures
        r == label_lookup(nodes@, label as nat),
{
    let mut i: usize = 0;
    assert(nodes@.skip(0) =~= nodes@);
    while i < nodes.len()
        invariant
            i <= nodes@.len(),
            label_lookup(nodes@, label as nat) == label_lookup(nodes@.skip(i as int), label as nat),
        decreases nodes@.len() - i,
    {
        assert(nodes@.skip(i as int).skip(1) =~= nodes@.skip(i + 1));
        if nodes[i].label == label {
            return Some(nodes[i].id);
        }
        i += 1;
    }
    None
}

/// What `pick` decides on the numbered graph and the (trimmed) answer.
pub open spec fn pick_spec(nodes: Seq<NumberedNode>, text: Seq<char>) -> Result<PlanView, NavError> {
    match selection(text, 1, nodes.len()) {
        None => Ok(PlanView::Exit(1)),
        Some(s) => match label_lookup(nodes, s) {
            Some(id) => Ok(PlanView::Checkout(Target::Commit(id), true)),
            None => Err(NavError::UnknownLabel(s as usize)),
        },
    }
}

/// Pick a specific commit to check out, by the number that the user typed
/// among the numbered commits of the rendered graph, refreshing the graph
/// view after a successful checkout.
pub fn pick(numbered_nodes: &Vec<NumberedNode>, line: &str) -> (r: Result<NavPlan, NavError>)
    ensures
        plan_view(r) == pick_spec(numbered_nodes@, trimmed(line@)),
{
    match prompt_for_range(line, 1, numbered_nodes.len()) {
        None => Ok(NavPlan::Exit(1)),
        Some(selected) => match find_label(numbered_nodes, selected) {
            Some(id) => Ok(NavPlan::Checkout { target: Target::Commit(id), refresh_view: true }),
            None => Err(NavError::UnknownLabel(selected)),
        },
    }
}

/// Picking depends on nothing but the numbered graph and the answer typed:
/// the same graph state and the same input select the same commit.
pub proof fn lemma_pick_repeatable(
    nodes1: Seq<NumberedNode>,
    nodes2: Seq<NumberedNode>,
    line1: Seq<char>,
    line2: Seq<char>,
)
    requires
        nodes1 == nodes2,
        line1 == line2,
    ensures
        pick_spec(nodes1, trimmed(line1)) == pick_spec(nodes2, trimmed(line2)),
{
}

} // verus!

//! Commit navigation over a snapshot of the commit graph: stepping forward
//! through children (resolving branch points by policy or by a numbered
//! choice), stepping back through ancestors, and picking a commit by number.

pub mod dag;
pub mod navigation;
pub mod selection;
pub mod traversal;

pub use dag::{CommitNode, DagSnapshot};
pub use navigation::{
    finish_checkout, next, next_after_choice, pick, prev, Completion, NavPlan, NumberedNode, Target,
};
pub use selection::{prompt_for_range, select_in_range};
pub use traversal::{advance, Advance, NavError, Towards};

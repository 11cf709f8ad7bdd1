//! What every command of a run works with.

use vstd::prelude::*;
use crate::appconfig::Effective;
use crate::state::ProjectState;

verus! {

/// The project's root, its state and the settings in effect.
#[derive(Debug)]
pub struct AppCtx {
    pub root: String,
    pub state: ProjectState,
    pub eff: Effective,
}

impl AppCtx {
    /// The context of a run in the project at `root`.
    pub fn new(root: String, state: ProjectState, eff: Effective) -> (ctx: AppCtx)
        ensures
            ctx.root == root,
            ctx.state == state,
            ctx.eff == eff,
    {
        AppCtx { root, state, eff }
    }
}

} // verus!

//! The state of a project: where it lies and under which namespace its
//! rows are kept.

use vstd::prelude::*;
use vstd::string::StringExecFns;
use crate::clock::system_now;
use crate::paths::{join_path, joined};
use crate::strings::text_opt;

verus! {

/// What is remembered of a project between runs.
#[derive(Debug)]
pub struct ProjectState {
    pub project_root: String,
    pub namespace: String,
    pub current_thread_id: Option<String>,
    pub last_head: Option<String>,
    pub created_at: i64,
}

/// What a project's state says.
pub struct StateModel {
    pub project_root: Seq<char>,
    pub namespace: Seq<char>,
    pub current_thread_id: Option<Seq<char>>,
    pub last_head: Option<Seq<char>>,
    pub created_at: int,
}

impl View for ProjectState {
    type V = StateModel;

    open spec fn view(&self) -> StateModel {
        StateModel {
            project_root: self.project_root@,
            namespace: self.namespace@,
            current_thread_id: text_opt(self.current_thread_id),
            last_head: text_opt(self.last_head),
            created_at: self.created_at as int,
        }
    }
}

/// Why a state could not be made.
#[derive(Clone, Copy, PartialEq, Eq, Debug, Structural)]
pub enum StateError {
    /// The system's clock stands before 1970.
    Clock,
}

/// The state of a project that was made at the time `now`.
pub open spec fn fresh_state(root: Seq<char>, namespace: Seq<char>, now: int) -> StateModel {
    StateModel {
        project_root: root,
        namespace: namespace,
        current_thread_id: None,
        last_head: None,
        created_at: now,
    }
}

impl ProjectState {
    /// Where the state of the project at `root` is kept.
    pub fn path(root: &str) -> (p: String)
        ensures
            p@ == joined(root@, ".gptcli/state.json"@),
    {
        join_path(root, ".gptcli/state.json")
    }

    /// The state of a project made at the time `now`: no thread, no head.
    pub fn at(root: String, namespace: String, now: i64) -> (s: ProjectState)
        ensures
            s@ == fresh_state(root@, namespace@, now as int),
    {
        ProjectState {
            project_root: root,
            namespace,
            current_thread_id: None,
            last_head: None,
            created_at: now,
        }
    }

    /// The state of a project made now. Fails only if the clock stands
    /// before 1970.
    pub fn new(root: String, namespace: String) -> (r: Result<ProjectState, StateError>)
        ensures
            match r {
                Ok(s) => s@ == fresh_state(root@, namespace@, s.created_at as int),
                Err(e) => e == StateError::Clock,
            },
    {
        ProjectState::at_clock(root, namespace, system_now())
    }

    /// The state of a project made at the time that the clock gave; where
    /// the clock gave no time, there is no state.
    pub fn at_clock(root: String, namespace: String, clock: Option<i64>) -> (r: Result<
        ProjectState,
        StateError,
    >)
        ensures
            match clock {
                Some(now) => r is Ok && r->Ok_0@ == fresh_state(root@, namespace@, now as int),
                None => r == Err::<ProjectState, StateError>(StateError::Clock),
            },
    {
        match clock {
            Some(now) => Ok(ProjectState::at(root, namespace, now)),
            None => Err(StateError::Clock),
        }
    }
}

/// The namespace of a project that names none: the name of its root
/// directory, then `@main`.
pub fn default_namespace(root_name: &str) -> (ns: String)
    ensures
        ns@ == root_name@ + "@main"@,
{
    let mut ns = String::from_str(root_name);
    ns.append("@main");
    ns
}

} // verus!

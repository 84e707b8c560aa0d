use vstd::prelude::*;

/// The two-phase executor: install, then run, then a final outcome and log.
pub mod executor;
/// Reading a project manifest and re-deriving a project's tasks from it.
pub mod manifest;
/// Projects, tasks, their log lines, and manifest paths.
pub mod registry;
/// Remapping list positions across a move or a removal.
pub mod reorder;
/// The supervisor: live executions, structural changes, and the
/// references into the project list.
pub mod supervisor;
/// Which project roots to start or stop watching.
pub mod watch;

verus! {

} // verus!

//! Paths of the migration checklists.
use vstd::prelude::*;

verus! {

/// Full exported-symbols checklist per module.
pub const SYMBOLS_CHECKLIST: &'static str = "manifest/symbols-checklist.json";
/// Todo list of the remaining modules.
pub const TODO_LIST: &'static str = "manifest/todo-list.json";
/// Numeric progress snapshot.
pub const MODULE_PROGRESS: &'static str = "manifest/module-progress.json";

} // verus!

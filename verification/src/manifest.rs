//! Migration checklists for the agents that port a project.
use vstd::prelude::*;
use crate::spec_writer::MigrationSpec;
use crate::text::{chars_of, replace_all, replace_chars, string_of};
use crate::naming::same_chars;

verus! {

/// A symbol a module should export after the port.
pub struct ModuleSymbolEntry {
    /// Source symbol name.
    pub source: String,
    /// Expected target symbol name.
    pub target: String,
    /// Symbol kind.
    pub kind: String,
    /// Found in the ported code, checked and missing, or not yet checked.
    pub present: Option<bool>,
}

/// One module of the symbol checklist.
pub struct ModuleChecklist {
    /// Source path.
    pub module: String,
    /// Target path.
    pub target: String,
    /// Migration layer.
    pub layer: usize,
    /// Migration effort label.
    pub effort: String,
    /// Migration status.
    pub status: String,
    /// Symbols the module should export.
    pub symbols: Vec<ModuleSymbolEntry>,
}

/// The symbol checklist of a project.
pub struct SymbolChecklist {
    pub summary: String,
    pub modules: Vec<ModuleChecklist>,
}

/// One pending migration item.
pub struct TodoItem {
    pub module: String,
    pub target: String,
    pub layer: usize,
    pub effort: String,
    pub depends_on_count: usize,
}

/// The target path of a module as the checklists write it: `.ts` then `.js`
/// replaced by `.rs` wherever they occur.
pub open spec fn checklist_target(p: Seq<char>) -> Seq<char> {
    replace_all(replace_all(p, ".ts"@, ".rs"@), ".js"@, ".rs"@)
}

/// The target path of a module, for the checklists.
pub fn checklist_target_of(p: &str) -> (r: String)
    ensures
        r@ == checklist_target(p@),
{
    proof {
        reveal_strlit(".ts");
        reveal_strlit(".js");
    }
    let once = replace_chars(chars_of(p).as_slice(), chars_of(".ts").as_slice(), chars_of(".rs").as_slice());
    let twice = replace_chars(once.as_slice(), chars_of(".js").as_slice(), chars_of(".rs").as_slice());
    string_of(twice.as_slice())
}

/// Whether a symbol counts as present for a task of status `status`: yes when
/// verified, no when failed, not known otherwise.
pub open spec fn presence(status: Seq<char>) -> Option<bool> {
    if status == "verified"@ {
        Some(true)
    } else if status == "failed"@ {
        Some(false)
    } else {
        None
    }
}

fn presence_of(status: &String) -> (r: Option<bool>)
    ensures
        r == presence(status@),
{
    let c = chars_of(status.as_str());
    if same_chars(&c, &chars_of("verified")) {
        Some(true)
    } else if same_chars(&c, &chars_of("failed")) {
        Some(false)
    } else {
        None
    }
}

/// The checklist entry of one module: its path and target, layer, effort and
/// status, and each symbol of its spec with its target name, present as the
/// status says.
pub fn module_checklist(file_path: &String, layer: usize, effort: &String, status: &String, spec: &MigrationSpec) -> (r: ModuleChecklist)
    ensures
        r.module == *file_path,
        r.target@ == checklist_target(file_path@),
        r.layer == layer,
        r.effort == *effort,
        r.status == *status,
        r.symbols@.len() == spec.symbols@.len(),
        forall|i: int| 0 <= i < r.symbols@.len() ==> {
            let e = #[trigger] r.symbols@[i];
            &&& e.source == spec.symbols@[i].name
            &&& e.target == spec.symbols@[i].target_name
            &&& e.kind == spec.symbols@[i].kind
            &&& e.present == presence(status@)
        },
{
    let present = presence_of(status);
    let mut symbols: Vec<ModuleSymbolEntry> = Vec::new();
    let mut i: usize = 0;
    while i < spec.symbols.len()
        invariant
            i <= spec.symbols.len(),
            present == presence(status@),
            symbols@.len() == i,
            forall|j: int| 0 <= j < i ==> {
                let e = #[trigger] symbols@[j];
                &&& e.source == spec.symbols@[j].name
                &&& e.target == spec.symbols@[j].target_name
                &&& e.kind == spec.symbols@[j].kind
                &&& e.present == presence(status@)
            },
        decreases spec.symbols.len() - i,
    {
        let sym = &spec.symbols[i];
        symbols.push(ModuleSymbolEntry {
            source: sym.name.clone(),
            target: sym.target_name.clone(),
            kind: sym.kind.clone(),
            present,
        });
        i = i + 1;
    }
    ModuleChecklist {
        module: file_path.clone(),
        target: checklist_target_of(file_path.as_str()),
        layer,
        effort: effort.clone(),
        status: status.clone(),
        symbols,
    }
}

/// The todo item of a module not yet verified.
pub fn todo_item(file_path: &String, layer: usize, effort: &String, depends_on_count: usize) -> (r: TodoItem)
    ensures
        r.module == *file_path,
        r.target@ == checklist_target(file_path@),
        r.layer == layer,
        r.effort == *effort,
        r.depends_on_count == depends_on_count,
{
    TodoItem {
        module: file_path.clone(),
        target: checklist_target_of(file_path.as_str()),
        layer,
        effort: effort.clone(),
        depends_on_count,
    }
}

/// How many of the statuses are `status`.
pub open spec fn status_count(statuses: Seq<String>, status: Seq<char>) -> int
    decreases statuses.len(),
{
    if statuses.len() == 0 {
        0
    } else {
        status_count(statuses.drop_last(), status) + if statuses.last()@ == status {
            1int
        } else {
            0
        }
    }
}

/// The number of tasks of each status: pending, in progress, verified, failed.
pub fn count_statuses(statuses: &Vec<String>) -> (r: (usize, usize, usize, usize))
    ensures
        r.0 == status_count(statuses@, "pending"@),
        r.1 == status_count(statuses@, "in_progress"@),
        r.2 == status_count(statuses@, "verified"@),
        r.3 == status_count(statuses@, "failed"@),
{
    let mut counts: (usize, usize, usize, usize) = (0, 0, 0, 0);
    let pending = chars_of("pending");
    let in_progress = chars_of("in_progress");
    let verified = chars_of("verified");
    let failed = chars_of("failed");
    let mut i: usize = 0;
    while i < statuses.len()
        invariant
            i <= statuses.len(),
            pending@ == "pending"@,
            in_progress@ == "in_progress"@,
            verified@ == "verified"@,
            failed@ == "failed"@,
            counts.0 == status_count(statuses@.subrange(0, i as int), "pending"@),
            counts.1 == status_count(statuses@.subrange(0, i as int), "in_progress"@),
            counts.2 == status_count(statuses@.subrange(0, i as int), "verified"@),
            counts.3 == status_count(statuses@.subrange(0, i as int), "failed"@),
            counts.0 <= i && counts.1 <= i && counts.2 <= i && counts.3 <= i,
        decreases statuses.len() - i,
    {
        proof {
            assert(statuses@.subrange(0, i + 1).drop_last() =~= statuses@.subrange(0, i as int));
        }
        let c = chars_of(statuses[i].as_str());
        if same_chars(&c, &pending) {
            counts.0 = counts.0 + 1;
        }
        if same_chars(&c, &in_progress) {
            counts.1 = counts.1 + 1;
        }
        if same_chars(&c, &verified) {
            counts.2 = counts.2 + 1;
        }
        if same_chars(&c, &failed) {
            counts.3 = counts.3 + 1;
        }
        i = i + 1;
    }
    proof {
        assert(statuses@.subrange(0, i as int) =~= statuses@);
    }
    counts
}

} // verus!

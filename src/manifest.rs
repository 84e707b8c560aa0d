use vstd::prelude::*;
use crate::executor::lines;
use crate::registry::{copy_lines, ready_line, ready_line_of, Task};

verus! {

/// The parts of a manifest that the registry reads.
#[derive(Debug, Clone, PartialEq, Eq)]
pub struct ManifestFields {
    /// The manifest's `name`, when it is a string.
    pub name: Option<String>,
    /// The keys of the manifest's `scripts`, when that is an object.
    pub scripts: Option<Vec<String>>,
}

pub open spec fn opt_text(o: Option<String>) -> Option<Seq<char>> {
    match o {
        Some(s) => Some(s@),
        None => None,
    }
}

pub open spec fn opt_lines(o: Option<Vec<String>>) -> Option<Seq<Seq<char>>> {
    match o {
        Some(v) => Some(lines(v@)),
        None => None,
    }
}

/// What a JSON text yields as a manifest: `None` when it is not JSON, else
/// its `name` string and the keys of its `scripts` object, where present.
pub uninterp spec fn json_manifest(text: Seq<char>) -> Option<(Option<Seq<char>>, Option<Seq<Seq<char>>>)>;

/// Relies on serde_json::from_str to parse `text` as a JSON value, and on
/// `Value::get` and `Map::keys` to read its `name` string and the keys of
/// its `scripts` object. The keys of a JSON map are distinct.
#[verifier::external_body]
pub(crate) fn parse_manifest(text: &str) -> (r: Option<ManifestFields>)
    ensures
        r is None <==> json_manifest(text@) is None,
        r matches Some(m) ==> json_manifest(text@) == Some((opt_text(m.name), opt_lines(m.scripts))),
        r matches Some(m) ==> (m.scripts matches Some(k) ==> lines(k@).no_duplicates()),
{
    let v: serde_json::Value = serde_json::from_str(text).ok()?;
    let name = match v.get("name") {
        Some(serde_json::Value::String(n)) => Some(n.clone()),
        _ => None,
    };
    let scripts = match v.get("scripts") {
        Some(serde_json::Value::Object(m)) => Some(m.keys().cloned().collect()),
        _ => None,
    };
    Some(ManifestFields { name, scripts })
}

/// Position of the last task named `name`, or -1 when there is none.
pub open spec fn index_of(tasks: Seq<Task>, name: Seq<char>) -> int
    decreases tasks.len(),
{
    if tasks.len() == 0 {
        -1
    } else if tasks.last().name@ == name {
        tasks.len() - 1
    } else {
        index_of(tasks.drop_last(), name)
    }
}

pub proof fn lemma_index_of_range(tasks: Seq<Task>, name: Seq<char>)
    ensures
        -1 <= index_of(tasks, name) < tasks.len(),
        index_of(tasks, name) >= 0 ==> tasks[index_of(tasks, name)].name@ == name,
        index_of(tasks, name) < 0 ==> forall|j: int| 0 <= j < tasks.len() ==> tasks[j].name@ != name,
    decreases tasks.len(),
{
    if tasks.len() > 0 {
        lemma_index_of_range(tasks.drop_last(), name);
        assert(forall|j: int| 0 <= j < tasks.len() - 1 ==> tasks.drop_last()[j] == tasks[j]);
    }
}

/// A task freshly read from a manifest: not running, with a single
/// "ready" line.
pub open spec fn is_fresh_task(t: Task, name: Seq<char>) -> bool {
    &&& t.name@ == name
    &&& !t.running
    &&& !t.failed
    &&& lines(t.log@) == seq![ready_line(name)]
}

/// The task named `name` after reconciliation against `prior`: a task of
/// that name keeps its execution state and log; a new one is fresh.
pub open spec fn is_reconciled(prior: Seq<Task>, name: Seq<char>, t: Task) -> bool {
    let k = index_of(prior, name);
    if k >= 0 {
        &&& t.name@ == name
        &&& !t.failed
        &&& t.running == prior[k].running
        &&& t.run == prior[k].run
        &&& t.log@ == prior[k].log@
    } else {
        is_fresh_task(t, name)
    }
}

pub open spec fn names_contain(names: Seq<String>, n: Seq<char>) -> bool {
    exists|i: int| 0 <= i < names.len() && names[i]@ == n
}

/// Run identifiers of the running tasks of `prior` whose names are gone.
pub open spec fn dropped_runs(prior: Seq<Task>, names: Seq<String>) -> Seq<u64>
    decreases prior.len(),
{
    if prior.len() == 0 {
        seq![]
    } else {
        let t = prior.last();
        let rest = dropped_runs(prior.drop_last(), names);
        if t.running && !names_contain(names, t.name@) {
            rest.push(t.run)
        } else {
            rest
        }
    }
}

/// A fresh task named `name`.
pub fn fresh_task(name: &String) -> (t: Task)
    ensures
        is_fresh_task(t, name@),
{
    let mut log: Vec<String> = Vec::new();
    log.push(ready_line_of(name.as_str()));
    assert(lines(log@) =~= seq![ready_line(name@)]);
    Task { name: name.clone(), running: false, failed: false, log, run: 0 }
}

fn find_task(tasks: &Vec<Task>, name: &String) -> (r: Option<usize>)
    ensures
        r matches Some(k) ==> k as int == index_of(tasks@, name@),
        r is None ==> index_of(tasks@, name@) == -1,
{
    let mut i: usize = 0;
    let mut found: Option<usize> = None;
    assert(tasks@.subrange(0, 0) =~= Seq::<Task>::empty());
    while i < tasks.len()
        invariant
            i <= tasks@.len(),
            found matches Some(k) ==> k < i && k as int == index_of(tasks@.subrange(0, i as int), name@),
            found is None ==> index_of(tasks@.subrange(0, i as int), name@) == -1,
        decreases tasks@.len() - i,
    {
        assert(tasks@.subrange(0, i + 1).drop_last() =~= tasks@.subrange(0, i as int));
        if tasks[i].name == *name {
            found = Some(i);
        }
        i = i + 1;
    }
    assert(tasks@.subrange(0, i as int) =~= tasks@);
    found
}

pub(crate) fn contains_name(names: &Vec<String>, n: &String) -> (r: bool)
    ensures
        r == names_contain(names@, n@),
{
    let mut i: usize = 0;
    while i < names.len()
        invariant
            i <= names@.len(),
            forall|j: int| 0 <= j < i ==> names@[j]@ != n@,
        decreases names@.len() - i,
    {
        if names[i] == *n {
            return true;
        }
        i = i + 1;
    }
    false
}

/// Re-derives a project's tasks from the script names of its manifest:
/// one task per name, in the manifest's order. A name that `prior` already
/// has keeps its execution state and log; a new name gets a fresh task.
/// Tasks whose names are gone are dropped; the run identifiers of those
/// that were running come back as the second result, so that their
/// processes can be stopped.
pub fn reconcile_tasks(prior: &Vec<Task>, scripts: &Vec<String>) -> (r: (Vec<Task>, Vec<u64>))
    ensures
        r.0@.len() == scripts@.len(),
        forall|i: int| 0 <= i < scripts@.len() ==> is_reconciled(prior@, scripts@[i]@, #[trigger] r.0@[i]),
        r.1@ == dropped_runs(prior@, scripts@),
{
    let mut tasks: Vec<Task> = Vec::new();
    let mut i: usize = 0;
    while i < scripts.len()
        invariant
            i <= scripts@.len(),
            tasks@.len() == i,
            forall|j: int| 0 <= j < i ==> is_reconciled(prior@, scripts@[j]@, #[trigger] tasks@[j]),
        decreases scripts@.len() - i,
    {
        let name = &scripts[i];
        proof {
            lemma_index_of_range(prior@, name@);
        }
        match find_task(prior, name) {
            Some(k) => {
                let old_task = &prior[k];
                tasks.push(
                    Task {
                        name: name.clone(),
                        running: old_task.running,
                        failed: false,
                        log: copy_lines(&old_task.log),
                        run: old_task.run,
                    },
                );
            },
            None => {
                tasks.push(fresh_task(name));
            },
        }
        i = i + 1;
    }
    let mut dropped: Vec<u64> = Vec::new();
    let mut j: usize = 0;
    assert(prior@.subrange(0, 0) =~= Seq::<Task>::empty());
    while j < prior.len()
        invariant
            j <= prior@.len(),
            dropped@ == dropped_runs(prior@.subrange(0, j as int), scripts@),
        decreases prior@.len() - j,
    {
        assert(prior@.subrange(0, j + 1).drop_last() =~= prior@.subrange(0, j as int));
        let t = &prior[j];
        if t.running && !contains_name(scripts, &t.name) {
            dropped.push(t.run);
        }
        j = j + 1;
    }
    assert(prior@.subrange(0, j as int) =~= prior@);
    (tasks, dropped)
}

} // verus!

use vstd::prelude::*;
use crate::executor::{install_transition, lines, phase_lines, phase_succeeded, run_transition, Invocation, PhaseOutcome};
use crate::manifest::{
    contains_name, dropped_runs, fresh_task, index_of, is_fresh_task, is_reconciled, json_manifest,
    lemma_index_of_range, opt_lines, opt_text, parse_manifest, reconcile_tasks, ManifestFields,
};
use crate::registry::{
    acquire_failed_line, created_line, new_project_name, new_project_name_of, manifest_dir, manifest_dir_spec, starting_line,
    starting_line_of, status_line, status_line_of, stopped_line, stopped_line_of, Project, Task,
};
use crate::reorder::{
    lemma_move_keeps_identity, lemma_moved_seq_index, moved_index, moved_seq, remap_after_move,
    remap_after_remove, removed_index,
};

verus! {

/// The registry of projects with the state that refers into it: the
/// selected task, the project being dragged, a start deferred until the
/// script runtime is available, and the runtime's availability.
#[derive(Debug, Clone, PartialEq, Eq)]
pub struct Manager {
    pub projects: Vec<Project>,
    pub selection: Option<(usize, usize)>,
    pub drag: Option<usize>,
    pub pending: Option<(usize, usize)>,
    pub runtime_ready: bool,
    pub acquiring: bool,
    pub next_run: u64,
}

/// What came of a request to start a task.
#[derive(Debug, Clone, PartialEq, Eq)]
pub enum StartOutcome {
    /// No task at that position.
    NoSuchTask,
    /// The task already has a live execution; nothing changed.
    AlreadyRunning,
    /// The runtime is missing: acquire it. The start waits in `pending`.
    Acquire,
    /// The runtime is being acquired already; this request is dropped.
    Dropped,
    /// Every run identifier has been handed out; nothing changed.
    Exhausted,
    /// The task is running: spawn invocation `run` of `task` in `path`.
    Launch { run: u64, path: String, task: String },
}

pub open spec fn has_task(m: Manager, p: int, t: int) -> bool {
    &&& 0 <= p < m.projects@.len()
    &&& 0 <= t < m.projects@[p].tasks@.len()
}

pub open spec fn task_at(m: Manager, p: int, t: int) -> Task {
    m.projects@[p].tasks@[t]
}

/// `n` is `m` but for the task at (`p`, `t`) and the run counter.
pub open spec fn same_but_task(m: Manager, n: Manager, p: int, t: int) -> bool {
    &&& n.projects@.len() == m.projects@.len()
    &&& forall|q: int| 0 <= q < m.projects@.len() && q != p ==> n.projects@[q] == m.projects@[q]
    &&& n.projects@[p].name == m.projects@[p].name
    &&& n.projects@[p].path == m.projects@[p].path
    &&& n.projects@[p].visible == m.projects@[p].visible
    &&& n.projects@[p].tasks@.len() == m.projects@[p].tasks@.len()
    &&& forall|u: int|
        0 <= u < m.projects@[p].tasks@.len() && u != t ==> n.projects@[p].tasks@[u]
            == m.projects@[p].tasks@[u]
    &&& n.selection == m.selection
    &&& n.drag == m.drag
    &&& n.pending == m.pending
    &&& n.runtime_ready == m.runtime_ready
    &&& n.acquiring == m.acquiring
}

/// Whether position (`q`, `u`) comes before (`p`, `t`) in registry order.
pub open spec fn comes_before(q: int, u: int, p: int, t: int) -> bool {
    q < p || (q == p && u < t)
}

/// No two tasks share a name.
pub open spec fn names_distinct(ts: Seq<Task>) -> bool {
    forall|i: int, j: int| 0 <= i < ts.len() && 0 <= j < ts.len() && ts[i].name@ == ts[j].name@ ==> i == j
}

pub open spec fn has_task_named(ts: Seq<Task>, name: Seq<char>) -> bool {
    exists|i: int| 0 <= i < ts.len() && ts[i].name@ == name
}

/// `t` idle, with no run.
pub open spec fn idle(t: Task) -> Task {
    Task { name: t.name, running: false, failed: t.failed, log: t.log, run: 0 }
}

/// Stored tasks as the registry takes them back: each name once, at its
/// first occurrence, and none running.
pub open spec fn restored_tasks(ts: Seq<Task>) -> Seq<Task>
    decreases ts.len(),
{
    if ts.len() == 0 {
        seq![]
    } else if has_task_named(ts.drop_last(), ts.last().name@) {
        restored_tasks(ts.drop_last())
    } else {
        restored_tasks(ts.drop_last()).push(idle(ts.last()))
    }
}

proof fn lemma_restored_tasks(ts: Seq<Task>)
    ensures
        names_distinct(restored_tasks(ts)),
        forall|n: Seq<char>| has_task_named(restored_tasks(ts), n) == has_task_named(ts, n),
        forall|i: int| 0 <= i < restored_tasks(ts).len() ==> !(#[trigger] restored_tasks(ts)[i]).running,
    decreases ts.len(),
{
    if ts.len() > 0 {
        let init = ts.drop_last();
        lemma_restored_tasks(init);
        assert forall|n: Seq<char>| has_task_named(ts, n) == (has_task_named(init, n) || ts.last().name@ == n) by {
            if has_task_named(ts, n) {
                let i = choose|i: int| 0 <= i < ts.len() && ts[i].name@ == n;
                if i < ts.len() - 1 {
                    assert(init[i] == ts[i]);
                }
            }
            if has_task_named(init, n) {
                let i = choose|i: int| 0 <= i < init.len() && init[i].name@ == n;
                assert(ts[i] == init[i]);
            }
        }
        let r = restored_tasks(ts);
        let r0 = restored_tasks(init);
        if !has_task_named(init, ts.last().name@) {
            assert forall|n: Seq<char>| has_task_named(r, n) == (has_task_named(r0, n) || ts.last().name@ == n) by {
                if has_task_named(r, n) {
                    let i = choose|i: int| 0 <= i < r.len() && r[i].name@ == n;
                    if i < r.len() - 1 {
                        assert(r0[i] == r[i]);
                    }
                }
                if has_task_named(r0, n) {
                    let i = choose|i: int| 0 <= i < r0.len() && r0[i].name@ == n;
                    assert(r[i] == r0[i]);
                }
                if ts.last().name@ == n {
                    assert(r[r.len() - 1].name@ == n);
                }
            }
            assert forall|i: int, j: int| 0 <= i < r.len() && 0 <= j < r.len() && r[i].name@ == r[j].name@ implies i == j by {
                if i < r.len() - 1 && j == r.len() - 1 {
                    assert(r0[i] == r[i]);
                    assert(has_task_named(r0, ts.last().name@));
                }
                if j < r.len() - 1 && i == r.len() - 1 {
                    assert(r0[j] == r[j]);
                    assert(has_task_named(r0, ts.last().name@));
                }
            }
        }
    }
}

/// Takes back stored tasks: see `restored_tasks`.
pub fn restore_tasks(ts: Vec<Task>) -> (r: Vec<Task>)
    ensures
        r@ == restored_tasks(ts@),
{
    let ghost all = ts@;
    let mut ts = ts;
    let mut kept: Vec<Task> = Vec::new();
    let mut seen: Vec<String> = Vec::new();
    while ts.len() > 0
        invariant
            seen@.len() + ts@.len() == all.len(),
            ts@ == all.subrange(seen@.len() as int, all.len() as int),
            forall|i: int| 0 <= i < seen@.len() ==> (#[trigger] seen@[i])@ == all[i].name@,
            kept@ == restored_tasks(all.subrange(0, seen@.len() as int)),
        decreases ts@.len(),
    {
        let ghost k = seen@.len() as int;
        let ghost prefix = all.subrange(0, k);
        let t = ts.remove(0);
        assert(t == all[k]);
        let Task { name, running, failed, log, run } = t;
        let seen_before = contains_name(&seen, &name);
        proof {
            assert(all.subrange(0, k + 1).drop_last() =~= prefix);
            assert(all.subrange(0, k + 1).last() == t);
            if seen_before {
                let i = choose|i: int| 0 <= i < seen@.len() && seen@[i]@ == name@;
                assert(prefix[i].name@ == name@);
            }
            if has_task_named(prefix, name@) {
                let i = choose|i: int| 0 <= i < prefix.len() && prefix[i].name@ == name@;
                assert(seen@[i]@ == name@);
            }
        }
        if !seen_before {
            kept.push(Task { name: name.clone(), running: false, failed, log, run: 0 });
        }
        seen.push(name);
        assert(ts@ =~= all.subrange(seen@.len() as int, all.len() as int));
    }
    assert(all.subrange(0, all.len() as int) =~= all);
    kept
}

/// `n` is `m` after task (`p`, `t`) was launched as run `run`: it is
/// running, its failure flag is cleared and its log restarts with one line.
pub open spec fn launched(m: Manager, n: Manager, p: int, t: int, run: u64) -> bool {
    let before = task_at(m, p, t);
    let after = task_at(n, p, t);
    &&& same_but_task(m, n, p, t)
    &&& run == m.next_run
    &&& n.next_run == m.next_run + 1
    &&& after.name == before.name
    &&& after.running
    &&& !after.failed
    &&& after.run == run
    &&& lines(after.log@) == seq![starting_line(before.name@)]
}

/// `n` is `m` after the live execution of task (`p`, `t`) ended by itself
/// with `success` and `output`.
pub open spec fn completed(m: Manager, n: Manager, p: int, t: int, success: bool, output: Seq<String>) -> bool {
    let before = task_at(m, p, t);
    let after = task_at(n, p, t);
    &&& same_but_task(m, n, p, t)
    &&& n.next_run == m.next_run
    &&& after.name == before.name
    &&& !after.running
    &&& after.failed == !success
    &&& after.run == before.run
    &&& lines(after.log@) == lines(before.log@) + lines(output) + seq![status_line(before.name@, success)]
}

/// Task (`p`, `t`) exists and has a live execution.
pub open spec fn live(m: Manager, p: int, t: int) -> bool {
    has_task(m, p, t) && task_at(m, p, t).running
}

pub open spec fn is_live_run(m: Manager, p: int, t: int, run: u64) -> bool {
    has_task(m, p, t) && task_at(m, p, t).running && task_at(m, p, t).run == run
}

pub open spec fn moved_pair(r: Option<(usize, usize)>, from: int, to: int) -> Option<(usize, usize)> {
    match r {
        Some((p, t)) => Some((moved_index(p as int, from, to) as usize, t)),
        None => None,
    }
}

pub open spec fn moved_one(r: Option<usize>, from: int, to: int) -> Option<usize> {
    match r {
        Some(p) => Some(moved_index(p as int, from, to) as usize),
        None => None,
    }
}

pub open spec fn removed_pair(r: Option<(usize, usize)>, idx: int) -> Option<(usize, usize)> {
    match r {
        Some((p, t)) => match removed_index(p as int, idx) {
            Some(j) => Some((j as usize, t)),
            None => None,
        },
        None => None,
    }
}

pub open spec fn removed_one(r: Option<usize>, idx: int) -> Option<usize> {
    match r {
        Some(p) => match removed_index(p as int, idx) {
            Some(j) => Some(j as usize),
            None => None,
        },
        None => None,
    }
}

/// `n` is `m` with the project at `from` moved to `to`, and every
/// reference into the list following its project.
pub open spec fn is_moved(m: Manager, n: Manager, from: int, to: int) -> bool {
    &&& n.projects@ == moved_seq(m.projects@, from, to)
    &&& n.selection == moved_pair(m.selection, from, to)
    &&& n.drag == moved_one(m.drag, from, to)
    &&& n.pending == moved_pair(m.pending, from, to)
    &&& n.runtime_ready == m.runtime_ready
    &&& n.acquiring == m.acquiring
    &&& n.next_run == m.next_run
}

/// Whether the move from `from` to `to` is carried out on `m`.
pub open spec fn can_move(m: Manager, from: int, to: int) -> bool {
    from != to && 0 <= from < m.projects@.len() && 0 <= to < m.projects@.len()
}

pub open spec fn has_running_task(p: Project) -> bool {
    exists|t: int| 0 <= t < p.tasks@.len() && p.tasks@[t].running
}

/// Non-empty project paths, in registry order.
pub open spec fn watched(ps: Seq<Project>) -> Seq<Seq<char>>
    decreases ps.len(),
{
    if ps.len() == 0 {
        seq![]
    } else if ps.last().path@.len() == 0 {
        watched(ps.drop_last())
    } else {
        watched(ps.drop_last()).push(ps.last().path@)
    }
}

/// Position of the first project whose path is `dir`, or `len` when none.
pub open spec fn first_with_path(ps: Seq<Project>, dir: Seq<char>, p: int) -> bool {
    &&& 0 <= p <= ps.len()
    &&& p < ps.len() ==> ps[p].path@ == dir
    &&& forall|q: int| 0 <= q < p ==> ps[q].path@ != dir
}

/// The tasks of an imported manifest: a fresh task per script name.
pub open spec fn imported_tasks(tasks: Seq<Task>, scripts: Option<Seq<Seq<char>>>) -> bool {
    match scripts {
        None => tasks.len() == 0,
        Some(names) => {
            &&& tasks.len() == names.len()
            &&& forall|i: int| 0 <= i < names.len() ==> is_fresh_task(#[trigger] tasks[i], names[i])
        },
    }
}

fn remap_pair_moved(r: Option<(usize, usize)>, from: usize, to: usize) -> (n: Option<(usize, usize)>)
    ensures
        n == moved_pair(r, from as int, to as int),
{
    match r {
        Some((p, t)) => Some((remap_after_move(p, from, to), t)),
        None => None,
    }
}

fn remap_pair_removed(r: Option<(usize, usize)>, idx: usize) -> (n: Option<(usize, usize)>)
    ensures
        n == removed_pair(r, idx as int),
{
    match r {
        Some((p, t)) => match remap_after_remove(p, idx) {
            Some(j) => Some((j, t)),
            None => None,
        },
        None => None,
    }
}

fn project_running(p: &Project) -> (r: bool)
    ensures
        r == has_running_task(*p),
{
    let mut t: usize = 0;
    while t < p.tasks.len()
        invariant
            t <= p.tasks@.len(),
            forall|u: int| 0 <= u < t ==> !p.tasks@[u].running,
        decreases p.tasks@.len() - t,
    {
        if p.tasks[t].running {
            return true;
        }
        t = t + 1;
    }
    false
}

impl Manager {
    /// Every live execution has a run identifier below `next_run`, no two
    /// live executions share one, and task names are unique within each
    /// project.
    pub open spec fn wf(&self) -> bool {
        &&& forall|p: int| 0 <= p < self.projects@.len() ==> names_distinct(#[trigger] self.projects@[p].tasks@)
        &&& forall|p: int, t: int| #[trigger] live(*self, p, t) ==> task_at(*self, p, t).run < self.next_run
        &&& forall|p: int, t: int, q: int, u: int|
            #[trigger] live(*self, p, t) && #[trigger] live(*self, q, u) && task_at(*self, p, t).run
                == task_at(*self, q, u).run ==> p == q && t == u
    }

    /// An empty registry; `runtime_ready` says whether the script runtime
    /// is already at hand.
    pub fn new(runtime_ready: bool) -> (r: Manager)
        ensures
            r.projects@.len() == 0,
            r.selection is None,
            r.drag is None,
            r.pending is None,
            r.runtime_ready == runtime_ready,
            !r.acquiring,
            r.next_run == 0,
            r.wf(),
    {
        Manager {
            projects: Vec::new(),
            selection: None,
            drag: None,
            pending: None,
            runtime_ready,
            acquiring: false,
            next_run: 0,
        }
    }

    /// A registry over stored projects: each project keeps its name, path
    /// and visibility, and its tasks are taken back by `restored_tasks`.
    pub fn restore(runtime_ready: bool, stored: Vec<Project>) -> (r: Manager)
        ensures
            r.projects@.len() == stored@.len(),
            forall|q: int| 0 <= q < stored@.len() ==> {
                let p = #[trigger] r.projects@[q];
                &&& p.name == stored@[q].name
                &&& p.path == stored@[q].path
                &&& p.visible == stored@[q].visible
                &&& p.tasks@ == restored_tasks(stored@[q].tasks@)
            },
            r.selection is None,
            r.drag is None,
            r.pending is None,
            r.runtime_ready == runtime_ready,
            !r.acquiring,
            r.next_run == 0,
            r.wf(),
    {
        let ghost all = stored@;
        let mut stored = stored;
        let mut projects: Vec<Project> = Vec::new();
        while stored.len() > 0
            invariant
                projects@.len() + stored@.len() == all.len(),
                stored@ == all.subrange(projects@.len() as int, all.len() as int),
                forall|q: int| 0 <= q < projects@.len() ==> {
                    let p = #[trigger] projects@[q];
                    &&& p.name == all[q].name
                    &&& p.path == all[q].path
                    &&& p.visible == all[q].visible
                    &&& p.tasks@ == restored_tasks(all[q].tasks@)
                },
            decreases stored@.len(),
        {
            let Project { name, path, tasks, visible } = stored.remove(0);
            projects.push(Project { name, path, tasks: restore_tasks(tasks), visible });
        }
        let r = Manager {
            projects,
            selection: None,
            drag: None,
            pending: None,
            runtime_ready,
            acquiring: false,
            next_run: 0,
        };
        proof {
            assert forall|q: int| 0 <= q < r.projects@.len() implies names_distinct(#[trigger] r.projects@[q].tasks@) by {
                lemma_restored_tasks(all[q].tasks@);
            }
            assert forall|q: int, u: int| !#[trigger] live(r, q, u) by {
                if 0 <= q < r.projects@.len() {
                    lemma_restored_tasks(all[q].tasks@);
                }
            }
        }
        r
    }

    /// Puts `task` at (`p`, `t`) and hands back the task that stood there.
    fn replace_task(&mut self, p: usize, t: usize, task: Task) -> (prev: Task)
        requires
            has_task(*old(self), p as int, t as int),
        ensures
            prev == task_at(*old(self), p as int, t as int),
            same_but_task(*old(self), *final(self), p as int, t as int),
            task_at(*final(self), p as int, t as int) == task,
            final(self).next_run == old(self).next_run,
    {
        let mut proj = self.projects.remove(p);
        let prev = proj.tasks.remove(t);
        proj.tasks.insert(t, task);
        self.projects.insert(p, proj);
        proof {
            let m = old(self).projects@;
            assert forall|q: int| 0 <= q < m.len() && q != p implies self.projects@[q] == m[q] by {
                if q < p {
                    assert(self.projects@[q] == m.remove(p as int)[q]);
                } else {
                    assert(self.projects@[q] == m.remove(p as int)[q - 1]);
                }
            }
            let ts = m[p as int].tasks@;
            assert forall|u: int| 0 <= u < ts.len() && u != t implies self.projects@[p as int].tasks@[u] == ts[u] by {
                if u < t {
                    assert(self.projects@[p as int].tasks@[u] == ts.remove(t as int)[u]);
                } else {
                    assert(self.projects@[p as int].tasks@[u] == ts.remove(t as int)[u - 1]);
                }
            }
        }
        prev
    }

    /// Starts task `t` of project `p`. A task with a live execution is left
    /// alone. Without the script runtime the start is deferred while the
    /// runtime is acquired, once; starts that come meanwhile are dropped.
    /// Otherwise the task is marked running under a fresh run identifier,
    /// its failure flag is cleared and its log restarts with one line.
    pub fn start(&mut self, p: usize, t: usize) -> (r: StartOutcome)
        requires
            old(self).wf(),
        ensures
            final(self).wf(),
            !has_task(*old(self), p as int, t as int) ==> r is NoSuchTask && *final(self) == *old(self),
            has_task(*old(self), p as int, t as int) && task_at(*old(self), p as int, t as int).running
                ==> r is AlreadyRunning && *final(self) == *old(self),
            has_task(*old(self), p as int, t as int) && !task_at(*old(self), p as int, t as int).running
                && !old(self).runtime_ready ==> if old(self).acquiring {
                r is Dropped && *final(self) == *old(self)
            } else {
                &&& r is Acquire
                &&& final(self).projects == old(self).projects
                &&& final(self).acquiring
                &&& final(self).pending == Some((p, t))
                &&& final(self).selection == old(self).selection
                &&& final(self).drag == old(self).drag
                &&& final(self).runtime_ready == old(self).runtime_ready
                &&& final(self).next_run == old(self).next_run
            },
            has_task(*old(self), p as int, t as int) && !task_at(*old(self), p as int, t as int).running
                && old(self).runtime_ready ==> if old(self).next_run == u64::MAX {
                r is Exhausted && *final(self) == *old(self)
            } else {
                r matches StartOutcome::Launch { run, path, task } && path@ == old(self).projects@[p as int].path@
                    && task@ == task_at(*old(self), p as int, t as int).name@
                    && launched(*old(self), *final(self), p as int, t as int, run)
            },
    {
        if p >= self.projects.len() || t >= self.projects[p].tasks.len() {
            return StartOutcome::NoSuchTask;
        }
        if self.projects[p].tasks[t].running {
            return StartOutcome::AlreadyRunning;
        }
        if !self.runtime_ready {
            if self.acquiring {
                return StartOutcome::Dropped;
            }
            self.acquiring = true;
            self.pending = Some((p, t));
            proof {
                lemma_wf_rearranged(*old(self), *self, |q: int| q);
            }
            return StartOutcome::Acquire;
        }
        if self.next_run == u64::MAX {
            return StartOutcome::Exhausted;
        }
        let run = self.next_run;
        let name = self.projects[p].tasks[t].name.clone();
        let path = self.projects[p].path.clone();
        let mut log: Vec<String> = Vec::new();
        log.push(starting_line_of(name.as_str()));
        assert(lines(log@) =~= seq![starting_line(name@)]);
        let task = Task { name: name.clone(), running: true, failed: false, log, run };
        self.replace_task(p, t, task);
        self.next_run = run + 1;
        proof {
            lemma_wf_replace(*old(self), *self, p as int, t as int);
        }
        StartOutcome::Launch { run, path, task: name }
    }

    /// Stops task `t` of project `p`. Without a live execution nothing
    /// changes. Otherwise the execution handle is released: the task is no
    /// longer running, its log gains one line, and the identifier of the
    /// run to terminate comes back.
    pub fn stop(&mut self, p: usize, t: usize) -> (r: Option<u64>)
        requires
            old(self).wf(),
        ensures
            final(self).wf(),
            !(has_task(*old(self), p as int, t as int) && task_at(*old(self), p as int, t as int).running)
                ==> r is None && *final(self) == *old(self),
            has_task(*old(self), p as int, t as int) && task_at(*old(self), p as int, t as int).running
                ==> {
                let before = task_at(*old(self), p as int, t as int);
                let after = task_at(*final(self), p as int, t as int);
                &&& r == Some(before.run)
                &&& same_but_task(*old(self), *final(self), p as int, t as int)
                &&& final(self).next_run == old(self).next_run
                &&& after.name == before.name
                &&& !after.running
                &&& after.failed == before.failed
                &&& after.run == before.run
                &&& lines(after.log@) == lines(before.log@).push(stopped_line(before.name@))
            },
    {
        if p >= self.projects.len() || t >= self.projects[p].tasks.len() {
            return None;
        }
        if !self.projects[p].tasks[t].running {
            return None;
        }
        let placeholder = Task { name: String::new(), running: false, failed: false, log: Vec::new(), run: 0 };
        let prev = self.replace_task(p, t, placeholder);
        let Task { name, running, failed, log, run } = prev;
        let mut log = log;
        let ghost before_log = log@;
        log.push(stopped_line_of(name.as_str()));
        assert(lines(log@) =~= lines(before_log).push(stopped_line(name@)));
        let task = Task { name, running: false, failed, log, run };
        self.replace_task(p, t, task);
        proof {
            lemma_wf_replace(*old(self), *self, p as int, t as int);
        }
        Some(run)
    }

    /// Finds the first running task, in registry order, whose live
    /// execution is run `run`.
    pub fn find_run(&self, run: u64) -> (r: Option<(usize, usize)>)
        ensures
            r is None ==> forall|q: int, u: int| !is_live_run(*self, q, u, run),
            r matches Some((p, t)) ==> is_live_run(*self, p as int, t as int, run) && forall|q: int, u: int|
                comes_before(q, u, p as int, t as int) ==> !is_live_run(*self, q, u, run),
    {
        let mut p: usize = 0;
        while p < self.projects.len()
            invariant
                p <= self.projects@.len(),
                forall|q: int, u: int| q < p ==> !is_live_run(*self, q, u, run),
            decreases self.projects@.len() - p,
        {
            let mut t: usize = 0;
            while t < self.projects[p].tasks.len()
                invariant
                    p < self.projects@.len(),
                    t <= self.projects@[p as int].tasks@.len(),
                    forall|q: int, u: int| q < p ==> !is_live_run(*self, q, u, run),
                    forall|u: int| u < t ==> !is_live_run(*self, p as int, u, run),
                decreases self.projects@[p as int].tasks@.len() - t,
            {
                let task = &self.projects[p].tasks[t];
                if task.running && task.run == run {
                    return Some((p, t));
                }
                t = t + 1;
            }
            p = p + 1;
        }
        None
    }

    /// Records that run `run` ended by itself with `success` and the
    /// captured `output`. When no task holds that run any more (it was
    /// stopped first) nothing changes. Otherwise the handle is released, the
    /// failure flag becomes `!success`, and the log gains the output and a
    /// terminal status line. The updated position comes back.
    pub fn complete(&mut self, run: u64, success: bool, output: Vec<String>) -> (r: Option<(usize, usize)>)
        requires
            old(self).wf(),
        ensures
            final(self).wf(),
            r is None ==> (forall|q: int, u: int| !is_live_run(*old(self), q, u, run)) && *final(self)
                == *old(self),
            r matches Some((p, t)) ==> {
                &&& is_live_run(*old(self), p as int, t as int, run)
                &&& forall|q: int, u: int| comes_before(q, u, p as int, t as int) ==> !is_live_run(*old(self), q, u, run)
                &&& completed(*old(self), *final(self), p as int, t as int, success, output@)
            },
    {
        match self.find_run(run) {
            None => None,
            Some((p, t)) => {
                let placeholder = Task { name: String::new(), running: false, failed: false, log: Vec::new(), run: 0 };
                let prev = self.replace_task(p, t, placeholder);
                let Task { name, running, failed, log, run } = prev;
                let mut log = log;
                let mut output = output;
                let ghost before_log = log@;
                let ghost out = output@;
                log.append(&mut output);
                log.push(status_line_of(name.as_str(), success));
                assert(lines(log@) =~= lines(before_log) + lines(out) + seq![status_line(name@, success)]);
                let task = Task { name, running: false, failed: !success, log, run };
                self.replace_task(p, t, task);
                proof {
                    lemma_wf_replace(*old(self), *self, p as int, t as int);
                }
                Some((p, t))
            },
        }
    }

    /// Records the end of a runtime acquisition. On success the runtime is
    /// ready and the deferred start comes back, to be issued again. On
    /// failure the deferred task, if it is still idle, gains a log line
    /// saying so, and nothing is started.
    pub fn runtime_acquired(&mut self, ok: bool) -> (r: Option<(usize, usize)>)
        requires
            old(self).wf(),
        ensures
            final(self).wf(),
            !final(self).acquiring,
            final(self).pending is None,
            final(self).runtime_ready == ok,
            final(self).selection == old(self).selection,
            final(self).drag == old(self).drag,
            final(self).next_run == old(self).next_run,
            ok ==> r == old(self).pending && final(self).projects == old(self).projects,
            !ok ==> r is None,
            !ok ==> match old(self).pending {
                Some((p, t)) if has_task(*old(self), p as int, t as int) && !task_at(
                    *old(self),
                    p as int,
                    t as int,
                ).running => {
                    let before = task_at(*old(self), p as int, t as int);
                    let after = task_at(*final(self), p as int, t as int);
                    &&& final(self).projects@.len() == old(self).projects@.len()
                    &&& forall|q: int| 0 <= q < old(self).projects@.len() && q != p ==> final(self).projects@[q] == old(self).projects@[q]
                    &&& final(self).projects@[p as int].tasks@.len() == old(self).projects@[p as int].tasks@.len()
                    &&& forall|u: int| 0 <= u < old(self).projects@[p as int].tasks@.len() && u != t
                        ==> final(self).projects@[p as int].tasks@[u] == old(self).projects@[p as int].tasks@[u]
                    &&& final(self).projects@[p as int].name == old(self).projects@[p as int].name
                    &&& final(self).projects@[p as int].path == old(self).projects@[p as int].path
                    &&& final(self).projects@[p as int].visible == old(self).projects@[p as int].visible
                    &&& after.name == before.name
                    &&& after.running == before.running
                    &&& after.failed == before.failed
                    &&& after.run == before.run
                    &&& lines(after.log@) == lines(before.log@).push(acquire_failed_line())
                },
                _ => final(self).projects == old(self).projects,
            },
    {
        let pending = self.pending;
        self.pending = None;
        self.acquiring = false;
        self.runtime_ready = ok;
        let ghost m1 = *self;
        proof {
            lemma_wf_rearranged(*old(self), *self, |q: int| q);
        }
        if ok {
            return pending;
        }
        if let Some((p, t)) = pending {
            if p < self.projects.len() && t < self.projects[p].tasks.len() && !self.projects[p].tasks[t].running {
                let placeholder = Task { name: String::new(), running: false, failed: false, log: Vec::new(), run: 0 };
                let prev = self.replace_task(p, t, placeholder);
                let Task { name, running, failed, log, run } = prev;
                let mut log = log;
                let ghost before_log = log@;
                log.push(String::from_str("[ERROR] Could not acquire the script runtime"));
                assert(lines(log@) =~= lines(before_log).push(acquire_failed_line()));
                let task = Task { name, running, failed, log, run };
                self.replace_task(p, t, task);
                proof {
                    lemma_wf_replace(m1, *self, p as int, t as int);
                }
            }
        }
        None
    }

    /// Selects task `t` of project `p` for display.
    pub fn select(&mut self, p: usize, t: usize)
        requires
            old(self).wf(),
        ensures
            final(self).wf(),
            *final(self) == (Manager { selection: Some((p, t)), ..*old(self) }),
    {
        self.selection = Some((p, t));
        proof {
            lemma_wf_rearranged(*old(self), *self, |q: int| q);
        }
    }

    /// Starts dragging project `p`.
    pub fn drag_start(&mut self, p: usize)
        requires
            old(self).wf(),
        ensures
            final(self).wf(),
            *final(self) == (Manager { drag: Some(p), ..*old(self) }),
    {
        self.drag = Some(p);
        proof {
            lemma_wf_rearranged(*old(self), *self, |q: int| q);
        }
    }

    /// Ends any drag.
    pub fn drag_end(&mut self)
        requires
            old(self).wf(),
        ensures
            final(self).wf(),
            *final(self) == (Manager { drag: None, ..*old(self) }),
    {
        self.drag = None;
        proof {
            lemma_wf_rearranged(*old(self), *self, |q: int| q);
        }
    }

    /// Moves the project at `from` to position `to`. The selected task,
    /// the dragged project and the deferred start keep pointing at the
    /// same projects. Nothing changes when `from == to` or either position
    /// is out of range.
    pub fn move_project(&mut self, from: usize, to: usize) -> (r: bool)
        requires
            old(self).wf(),
        ensures
            final(self).wf(),
            r == can_move(*old(self), from as int, to as int),
            r ==> is_moved(*old(self), *final(self), from as int, to as int),
            !r ==> *final(self) == *old(self),
    {
        if from == to || from >= self.projects.len() || to >= self.projects.len() {
            return false;
        }
        let project = self.projects.remove(from);
        self.projects.insert(to, project);
        self.selection = remap_pair_moved(self.selection, from, to);
        self.pending = remap_pair_moved(self.pending, from, to);
        self.drag = match self.drag {
            Some(d) => Some(remap_after_move(d, from, to)),
            None => None,
        };
        proof {
            let m = *old(self);
            let len = self.projects@.len();
            let back = |q: int| moved_index(q, to as int, from as int);
            assert forall|q: int| 0 <= q < len implies 0 <= #[trigger] back(q) < m.projects@.len()
                && self.projects@[q].tasks == m.projects@[back(q)].tasks by {
                lemma_moved_seq_index(m.projects@, from as int, to as int, q);
            }
            assert forall|q1: int, q2: int|
                0 <= q1 < len && 0 <= q2 < len && #[trigger] back(q1) == #[trigger] back(q2) implies q1 == q2 by {
                lemma_moved_seq_index(m.projects@, from as int, to as int, q1);
                lemma_moved_seq_index(m.projects@, from as int, to as int, q2);
            }
            lemma_wf_rearranged(m, *self, back);
        }
        true
    }

    /// The pointer entered project `to`: while a project is dragged, it
    /// moves there.
    pub fn hover(&mut self, to: usize) -> (r: bool)
        requires
            old(self).wf(),
        ensures
            final(self).wf(),
            match old(self).drag {
                Some(from) => {
                    &&& r == can_move(*old(self), from as int, to as int)
                    &&& r ==> is_moved(*old(self), *final(self), from as int, to as int)
                    &&& !r ==> *final(self) == *old(self)
                },
                None => !r && *final(self) == *old(self),
            },
    {
        match self.drag {
            Some(from) => self.move_project(from, to),
            None => false,
        }
    }

    /// Removes project `idx`, unless it has a running task or there is no
    /// such project; then nothing changes. References to the removed
    /// project are cleared; those past it shift down by one.
    pub fn remove_project(&mut self, idx: usize) -> (r: bool)
        requires
            old(self).wf(),
        ensures
            final(self).wf(),
            r == (idx < old(self).projects@.len() && !has_running_task(old(self).projects@[idx as int])),
            !r ==> *final(self) == *old(self),
            r ==> {
                &&& final(self).projects@ == old(self).projects@.remove(idx as int)
                &&& final(self).selection == removed_pair(old(self).selection, idx as int)
                &&& final(self).drag == removed_one(old(self).drag, idx as int)
                &&& final(self).pending == removed_pair(old(self).pending, idx as int)
                &&& final(self).runtime_ready == old(self).runtime_ready
                &&& final(self).acquiring == old(self).acquiring
                &&& final(self).next_run == old(self).next_run
            },
    {
        if idx >= self.projects.len() || project_running(&self.projects[idx]) {
            return false;
        }
        self.projects.remove(idx);
        self.selection = remap_pair_removed(self.selection, idx);
        self.pending = remap_pair_removed(self.pending, idx);
        self.drag = match self.drag {
            Some(d) => remap_after_remove(d, idx),
            None => None,
        };
        proof {
            let back = |q: int| if q < idx { q } else { q + 1 };
            lemma_wf_rearranged(*old(self), *self, back);
        }
        true
    }

    /// Appends a project that is not yet linked to a directory, named by
    /// its number, with one task, and selects that task.
    pub fn create_project(&mut self) -> (r: usize)
        requires
            old(self).wf(),
        ensures
            final(self).wf(),
            r == old(self).projects@.len(),
            final(self).projects@.len() == old(self).projects@.len() + 1,
            final(self).projects@.subrange(0, r as int) == old(self).projects@,
            final(self).projects@[r as int].name@ == new_project_name(r as nat + 1),
            final(self).projects@[r as int].path@.len() == 0,
            !final(self).projects@[r as int].visible,
            final(self).projects@[r as int].tasks@.len() == 1,
            final(self).projects@[r as int].tasks@[0].name@ == "Task 1"@,
            !final(self).projects@[r as int].tasks@[0].running,
            !final(self).projects@[r as int].tasks@[0].failed,
            lines(final(self).projects@[r as int].tasks@[0].log@) == seq![created_line()],
            final(self).selection == Some((r, 0usize)),
            final(self).drag == old(self).drag,
            final(self).pending == old(self).pending,
            final(self).runtime_ready == old(self).runtime_ready,
            final(self).acquiring == old(self).acquiring,
            final(self).next_run == old(self).next_run,
    {
        let r = self.projects.len();
        let name = new_project_name_of(r as u128 + 1);
        let mut log: Vec<String> = Vec::new();
        log.push(String::from_str("[INFO] Task created"));
        assert(lines(log@) =~= seq![created_line()]);
        let mut tasks: Vec<Task> = Vec::new();
        tasks.push(Task { name: String::from_str("Task 1"), running: false, failed: false, log, run: 0 });
        self.projects.push(Project { name, path: String::new(), tasks, visible: false });
        assert(self.projects@.subrange(0, r as int) =~= old(self).projects@);
        self.selection = Some((r, 0));
        proof {
            lemma_wf_appended(*old(self), *self);
        }
        r
    }

    /// Appends the project that a parsed manifest describes: named by the
    /// manifest, or "Unknown Project" when it has no name; rooted at `dir`;
    /// with a fresh task for each script. It is visible.
    pub fn add_imported(&mut self, dir: String, fields: ManifestFields)
        requires
            old(self).wf(),
            fields.scripts matches Some(k) ==> lines(k@).no_duplicates(),
        ensures
            final(self).wf(),
            final(self).projects@.len() == old(self).projects@.len() + 1,
            final(self).projects@.subrange(0, old(self).projects@.len() as int) == old(self).projects@,
            ({
                let p = final(self).projects@[old(self).projects@.len() as int];
                &&& p.name@ == match opt_text(fields.name) {
                    Some(n) => n,
                    None => "Unknown Project"@,
                }
                &&& p.path@ == dir@
                &&& p.visible
                &&& imported_tasks(p.tasks@, opt_lines(fields.scripts))
            }),
            final(self).selection == old(self).selection,
            final(self).drag == old(self).drag,
            final(self).pending == old(self).pending,
            final(self).runtime_ready == old(self).runtime_ready,
            final(self).acquiring == old(self).acquiring,
            final(self).next_run == old(self).next_run,
    {
        let ghost script_names = fields.scripts;
        let ManifestFields { name, scripts } = fields;
        let name = match name {
            Some(n) => n,
            None => String::from_str("Unknown Project"),
        };
        let mut tasks: Vec<Task> = Vec::new();
        match scripts {
            Some(names) => {
                let mut i: usize = 0;
                while i < names.len()
                    invariant
                        i <= names@.len(),
                        tasks@.len() == i,
                        forall|j: int| 0 <= j < i ==> is_fresh_task(#[trigger] tasks@[j], names@[j]@),
                    decreases names@.len() - i,
                {
                    tasks.push(fresh_task(&names[i]));
                    i = i + 1;
                }
            },
            None => {},
        }
        let n = self.projects.len();
        proof {
            if let Some(k) = script_names {
                assert forall|i: int, j: int| 0 <= i < tasks@.len() && 0 <= j < tasks@.len() && tasks@[i].name@ == tasks@[j].name@ implies i == j by {
                    assert(is_fresh_task(tasks@[i], k@[i]@));
                    assert(is_fresh_task(tasks@[j], k@[j]@));
                    assert(lines(k@)[i] == k@[i]@);
                    assert(lines(k@)[j] == k@[j]@);
                }
            }
        }
        self.projects.push(Project { name, path: dir, tasks, visible: true });
        assert(self.projects@.subrange(0, n as int) =~= old(self).projects@);
        proof {
            lemma_wf_appended(*old(self), *self);
        }
    }

    /// Imports the manifest at `path` whose text is `text`. Nothing changes
    /// when the path does not name a manifest or the text is not JSON.
    pub fn import_manifest(&mut self, path: &str, text: &str) -> (r: bool)
        requires
            old(self).wf(),
        ensures
            final(self).wf(),
            r == (manifest_dir_spec(path@) is Some && json_manifest(text@) is Some),
            !r ==> *final(self) == *old(self),
            r ==> final(self).projects@.len() == old(self).projects@.len() + 1,
            r ==> ({
                let p = final(self).projects@[old(self).projects@.len() as int];
                let (name, scripts) = json_manifest(text@)->0;
                &&& final(self).projects@.subrange(0, old(self).projects@.len() as int) == old(self).projects@
                &&& Some(p.path@) == manifest_dir_spec(path@)
                &&& p.name@ == match name {
                    Some(n) => n,
                    None => "Unknown Project"@,
                }
                &&& p.visible
                &&& imported_tasks(p.tasks@, scripts)
            }),
    {
        let dir = match manifest_dir(path) {
            Some(d) => d,
            None => return false,
        };
        let fields = match parse_manifest(text) {
            Some(f) => f,
            None => return false,
        };
        self.add_imported(dir, fields);
        true
    }

    /// Applies a parsed manifest to the first project rooted at `dir`: its
    /// tasks are reconciled against the manifest's script names when the
    /// manifest has scripts, and it becomes visible. The run identifiers
    /// of running tasks that were dropped come back, so that their
    /// processes can be stopped. Nothing changes when no project has
    /// that root.
    pub fn apply_manifest(&mut self, dir: &String, fields: ManifestFields) -> (r: Vec<u64>)
        requires
            old(self).wf(),
            fields.scripts matches Some(k) ==> lines(k@).no_duplicates(),
        ensures
            final(self).wf(),
            exists|p: int| first_with_path(old(self).projects@, dir@, p) && if p == old(self).projects@.len() {
                r@.len() == 0 && *final(self) == *old(self)
            } else {
                let before = old(self).projects@[p];
                let after = final(self).projects@[p];
                &&& final(self).projects@.len() == old(self).projects@.len()
                &&& forall|q: int| 0 <= q < old(self).projects@.len() && q != p ==> final(self).projects@[q] == old(self).projects@[q]
                &&& after.name == before.name
                &&& after.path == before.path
                &&& after.visible
                &&& match fields.scripts {
                    None => after.tasks == before.tasks && r@.len() == 0,
                    Some(names) => {
                        &&& after.tasks@.len() == names@.len()
                        &&& forall|i: int| 0 <= i < names@.len() ==> is_reconciled(before.tasks@, names@[i]@, #[trigger] after.tasks@[i])
                        &&& r@ == dropped_runs(before.tasks@, names@)
                    },
                }
                &&& final(self).selection == old(self).selection
                &&& final(self).drag == old(self).drag
                &&& final(self).pending == old(self).pending
                &&& final(self).runtime_ready == old(self).runtime_ready
                &&& final(self).acquiring == old(self).acquiring
                &&& final(self).next_run == old(self).next_run
            },
    {
        let mut p: usize = 0;
        while p < self.projects.len() && !(self.projects[p].path == *dir)
            invariant
                p <= self.projects@.len(),
                forall|q: int| 0 <= q < p ==> self.projects@[q].path@ != dir@,
            decreases self.projects@.len() - p,
        {
            p = p + 1;
        }
        assert(first_with_path(old(self).projects@, dir@, p as int));
        if p == self.projects.len() {
            return Vec::new();
        }
        let ghost scripts = fields.scripts;
        let mut proj = self.projects.remove(p);
        let dropped = match fields.scripts {
            Some(names) => {
                let (tasks, dropped) = reconcile_tasks(&proj.tasks, &names);
                proj.tasks = tasks;
                dropped
            },
            None => Vec::new(),
        };
        proj.visible = true;
        self.projects.insert(p, proj);
        proof {
            let m = old(self).projects@;
            assert forall|q: int| 0 <= q < m.len() && q != p implies self.projects@[q] == m[q] by {
                if q < p {
                    assert(self.projects@[q] == m.remove(p as int)[q]);
                } else {
                    assert(self.projects@[q] == m.remove(p as int)[q - 1]);
                }
            }
            match scripts {
                Some(names) => lemma_wf_reconciled(*old(self), *self, p as int, names@),
                None => lemma_wf_rearranged(*old(self), *self, |q: int| q)
            }
        }
        dropped
    }

    /// Handles a change of the file at `path`, whose new text is `text`.
    /// Only a manifest counts, and only when its text is JSON; then it is
    /// applied to the project rooted in its directory. The run identifiers
    /// of running tasks that were dropped come back.
    pub fn manifest_changed(&mut self, path: &str, text: &str) -> (r: Vec<u64>)
        requires
            old(self).wf(),
        ensures
            final(self).wf(),
            (manifest_dir_spec(path@) is None || json_manifest(text@) is None) ==> r@.len() == 0 && *final(self) == *old(self),
            manifest_dir_spec(path@) is Some && json_manifest(text@) is Some ==> exists|dir: String, fields: ManifestFields|
                Some(dir@) == manifest_dir_spec(path@) && json_manifest(text@) == Some((opt_text(fields.name), opt_lines(fields.scripts)))
                && exists|p: int| first_with_path(old(self).projects@, dir@, p) && if p == old(self).projects@.len() {
                    r@.len() == 0 && *final(self) == *old(self)
                } else {
                    let before = old(self).projects@[p];
                    let after = final(self).projects@[p];
                    &&& final(self).projects@.len() == old(self).projects@.len()
                    &&& forall|q: int| 0 <= q < old(self).projects@.len() && q != p ==> final(self).projects@[q] == old(self).projects@[q]
                    &&& after.name == before.name
                    &&& after.path == before.path
                    &&& after.visible
                    &&& match fields.scripts {
                        None => after.tasks == before.tasks && r@.len() == 0,
                        Some(names) => {
                            &&& after.tasks@.len() == names@.len()
                            &&& forall|i: int| 0 <= i < names@.len() ==> is_reconciled(before.tasks@, names@[i]@, #[trigger] after.tasks@[i])
                            &&& r@ == dropped_runs(before.tasks@, names@)
                        },
                    }
                    &&& final(self).selection == old(self).selection
                    &&& final(self).drag == old(self).drag
                    &&& final(self).pending == old(self).pending
                    &&& final(self).runtime_ready == old(self).runtime_ready
                    &&& final(self).acquiring == old(self).acquiring
                    &&& final(self).next_run == old(self).next_run
                },
    {
        let dir = match manifest_dir(path) {
            Some(d) => d,
            None => return Vec::new(),
        };
        let fields = match parse_manifest(text) {
            Some(f) => f,
            None => return Vec::new(),
        };
        let r = self.apply_manifest(&dir, fields);
        assert(Some(dir@) == manifest_dir_spec(path@));
        r
    }

    /// Sets each project's visibility to whether its manifest exists, as
    /// `present` says position by position; projects past its end keep
    /// theirs.
    pub fn refresh_visibility(&mut self, present: &Vec<bool>)
        requires
            old(self).wf(),
        ensures
            final(self).wf(),
            final(self).projects@.len() == old(self).projects@.len(),
            forall|q: int| 0 <= q < old(self).projects@.len() ==> {
                let before = #[trigger] old(self).projects@[q];
                let after = final(self).projects@[q];
                &&& after.name == before.name
                &&& after.path == before.path
                &&& after.tasks == before.tasks
                &&& after.visible == if q < present@.len() { present@[q] } else { before.visible }
            },
            final(self).selection == old(self).selection,
            final(self).drag == old(self).drag,
            final(self).pending == old(self).pending,
            final(self).runtime_ready == old(self).runtime_ready,
            final(self).acquiring == old(self).acquiring,
            final(self).next_run == old(self).next_run,
    {
        let mut i: usize = 0;
        while i < self.projects.len() && i < present.len()
            invariant
                i <= self.projects@.len(),
                i <= present@.len(),
                self.projects@.len() == old(self).projects@.len(),
                forall|q: int| 0 <= q < old(self).projects@.len() ==> {
                    let before = #[trigger] old(self).projects@[q];
                    let after = self.projects@[q];
                    &&& after.name == before.name
                    &&& after.path == before.path
                    &&& after.tasks == before.tasks
                    &&& after.visible == if q < i { present@[q] } else { before.visible }
                },
                self.selection == old(self).selection,
                self.drag == old(self).drag,
                self.pending == old(self).pending,
                self.runtime_ready == old(self).runtime_ready,
                self.acquiring == old(self).acquiring,
                self.next_run == old(self).next_run,
            decreases self.projects@.len() - i,
        {
            let ghost before = self.projects@;
            let mut proj = self.projects.remove(i);
            proj.visible = present[i];
            self.projects.insert(i, proj);
            assert(self.projects@ =~= before.update(i as int, proj));
            i = i + 1;
        }
        proof {
            lemma_wf_rearranged(*old(self), *self, |q: int| q);
        }
    }

    /// The project roots to watch: the non-empty paths, in registry order.
    pub fn watch_paths(&self) -> (r: Vec<String>)
        ensures
            lines(r@) == watched(self.projects@),
    {
        let mut r: Vec<String> = Vec::new();
        let mut i: usize = 0;
        assert(self.projects@.subrange(0, 0) =~= Seq::<Project>::empty());
        assert(lines(r@) =~= Seq::<Seq<char>>::empty());
        while i < self.projects.len()
            invariant
                i <= self.projects@.len(),
                lines(r@) == watched(self.projects@.subrange(0, i as int)),
            decreases self.projects@.len() - i,
        {
            assert(self.projects@.subrange(0, i + 1).drop_last() =~= self.projects@.subrange(0, i as int));
            let path = &self.projects[i].path;
            if path.unicode_len() > 0 {
                let ghost before = r@;
                r.push(path.clone());
                assert(lines(r@) =~= lines(before).push(path@));
            }
            i = i + 1;
        }
        assert(self.projects@.subrange(0, i as int) =~= self.projects@);
        r
    }
}

/// After a move, the selection points at the same project as before:
/// the moved project's selection resolves to the destination, and the
/// task component is kept.
pub proof fn lemma_selection_follows_project(m: Manager, n: Manager, from: int, to: int, p: usize, t: usize)
    requires
        can_move(m, from, to),
        is_moved(m, n, from, to),
        m.selection == Some((p, t)),
        p < m.projects@.len(),
    ensures
        n.selection == Some((moved_index(p as int, from, to) as usize, t)),
        0 <= moved_index(p as int, from, to) < n.projects@.len(),
        n.projects@[moved_index(p as int, from, to)] == m.projects@[p as int],
        p == from ==> n.selection == Some((to as usize, t)),
{
    lemma_move_keeps_identity(m.projects@, from, to, p as int);
}

/// Replacing one task keeps the registry well formed when the new task is
/// idle, keeps the old live execution, or takes a run identifier that was
/// never handed out.
proof fn lemma_wf_replace(m: Manager, n: Manager, p: int, t: int)
    requires
        m.wf(),
        has_task(m, p, t),
        same_but_task(m, n, p, t),
        n.next_run >= m.next_run,
        task_at(n, p, t).name == task_at(m, p, t).name,
        task_at(n, p, t).running ==> (task_at(m, p, t).running && task_at(n, p, t).run == task_at(
            m,
            p,
            t,
        ).run) || (m.next_run <= task_at(n, p, t).run < n.next_run),
    ensures
        n.wf(),
{
    if task_at(m, p, t).running {
        assert(live(m, p, t));
    }
    assert forall|q: int| 0 <= q < n.projects@.len() implies names_distinct(#[trigger] n.projects@[q].tasks@) by {
        if q == p {
            let ts = n.projects@[p].tasks@;
            assert forall|i: int, j: int| 0 <= i < ts.len() && 0 <= j < ts.len() && ts[i].name@ == ts[j].name@ implies i == j by {
                assert(names_distinct(m.projects@[p].tasks@));
                if i != t {
                    lemma_other_task_kept(m, n, p, t, p, i);
                }
                if j != t {
                    lemma_other_task_kept(m, n, p, t, p, j);
                }
            }
        } else {
            assert(n.projects@[q] == m.projects@[q]);
        }
    }
    assert forall|q: int, u: int| #[trigger] live(n, q, u) implies task_at(n, q, u).run < n.next_run by {
        if !(q == p && u == t) {
            lemma_other_task_kept(m, n, p, t, q, u);
            assert(live(m, q, u));
        }
    }
    assert forall|q1: int, u1: int, q2: int, u2: int|
        #[trigger] live(n, q1, u1) && #[trigger] live(n, q2, u2) && task_at(n, q1, u1).run == task_at(n, q2, u2).run
        implies q1 == q2 && u1 == u2 by {
        if !(q1 == p && u1 == t) {
            lemma_other_task_kept(m, n, p, t, q1, u1);
            assert(live(m, q1, u1));
        }
        if !(q2 == p && u2 == t) {
            lemma_other_task_kept(m, n, p, t, q2, u2);
            assert(live(m, q2, u2));
        }
    }
}

proof fn lemma_other_task_kept(m: Manager, n: Manager, p: int, t: int, q: int, u: int)
    requires
        has_task(m, p, t),
        same_but_task(m, n, p, t),
        !(q == p && u == t),
    ensures
        has_task(n, q, u) == has_task(m, q, u),
        has_task(m, q, u) ==> task_at(n, q, u) == task_at(m, q, u),
{
    if 0 <= q < m.projects@.len() && q != p {
        assert(n.projects@[q] == m.projects@[q]);
    }
}

/// A registry whose projects are those of a well-formed one, in another
/// arrangement given by `back`, is well formed.
proof fn lemma_wf_rearranged(m: Manager, n: Manager, back: spec_fn(int) -> int)
    requires
        m.wf(),
        n.next_run == m.next_run,
        forall|q: int| 0 <= q < n.projects@.len() ==> 0 <= #[trigger] back(q) < m.projects@.len()
            && n.projects@[q].tasks == m.projects@[back(q)].tasks,
        forall|q1: int, q2: int|
            0 <= q1 < n.projects@.len() && 0 <= q2 < n.projects@.len() && #[trigger] back(q1) == #[trigger] back(q2)
                ==> q1 == q2,
    ensures
        n.wf(),
{
    assert forall|q: int| 0 <= q < n.projects@.len() implies names_distinct(#[trigger] n.projects@[q].tasks@) by {
        assert(names_distinct(m.projects@[back(q)].tasks@));
    }
    assert forall|q: int, u: int| #[trigger] live(n, q, u) implies task_at(n, q, u).run < n.next_run by {
        assert(live(m, back(q), u));
    }
    assert forall|q1: int, u1: int, q2: int, u2: int|
        #[trigger] live(n, q1, u1) && #[trigger] live(n, q2, u2) && task_at(n, q1, u1).run == task_at(n, q2, u2).run
        implies q1 == q2 && u1 == u2 by {
        assert(live(m, back(q1), u1));
        assert(live(m, back(q2), u2));
    }
}

/// Once a run is stopped no task holds it any more, so a completion that
/// arrives for it afterwards finds nothing to update.
pub proof fn lemma_stopped_run_is_gone(m: Manager, n: Manager, p: int, t: int)
    requires
        m.wf(),
        live(m, p, t),
        same_but_task(m, n, p, t),
        !task_at(n, p, t).running,
    ensures
        forall|q: int, u: int| !is_live_run(n, q, u, task_at(m, p, t).run),
{
    assert forall|q: int, u: int| !is_live_run(n, q, u, task_at(m, p, t).run) by {
        if is_live_run(n, q, u, task_at(m, p, t).run) {
            assert(live(m, q, u));
        }
    }
}

/// Appending a project with no live execution keeps the registry well
/// formed.
proof fn lemma_wf_appended(m: Manager, n: Manager)
    requires
        m.wf(),
        n.next_run == m.next_run,
        n.projects@.len() == m.projects@.len() + 1,
        n.projects@.subrange(0, m.projects@.len() as int) == m.projects@,
        forall|u: int| 0 <= u < n.projects@[m.projects@.len() as int].tasks@.len()
            ==> !(#[trigger] n.projects@[m.projects@.len() as int].tasks@[u]).running,
        names_distinct(n.projects@[m.projects@.len() as int].tasks@),
    ensures
        n.wf(),
{
    let len = m.projects@.len() as int;
    assert forall|q: int| 0 <= q < len implies #[trigger] n.projects@[q] == m.projects@[q] by {
        assert(n.projects@.subrange(0, len)[q] == n.projects@[q]);
    }
    assert forall|q: int, u: int| #[trigger] live(n, q, u) implies task_at(n, q, u).run < n.next_run by {
        assert(live(m, q, u));
    }
    assert forall|q1: int, u1: int, q2: int, u2: int|
        #[trigger] live(n, q1, u1) && #[trigger] live(n, q2, u2) && task_at(n, q1, u1).run == task_at(n, q2, u2).run
        implies q1 == q2 && u1 == u2 by {
        assert(live(m, q1, u1));
        assert(live(m, q2, u2));
    }
}

/// Reconciling one project against distinct script names keeps the
/// registry well formed: every live task after it is a live task from
/// before it, and distinct names come from distinct tasks.
proof fn lemma_wf_reconciled(m: Manager, n: Manager, p: int, names: Seq<String>)
    requires
        m.wf(),
        0 <= p < m.projects@.len(),
        n.next_run == m.next_run,
        n.projects@.len() == m.projects@.len(),
        forall|q: int| 0 <= q < m.projects@.len() && q != p ==> n.projects@[q] == m.projects@[q],
        n.projects@[p].tasks@.len() == names.len(),
        forall|i: int| 0 <= i < names.len() ==> is_reconciled(m.projects@[p].tasks@, names[i]@, #[trigger] n.projects@[p].tasks@[i]),
        lines(names).no_duplicates(),
    ensures
        n.wf(),
{
    let prior = m.projects@[p].tasks@;
    assert forall|q: int| 0 <= q < n.projects@.len() implies names_distinct(#[trigger] n.projects@[q].tasks@) by {
        if q == p {
            let ts = n.projects@[p].tasks@;
            assert forall|i: int, j: int| 0 <= i < ts.len() && 0 <= j < ts.len() && ts[i].name@ == ts[j].name@ implies i == j by {
                assert(is_reconciled(prior, names[i]@, ts[i]));
                assert(is_reconciled(prior, names[j]@, ts[j]));
                lemma_index_of_range(prior, names[i]@);
                lemma_index_of_range(prior, names[j]@);
                assert(lines(names)[i] == names[i]@);
                assert(lines(names)[j] == names[j]@);
            }
        } else {
            assert(n.projects@[q] == m.projects@[q]);
        }
    }
    assert forall|u: int| #[trigger] live(n, p, u) implies ({
        let k = index_of(prior, names[u]@);
        &&& 0 <= k < prior.len()
        &&& live(m, p, k)
        &&& task_at(n, p, u).run == task_at(m, p, k).run
        &&& prior[k].name@ == names[u]@
    }) by {
        lemma_index_of_range(prior, names[u]@);
        assert(is_reconciled(prior, names[u]@, n.projects@[p].tasks@[u]));
    }
    assert forall|q: int, u: int| #[trigger] live(n, q, u) implies task_at(n, q, u).run < n.next_run by {
        if q == p {
            assert(live(n, p, u));
        } else {
            assert(live(m, q, u));
        }
    }
    assert forall|q1: int, u1: int, q2: int, u2: int|
        #[trigger] live(n, q1, u1) && #[trigger] live(n, q2, u2) && task_at(n, q1, u1).run == task_at(n, q2, u2).run
        implies q1 == q2 && u1 == u2 by {
        if q1 == p && q2 == p {
            let k1 = index_of(prior, names[u1]@);
            let k2 = index_of(prior, names[u2]@);
            assert(live(m, p, k1));
            assert(live(m, p, k2));
            assert(lines(names)[u1] == names[u1]@);
            assert(lines(names)[u2] == names[u2]@);
        } else if q1 == p {
            assert(live(m, p, index_of(prior, names[u1]@)));
            assert(live(m, q2, u2));
        } else if q2 == p {
            assert(live(m, p, index_of(prior, names[u2]@)));
            assert(live(m, q1, u1));
        } else {
            assert(live(m, q1, u1));
            assert(live(m, q2, u2));
        }
    }
}

/// A task launched while the runtime is at hand and then completed by
/// its invocation ends with this log: the starting line, the install
/// phase's lines, the run phase's lines, and a terminal status line that
/// reports the run phase's outcome.
pub proof fn lemma_launch_to_completion_log(
    m0: Manager,
    m1: Manager,
    m2: Manager,
    p: int,
    t: int,
    run: u64,
    s0: Invocation,
    s1: Invocation,
    s2: Invocation,
    install: PhaseOutcome,
    run_outcome: PhaseOutcome,
)
    requires
        has_task(m0, p, t),
        launched(m0, m1, p, t, run),
        s0.phase is Install,
        install_transition(s0, install, s1),
        run_transition(s1, run_outcome, s2),
        completed(m1, m2, p, t, s2.success, s2.log@),
    ensures
        task_at(m2, p, t).name == task_at(m0, p, t).name,
        !task_at(m2, p, t).running,
        task_at(m2, p, t).failed == !phase_succeeded(run_outcome),
        lines(task_at(m2, p, t).log@) == seq![starting_line(task_at(m0, p, t).name@)] + phase_lines(install)
            + phase_lines(run_outcome) + seq![status_line(task_at(m0, p, t).name@, phase_succeeded(run_outcome))],
{
    let a = seq![starting_line(task_at(m0, p, t).name@)];
    let b = phase_lines(install);
    let c = phase_lines(run_outcome);
    assert(a + (b + c) =~= a + b + c);
}

} // verus!

use vstd::prelude::*;
use crate::registry::{spawn_error_line, spawn_error_line_of};

verus! {

/// What one phase's process produced.
#[derive(Debug, Clone, PartialEq, Eq)]
pub enum PhaseOutcome {
    /// The process could not be spawned; `error` says why.
    SpawnFailed { error: String },
    /// The process ran to its end; both streams were drained line by line.
    Exited { success: bool, stdout: Vec<String>, stderr: Vec<String> },
}

/// Where an invocation stands. `Completed` is absorbing.
#[derive(Debug, Clone, PartialEq, Eq)]
pub enum Phase {
    Idle,
    Install,
    Run,
    Completed,
}

/// What the caller has to do next for an invocation.
#[derive(Debug, Clone, PartialEq, Eq)]
pub enum Step {
    /// Spawn `<runtime> install` in the project directory.
    SpawnInstall,
    /// Spawn `<runtime> run <task>` in the project directory.
    SpawnRun,
    /// The invocation is over: `success` and `log` are final.
    Finished,
    /// The event does not apply in the current phase; nothing changed.
    Ignored,
}

/// One invocation of a task: an install phase followed by a run phase.
#[derive(Debug, Clone, PartialEq, Eq)]
pub struct Invocation {
    pub phase: Phase,
    pub success: bool,
    pub log: Vec<String>,
}

/// The text of each line of a log.
pub open spec fn lines(v: Seq<String>) -> Seq<Seq<char>> {
    v.map_values(|s: String| s@)
}

/// The lines a phase contributes to the invocation's log: its standard
/// output, then its standard error; or one error line when it never started.
pub open spec fn phase_lines(o: PhaseOutcome) -> Seq<Seq<char>> {
    match o {
        PhaseOutcome::SpawnFailed { error } => seq![spawn_error_line(error@)],
        PhaseOutcome::Exited { success, stdout, stderr } => lines(stdout@) + lines(stderr@),
    }
}

pub open spec fn phase_succeeded(o: PhaseOutcome) -> bool {
    match o {
        PhaseOutcome::SpawnFailed { .. } => false,
        PhaseOutcome::Exited { success, .. } => success,
    }
}

pub open spec fn begin_transition(s: Invocation, t: Invocation) -> bool {
    if s.phase is Idle {
        &&& t.phase is Install
        &&& t.log@.len() == 0
        &&& !t.success
    } else {
        t == s
    }
}

pub open spec fn install_transition(s: Invocation, o: PhaseOutcome, t: Invocation) -> bool {
    if s.phase is Install {
        &&& t.phase is Run
        &&& lines(t.log@) == phase_lines(o)
        &&& !t.success
    } else {
        t == s
    }
}

pub open spec fn run_transition(s: Invocation, o: PhaseOutcome, t: Invocation) -> bool {
    if s.phase is Run {
        &&& t.phase is Completed
        &&& lines(t.log@) == lines(s.log@) + phase_lines(o)
        &&& t.success == phase_succeeded(o)
    } else {
        t == s
    }
}

pub proof fn lemma_lines_concat(a: Seq<String>, b: Seq<String>)
    ensures
        lines(a + b) == lines(a) + lines(b),
{
    assert(lines(a + b) =~= lines(a) + lines(b));
}

/// Moves the lines of a phase into `log`.
fn append_phase(log: &mut Vec<String>, o: PhaseOutcome)
    ensures
        lines(final(log)@) == lines(old(log)@) + phase_lines(o),
{
    match o {
        PhaseOutcome::SpawnFailed { error } => {
            let line = spawn_error_line_of(error.as_str());
            let ghost before = log@;
            log.push(line);
            assert(lines(log@) =~= lines(before) + seq![spawn_error_line(error@)]);
        },
        PhaseOutcome::Exited { success, stdout, stderr } => {
            let ghost before = log@;
            let ghost out = stdout@;
            let ghost err = stderr@;
            let mut stdout = stdout;
            let mut stderr = stderr;
            log.append(&mut stdout);
            log.append(&mut stderr);
            proof {
                lemma_lines_concat(before, out);
                lemma_lines_concat(before + out, err);
                lemma_lines_concat(out, err);
                assert(before + out + err =~= log@);
            }
        },
    }
}

fn outcome_succeeded(o: &PhaseOutcome) -> (r: bool)
    ensures
        r == phase_succeeded(*o),
{
    match o {
        PhaseOutcome::SpawnFailed { .. } => false,
        PhaseOutcome::Exited { success, .. } => *success,
    }
}

impl Invocation {
    /// An invocation that has not started.
    pub fn new() -> (r: Invocation)
        ensures
            r.phase is Idle,
            r.log@.len() == 0,
            !r.success,
    {
        Invocation { phase: Phase::Idle, success: false, log: Vec::new() }
    }

    /// Starts the install phase of an idle invocation.
    pub fn begin(&mut self) -> (r: Step)
        ensures
            begin_transition(*old(self), *final(self)),
            old(self).phase is Idle ==> r is SpawnInstall,
            !(old(self).phase is Idle) ==> r is Ignored,
    {
        match self.phase {
            Phase::Idle => {
                self.phase = Phase::Install;
                self.success = false;
                self.log = Vec::new();
                Step::SpawnInstall
            },
            _ => Step::Ignored,
        }
    }

    /// Records the install phase's outcome. Whatever it was, the run phase
    /// comes next: dependency install is best effort.
    pub fn install_finished(&mut self, o: PhaseOutcome) -> (r: Step)
        ensures
            install_transition(*old(self), o, *final(self)),
            old(self).phase is Install ==> r is SpawnRun,
            !(old(self).phase is Install) ==> r is Ignored,
    {
        match self.phase {
            Phase::Install => {
                let mut log: Vec<String> = Vec::new();
                append_phase(&mut log, o);
                assert(lines(Seq::<String>::empty()) =~= Seq::<Seq<char>>::empty());
                assert(Seq::<Seq<char>>::empty() + phase_lines(o) =~= phase_lines(o));
                self.log = log;
                self.phase = Phase::Run;
                self.success = false;
                Step::SpawnRun
            },
            _ => Step::Ignored,
        }
    }

    /// Records the run phase's outcome, which alone decides success.
    pub fn run_finished(&mut self, o: PhaseOutcome) -> (r: Step)
        ensures
            run_transition(*old(self), o, *final(self)),
            old(self).phase is Run ==> r is Finished,
            !(old(self).phase is Run) ==> r is Ignored,
    {
        match self.phase {
            Phase::Run => {
                let ok = outcome_succeeded(&o);
                append_phase(&mut self.log, o);
                self.success = ok;
                self.phase = Phase::Completed;
                Step::Finished
            },
            _ => Step::Ignored,
        }
    }
}

/// The log of a completed invocation is the install phase's standard output,
/// then its standard error, then the run phase's standard output, then its
/// standard error, whether or not the install succeeded.
pub proof fn lemma_log_order(
    s0: Invocation,
    s1: Invocation,
    s2: Invocation,
    install_ok: bool,
    install_out: Vec<String>,
    install_err: Vec<String>,
    run_ok: bool,
    run_out: Vec<String>,
    run_err: Vec<String>,
)
    requires
        s0.phase is Install,
        install_transition(
            s0,
            (PhaseOutcome::Exited { success: install_ok, stdout: install_out, stderr: install_err }),
            s1,
        ),
        run_transition(
            s1,
            (PhaseOutcome::Exited { success: run_ok, stdout: run_out, stderr: run_err }),
            s2,
        ),
    ensures
        s2.phase is Completed,
        lines(s2.log@) == lines(install_out@) + lines(install_err@) + lines(run_out@) + lines(
            run_err@,
        ),
{
    let a = lines(install_out@);
    let b = lines(install_err@);
    let c = lines(run_out@);
    let d = lines(run_err@);
    assert(a + b + (c + d) =~= a + b + c + d);
}

/// A failed install never keeps the run phase from running, and the
/// invocation's success is the run phase's alone.
pub proof fn lemma_run_phase_decides(
    s0: Invocation,
    s1: Invocation,
    s2: Invocation,
    install: PhaseOutcome,
    run: PhaseOutcome,
)
    requires
        s0.phase is Install,
        install_transition(s0, install, s1),
        run_transition(s1, run, s2),
    ensures
        s1.phase is Run,
        s2.phase is Completed,
        s2.success == phase_succeeded(run),
        lines(s2.log@) == phase_lines(install) + phase_lines(run),
{
}

} // verus!

use bob::executor::{Invocation, Phase, PhaseOutcome, Step};
use bob::manifest::{reconcile_tasks, ManifestFields};
use bob::registry::{decimal_of, manifest_dir, new_project_name_of, status_line_of, Project, Task};
use bob::reorder::{remap_after_move, remap_after_remove};
use bob::supervisor::{Manager, StartOutcome};
use bob::watch::paths_missing_from;

fn s(x: &str) -> String {
    x.to_string()
}

fn lines(xs: &[&str]) -> Vec<String> {
    xs.iter().map(|x| x.to_string()).collect()
}

fn task(name: &str, running: bool, log: &[&str]) -> Task {
    Task { name: s(name), running, failed: false, log: lines(log), run: 0 }
}

fn project(name: &str, path: &str, tasks: Vec<Task>) -> Project {
    Project { name: s(name), path: s(path), tasks, visible: true }
}

fn manager_with(projects: Vec<Project>) -> Manager {
    let mut m = Manager::new(true);
    m.projects = projects;
    m
}

fn exited(success: bool, out: &[&str], err: &[&str]) -> PhaseOutcome {
    PhaseOutcome::Exited { success, stdout: lines(out), stderr: lines(err) }
}

#[test]
fn start_while_running_changes_nothing() {
    let mut m = manager_with(vec![project("p", "/p", vec![task("build", false, &["x"])])]);
    let first = m.start(0, 0);
    assert!(matches!(first, StartOutcome::Launch { run: 0, .. }));
    let before = m.clone();
    assert_eq!(m.start(0, 0), StartOutcome::AlreadyRunning);
    assert_eq!(m, before);
}

#[test]
fn stop_while_idle_changes_nothing() {
    let mut m = manager_with(vec![project("p", "/p", vec![task("build", false, &["x"])])]);
    let before = m.clone();
    assert_eq!(m.stop(0, 0), None);
    assert_eq!(m, before);
    assert_eq!(m.stop(3, 0), None);
    assert_eq!(m, before);
}

#[test]
fn log_is_install_then_run_streams() {
    let mut inv = Invocation::new();
    assert_eq!(inv.begin(), Step::SpawnInstall);
    assert_eq!(inv.install_finished(exited(false, &["i1", "i2"], &["ie"])), Step::SpawnRun);
    assert_eq!(inv.run_finished(exited(true, &["r1"], &["re1", "re2"])), Step::Finished);
    assert_eq!(inv.phase, Phase::Completed);
    assert!(inv.success);
    assert_eq!(inv.log, lines(&["i1", "i2", "ie", "r1", "re1", "re2"]));
}

#[test]
fn install_failure_does_not_decide_outcome() {
    let mut inv = Invocation::new();
    inv.begin();
    let spawn_failed = PhaseOutcome::SpawnFailed { error: s("not found") };
    assert_eq!(inv.install_finished(spawn_failed), Step::SpawnRun);
    assert_eq!(inv.run_finished(exited(false, &["out"], &[])), Step::Finished);
    assert!(!inv.success);
    assert_eq!(inv.log, lines(&["[ERROR] Failed to start: not found", "out"]));
}

#[test]
fn completed_invocation_is_absorbing() {
    let mut inv = Invocation::new();
    assert_eq!(inv.install_finished(exited(true, &["a"], &[])), Step::Ignored);
    inv.begin();
    assert_eq!(inv.begin(), Step::Ignored);
    inv.install_finished(exited(true, &[], &[]));
    inv.run_finished(PhaseOutcome::SpawnFailed { error: s("denied") });
    let done = inv.clone();
    assert_eq!(inv.run_finished(exited(true, &["late"], &[])), Step::Ignored);
    assert_eq!(inv, done);
    assert!(!inv.success);
    assert_eq!(inv.log, lines(&["[ERROR] Failed to start: denied"]));
}

#[test]
fn reorder_remaps_positions() {
    assert_eq!(remap_after_move(1, 1, 4), 4);
    assert_eq!(remap_after_move(2, 1, 4), 1);
    assert_eq!(remap_after_move(4, 1, 4), 3);
    assert_eq!(remap_after_move(5, 1, 4), 5);
    assert_eq!(remap_after_move(0, 1, 4), 0);
    assert_eq!(remap_after_move(4, 4, 1), 1);
    assert_eq!(remap_after_move(1, 4, 1), 2);
    assert_eq!(remap_after_move(3, 4, 1), 4);
    assert_eq!(remap_after_move(0, 4, 1), 0);
    assert_eq!(remap_after_remove(2, 2), None);
    assert_eq!(remap_after_remove(3, 2), Some(2));
    assert_eq!(remap_after_remove(1, 2), Some(1));
}

#[test]
fn move_project_keeps_selection_on_its_project() {
    let mut m = manager_with(vec![
        project("a", "/a", vec![]),
        project("b", "/b", vec![task("t", false, &[])]),
        project("c", "/c", vec![]),
    ]);
    m.select(1, 0);
    m.drag_start(0);
    assert!(m.hover(2));
    let names: Vec<String> = m.projects.iter().map(|p| p.name.clone()).collect();
    assert_eq!(names, lines(&["b", "c", "a"]));
    assert_eq!(m.selection, Some((0, 0)));
    assert_eq!(m.drag, Some(2));
    assert!(!m.hover(2));
    m.drag_end();
    assert!(!m.hover(0));
    assert_eq!(m.projects[0].name, "b");
}

#[test]
fn remove_project_with_running_task_is_rejected() {
    let mut m = manager_with(vec![
        project("a", "/a", vec![task("t", false, &[])]),
        project("b", "/b", vec![task("u", false, &[])]),
    ]);
    m.start(0, 0);
    let before = m.clone();
    assert!(!m.remove_project(0));
    assert_eq!(m, before);
    assert!(!m.remove_project(7));
    assert_eq!(m, before);
}

#[test]
fn remove_project_shifts_references() {
    let mut m = manager_with(vec![
        project("a", "/a", vec![]),
        project("b", "/b", vec![]),
        project("c", "/c", vec![task("t", false, &[])]),
    ]);
    m.select(2, 0);
    m.drag_start(1);
    assert!(m.remove_project(1));
    assert_eq!(m.projects.len(), 2);
    assert_eq!(m.selection, Some((1, 0)));
    assert_eq!(m.drag, None);
    assert!(m.remove_project(1));
    assert_eq!(m.selection, None);
}

#[test]
fn reconcile_keeps_state_and_drops_missing() {
    let mut build = task("build", true, &["x"]);
    build.run = 9;
    let prior = vec![build, task("lint", false, &["y"])];
    let (tasks, dropped) = reconcile_tasks(&prior, &lines(&["build", "test"]));
    assert_eq!(tasks.len(), 2);
    assert_eq!(tasks[0].name, "build");
    assert!(tasks[0].running);
    assert_eq!(tasks[0].run, 9);
    assert_eq!(tasks[0].log, lines(&["x"]));
    assert_eq!(tasks[1].name, "test");
    assert!(!tasks[1].running);
    assert_eq!(tasks[1].log, lines(&["[INFO] Task 'test' ready"]));
    assert!(dropped.is_empty());
}

#[test]
fn reconcile_reports_dropped_running_tasks() {
    let mut serve = task("serve", true, &[]);
    serve.run = 4;
    let prior = vec![serve, task("lint", false, &[])];
    let (tasks, dropped) = reconcile_tasks(&prior, &lines(&["lint"]));
    assert_eq!(tasks.len(), 1);
    assert_eq!(dropped, vec![4u64]);
}

#[test]
fn start_with_runtime_then_complete() {
    let mut m = manager_with(vec![project("p", "/work/p", vec![task("build", false, &["old"])])]);
    let launched = m.start(0, 0);
    assert_eq!(
        launched,
        StartOutcome::Launch { run: 0, path: s("/work/p"), task: s("build") }
    );
    assert_eq!(m.projects[0].tasks[0].log, lines(&["[INFO] Starting task 'build'..."]));
    assert_eq!(m.next_run, 1);
    let mut inv = Invocation::new();
    inv.begin();
    inv.install_finished(exited(true, &["installed"], &[]));
    inv.run_finished(exited(true, &["built"], &[]));
    assert_eq!(m.complete(0, inv.success, inv.log.clone()), Some((0, 0)));
    let t = &m.projects[0].tasks[0];
    assert!(!t.running);
    assert!(!t.failed);
    assert_eq!(
        t.log,
        lines(&[
            "[INFO] Starting task 'build'...",
            "installed",
            "built",
            "[INFO] Task 'build' completed successfully",
        ])
    );
}

#[test]
fn failed_run_marks_task_failed() {
    let mut m = manager_with(vec![project("p", "/p", vec![task("test", false, &[])])]);
    m.start(0, 0);
    m.complete(0, false, lines(&["boom"]));
    let t = &m.projects[0].tasks[0];
    assert!(t.failed);
    assert!(t.log.last().unwrap().contains("failed"));
    m.start(0, 0);
    assert!(!m.projects[0].tasks[0].failed);
}

#[test]
fn stop_then_late_completion_is_ignored() {
    let mut m = manager_with(vec![project("p", "/p", vec![task("serve", false, &[])])]);
    m.start(0, 0);
    assert_eq!(m.stop(0, 0), Some(0));
    let t = &m.projects[0].tasks[0];
    assert!(!t.running);
    assert_eq!(
        t.log,
        lines(&["[INFO] Starting task 'serve'...", "[INFO] Task 'serve' stopped"])
    );
    let before = m.clone();
    assert_eq!(m.complete(0, true, lines(&["late"])), None);
    assert_eq!(m, before);
}

#[test]
fn missing_runtime_defers_one_start() {
    let mut m = Manager::new(false);
    m.projects = vec![project("p", "/p", vec![task("a", false, &[]), task("b", false, &[])])];
    assert_eq!(m.start(0, 0), StartOutcome::Acquire);
    assert!(m.acquiring);
    assert_eq!(m.pending, Some((0, 0)));
    let before = m.clone();
    assert_eq!(m.start(0, 1), StartOutcome::Dropped);
    assert_eq!(m, before);
    assert_eq!(m.runtime_acquired(true), Some((0, 0)));
    assert!(m.runtime_ready);
    assert!(!m.acquiring);
    assert!(matches!(m.start(0, 0), StartOutcome::Launch { .. }));
}

#[test]
fn failed_acquisition_logs_on_deferred_task() {
    let mut m = Manager::new(false);
    m.projects = vec![project("p", "/p", vec![task("a", false, &["x"])])];
    m.start(0, 0);
    assert_eq!(m.runtime_acquired(false), None);
    assert!(!m.runtime_ready);
    assert!(!m.projects[0].tasks[0].running);
    assert_eq!(
        m.projects[0].tasks[0].log,
        lines(&["x", "[ERROR] Could not acquire the script runtime"])
    );
}

#[test]
fn exhausted_run_identifiers() {
    let mut m = manager_with(vec![project("p", "/p", vec![task("a", false, &[])])]);
    m.next_run = u64::MAX;
    let before = m.clone();
    assert_eq!(m.start(0, 0), StartOutcome::Exhausted);
    assert_eq!(m, before);
    assert_eq!(m.start(1, 0), StartOutcome::NoSuchTask);
}

#[test]
fn manifest_dir_of_paths() {
    assert_eq!(manifest_dir("/home/u/proj/package.json"), Some(s("/home/u/proj")));
    assert_eq!(manifest_dir("/package.json"), Some(s("/")));
    assert_eq!(manifest_dir("a//package.json"), Some(s("a")));
    assert_eq!(manifest_dir("/home/u/proj/"), None);
    assert_eq!(manifest_dir("package.json"), Some(s("")));
    assert_eq!(manifest_dir("/home/u/proj/package.json.bak"), None);
    assert_eq!(manifest_dir("/home/u/proj/other.json"), None);
}

#[test]
fn import_reads_name_and_script_keys() {
    let mut m = Manager::new(true);
    let text = "{\"name\":\"demo\",\"scripts\":{\"test\":\"t\",\"build\":\"b\"}}";
    assert!(m.import_manifest("/w/demo/package.json", text));
    let p = &m.projects[0];
    assert_eq!(p.name, "demo");
    let mut names: Vec<String> = p.tasks.iter().map(|t| t.name.clone()).collect();
    names.sort();
    assert_eq!(names, lines(&["build", "test"]));
    assert!(m.import_manifest("/w/bare/package.json", "{\"version\":1,\"name\":7}"));
    assert_eq!(m.projects[1].name, "Unknown Project");
    assert!(m.projects[1].tasks.is_empty());
}

#[test]
fn apply_manifest_without_scripts_only_shows_project() {
    let mut m = manager_with(vec![project("a", "/a", vec![task("build", false, &["x"])])]);
    m.projects[0].visible = false;
    let dropped = m.apply_manifest(&s("/a"), ManifestFields { name: None, scripts: None });
    assert!(dropped.is_empty());
    assert!(m.projects[0].visible);
    assert_eq!(m.projects[0].tasks[0].log, lines(&["x"]));
}

#[test]
fn import_manifest_adds_project() {
    let mut m = Manager::new(true);
    assert!(m.import_manifest("/x/app/package.json", "{\"scripts\":{\"dev\":\"vite\"}}"));
    let p = &m.projects[0];
    assert_eq!(p.name, "Unknown Project");
    assert_eq!(p.path, "/x/app");
    assert!(p.visible);
    assert_eq!(p.tasks.len(), 1);
    assert_eq!(p.tasks[0].name, "dev");
    assert_eq!(p.tasks[0].log, lines(&["[INFO] Task 'dev' ready"]));
    assert!(!m.import_manifest("/x/app/readme.md", "{}"));
    assert!(!m.import_manifest("/x/app/package.json", "{"));
    assert_eq!(m.projects.len(), 1);
}

#[test]
fn manifest_change_reconciles_matching_project() {
    let mut m = manager_with(vec![
        project("a", "/a", vec![task("build", false, &["x"])]),
        project("b", "/b", vec![task("build", false, &["y"])]),
    ]);
    m.projects[1].visible = false;
    let dropped = m.manifest_changed("/b/package.json", "{\"scripts\":{\"build\":\"b\",\"test\":\"t\"}}");
    assert!(dropped.is_empty());
    assert_eq!(m.projects[0].tasks.len(), 1);
    let b = &m.projects[1];
    assert!(b.visible);
    assert_eq!(b.tasks.len(), 2);
    assert_eq!(b.tasks[0].log, lines(&["y"]));
    let before = m.clone();
    m.manifest_changed("/b/package.json", "{ broken");
    assert_eq!(m, before);
    m.manifest_changed("/c/package.json", "{\"scripts\":{}}");
    assert_eq!(m, before);
}

#[test]
fn create_project_selects_its_task() {
    let mut m = Manager::new(true);
    assert_eq!(m.create_project(), 0);
    assert_eq!(m.projects[0].name, "New Project 1");
    let p = &m.projects[0];
    assert_eq!(p.path, "");
    assert!(!p.visible);
    assert_eq!(p.tasks[0].name, "Task 1");
    assert_eq!(p.tasks[0].log, lines(&["[INFO] Task created"]));
    assert_eq!(m.selection, Some((0, 0)));
}

#[test]
fn watch_paths_skip_unlinked_projects() {
    let m = manager_with(vec![project("a", "/a", vec![]), project("n", "", vec![]), project("c", "/c", vec![])]);
    assert_eq!(m.watch_paths(), lines(&["/a", "/c"]));
}

#[test]
fn visibility_follows_manifest_presence() {
    let mut m = manager_with(vec![project("a", "/a", vec![]), project("b", "/b", vec![]), project("c", "/c", vec![])]);
    m.refresh_visibility(&vec![false, true]);
    assert!(!m.projects[0].visible);
    assert!(m.projects[1].visible);
    assert!(m.projects[2].visible);
}

#[test]
fn status_line_texts() {
    assert_eq!(status_line_of("x", true), "[INFO] Task 'x' completed successfully");
    assert_eq!(status_line_of("x", false), "[INFO] Task 'x' failed");
}

#[test]
fn restore_clears_live_state_and_repeated_names() {
    let mut live = task("build", true, &["x"]);
    live.run = 5;
    live.failed = true;
    let stored = vec![project("a", "/a", vec![live, task("test", false, &[]), task("build", false, &["dup"])])];
    let m = Manager::restore(false, stored);
    let tasks = &m.projects[0].tasks;
    assert_eq!(tasks.len(), 2);
    assert_eq!(tasks[0].name, "build");
    assert!(!tasks[0].running);
    assert!(tasks[0].failed);
    assert_eq!(tasks[0].run, 0);
    assert_eq!(tasks[0].log, lines(&["x"]));
    assert_eq!(tasks[1].name, "test");
    assert_eq!(m.next_run, 0);
    assert!(!m.runtime_ready);
    assert_eq!(m.projects[0].path, "/a");
}

#[test]
fn watch_set_differences() {
    let watched = lines(&["/a", "/b"]);
    let wanted = lines(&["/b", "/c", "/d"]);
    assert_eq!(paths_missing_from(&wanted, &watched), lines(&["/c", "/d"]));
    assert_eq!(paths_missing_from(&watched, &wanted), lines(&["/a"]));
    assert!(paths_missing_from(&wanted, &wanted).is_empty());
}

#[test]
fn root_manifest_is_rooted_at_root() {
    let mut m = Manager::new(true);
    assert!(m.import_manifest("/package.json", "{\"name\":\"top\"}"));
    assert_eq!(m.projects[0].path, "/");
    assert_eq!(m.watch_paths(), lines(&["/"]));
}

#[test]
fn new_projects_are_numbered() {
    assert_eq!(decimal_of(0), "0");
    assert_eq!(decimal_of(7), "7");
    assert_eq!(decimal_of(120), "120");
    assert_eq!(new_project_name_of(12), "New Project 12");
    let mut m = Manager::new(true);
    m.create_project();
    assert_eq!(m.create_project(), 1);
    assert_eq!(m.projects[1].name, "New Project 2");
    assert_eq!(m.selection, Some((1, 0)));
}

use vstd::prelude::*;

verus! {

/// File name of a project's manifest.
pub const MANIFEST_NAME: &'static str = "package.json";

/// One runnable script of a project, with its execution and log state.
///
/// `running` together with `run` is the live execution handle of the task:
/// while `running` holds, `run` identifies the one invocation in flight.
#[derive(Debug, Clone, PartialEq, Eq)]
pub struct Task {
    pub name: String,
    pub running: bool,
    pub failed: bool,
    pub log: Vec<String>,
    pub run: u64,
}

/// A project: a directory holding a manifest, and the tasks read from it.
#[derive(Debug, Clone, PartialEq, Eq)]
pub struct Project {
    pub name: String,
    pub path: String,
    pub tasks: Vec<Task>,
    pub visible: bool,
}

pub open spec fn starting_line(name: Seq<char>) -> Seq<char> {
    "[INFO] Starting task '"@ + name + "'..."@
}

pub open spec fn stopped_line(name: Seq<char>) -> Seq<char> {
    "[INFO] Task '"@ + name + "' stopped"@
}

pub open spec fn ready_line(name: Seq<char>) -> Seq<char> {
    "[INFO] Task '"@ + name + "' ready"@
}

pub open spec fn status_line(name: Seq<char>, success: bool) -> Seq<char> {
    "[INFO] Task '"@ + name + if success {
        "' completed successfully"@
    } else {
        "' failed"@
    }
}

pub open spec fn spawn_error_line(error: Seq<char>) -> Seq<char> {
    "[ERROR] Failed to start: "@ + error
}

pub open spec fn created_line() -> Seq<char> {
    "[INFO] Task created"@
}

pub open spec fn acquire_failed_line() -> Seq<char> {
    "[ERROR] Could not acquire the script runtime"@
}

/// Log line recorded when a task is started.
pub fn starting_line_of(name: &str) -> (r: String)
    ensures
        r@ == starting_line(name@),
{
    String::from_str("[INFO] Starting task '").concat(name).concat("'...")
}

/// Log line recorded when a task is stopped.
pub fn stopped_line_of(name: &str) -> (r: String)
    ensures
        r@ == stopped_line(name@),
{
    String::from_str("[INFO] Task '").concat(name).concat("' stopped")
}

/// Log line of a task freshly read from a manifest.
pub fn ready_line_of(name: &str) -> (r: String)
    ensures
        r@ == ready_line(name@),
{
    String::from_str("[INFO] Task '").concat(name).concat("' ready")
}

/// Terminal log line of an invocation.
pub fn status_line_of(name: &str, success: bool) -> (r: String)
    ensures
        r@ == status_line(name@, success),
{
    let head = String::from_str("[INFO] Task '").concat(name);
    if success {
        head.concat("' completed successfully")
    } else {
        head.concat("' failed")
    }
}

/// Log line recording that a process could not be spawned.
pub fn spawn_error_line_of(error: &str) -> (r: String)
    ensures
        r@ == spawn_error_line(error@),
{
    String::from_str("[ERROR] Failed to start: ").concat(error)
}

/// A copy of a log, line for line.
pub fn copy_lines(v: &Vec<String>) -> (r: Vec<String>)
    ensures
        r@ == v@,
{
    let mut r: Vec<String> = Vec::new();
    let mut i: usize = 0;
    while i < v.len()
        invariant
            i <= v@.len(),
            r@ == v@.subrange(0, i as int),
        decreases v@.len() - i,
    {
        r.push(v[i].clone());
        i = i + 1;
    }
    assert(r@ =~= v@);
    r
}

/// The final component of a path, as std's `Path::file_name` gives it,
/// when that is text.
pub uninterp spec fn path_file_name(path: Seq<char>) -> Option<Seq<char>>;

/// A path without its final component, as std's `Path::parent` gives it.
pub uninterp spec fn path_parent(path: Seq<char>) -> Option<Seq<char>>;

/// Relies on std's `Path::file_name` for the final component of `path`,
/// converted to text by `OsStr::to_str`.
#[verifier::external_body]
fn file_name_of(path: &str) -> (r: Option<String>)
    ensures
        match r {
            Some(n) => path_file_name(path@) == Some(n@),
            None => path_file_name(path@) is None,
        },
{
    match std::path::Path::new(path).file_name() {
        Some(n) => n.to_str().map(String::from),
        None => None,
    }
}

/// Relies on std's `Path::parent` for `path` without its final component,
/// converted to text by `Path::to_str`.
#[verifier::external_body]
fn parent_of(path: &str) -> (r: Option<String>)
    ensures
        match r {
            Some(d) => path_parent(path@) == Some(d@),
            None => path_parent(path@) is None,
        },
{
    match std::path::Path::new(path).parent() {
        Some(d) => d.to_str().map(String::from),
        None => None,
    }
}

/// The directory of `path` when its file name is the manifest's, else
/// `None`. A manifest path without a parent gives the empty directory.
pub open spec fn manifest_dir_spec(path: Seq<char>) -> Option<Seq<char>> {
    if path_file_name(path) == Some(MANIFEST_NAME@) {
        match path_parent(path) {
            Some(d) => Some(d),
            None => Some(Seq::<char>::empty()),
        }
    } else {
        None
    }
}

/// The directory a manifest path points into, when the path names a
/// manifest file; `None` for any other file.
pub fn manifest_dir(path: &str) -> (r: Option<String>)
    ensures
        r matches Some(d) ==> manifest_dir_spec(path@) == Some(d@),
        r is None <==> manifest_dir_spec(path@) is None,
{
    let is_manifest = match file_name_of(path) {
        Some(n) => n == String::from_str(MANIFEST_NAME),
        None => false,
    };
    if !is_manifest {
        return None;
    }
    match parent_of(path) {
        Some(d) => Some(d),
        None => Some(String::new()),
    }
}

/// The decimal digit `d`.
pub open spec fn digit(d: nat) -> Seq<char> {
    if d == 0 {
        seq!['0']
    } else if d == 1 {
        seq!['1']
    } else if d == 2 {
        seq!['2']
    } else if d == 3 {
        seq!['3']
    } else if d == 4 {
        seq!['4']
    } else if d == 5 {
        seq!['5']
    } else if d == 6 {
        seq!['6']
    } else if d == 7 {
        seq!['7']
    } else if d == 8 {
        seq!['8']
    } else {
        seq!['9']
    }
}

/// `n` written in decimal, without leading zeros.
pub open spec fn decimal(n: nat) -> Seq<char>
    decreases n,
{
    if n < 10 {
        digit(n)
    } else {
        decimal(n / 10) + digit(n % 10)
    }
}

fn digit_text(d: u128) -> (r: &'static str)
    requires
        d < 10,
    ensures
        r@ == digit(d as nat),
{
    if d == 0 {
        proof { reveal_strlit("0"); }
        "0"
    } else if d == 1 {
        proof { reveal_strlit("1"); }
        "1"
    } else if d == 2 {
        proof { reveal_strlit("2"); }
        "2"
    } else if d == 3 {
        proof { reveal_strlit("3"); }
        "3"
    } else if d == 4 {
        proof { reveal_strlit("4"); }
        "4"
    } else if d == 5 {
        proof { reveal_strlit("5"); }
        "5"
    } else if d == 6 {
        proof { reveal_strlit("6"); }
        "6"
    } else if d == 7 {
        proof { reveal_strlit("7"); }
        "7"
    } else if d == 8 {
        proof { reveal_strlit("8"); }
        "8"
    } else {
        proof { reveal_strlit("9"); }
        "9"
    }
}

/// `n` written in decimal.
pub fn decimal_of(n: u128) -> (r: String)
    ensures
        r@ == decimal(n as nat),
    decreases n,
{
    if n < 10 {
        String::from_str(digit_text(n))
    } else {
        decimal_of(n / 10).concat(digit_text(n % 10))
    }
}

pub open spec fn new_project_name(number: nat) -> Seq<char> {
    "New Project "@ + decimal(number)
}

/// Name of a newly created project: "New Project " and its number.
pub fn new_project_name_of(number: u128) -> (r: String)
    ensures
        r@ == new_project_name(number as nat),
{
    String::from_str("New Project ").concat(decimal_of(number).as_str())
}

} // verus!

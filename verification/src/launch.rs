//! The app launcher: build the platform shell command that opens an entry
//! of the base directory, and interpret the outcome of spawning it.

use crate::error::AppError;
use vstd::prelude::*;

verus! {

/// The path of an entry inside the base directory: the directory path, a
/// doubled backslash, then the entry name.
pub open spec fn joined_path(base: Seq<char>, name: Seq<char>) -> Seq<char> {
    base + seq!['\\', '\\'] + name
}

/// Joins the base directory path and an entry name into the target path
/// handed to the command interpreter.
pub fn join_path(base: &str, name: &str) -> (r: String)
    ensures
        r@ == joined_path(base@, name@),
{
    proof {
        reveal_strlit("\\\\");
        assert("\\\\"@ =~= seq!['\\', '\\']);
    }
    let mut r = String::from_str(base);
    r.append("\\\\");
    r.append(name);
    r
}

/// The shell invocation that opens an entry: a program and its arguments,
/// ready to be spawned by the surrounding application.
pub struct LaunchCommand {
    pub program: String,
    pub args: Vec<String>,
}

/// Builds the command that opens `entry_name` inside `base_dir` as if it
/// were double-clicked: the command interpreter is asked to `start` the
/// joined path, delegating file-type association to the operating system.
///
/// The entry name is not checked against the directory's contents: callers
/// are trusted to pass a name previously obtained from the lister, and a
/// name that is not present is still handed to the interpreter, whose own
/// outcome then reports the failure.
pub fn launch_command(base_dir: &str, entry_name: &str) -> (c: LaunchCommand)
    ensures
        c.program@ == "cmd"@,
        c.args@.len() == 4,
        c.args@[0]@ == "/C"@,
        c.args@[1]@ == "start"@,
        c.args@[2]@ == Seq::<char>::empty(),
        c.args@[3]@ == joined_path(base_dir@, entry_name@),
{
    let program = String::from_str("cmd");
    let mut args: Vec<String> = Vec::new();
    args.push(String::from_str("/C"));
    args.push(String::from_str("start"));
    args.push(String::new());
    args.push(join_path(base_dir, entry_name));
    LaunchCommand { program, args }
}

/// What spawning the launch command came to, as the surrounding
/// application observed it.
pub enum SpawnOutcome {
    /// The command interpreter ran to completion; its exit code, when the
    /// platform reports one, and its captured output.
    Spawned { exit_code: Option<i32>, stdout: Vec<u8>, stderr: Vec<u8> },
    /// The command interpreter itself could not be started; the payload is
    /// the reported reason.
    SpawnFailed(String),
}

/// The captured outcome of a completed launch: the interpreter's exit
/// code, when the platform reports one, and its raw output. A non-zero
/// exit status is not an error: it is only recorded here.
pub struct LaunchResult {
    pub exit_code: Option<i32>,
    pub stdout: Vec<u8>,
    pub stderr: Vec<u8>,
}

/// Turns the observed spawn outcome into the launcher's result: a run of
/// the interpreter is a success whatever its exit status, and only a failure
/// to start it at all is an error, of kind `ProcessSpawnError`.
pub fn launch_outcome(spawn: SpawnOutcome) -> (r: Result<LaunchResult, AppError>)
    ensures
        match spawn {
            SpawnOutcome::Spawned { exit_code, stdout, stderr } => (r matches Ok(lr)
                && lr.exit_code == exit_code && lr.stdout == stdout && lr.stderr == stderr),
            SpawnOutcome::SpawnFailed(m) => r == Err::<LaunchResult, AppError>(
                AppError::ProcessSpawnError(m),
            ),
        },
{
    match spawn {
        SpawnOutcome::Spawned { exit_code, stdout, stderr } => Ok(
            LaunchResult { exit_code, stdout, stderr },
        ),
        SpawnOutcome::SpawnFailed(m) => Err(AppError::ProcessSpawnError(m)),
    }
}

} // verus!

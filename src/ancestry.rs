//! Finding the terminal emulator that hosts this process: its parent is the shell, and
//! the shell's parent is the terminal.
use vstd::prelude::*;

verus! {

#[verifier::external_type_specification]
#[verifier::external_body]
pub struct ExProcess(procfs::process::Process);

/// Why the hosting terminal could not be found.
#[derive(Debug, Clone, Copy, PartialEq, Eq, Structural)]
pub enum AncestryError {
    /// The process table entry of the shell could not be read.
    Unreadable,
    /// A link of the chain is missing: the process has no live parent there.
    MissingLink,
}

/// A parent link that names a live process other than the system reaper (pid 1) or no process (pid 0).
pub open spec fn is_link(pid: i32) -> bool {
    pid > 1
}

/// The hosting terminal, given the shell's pid and what the process table gave as the shell's parent.
pub open spec fn terminal_spec(shell: i32, shell_parent: Option<i32>) -> Result<i32, AncestryError> {
    if !is_link(shell) {
        Err(AncestryError::MissingLink)
    } else {
        match shell_parent {
            None => Err(AncestryError::Unreadable),
            Some(t) => if is_link(t) {
                Ok(t)
            } else {
                Err(AncestryError::MissingLink)
            },
        }
    }
}

/// Relies on nix::unistd::getppid: the pid of this process's parent; the call always succeeds.
#[verifier::external_body]
fn parent_pid() -> (r: i32) {
    nix::unistd::getppid().as_raw()
}

/// Relies on procfs::process::Process::new: a handle on /proc/<pid>, or nothing when that
/// directory cannot be opened.
#[verifier::external_body]
fn open_process(pid: i32) -> (r: Option<procfs::process::Process>) {
    match procfs::process::Process::new(pid) {
        Ok(p) => Some(p),
        Err(_) => None,
    }
}

/// Relies on procfs::process::Process::stat: the `ppid` field of the process's stat file,
/// or nothing when the file cannot be read or parsed.
#[verifier::external_body]
fn parent_of(p: &procfs::process::Process) -> (r: Option<i32>) {
    match p.stat() {
        Ok(s) => Some(s.ppid),
        Err(_) => None,
    }
}

/// The hosting terminal from the shell's pid and the shell's parent as read from the process table.
pub fn terminal_from(shell: i32, shell_parent: Option<i32>) -> (r: Result<i32, AncestryError>)
    ensures
        r == terminal_spec(shell, shell_parent),
{
    if shell <= 1 {
        return Err(AncestryError::MissingLink);
    }
    match shell_parent {
        None => Err(AncestryError::Unreadable),
        Some(t) => if t > 1 {
            Ok(t)
        } else {
            Err(AncestryError::MissingLink)
        },
    }
}

/// Walks two hops up the process table from this process: to the shell, then to the
/// terminal emulator that hosts it.
pub fn resolve_hosting_terminal() -> (r: Result<i32, AncestryError>)
    ensures
        r matches Ok(t) ==> is_link(t),
{
    let shell = parent_pid();
    if shell <= 1 {
        return Err(AncestryError::MissingLink);
    }
    let shell_parent = match open_process(shell) {
        Some(p) => parent_of(&p),
        None => None,
    };
    terminal_from(shell, shell_parent)
}

} // verus!

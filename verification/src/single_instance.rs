//! What becomes of a start while another renderer runs.

use vstd::prelude::*;
use vstd::string::*;

use crate::number;
use crate::number::decimal;

verus! {

/// What came of locking the file that a running renderer holds.
#[derive(Debug)]
pub enum LockAttempt {
    Locked,
    /// Another process holds the lock.
    Contended,
    /// The directory could not be created, for the reason given.
    NoDirectory(String),
    /// The file could not be opened, for the reason given.
    NotOpened(String),
    /// The file could not be locked, for the reason given.
    Failed(String),
}

/// What is said of a step that failed.
pub open spec fn complaint(step: Seq<char>, path: Seq<char>, reason: Seq<char>) -> Seq<char> {
    "cannot "@ + step + " "@ + path + ": "@ + reason
}

fn complain(step: &str, path: &str, reason: &str) -> (r: String)
    ensures
        r@ == complaint(step@, path@, reason@),
{
    let mut s = "cannot ".to_owned();
    s.append(step);
    s.append(" ");
    s.append(path);
    s.append(": ");
    s.append(reason);
    s
}

/// Is the renderer the owner of the lock at `path` in the directory `dir`, or does another hold it?
pub fn lock_outcome(attempt: LockAttempt, dir: &str, path: &str) -> (r: Result<bool, String>)
    ensures
        match attempt {
            LockAttempt::Locked => r == Ok::<bool, String>(true),
            LockAttempt::Contended => r == Ok::<bool, String>(false),
            LockAttempt::NoDirectory(e) => r matches Err(m) && m@ == complaint(
                "create"@,
                dir@,
                e@,
            ),
            LockAttempt::NotOpened(e) => r matches Err(m) && m@ == complaint("open"@, path@, e@),
            LockAttempt::Failed(e) => r matches Err(m) && m@ == complaint("lock"@, path@, e@),
        },
{
    match attempt {
        LockAttempt::Locked => Ok(true),
        LockAttempt::Contended => Ok(false),
        LockAttempt::NoDirectory(e) => Err(complain("create", dir, e.as_str())),
        LockAttempt::NotOpened(e) => Err(complain("open", path, e.as_str())),
        LockAttempt::Failed(e) => Err(complain("lock", path, e.as_str())),
    }
}

/// What the owner writes into the locked file.
pub fn owner_line(pid: u32) -> (r: String)
    ensures
        r@ == "pid="@ + number::decimal_of(pid as nat) + "\n"@,
{
    let mut s = "pid=".to_owned();
    s.append(decimal(pid as u64).as_str());
    s.append("\n");
    s
}

} // verus!

//! Numbers shared by user programs and the kernel: identifiers and the
//! system-call numbers of the trap interface.
use vstd::prelude::*;

verus! {

/// Thread identifiers are signed so that negative values can report errors.
pub type ThreadID = isize;

/// Mutex identifiers are small integers scoped to a process.
pub type MutexID = usize;

pub const SYS_SLEEP: usize = 3;

pub const SYS_JOIN: usize = 4;

pub const SYS_MUTEX_CREATE: usize = 14;

pub const SYS_MUTEX_DESTROY: usize = 15;

pub const SYS_MUTEX_LOCK: usize = 16;

pub const SYS_MUTEX_UNLOCK: usize = 17;

pub const SYS_CREATE_THREAD: usize = 62;

pub const SYS_READ: usize = 63;

pub const SYS_WRITE: usize = 64;

pub const SYS_EXIT: usize = 93;

/// Descriptor of the standard input stream.
pub const STDIN: usize = 0;

/// Descriptor of the standard output stream.
pub const STDOUT: usize = 1;

} // verus!

//! The user side of the trap interface: the register values with which a
//! user program asks for each system call.
use vstd::prelude::*;
use crate::abi::{
    ThreadID, SYS_CREATE_THREAD, SYS_EXIT, SYS_MUTEX_CREATE, SYS_MUTEX_DESTROY, SYS_MUTEX_LOCK,
    SYS_MUTEX_UNLOCK, SYS_READ, SYS_SLEEP, SYS_WRITE, SYS_JOIN,
};
use crate::context::{Context, REG_A0, REG_A7};

verus! {

/// A system call as a user program issues it: the identifier for `a7` and
/// the arguments for `a0` to `a3`.
#[derive(Clone, Copy, Debug)]
pub struct SyscallRequest {
    pub id: usize,
    pub args: [usize; 4],
}

/// Builds the request for system call `id` with four arguments.
pub fn syscall(id: usize, arg0: usize, arg1: usize, arg2: usize, arg3: usize) -> (r: SyscallRequest)
    ensures
        r.id == id,
        r.args@ == seq![arg0, arg1, arg2, arg3],
{
    let r = SyscallRequest { id, args: [arg0, arg1, arg2, arg3] };
    assert(r.args@ =~= seq![arg0, arg1, arg2, arg3]);
    r
}

impl SyscallRequest {
    /// The registers of `ctx` with this request loaded, as the trapping
    /// instruction hands them to the kernel.
    pub fn load(&self, ctx: Context) -> (c: Context)
        ensures
            c.x@[REG_A7 as int] == self.id,
            forall|i: int| 0 <= i < 4 ==> c.x@[REG_A0 + i] == self.args@[i],
            c.sepc == ctx.sepc,
            c.sstatus == ctx.sstatus,
    {
        let mut c = ctx;
        c.x[REG_A7] = self.id;
        c.x[REG_A0] = self.args[0];
        c.x[REG_A0 + 1] = self.args[1];
        c.x[REG_A0 + 2] = self.args[2];
        c.x[REG_A0 + 3] = self.args[3];
        c
    }
}

/// Reads up to `len` bytes from descriptor `fd` into the buffer at `buffer`.
pub fn sys_read(fd: usize, buffer: usize, len: usize) -> (r: SyscallRequest)
    ensures
        r.id == SYS_READ,
        r.args@ == seq![fd, buffer, len, 0usize],
{
    syscall(SYS_READ, fd, buffer, len, 0)
}

/// What a reading program does next.
pub enum ReadNext {
    /// Issue this read again.
    Again(SyscallRequest),
    /// The read is over with this many bytes.
    Done(isize),
}

/// The step after a read of `len` bytes from descriptor `fd` into `buffer`
/// returned `ret`: reads are issued again until at least one byte arrives.
pub fn sys_read_next(fd: usize, buffer: usize, len: usize, ret: isize) -> (r: ReadNext)
    ensures
        ret > 0 ==> r == ReadNext::Done(ret),
        ret <= 0 ==> r is Again && r->Again_0.id == SYS_READ && r->Again_0.args@ == seq![
            fd,
            buffer,
            len,
            0usize,
        ],
{
    if ret > 0 {
        ReadNext::Done(ret)
    } else {
        ReadNext::Again(sys_read(fd, buffer, len))
    }
}

/// Writes `len` bytes from the buffer at `buffer` to descriptor `fd`.
pub fn sys_write(fd: usize, buffer: usize, len: usize) -> (r: SyscallRequest)
    ensures
        r.id == SYS_WRITE,
        r.args@ == seq![fd, buffer, len, 0usize],
{
    syscall(SYS_WRITE, fd, buffer, len, 0)
}

/// Ends the calling thread with `code`.
pub fn sys_exit(code: isize) -> (r: SyscallRequest)
    ensures
        r.id == SYS_EXIT,
        r.args@ == seq![code as usize, 0usize, 0usize, 0usize],
{
    syscall(SYS_EXIT, code as usize, 0, 0, 0)
}

/// Ends the calling thread with code zero.
pub fn sys_exit0() -> (r: SyscallRequest)
    ensures
        r.id == SYS_EXIT,
        r.args@ == seq![0usize, 0usize, 0usize, 0usize],
{
    sys_exit(0)
}

/// Starts a thread at `entry` with argument `arg`, returning to `exit_fn`
/// when its function returns; its identifier goes to the word at `thread_id`.
pub fn create_thread(thread_id: usize, entry: usize, exit_fn: usize, arg: usize) -> (r:
    SyscallRequest)
    ensures
        r.id == SYS_CREATE_THREAD,
        r.args@ == seq![thread_id, entry, exit_fn, arg],
{
    syscall(SYS_CREATE_THREAD, thread_id, entry, exit_fn, arg)
}

/// Sleeps for `sec` seconds.
pub fn sleep(sec: u64) -> (r: SyscallRequest)
    ensures
        r.id == SYS_SLEEP,
        r.args@ == seq![sec as usize, 0usize, 0usize, 0usize],
{
    syscall(SYS_SLEEP, sec as usize, 0, 0, 0)
}

/// Waits until thread `tid` ends.
pub fn join(tid: ThreadID) -> (r: SyscallRequest)
    ensures
        r.id == SYS_JOIN,
        r.args@ == seq![tid as usize, 0usize, 0usize, 0usize],
{
    syscall(SYS_JOIN, tid as usize, 0, 0, 0)
}

/// Creates a mutex whose identifier goes to the word at `out`.
pub fn mutex_create(out: usize) -> (r: SyscallRequest)
    ensures
        r.id == SYS_MUTEX_CREATE,
        r.args@ == seq![out, 0usize, 0usize, 0usize],
{
    syscall(SYS_MUTEX_CREATE, out, 0, 0, 0)
}

/// Takes mutex `id`, blocking while another thread holds it.
pub fn mutex_lock(id: usize) -> (r: SyscallRequest)
    ensures
        r.id == SYS_MUTEX_LOCK,
        r.args@ == seq![id, 0usize, 0usize, 0usize],
{
    syscall(SYS_MUTEX_LOCK, id, 0, 0, 0)
}

/// Releases mutex `id`.
pub fn mutex_unlock(id: usize) -> (r: SyscallRequest)
    ensures
        r.id == SYS_MUTEX_UNLOCK,
        r.args@ == seq![id, 0usize, 0usize, 0usize],
{
    syscall(SYS_MUTEX_UNLOCK, id, 0, 0, 0)
}

/// Removes mutex `id`.
pub fn mutex_destroy(id: usize) -> (r: SyscallRequest)
    ensures
        r.id == SYS_MUTEX_DESTROY,
        r.args@ == seq![id, 0usize, 0usize, 0usize],
{
    syscall(SYS_MUTEX_DESTROY, id, 0, 0, 0)
}

} // verus!

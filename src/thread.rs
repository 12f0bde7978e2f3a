//! Threads and their lifecycle state.
use vstd::prelude::*;
use crate::abi::ThreadID;
use crate::condvar::Condvar;
use crate::context::Context;
use crate::memory::Range;

verus! {

/// Lifecycle state of a thread.
#[derive(Clone, Copy, PartialEq, Eq, Structural, Debug)]
pub enum ThreadState {
    Runnable,
    Sleeping,
    Dead,
}

/// The mutable part of a thread.
pub struct ThreadInner {
    /// The saved registers: present exactly when the thread is not the one executing.
    pub context: Option<Context>,
    pub state: ThreadState,
}

/// A unit of execution. Threads are identified, and compared, by `id`.
pub struct Thread {
    pub id: ThreadID,
    /// The thread's own stack.
    pub stack: Range,
    /// Index of the owning process in the kernel's process table.
    pub process: usize,
    pub inner: ThreadInner,
    /// Threads waiting for this one to end.
    pub join_handle: Condvar,
}

/// `th` with its state replaced by `s`.
pub open spec fn with_state(th: Thread, s: ThreadState) -> Thread {
    Thread { inner: ThreadInner { state: s, ..th.inner }, ..th }
}

/// `th` with its saved context replaced by `c`.
pub open spec fn with_context(th: Thread, c: Option<Context>) -> Thread {
    Thread { inner: ThreadInner { context: c, ..th.inner }, ..th }
}

impl Thread {
    /// The record of a runnable thread that will start from `context`, with
    /// nobody joining it.
    pub fn from_parts(id: ThreadID, process: usize, stack: Range, context: Context) -> (t: Thread)
        ensures
            t.id == id,
            t.process == process,
            t.stack == stack,
            t.inner.context == Some(context),
            t.inner.state == ThreadState::Runnable,
            t.join_handle@ == Seq::<ThreadID>::empty(),
    {
        Thread {
            id,
            stack,
            process,
            inner: ThreadInner { context: Some(context), state: ThreadState::Runnable },
            join_handle: Condvar::new(),
        }
    }

    /// Saves the registers of a thread that stops executing.
    pub fn park(&mut self, context: Context)
        requires
            old(self).inner.context is None,
        ensures
            *final(self) == with_context(*old(self), Some(context)),
    {
        self.inner.context = Some(context);
    }

    /// Takes out the saved registers of a thread that is about to execute.
    pub fn prepare(&mut self) -> (c: Context)
        requires
            old(self).inner.context is Some,
        ensures
            old(self).inner.context == Some(c),
            *final(self) == with_context(*old(self), None),
    {
        let c = self.inner.context.unwrap();
        self.inner.context = None;
        c
    }

    /// Two threads are the same thread when their identifiers are equal.
    pub fn same_thread(&self, other: &Thread) -> (r: bool)
        ensures
            r == (self.id == other.id),
    {
        self.id == other.id
    }
}

} // verus!

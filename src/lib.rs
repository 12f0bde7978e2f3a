//! A single-core teaching kernel's concurrency core: threads, the processor's
//! scheduling state machine, blocking mutexes, condition variables, the alarm
//! clock and the system-call trap protocol, all over plain data.

pub mod abi;
pub mod context;
pub mod memory;
pub mod arena;
pub mod thread;
pub mod scheduler;
pub mod processor;
pub mod condvar;
pub mod mutex;
pub mod alarm;
pub mod table;
pub mod process;
pub mod kernel;
pub mod syscall;
pub mod user;
pub mod bitmap;
pub mod vga;

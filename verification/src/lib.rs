//! Process-level resource accounting and deadlock avoidance for the blocking
//! synchronization primitives (mutexes, counting semaphores, condition
//! variables) shared by the threads of one process.
//!
//! The crate keeps, per process, a shadow of which thread holds or awaits
//! which resource, and decides — before the caller delegates to the actual
//! blocking primitive — whether a lock or down request may proceed.  The
//! decision uses a Banker's-algorithm safety analysis over the accounting
//! tables.  The primitives themselves (queueing, wakeup, suspension) are
//! external collaborators: the syscall functions here only update the
//! accounting and report, through their result code, whether the caller
//! should go on to invoke the primitive.

pub mod process;
pub mod resource;
pub mod safety;
pub mod sync;
pub mod task;

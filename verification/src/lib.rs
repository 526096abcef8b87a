//! Runtime substrate for a single-core microcontroller without an operating
//! system: interrupt-safe queues and buffers, a fixed-arena allocator,
//! deferred work lanes, software timers and a round-robin task scheduler,
//! with the services that a radio's protocol stack builds on them.
//!
//! Every structure is an explicitly owned value. Nothing here touches the
//! hardware: a caller that shares a structure between interrupt and task
//! context wraps each call in a critical section, and reads the clock and
//! the registers itself.
//!
//! - [`compat::queue`]: the bounded ring queue behind every hand-over.
//! - [`compat::circbuf`]: the byte-oriented circular buffer.
//! - [`compat::malloc`]: the fixed-arena allocator.
//! - [`compat::work_queue`]: the two lanes of deferred work.
//! - [`timers`]: the emulated timers.
//! - [`preemt`]: the preemptive task scheduler.
//! - [`compat::bl602`]: the interrupt-enable flag and the interrupt table.
//! - [`os_adapter`]: semaphores, the mutex and message queues.
//! - [`compat::common`], [`compat::format`]: text buffers and formatting.
//! - [`ble`], [`wifi`]: the host side of the two radio links.

pub mod ble;
pub mod compat;
pub mod os_adapter;
pub mod preemt;
pub mod timers;
pub mod wifi;

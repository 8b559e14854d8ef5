//! Building blocks of a firmware that shares memory with bus masters which
//! do not see the CPU's cache: a firmware coprocessor behind a mailbox, and a
//! DMA engine.
//!
//! Nothing here touches a register, a cache or a barrier.  Each module
//! decides what is to be done, on plain values: which steps a cache
//! operation takes, what an exchange over the mailbox asks for next, where
//! memory is allocated, which control blocks and register writes arm a DMA
//! channel.  Doing it is left to the caller.
//!
//! - [`cache`]: invalidating and cleaning regions, line by line.
//! - [`mbox`]: messages, their properties, and the exchange with the
//!   firmware.
//! - [`scalloc`]: allocation by bumping a cursor through uncached memory.
//! - [`vcalloc`]: allocation by asking the firmware.
//! - [`dma`]: rings of control blocks that send a buffer to a peripheral
//!   for good.
//! - [`hdmi`]: the audio frames that such a buffer holds.

pub mod cache;
pub mod dma;
pub mod hdmi;
pub mod mbox;
pub mod scalloc;
pub mod vcalloc;

//! A minimal multi-client broadcast relay core: any text one peer sends is
//! rebroadcast to every other connected peer, carried in fixed-size frames.
//!
//! This crate holds the verified logic of the relay: the frame codec, the
//! connection registry, the FIFO relay queue, and the per-step decisions of
//! the inbound readers and the broadcast dispatcher.  The surrounding
//! process (sockets, threads, pacing) drives these pieces from outside.

pub mod codec;
pub mod registry;
pub mod relay;
pub mod server;

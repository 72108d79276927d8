//! Bits of the status byte (STB).
use vstd::prelude::*;

verus! {

/// There are errors in the queue.
pub const ERROR_QUEUE: u8 = 2;

/// An answer is waiting to be read.
pub const MESSAGE_AVAILABLE: u8 = 4;

/// Summary of the standard event register.
pub const EVENT_SUMMARY: u8 = 5;

/// Master summary: some enabled condition is active.
pub const MASTER_SUMMARY: u8 = 6;

} // verus!

//! Bits of the standard event register (ESR).
use vstd::prelude::*;

verus! {

/// Operation complete, the answer to `*OPC`.
pub const OPC: u8 = 0;

/// Query error: an answer was requested that does not exist.
pub const QUERY_ERROR: u8 = 2;

/// Device-specific error.
pub const DEVICE_ERROR: u8 = 3;

/// Execution error: the command was valid but could not be carried out.
pub const EXECUTION_ERROR: u8 = 4;

/// Command error: the message was not understood.
pub const COMMAND_ERROR: u8 = 5;

/// The instrument was powered on since the last read.
pub const POWER_ON: u8 = 7;

} // verus!

//! Message types of the kdb+ IPC protocol.

#![allow(non_upper_case_globals)]

use vstd::prelude::*;

verus! {

/// Sent without waiting for an answer.
pub const asynchronous: u8 = 0;
/// Sent expecting exactly one response frame.
pub const synchronous: u8 = 1;
/// Answer to a synchronous message.
pub const response: u8 = 2;

} // verus!

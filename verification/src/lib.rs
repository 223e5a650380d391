//! The allocation manager of a TURN relay server, as a state machine without
//! I/O: every operation that starts a timer takes the current time as a plain
//! number of nanoseconds, and hands back what the caller has to release or
//! send.

pub mod addr;
pub mod allocation;
pub mod error;
pub mod proto;
pub mod relay;
pub mod table;

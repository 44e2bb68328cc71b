//! Operator-execution core of a dataflow engine: fan-in completion barriers,
//! fan-out cancellation barriers, and the fire / cancel / close lifecycle of
//! a schedulable operator.

pub mod tag;
pub mod notification;
pub mod port_set;
pub mod table;
pub mod merge;
pub mod notify;
pub mod channel;
pub mod error;
pub mod computation;
pub mod operator;
pub mod protocol;

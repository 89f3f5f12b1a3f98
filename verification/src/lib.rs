//! Conflict analysis of transaction schedules.
//!
//! A schedule is a fixed, ordered log of reads, writes, commits and aborts
//! issued by interleaved transactions. This crate groups a schedule by
//! transaction and lists the pairs of operations that conflict: two accesses
//! to one data item, from different transactions, at least one of them a
//! write.

pub mod conflict;
pub mod grouping;
pub mod ident;
pub mod op;
pub mod pairs;
pub mod render;
pub mod schedule;

pub use conflict::OpPair;
pub use grouping::Transaction;
pub use ident::{Data, TxId};
pub use op::{Op, OpKind};
pub use render::{schedule_report, DisplayOpPairs, OpPairView};
pub use schedule::Schedule;

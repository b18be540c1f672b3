//! Merge operators for a log-structured key-value store.
//!
//! A merge operator combines a stored value with the partial updates that were
//! queued against its key, in the order in which they were written. Three
//! operators are provided: a counter over decimal text, a growable bit vector
//! driven by textual directives, and an editor of structured terms.
//! Every operator is total: malformed input degrades to a documented default.

pub mod bitset;
pub mod codec;
pub mod counter;
pub mod decimal;
pub mod frame;
pub mod operands;
pub mod operation;
pub mod structured;
pub mod term;

pub use crate::bitset::{bitset_merge, clear_bit, set_bit};
pub use crate::counter::counter_merge;
pub use crate::operation::process_eetf_merge_operation;
pub use crate::structured::erlang_merge;

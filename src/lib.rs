//! A paginated, fault-tolerant table scan: pages over a sorted key-value
//! table, a bounded retry policy for page fetches, the per-record transforms
//! of the scan, and the aggregators that fold their results.
pub mod paging;
pub mod retry;
pub mod aggregate;
pub mod depth;
pub mod rlp;
pub mod tx;

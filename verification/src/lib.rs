//! A verified asset-ownership registry.
//!
//! Assets are created with a fresh identifier, owned by exactly one account,
//! and enumerable both globally and per owner through dense position arrays
//! with reverse indices, so that ownership changes stay O(1).  The registry
//! engine applies every operation — mint, transfer, price setting, sale,
//! fee accrual — as an all-or-nothing unit: the first failing precondition
//! aborts the operation with no observable write.

pub mod laws;
pub mod olden;
pub mod registry;
pub mod table;

//! A ledger for capacity-bounded resource pools and status-bearing records,
//! scoped by tenant, together with the amounts derived from them.
pub mod accounts;
pub mod allocator;
pub mod amount;
pub mod enrollment;
pub mod error;
pub mod gate;
pub mod records;
pub mod table;

//! Dynamic-DNS reconciliation: discovers the public IPv4 address, compares it
//! with the A records published for each configured domain, and plans the
//! provider changes that bring the records up to date.

pub mod text;
pub mod error;
pub mod address;
pub mod config;
pub mod records;
pub mod reconcile;

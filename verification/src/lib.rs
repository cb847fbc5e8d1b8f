//! Risk-accounting core of a collateralized lending protocol.
//!
//! The crate tracks, per borrower, a basket of locked collateral across
//! multiple asset types, computes a risk-adjusted borrowing ceiling from
//! externally supplied prices and per-asset loan-to-value ratios, and
//! enforces that no operation ever pushes a borrower's debt above that
//! ceiling.
//!
//! Whitelist, configuration and oracle prices enter every computation as
//! explicit read-only snapshots, so the handlers are pure functions of
//! (current ledger record, whitelist, price snapshot, request): storage,
//! oracle queries and message delivery belong to the hosting layer.

pub mod addr;
pub mod decimal;
pub mod error;
pub mod handlers;
pub mod limit;
pub mod loan;
pub mod snapshot;

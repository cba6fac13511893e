//! A minimal access-licensing ledger.
//!
//! The ledger maps identity strings (wallet addresses in any format) to
//! license expiry instants, counted in nanoseconds since a fixed epoch.
//! A single administrator, fixed at construction, may grant or extend
//! licenses; anyone may query them. An active license is extended on top
//! of its remaining time; an expired or absent one starts counting from
//! the moment of the grant.
//!
//! The caller's identity and the current time are supplied by the
//! surrounding platform on every call, so the ledger itself is a plain
//! value that can be reasoned about in isolation.

pub mod laws;
pub mod ledger;

pub use ledger::LicenseContract;
pub use ledger::LicenseError;
pub use ledger::OldLicenseContract;
pub use ledger::licensed_at;
pub use ledger::next_expiry;

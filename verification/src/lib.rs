//! A dispute-resolution protocol: a pool of judges decides between a
//! requester and a beneficiary through commit-reveal voting, and the
//! protocol settles the outcome by paying winning judges, adjusting
//! reputations, and retaining forfeited shares in a treasury.

pub mod dispute;
pub mod errors;
pub mod hashing;
pub mod judge;
pub mod laws;
pub mod protocol;

pub use errors::ProtocolError;
pub use protocol::ProtocolContract;

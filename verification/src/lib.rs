//! A verified model of a paper-cash ledger: a set of uniquely serialized
//! bills, each owned by one participant, together with the pure transition
//! function that mints, transfers and burns bills under a validation
//! pipeline proved safe against double spending, value creation and replay.

pub mod bill;
pub mod engine;
pub mod laws;
pub mod state;

pub use bill::Bill;
pub use bill::CashTransaction;
pub use bill::User;
pub use engine::DigitalCashSystem;
pub use state::State;

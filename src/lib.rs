//! Ownership, trading and breeding of uniquely identified collectibles.
pub mod dna;
pub mod kitties;
pub mod ledger;
pub mod types;
pub mod vec_map;

pub use kitties::KittyModule;
pub use types::{AccountId, Balance, Dna, Event, Kitty, KittyError, KittyId};

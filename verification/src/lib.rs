//! A registry of projects and of the reviews left on them, one review per
//! account and project, together with a challenge-response protocol that
//! binds an account to the holder of an ECDSA key.

pub mod account;
pub mod challenge;
pub mod crypto;
pub mod laws;
pub mod ledger;
pub mod records;
pub mod registry;
pub mod sorted;
pub mod sorted_map;
pub mod view;

pub use account::AccountId;
pub use records::{AccountType, Error, Project, Review, ReviewKey, VerifyDetails};
pub use registry::Chocolate;

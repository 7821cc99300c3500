//! A small employee/wallet registry: employee identifiers (8 ASCII digits)
//! stored beside a wallet public key, with insertion, ordered listing, and a
//! verification step that compares a submitted wallet key against the stored
//! one by plain string equality.

pub mod api;
pub mod store;
pub mod validation;

//! A deterministic ownership ledger for a registry of unique assets
//! ("kitties"), an escrow-backed marketplace over it, and a parallel
//! content-addressed claim registry, each verified as an atomic state
//! machine over an explicit store.

pub mod assets;
pub mod claims;
pub mod ledger;
pub mod random;

//! A registry of proof records kept in deterministically addressed storage slots.
//!
//! Every submitter owns exactly one slot, found by deriving an address from a
//! namespace tag and the submitter's identity. A submission creates the slot on
//! first use, charging the payer for the bytes it reserves, and afterwards
//! replaces the stored record in place.

pub mod address;
pub mod bytes;
pub mod error;
pub mod layout;
pub mod store;
pub mod submit;

pub use crate::address::{derive_address, SlotAddress};
pub use crate::error::SubmissionError;
pub use crate::layout::{decode, encode, ProofRecord};
pub use crate::store::{Payer, RecordStore};
pub use crate::submit::{submit, submit_proof, SubmitProof, Submitted};

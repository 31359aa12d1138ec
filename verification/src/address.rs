//! Deriving the address of a submitter's slot.
//!
//! The address is found by a deterministic search over the namespace tag, the
//! submitter's identity and the registry's own program id. The search itself
//! is the host platform's; this module fixes its inputs and turns its outcome
//! into an address or a failure.

use vstd::prelude::*;
use crate::error::SubmissionError;

verus! {

/// Bytes in a submitter's identity.
pub const IDENTITY_LEN: usize = 32;

/// The tag under which proof records are addressed: the ASCII bytes of `proof`.
pub const NAMESPACE_TAG: [u8; 5] = [112, 114, 111, 111, 102];

/// The registry's program id, `G9DrkqHZj8LwKdTMtCwP9tdLBLf8ZegkwDWUA47wvZzQ` in base 58.
pub const PROGRAM_ID: [u8; 32] = [
    224, 250, 125, 33, 148, 252, 3, 187, 181, 205, 85, 106, 11, 17, 26, 131,
    144, 203, 139, 209, 249, 111, 71, 7, 211, 239, 80, 236, 153, 3, 237, 41,
];

/// The address of a slot, with the nonce that the derivation settled on.
#[derive(Clone, Copy, Debug, PartialEq, Eq)]
pub struct SlotAddress {
    /// The 32 bytes by which the slot is found.
    pub bytes: [u8; 32],
    /// The nonce that made the derivation succeed.
    pub nonce: u8,
}

/// What the platform's address search returns for a tag, an identity and a
/// program id: the address found and its nonce, or nothing.
pub uninterp spec fn program_address(tag: Seq<u8>, identity: Seq<u8>, program_id: Seq<u8>) -> Option<
    (Seq<u8>, u8),
>;

/// Runs `Pubkey::try_find_program_address` of `anchor_lang` on the seeds
/// `[tag, identity]` and the given program id.
///
/// Trusted: the search is a function of its three inputs alone, so its
/// outcome is named [`program_address`]. Nothing else is claimed of it.
#[verifier::external_body]
fn find_program_address(tag: &[u8], identity: &[u8], program_id: &[u8; 32]) -> (found: Option<
    ([u8; 32], u8),
>)
    ensures
        match found {
            Some((bytes, nonce)) => program_address(tag@, identity@, program_id@) == Some(
                (bytes@, nonce),
            ),
            None => program_address(tag@, identity@, program_id@) is None,
        },
{
    let program = anchor_lang::prelude::Pubkey::new_from_array(*program_id);
    match anchor_lang::prelude::Pubkey::try_find_program_address(&[tag, identity], &program) {
        Some((address, bump)) => Some((address.to_bytes(), bump)),
        None => None,
    }
}

/// The address and nonce derived for `identity` under `tag`, if there is one.
///
/// An identity has an address only if it is [`IDENTITY_LEN`] bytes long and
/// the platform's search finds one for it.
pub open spec fn derived_address(tag: Seq<u8>, identity: Seq<u8>) -> Option<(Seq<u8>, u8)> {
    if identity.len() == IDENTITY_LEN {
        program_address(tag, identity, PROGRAM_ID@)
    } else {
        None
    }
}

/// Whether `result` is what [`derive_address`] returns for `tag` and `identity`.
pub open spec fn is_derivation(
    tag: Seq<u8>,
    identity: Seq<u8>,
    result: Result<SlotAddress, SubmissionError>,
) -> bool {
    match result {
        Ok(address) => derived_address(tag, identity) == Some((address.bytes@, address.nonce)),
        Err(error) => error == SubmissionError::MalformedIdentity && derived_address(
            tag,
            identity,
        ) is None,
    }
}

impl SlotAddress {
    /// Turns the outcome of an address search into an address.
    ///
    /// A search that found nothing means that no address can be derived from
    /// the identity: it is reported as `MalformedIdentity`.
    pub fn from_search(found: Option<([u8; 32], u8)>) -> (result: Result<
        SlotAddress,
        SubmissionError,
    >)
        ensures
            match found {
                Some((bytes, nonce)) => result == Ok::<SlotAddress, SubmissionError>(
                    SlotAddress { bytes, nonce },
                ),
                None => result == Err::<SlotAddress, SubmissionError>(
                    SubmissionError::MalformedIdentity,
                ),
            },
    {
        match found {
            Some((bytes, nonce)) => Ok(SlotAddress { bytes, nonce }),
            None => Err(SubmissionError::MalformedIdentity),
        }
    }
}

/// Derives the address of the slot that belongs to `identity` under `namespace_tag`.
///
/// The result depends on the two arguments alone. It fails with
/// `MalformedIdentity`, before any storage is touched, when the identity is
/// not [`IDENTITY_LEN`] bytes long or no address can be derived from it.
pub fn derive_address(namespace_tag: &[u8], identity: &[u8]) -> (result: Result<
    SlotAddress,
    SubmissionError,
>)
    ensures
        is_derivation(namespace_tag@, identity@, result),
        identity@.len() != IDENTITY_LEN ==> result == Err::<SlotAddress, SubmissionError>(
            SubmissionError::MalformedIdentity,
        ),
{
    if identity.len() != IDENTITY_LEN {
        return Err(SubmissionError::MalformedIdentity);
    }
    SlotAddress::from_search(find_program_address(namespace_tag, identity, &PROGRAM_ID))
}

/// Determinism: whatever two derivations from the same tag and the same
/// identity return, they return the same.
pub proof fn lemma_derivation_is_deterministic(
    tag: Seq<u8>,
    identity: Seq<u8>,
    first: Result<SlotAddress, SubmissionError>,
    second: Result<SlotAddress, SubmissionError>,
)
    requires
        is_derivation(tag, identity, first),
        is_derivation(tag, identity, second),
    ensures
        first == second,
{
    if first is Ok {
        let a = first->Ok_0;
        let b = second->Ok_0;
        assert(a.bytes@ == b.bytes@);
        assert(a.bytes =~= b.bytes);
    }
}

} // verus!

//! Submitting a proof: the registry's one operation.
//!
//! A submission derives the submitter's slot address, opens the slot, creating
//! it at the payer's cost on first use, and replaces the stored record. It is
//! all or nothing: a refused submission leaves every byte of the store and
//! every unit of the payer's funds where it was.

use vstd::prelude::*;
use vstd::slice::slice_to_vec;
use crate::address::{derive_address, derived_address, SlotAddress, NAMESPACE_TAG};
use crate::error::SubmissionError;
use crate::layout::{
    decoded, encoded, lemma_decode_encode, lemma_encoded_fields, RecordView, MAX_PROOF_LEN,
    SLOT_CAPACITY,
};
use crate::store::{
    distinct_addresses, lemma_fresh_slot_holds_the_empty_record,
    lemma_written_record_is_read_back, occupied, opened, opening_refusal, slot_at, written,
    Payer, RecordStore, SlotView,
};

verus! {

/// What the transport layer has established about a call before it reaches
/// the registry: who submits, who pays, and what time it is.
#[derive(Clone, Debug, PartialEq, Eq)]
pub struct SubmitProof {
    /// The authenticated identity whose slot the submission targets.
    pub submitter: Vec<u8>,
    /// The authenticated payer, charged if the slot has to be created.
    pub payer: Payer,
    /// The host's clock at the time of the call, in seconds since the epoch.
    pub now: i64,
}

/// The notice of a successful submission, for whoever audits or logs.
#[derive(Clone, Debug, PartialEq, Eq)]
pub struct Submitted {
    /// The identity that submitted.
    pub submitter: Vec<u8>,
    /// The address of the submitter's slot.
    pub address: SlotAddress,
    /// The handle of the slot in the store.
    pub slot: usize,
    /// Whether this submission created the slot.
    pub created: bool,
}

/// What a submission comes to: the slot written and whether it is new, or the
/// refusal; and the store and the payer's funds afterwards.
pub struct Submission {
    pub result: Result<(int, bool), SubmissionError>,
    pub store: Seq<SlotView>,
    pub funds: int,
}

/// Submitting `record` to the slot under `address`.
///
/// The slot is opened with [`SLOT_CAPACITY`] bytes, then written. What
/// opening refuses is refused; what opening allows and writing refuses is
/// refused too, and then nothing is left of the opening either.
pub open spec fn submitted_at(
    store: Seq<SlotView>,
    address: Seq<u8>,
    payer: Seq<u8>,
    funds: int,
    record: RecordView,
) -> Submission {
    let opening = opened(store, address, payer, funds, SLOT_CAPACITY as nat);
    match opening.slot {
        Err(error) => Submission { result: Err(error), store, funds },
        Ok(handle) => {
            let writing = written(opening.store, handle, record);
            match writing.done {
                Err(error) => Submission { result: Err(error), store, funds },
                Ok(_) => Submission {
                    result: Ok((handle, !occupied(store, address))),
                    store: writing.store,
                    funds: opening.funds,
                },
            }
        },
    }
}

/// Submitting `record` for the identity `submitter`.
///
/// An identity without an address is refused as malformed before the store
/// is looked at; any other is submitted to the slot under its address.
pub open spec fn submitted(
    store: Seq<SlotView>,
    submitter: Seq<u8>,
    payer: Seq<u8>,
    funds: int,
    record: RecordView,
) -> Submission {
    match derived_address(NAMESPACE_TAG@, submitter) {
        None => Submission { result: Err(SubmissionError::MalformedIdentity), store, funds },
        Some((address, _)) => submitted_at(store, address, payer, funds, record),
    }
}

/// Whether the slot `slot` of `store` lies under `address`, has
/// [`SLOT_CAPACITY`] bytes and holds `record`.
pub open spec fn holds(store: Seq<SlotView>, slot: int, address: Seq<u8>, record: RecordView) -> bool {
    &&& 0 <= slot < store.len()
    &&& store[slot].address == address
    &&& store[slot].data.len() == SLOT_CAPACITY
    &&& decoded(store[slot].data) == Some(record)
}

/// An executable outcome as the positions it stands for.
pub open spec fn placed(result: Result<(usize, bool), SubmissionError>) -> Result<
    (int, bool),
    SubmissionError,
> {
    match result {
        Ok((handle, created)) => Ok((handle as int, created)),
        Err(error) => Err(error),
    }
}

/// The address of the slot of `submitter`; meaningful where the identity has one.
pub open spec fn address_of(submitter: Seq<u8>) -> Seq<u8> {
    derived_address(NAMESPACE_TAG@, submitter).unwrap().0
}

/// The outcome that a notice stands for.
pub open spec fn noticed(result: Result<Submitted, SubmissionError>) -> Result<
    (int, bool),
    SubmissionError,
> {
    match result {
        Ok(notice) => Ok((notice.slot as int, notice.created)),
        Err(error) => Err(error),
    }
}

impl RecordStore {
    /// Submits a proof to the slot under `address`: opens the slot, creating
    /// it at the cost of `payer` if it does not exist, and writes a record
    /// made of `proof`, `event_type` and the time `now`.
    ///
    /// Returns the slot's handle and whether the slot was created. Fails with
    /// what [`RecordStore::open_or_create`] fails with; where that would
    /// succeed, fails with `PayloadTooLarge` when the proof is longer than
    /// [`MAX_PROOF_LEN`]. Every check is made before anything is changed.
    pub fn submit_at(
        &mut self,
        address: &SlotAddress,
        payer: &mut Payer,
        proof: &[u8],
        event_type: u8,
        now: i64,
    ) -> (result: Result<(usize, bool), SubmissionError>)
        ensures
            submitted_at(
                old(self)@,
                address.bytes@,
                old(payer).identity@,
                old(payer).funds as int,
                RecordView { proof: proof@, event_type, timestamp: now },
            ) == (Submission {
                result: placed(result),
                store: final(self)@,
                funds: final(payer).funds as int,
            }),
            match result {
                Ok((slot, _)) => holds(
                    final(self)@,
                    slot as int,
                    address.bytes@,
                    RecordView { proof: proof@, event_type, timestamp: now },
                ),
                Err(_) => final(self)@ == old(self)@ && final(payer).funds == old(payer).funds,
            },
            proof@.len() > MAX_PROOF_LEN ==> result is Err,
            final(payer).identity == old(payer).identity,
            distinct_addresses(old(self)@),
            distinct_addresses(final(self)@),
    {
        let created: bool = match self.probe(address, payer.funds, SLOT_CAPACITY) {
            Ok(found) => found.is_none(),
            Err(error) => {
                return Err(error);
            },
        };
        if proof.len() > MAX_PROOF_LEN {
            return Err(SubmissionError::PayloadTooLarge);
        }
        let handle: usize = match self.open_or_create(address, payer, SLOT_CAPACITY) {
            Ok(handle) => handle,
            Err(error) => {
                return Err(error);
            },
        };
        proof {
            lemma_fresh_slot_holds_the_empty_record(SLOT_CAPACITY as nat);
            lemma_written_record_is_read_back(
                self@,
                handle as int,
                RecordView { proof: proof@, event_type, timestamp: now },
            );
        }
        match self.write(handle, proof, event_type, now) {
            Ok(()) => Ok((handle, created)),
            Err(error) => Err(error),
        }
    }
}

/// Submits a proof for `submitter`: derives the address of the submitter's
/// slot under [`NAMESPACE_TAG`], opens the slot, creating it at the cost of
/// `payer` on first use, and replaces the stored record by `proof`,
/// `event_type` and the time `now`.
///
/// On success the notice names the submitter, the slot and its address. The
/// failures, in the order in which they are looked for:
/// `MalformedIdentity` when no address can be derived from the submitter;
/// `AddressMismatch` when foreign storage lies under the address;
/// `StorageAllocationError` when the slot has to be created and the payer's
/// funds are below [`SLOT_CAPACITY`]; `PayloadTooLarge` when the proof is
/// longer than [`MAX_PROOF_LEN`]. A failure changes neither the store nor the
/// payer.
pub fn submit(
    store: &mut RecordStore,
    submitter: &[u8],
    payer: &mut Payer,
    proof: &[u8],
    event_type: u8,
    now: i64,
) -> (result: Result<Submitted, SubmissionError>)
    ensures
        submitted(
            old(store)@,
            submitter@,
            old(payer).identity@,
            old(payer).funds as int,
            RecordView { proof: proof@, event_type, timestamp: now },
        ) == (Submission {
            result: noticed(result),
            store: final(store)@,
            funds: final(payer).funds as int,
        }),
        match result {
            Ok(notice) => {
                &&& notice.submitter@ == submitter@
                &&& derived_address(NAMESPACE_TAG@, submitter@) == Some(
                    (notice.address.bytes@, notice.address.nonce),
                )
                &&& holds(
                    final(store)@,
                    notice.slot as int,
                    notice.address.bytes@,
                    RecordView { proof: proof@, event_type, timestamp: now },
                )
            },
            Err(_) => final(store)@ == old(store)@ && final(payer).funds == old(payer).funds,
        },
        proof@.len() > MAX_PROOF_LEN ==> result is Err,
        final(payer).identity == old(payer).identity,
        distinct_addresses(old(store)@),
        distinct_addresses(final(store)@),
{
    proof {
        use_type_invariant(&*store);
    }
    let address: SlotAddress = match derive_address(NAMESPACE_TAG.as_slice(), submitter) {
        Ok(address) => address,
        Err(error) => {
            return Err(error);
        },
    };
    match store.submit_at(&address, payer, proof, event_type, now) {
        Ok((slot, created)) => Ok(
            Submitted { submitter: slice_to_vec(submitter), address, slot, created },
        ),
        Err(error) => Err(error),
    }
}

/// The registry's entry point: submits `proof` with the classification
/// `event_type` for the submitter, at the cost of the payer and at the time
/// that the context `ctx` carries.
///
/// It is [`submit`] on the context's submitter, payer and clock, and fails as
/// [`submit`] does. Of the context only the payer's funds can change.
pub fn submit_proof(
    store: &mut RecordStore,
    ctx: &mut SubmitProof,
    proof: Vec<u8>,
    event_type: u8,
) -> (result: Result<Submitted, SubmissionError>)
    ensures
        submitted(
            old(store)@,
            old(ctx).submitter@,
            old(ctx).payer.identity@,
            old(ctx).payer.funds as int,
            RecordView { proof: proof@, event_type, timestamp: old(ctx).now },
        ) == (Submission {
            result: noticed(result),
            store: final(store)@,
            funds: final(ctx).payer.funds as int,
        }),
        match result {
            Ok(notice) => {
                &&& notice.submitter@ == old(ctx).submitter@
                &&& derived_address(NAMESPACE_TAG@, old(ctx).submitter@) == Some(
                    (notice.address.bytes@, notice.address.nonce),
                )
                &&& holds(
                    final(store)@,
                    notice.slot as int,
                    notice.address.bytes@,
                    RecordView { proof: proof@, event_type, timestamp: old(ctx).now },
                )
            },
            Err(_) => final(store)@ == old(store)@ && final(ctx).payer.funds == old(
                ctx,
            ).payer.funds,
        },
        proof@.len() > MAX_PROOF_LEN ==> result is Err,
        final(ctx).submitter == old(ctx).submitter,
        final(ctx).payer.identity == old(ctx).payer.identity,
        final(ctx).now == old(ctx).now,
        distinct_addresses(old(store)@),
        distinct_addresses(final(store)@),
{
    let now: i64 = ctx.now;
    submit(store, ctx.submitter.as_slice(), &mut ctx.payer, proof.as_slice(), event_type, now)
}

/// All or nothing: a refused submission leaves the store and the payer's
/// funds exactly as they were.
pub proof fn lemma_refusal_changes_nothing(
    store: Seq<SlotView>,
    submitter: Seq<u8>,
    payer: Seq<u8>,
    funds: int,
    record: RecordView,
)
    requires
        submitted(store, submitter, payer, funds, record).result is Err,
    ensures
        submitted(store, submitter, payer, funds, record).store == store,
        submitted(store, submitter, payer, funds, record).funds == funds,
{
}

/// Atomic rejection: a proof longer than [`MAX_PROOF_LEN`] is refused, and the
/// store, the stored record among it, and the payer's funds stay as they
/// were. The refusal is `PayloadTooLarge` wherever the submitter has an
/// address and nothing stands in the way of opening the slot.
pub proof fn lemma_oversized_proof_is_refused(
    store: Seq<SlotView>,
    submitter: Seq<u8>,
    payer: Seq<u8>,
    funds: int,
    record: RecordView,
)
    requires
        record.proof.len() > MAX_PROOF_LEN,
    ensures
        submitted(store, submitter, payer, funds, record).result is Err,
        submitted(store, submitter, payer, funds, record).store == store,
        submitted(store, submitter, payer, funds, record).funds == funds,
        derived_address(NAMESPACE_TAG@, submitter) is Some && opening_refusal(
            store,
            address_of(submitter),
            funds,
            SLOT_CAPACITY as nat,
        ) is None ==> submitted(store, submitter, payer, funds, record).result == Err::<
            (int, bool),
            SubmissionError,
        >(SubmissionError::PayloadTooLarge),
{
}

/// A successful submission stores the record: the slot it names lies under
/// the submitter's address, has [`SLOT_CAPACITY`] bytes, and decodes to the
/// record submitted.
pub proof fn lemma_submission_stores_the_record(
    store: Seq<SlotView>,
    submitter: Seq<u8>,
    payer: Seq<u8>,
    funds: int,
    record: RecordView,
)
    requires
        distinct_addresses(store),
        submitted(store, submitter, payer, funds, record).result is Ok,
    ensures
        ({
            let after = submitted(store, submitter, payer, funds, record);
            let slot = after.result.unwrap().0;
            holds(after.store, slot, address_of(submitter), record) && record.fits()
        }),
{
    let address = address_of(submitter);
    let opening = opened(store, address, payer, funds, SLOT_CAPACITY as nat);
    let slot = opening.slot.unwrap();
    lemma_encoded_fields(RecordView::empty());
    lemma_encoded_fields(record);
    let data = opening.store[slot].data;
    lemma_decode_encode(record, data.subrange(encoded(record).len() as int, data.len() as int));
}

/// Idempotent re-derivation: a second submission for the same identity is
/// written to the slot that the first was written to. It creates no slot and
/// charges nobody, and no other slot lies under the identity's address.
pub proof fn lemma_resubmission_reuses_the_slot(
    store: Seq<SlotView>,
    submitter: Seq<u8>,
    first_payer: Seq<u8>,
    first_funds: int,
    first_record: RecordView,
    second_payer: Seq<u8>,
    second_funds: int,
    second_record: RecordView,
)
    requires
        distinct_addresses(store),
        submitted(store, submitter, first_payer, first_funds, first_record).result is Ok,
        submitted(
            submitted(store, submitter, first_payer, first_funds, first_record).store,
            submitter,
            second_payer,
            second_funds,
            second_record,
        ).result is Ok,
    ensures
        ({
            let first = submitted(store, submitter, first_payer, first_funds, first_record);
            let second = submitted(
                first.store,
                submitter,
                second_payer,
                second_funds,
                second_record,
            );
            let slot = first.result.unwrap().0;
            &&& second.result == Ok::<(int, bool), SubmissionError>((slot, false))
            &&& second.store.len() == first.store.len()
            &&& second.funds == second_funds
            &&& forall|k: int|
                0 <= k < second.store.len() && (#[trigger] second.store[k]).address == address_of(
                    submitter,
                ) ==> k == slot
        }),
{
    let address = address_of(submitter);
    let first = submitted(store, submitter, first_payer, first_funds, first_record);
    let slot = first.result.unwrap().0;
    lemma_submission_keeps_the_rest(store, submitter, first_payer, first_funds, first_record);
    lemma_submission_stores_the_record(store, submitter, first_payer, first_funds, first_record);
    assert(first.store[slot].address == address);
    assert(occupied(first.store, address));
    assert(slot_at(first.store, address) == slot);
    let second = submitted(first.store, submitter, second_payer, second_funds, second_record);
    lemma_submission_keeps_the_rest(
        first.store,
        submitter,
        second_payer,
        second_funds,
        second_record,
    );
}

/// Independence and fixed capacity: a submission leaves every slot under
/// another address exactly as it was, keeps the address, the payer of record
/// and the capacity of every slot, adds at most one slot, and keeps the
/// addresses of the store distinct.
pub proof fn lemma_submission_keeps_the_rest(
    store: Seq<SlotView>,
    submitter: Seq<u8>,
    payer: Seq<u8>,
    funds: int,
    record: RecordView,
)
    requires
        distinct_addresses(store),
    ensures
        ({
            let after = submitted(store, submitter, payer, funds, record);
            &&& store.len() <= after.store.len() <= store.len() + 1
            &&& distinct_addresses(after.store)
            &&& forall|k: int|
                0 <= k < store.len() ==> {
                    &&& (#[trigger] after.store[k]).address == store[k].address
                    &&& after.store[k].funded_by == store[k].funded_by
                    &&& after.store[k].data.len() == store[k].data.len()
                }
            &&& forall|k: int|
                0 <= k < store.len() && derived_address(NAMESPACE_TAG@, submitter) is Some
                    && store[k].address != address_of(submitter) ==> #[trigger] after.store[k]
                    == store[k]
        }),
{
    let after = submitted(store, submitter, payer, funds, record);
    if after.result is Ok {
        let address = address_of(submitter);
        let opening = opened(store, address, payer, funds, SLOT_CAPACITY as nat);
        let slot = opening.slot.unwrap();
        lemma_encoded_fields(RecordView::empty());
        lemma_encoded_fields(record);
        assert(opening.store[slot].address == address);
        assert forall|i: int, j: int| 0 <= i < j < after.store.len() implies (
        #[trigger] after.store[i]).address != (#[trigger] after.store[j]).address by {
            assert(after.store[i].address == opening.store[i].address);
            assert(after.store[j].address == opening.store[j].address);
            if j < store.len() {
                assert(store[i].address != store[j].address);
            } else {
                assert(opening.store[i] == store[i]);
            }
        }
    }
}

/// Independence: of two identities whose addresses differ, each has a slot
/// of its own. A submission for the second is written to another slot than a
/// submission for the first, and leaves the first one's slot, its record
/// with it, exactly as the first submission left it.
pub proof fn lemma_other_identity_other_slot(
    store: Seq<SlotView>,
    first_submitter: Seq<u8>,
    first_payer: Seq<u8>,
    first_funds: int,
    first_record: RecordView,
    second_submitter: Seq<u8>,
    second_payer: Seq<u8>,
    second_funds: int,
    second_record: RecordView,
)
    requires
        distinct_addresses(store),
        submitted(store, first_submitter, first_payer, first_funds, first_record).result is Ok,
        submitted(
            submitted(store, first_submitter, first_payer, first_funds, first_record).store,
            second_submitter,
            second_payer,
            second_funds,
            second_record,
        ).result is Ok,
        address_of(first_submitter) != address_of(second_submitter),
    ensures
        ({
            let first = submitted(store, first_submitter, first_payer, first_funds, first_record);
            let second = submitted(
                first.store,
                second_submitter,
                second_payer,
                second_funds,
                second_record,
            );
            let first_slot = first.result.unwrap().0;
            let second_slot = second.result.unwrap().0;
            &&& first_slot != second_slot
            &&& second.store[first_slot] == first.store[first_slot]
            &&& decoded(second.store[first_slot].data) == Some(first_record)
            &&& decoded(second.store[second_slot].data) == Some(second_record)
        }),
{
    let first = submitted(store, first_submitter, first_payer, first_funds, first_record);
    lemma_submission_stores_the_record(
        store,
        first_submitter,
        first_payer,
        first_funds,
        first_record,
    );
    lemma_submission_keeps_the_rest(store, first_submitter, first_payer, first_funds, first_record);
    lemma_submission_stores_the_record(
        first.store,
        second_submitter,
        second_payer,
        second_funds,
        second_record,
    );
    lemma_submission_keeps_the_rest(
        first.store,
        second_submitter,
        second_payer,
        second_funds,
        second_record,
    );
}

/// Only creation is charged, and only the payer of the call: a submission
/// that creates the slot takes [`SLOT_CAPACITY`] from the funds and records
/// the payer with the slot; one that finds the slot takes nothing.
pub proof fn lemma_only_creation_is_charged(
    store: Seq<SlotView>,
    submitter: Seq<u8>,
    payer: Seq<u8>,
    funds: int,
    record: RecordView,
)
    requires
        distinct_addresses(store),
        submitted(store, submitter, payer, funds, record).result is Ok,
    ensures
        ({
            let after = submitted(store, submitter, payer, funds, record);
            let (slot, created) = after.result.unwrap();
            &&& created == !occupied(store, address_of(submitter))
            &&& created ==> {
                &&& after.funds == funds - SLOT_CAPACITY
                &&& after.funds >= 0
                &&& slot == store.len()
                &&& after.store.len() == store.len() + 1
                &&& after.store[slot].funded_by == payer
            }
            &&& !created ==> {
                &&& after.funds == funds
                &&& after.store.len() == store.len()
                &&& slot == slot_at(store, address_of(submitter))
            }
        }),
{
}

/// Timestamp freshness: where the clock has not gone back behind the time
/// that the slot recorded before, the time recorded after a successful
/// submission is not earlier than the time recorded before. It is the time
/// of the submission.
pub proof fn lemma_timestamp_does_not_go_back(
    store: Seq<SlotView>,
    submitter: Seq<u8>,
    payer: Seq<u8>,
    funds: int,
    record: RecordView,
    recorded_before: RecordView,
)
    requires
        distinct_addresses(store),
        submitted(store, submitter, payer, funds, record).result is Ok,
        occupied(store, address_of(submitter)),
        decoded(store[slot_at(store, address_of(submitter))].data) == Some(recorded_before),
        recorded_before.timestamp <= record.timestamp,
    ensures
        ({
            let after = submitted(store, submitter, payer, funds, record);
            let slot = after.result.unwrap().0;
            &&& slot == slot_at(store, address_of(submitter))
            &&& decoded(after.store[slot].data) is Some
            &&& decoded(after.store[slot].data).unwrap().timestamp == record.timestamp
            &&& decoded(after.store[slot].data).unwrap().timestamp >= recorded_before.timestamp
        }),
{
    lemma_submission_stores_the_record(store, submitter, payer, funds, record);
}

} // verus!

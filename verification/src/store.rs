//! The record store: slots of reserved bytes, found by address.
//!
//! A slot is created once, with a fixed number of bytes paid for by whoever
//! asked for it, and is afterwards rewritten in place. The store never
//! removes a slot and never holds two slots under one address.

use vstd::prelude::*;
use vstd::slice::{slice_subrange, slice_to_vec};
use crate::address::SlotAddress;
use crate::bytes::{push_bytes, push_zeros, same_bytes};
use crate::error::SubmissionError;
use crate::layout::{
    decode, decoded, encode, encoded, lemma_decode_encode, lemma_encoded_fields, ProofRecord,
    RecordView, MAX_PROOF_LEN, RECORD_OVERHEAD, SCHEMA_TAG, SCHEMA_TAG_LEN,
};

verus! {

/// Whoever is charged when a slot has to be reserved.
#[derive(Clone, Debug, PartialEq, Eq)]
pub struct Payer {
    /// The payer's identity.
    pub identity: Vec<u8>,
    /// What the payer can still spend, one unit per reserved byte.
    pub funds: u64,
}

/// One unit of storage: reserved bytes under an address.
struct Slot {
    address: [u8; 32],
    funded_by: Vec<u8>,
    data: Vec<u8>,
}

/// The mathematical value of a slot.
#[verifier::ext_equal]
pub struct SlotView {
    /// The address under which the slot is found.
    pub address: Seq<u8>,
    /// The identity that paid for the slot; empty for storage that was adopted.
    pub funded_by: Seq<u8>,
    /// The reserved bytes. Their number is the slot's capacity.
    pub data: Seq<u8>,
}

impl View for Slot {
    type V = SlotView;

    closed spec fn view(&self) -> SlotView {
        SlotView { address: self.address@, funded_by: self.funded_by@, data: self.data@ }
    }
}

/// The store: every slot that was ever reserved, in the order of reservation.
///
/// A slot's handle is its position in that order, so a handle stays valid for
/// as long as the store lives.
pub struct RecordStore {
    slots: Vec<Slot>,
}

/// No two slots of `store` lie under the same address.
pub open spec fn distinct_addresses(store: Seq<SlotView>) -> bool {
    forall|i: int, j: int|
        0 <= i < j < store.len() ==> (#[trigger] store[i]).address != (#[trigger] store[j]).address
}

/// Whether `store` holds a slot under `address`.
pub open spec fn occupied(store: Seq<SlotView>, address: Seq<u8>) -> bool {
    exists|i: int| 0 <= i < store.len() && (#[trigger] store[i]).address == address
}

/// The handle of the slot under `address`; meaningful where the address is occupied.
pub open spec fn slot_at(store: Seq<SlotView>, address: Seq<u8>) -> int {
    choose|i: int| 0 <= i < store.len() && (#[trigger] store[i]).address == address
}

/// Whether `data` is storage that this store laid out with `capacity` bytes:
/// it has that many bytes and opens with the schema tag.
pub open spec fn has_layout(data: Seq<u8>, capacity: nat) -> bool {
    data.len() == capacity && SCHEMA_TAG@.is_prefix_of(data)
}

/// The bytes of a slot as it is created: the empty record, then zeros.
pub open spec fn fresh_data(capacity: nat) -> Seq<u8>
    recommends
        capacity >= RECORD_OVERHEAD,
{
    encoded(RecordView::empty()) + Seq::new((capacity - RECORD_OVERHEAD) as nat, |i: int| 0u8)
}

/// What reserving `capacity` bytes costs: one unit of funds per byte.
pub open spec fn allocation_cost(capacity: nat) -> nat {
    capacity
}

/// Whether a proof of `proof_len` bytes can be written to a slot of `capacity` bytes.
pub open spec fn fits_in(proof_len: nat, capacity: nat) -> bool {
    proof_len <= MAX_PROOF_LEN && RECORD_OVERHEAD + proof_len <= capacity
}

/// `data` with its first bytes replaced by `prefix`; the rest stays as it was.
pub open spec fn overwritten(data: Seq<u8>, prefix: Seq<u8>) -> Seq<u8>
    recommends
        prefix.len() <= data.len(),
{
    prefix + data.subrange(prefix.len() as int, data.len() as int)
}

/// What opening a slot comes to: the handle or the refusal, and the store and
/// the payer's funds afterwards.
pub struct Opened {
    pub slot: Result<int, SubmissionError>,
    pub store: Seq<SlotView>,
    pub funds: int,
}

/// What stands in the way of opening the slot under `address`, if anything.
///
/// Storage that exists without the store's layout is foreign; a free address
/// cannot be opened by a payer whose funds are below the cost of the slot.
pub open spec fn opening_refusal(
    store: Seq<SlotView>,
    address: Seq<u8>,
    funds: int,
    capacity: nat,
) -> Option<SubmissionError> {
    if occupied(store, address) {
        if has_layout(store[slot_at(store, address)].data, capacity) {
            None
        } else {
            Some(SubmissionError::AddressMismatch)
        }
    } else if funds < allocation_cost(capacity) {
        Some(SubmissionError::StorageAllocationError)
    } else {
        None
    }
}

/// Opening the slot under `address`, creating it with `capacity` bytes at the
/// cost of `payer` if the address is free.
///
/// A refusal changes nothing. Storage that exists is used as it is. A free
/// address gets a fresh slot behind all others, and the payer pays for it.
pub open spec fn opened(
    store: Seq<SlotView>,
    address: Seq<u8>,
    payer: Seq<u8>,
    funds: int,
    capacity: nat,
) -> Opened {
    match opening_refusal(store, address, funds, capacity) {
        Some(error) => Opened { slot: Err(error), store, funds },
        None => if occupied(store, address) {
            Opened { slot: Ok(slot_at(store, address)), store, funds }
        } else {
            Opened {
                slot: Ok(store.len() as int),
                store: store.push(
                    SlotView { address, funded_by: payer, data: fresh_data(capacity) },
                ),
                funds: funds - allocation_cost(capacity),
            }
        },
    }
}

/// What writing to a slot comes to: success or the refusal, and the store afterwards.
pub struct Written {
    pub done: Result<(), SubmissionError>,
    pub store: Seq<SlotView>,
}

/// Writing `record` to the slot `handle`.
///
/// A record that fits replaces the one stored; the bytes behind it, the
/// slot's capacity and every other slot stay as they were. A record that does
/// not fit is refused and changes nothing.
pub open spec fn written(store: Seq<SlotView>, handle: int, record: RecordView) -> Written
    recommends
        0 <= handle < store.len(),
{
    if fits_in(record.proof.len(), store[handle].data.len()) {
        Written {
            done: Ok(()),
            store: store.update(
                handle,
                SlotView {
                    data: overwritten(store[handle].data, encoded(record)),
                    ..store[handle]
                },
            ),
        }
    } else {
        Written { done: Err(SubmissionError::PayloadTooLarge), store }
    }
}

/// An executable handle as the position it stands for.
pub open spec fn handle_of(result: Result<usize, SubmissionError>) -> Result<int, SubmissionError> {
    match result {
        Ok(handle) => Ok(handle as int),
        Err(error) => Err(error),
    }
}

/// The values of a run of slots.
spec fn views(slots: Seq<Slot>) -> Seq<SlotView> {
    slots.map_values(|slot: Slot| slot@)
}

impl View for RecordStore {
    type V = Seq<SlotView>;

    closed spec fn view(&self) -> Seq<SlotView> {
        views(self.slots@)
    }
}

/// Whether `data` is storage that this store laid out with `capacity` bytes.
pub fn is_laid_out(data: &[u8], capacity: usize) -> (yes: bool)
    ensures
        yes == has_layout(data@, capacity as nat),
{
    if data.len() != capacity || data.len() < SCHEMA_TAG_LEN {
        return false;
    }
    let tagged = same_bytes(slice_subrange(data, 0, SCHEMA_TAG_LEN), SCHEMA_TAG.as_slice());
    proof {
        if SCHEMA_TAG@.is_prefix_of(data@) {
            assert(data@.subrange(0, 8) =~= SCHEMA_TAG@);
        }
    }
    tagged
}

impl RecordStore {
    /// The store's invariant: no two slots lie under the same address.
    #[verifier::type_invariant]
    pub open spec fn well_formed(self) -> bool {
        distinct_addresses(self@)
    }

    /// A store without slots.
    pub fn new() -> (store: RecordStore)
        ensures
            store@ == Seq::<SlotView>::empty(),
    {
        let store = RecordStore { slots: Vec::new() };
        assert(store@ =~= Seq::<SlotView>::empty());
        store
    }

    /// The number of slots reserved so far.
    pub fn slot_count(&self) -> (count: usize)
        ensures
            count == self@.len(),
    {
        self.slots.len()
    }

    /// The capacity of the slot `handle`: the number of bytes reserved for it.
    pub fn capacity(&self, handle: usize) -> (capacity: usize)
        requires
            handle < self@.len(),
        ensures
            capacity == self@[handle as int].data.len(),
    {
        self.slots[handle].data.len()
    }

    /// The bytes of the slot `handle`, as they are stored.
    pub fn data(&self, handle: usize) -> (data: &[u8])
        requires
            handle < self@.len(),
        ensures
            data@ == self@[handle as int].data,
    {
        self.slots[handle].data.as_slice()
    }

    /// The address under which the slot `handle` lies.
    pub fn address(&self, handle: usize) -> (address: [u8; 32])
        requires
            handle < self@.len(),
        ensures
            address@ == self@[handle as int].address,
    {
        self.slots[handle].address
    }

    /// The identity that paid for the slot `handle`; empty for adopted storage.
    pub fn funded_by(&self, handle: usize) -> (payer: &[u8])
        requires
            handle < self@.len(),
        ensures
            payer@ == self@[handle as int].funded_by,
    {
        self.slots[handle].funded_by.as_slice()
    }

    /// Finds the slot under `address`.
    pub fn find(&self, address: &SlotAddress) -> (found: Option<usize>)
        ensures
            distinct_addresses(self@),
            match found {
                Some(handle) => occupied(self@, address.bytes@) && handle == slot_at(
                    self@,
                    address.bytes@,
                ),
                None => !occupied(self@, address.bytes@),
            },
    {
        proof {
            use_type_invariant(self);
        }
        let mut i: usize = 0;
        while i < self.slots.len()
            invariant
                i <= self.slots.len(),
                distinct_addresses(self@),
                forall|k: int| 0 <= k < i ==> (#[trigger] self@[k]).address != address.bytes@,
            decreases self.slots.len() - i,
        {
            if same_bytes(self.slots[i].address.as_slice(), address.bytes.as_slice()) {
                assert(self@[i as int].address == address.bytes@);
                return Some(i);
            }
            i += 1;
        }
        None
    }

    /// Says what opening the slot under `address` would come to, without
    /// changing anything: the slot that exists, a free address that a payer
    /// with `funds` can pay for, or the refusal.
    pub(crate) fn probe(&self, address: &SlotAddress, funds: u64, capacity: usize) -> (result: Result<
        Option<usize>,
        SubmissionError,
    >)
        ensures
            distinct_addresses(self@),
            match result {
                Ok(found) => opening_refusal(self@, address.bytes@, funds as int, capacity as nat)
                    is None && match found {
                    Some(handle) => occupied(self@, address.bytes@) && handle == slot_at(
                        self@,
                        address.bytes@,
                    ),
                    None => !occupied(self@, address.bytes@),
                },
                Err(error) => opening_refusal(
                    self@,
                    address.bytes@,
                    funds as int,
                    capacity as nat,
                ) == Some(error),
            },
    {
        match self.find(address) {
            Some(handle) => {
                if is_laid_out(self.slots[handle].data.as_slice(), capacity) {
                    Ok(Some(handle))
                } else {
                    Err(SubmissionError::AddressMismatch)
                }
            },
            None => {
                if funds < capacity as u64 {
                    Err(SubmissionError::StorageAllocationError)
                } else {
                    Ok(None)
                }
            },
        }
    }

    /// Opens the slot under `address`, creating it if the address is free.
    ///
    /// A free address gets a slot of exactly `capacity` bytes that holds the
    /// empty record; `payer` is charged [`allocation_cost`] for it and is
    /// recorded as the one who paid. Storage that exists is returned as it
    /// is, and nobody is charged.
    ///
    /// Fails with `StorageAllocationError` when the address is free and the
    /// payer's funds are below the cost, and with `AddressMismatch` when
    /// storage exists under the address that does not have `capacity` bytes
    /// or does not open with the schema tag. A failure changes neither the
    /// store nor the payer.
    pub fn open_or_create(
        &mut self,
        address: &SlotAddress,
        payer: &mut Payer,
        capacity: usize,
    ) -> (result: Result<usize, SubmissionError>)
        requires
            capacity >= RECORD_OVERHEAD,
        ensures
            opened(
                old(self)@,
                address.bytes@,
                old(payer).identity@,
                old(payer).funds as int,
                capacity as nat,
            ) == (Opened {
                slot: handle_of(result),
                store: final(self)@,
                funds: final(payer).funds as int,
            }),
            match result {
                Ok(handle) => {
                    &&& handle < final(self)@.len()
                    &&& final(self)@[handle as int].address == address.bytes@
                    &&& has_layout(final(self)@[handle as int].data, capacity as nat)
                },
                Err(_) => final(self)@ == old(self)@ && final(payer).funds == old(payer).funds,
            },
            final(payer).identity == old(payer).identity,
            distinct_addresses(final(self)@),
    {
        proof {
            lemma_fresh_slot_holds_the_empty_record(capacity as nat);
        }
        match self.probe(address, payer.funds, capacity) {
            Ok(Some(handle)) => {
                return Ok(handle);
            },
            Ok(None) => {},
            Err(error) => {
                return Err(error);
            },
        }
        let empty = ProofRecord::empty();
        let mut data: Vec<u8> = match encode(&empty) {
            Ok(bytes) => bytes,
            Err(error) => {
                return Err(error);
            },
        };
        proof {
            lemma_encoded_fields(empty@);
        }
        push_zeros(&mut data, capacity - RECORD_OVERHEAD);
        let slot = Slot {
            address: address.bytes,
            funded_by: slice_to_vec(payer.identity.as_slice()),
            data,
        };
        proof {
            use_type_invariant(&*self);
            let after = opened(
                old(self)@,
                address.bytes@,
                old(payer).identity@,
                old(payer).funds as int,
                capacity as nat,
            ).store;
            assert(slot@ =~= after[old(self)@.len() as int]);
            assert(views(self.slots@.push(slot)) =~= after);
        }
        payer.funds = payer.funds - capacity as u64;
        // The slots are moved out while they change: the store's invariant is
        // asked of the finished value only.
        let mut slots: Vec<Slot> = Vec::new();
        core::mem::swap(&mut self.slots, &mut slots);
        slots.push(slot);
        self.slots = slots;
        Ok(self.slots.len() - 1)
    }

    /// Takes storage that already lies under `address` in the medium into the
    /// store, as it was found: with the bytes `data`, whatever they are, and
    /// with nobody on record as its payer.
    ///
    /// Returns the new slot's handle, or nothing, leaving the store as it
    /// was, when the store already holds a slot under the address.
    pub fn adopt(&mut self, address: &SlotAddress, data: Vec<u8>) -> (handle: Option<usize>)
        ensures
            match handle {
                Some(handle) => {
                    &&& !occupied(old(self)@, address.bytes@)
                    &&& handle == old(self)@.len()
                    &&& final(self)@ == old(self)@.push(
                        SlotView { address: address.bytes@, funded_by: Seq::empty(), data: data@ },
                    )
                },
                None => occupied(old(self)@, address.bytes@) && final(self)@ == old(self)@,
            },
            distinct_addresses(final(self)@),
    {
        if self.find(address).is_some() {
            return None;
        }
        let slot = Slot { address: address.bytes, funded_by: Vec::new(), data };
        proof {
            let after = old(self)@.push(
                SlotView { address: address.bytes@, funded_by: Seq::empty(), data: data@ },
            );
            assert(slot@ =~= after[old(self)@.len() as int]);
            assert(views(self.slots@.push(slot)) =~= after);
        }
        // The slots are moved out while they change: the store's invariant is
        // asked of the finished value only.
        let mut slots: Vec<Slot> = Vec::new();
        core::mem::swap(&mut self.slots, &mut slots);
        slots.push(slot);
        self.slots = slots;
        Some(self.slots.len() - 1)
    }

    /// Reads the record stored in the slot `handle`.
    ///
    /// Fails with `CorruptRecord`, and only then, when the slot's bytes do not
    /// begin with the encoding of a record.
    pub fn read(&self, handle: usize) -> (result: Result<ProofRecord, SubmissionError>)
        requires
            handle < self@.len(),
        ensures
            match result {
                Ok(record) => decoded(self@[handle as int].data) == Some(record@),
                Err(error) => error == SubmissionError::CorruptRecord && decoded(
                    self@[handle as int].data,
                ) is None,
            },
    {
        decode(self.slots[handle].data.as_slice())
    }

    /// Writes a record made of `proof`, `event_type` and the time `now` to the slot `handle`.
    ///
    /// Fails with `PayloadTooLarge`, and only then, when the proof is longer
    /// than [`MAX_PROOF_LEN`] or the record does not fit the slot's capacity;
    /// the slot then keeps every byte it had.
    pub fn write(&mut self, handle: usize, proof: &[u8], event_type: u8, now: i64) -> (done: Result<
        (),
        SubmissionError,
    >)
        requires
            handle < old(self)@.len(),
        ensures
            written(
                old(self)@,
                handle as int,
                RecordView { proof: proof@, event_type, timestamp: now },
            ) == (Written { done, store: final(self)@ }),
            match done {
                Ok(_) => {
                    &&& final(self)@.len() == old(self)@.len()
                    &&& decoded(final(self)@[handle as int].data) == Some(
                        RecordView { proof: proof@, event_type, timestamp: now },
                    )
                    &&& final(self)@[handle as int].data.len() == old(self)@[handle as int].data.len()
                },
                Err(_) => final(self)@ == old(self)@,
            },
            distinct_addresses(final(self)@),
    {
        proof {
            use_type_invariant(&*self);
            if written(
                self@,
                handle as int,
                RecordView { proof: proof@, event_type, timestamp: now },
            ).done is Ok {
                lemma_written_record_is_read_back(
                    self@,
                    handle as int,
                    RecordView { proof: proof@, event_type, timestamp: now },
                );
            }
        }
        let capacity: usize = self.slots[handle].data.len();
        if proof.len() > MAX_PROOF_LEN || capacity < RECORD_OVERHEAD + proof.len() {
            return Err(SubmissionError::PayloadTooLarge);
        }
        let record = ProofRecord { proof: slice_to_vec(proof), event_type, timestamp: now };
        let mut data: Vec<u8> = match encode(&record) {
            Ok(bytes) => bytes,
            Err(error) => {
                return Err(error);
            },
        };
        proof {
            lemma_encoded_fields(record@);
        }
        let used: usize = data.len();
        push_bytes(&mut data, slice_subrange(self.slots[handle].data.as_slice(), used, capacity));
        // The slots are moved out while they change: the store's invariant is
        // asked of the finished value only.
        let mut slots: Vec<Slot> = Vec::new();
        core::mem::swap(&mut self.slots, &mut slots);
        slots[handle].data = data;
        proof {
            let after = written(old(self)@, handle as int, record@).store;
            assert(views(slots@)[handle as int] =~= after[handle as int]);
            assert(views(slots@) =~= after);
        }
        self.slots = slots;
        Ok(())
    }
}

/// A fresh slot has the capacity asked for and the store's layout, and holds
/// the empty record.
pub proof fn lemma_fresh_slot_holds_the_empty_record(capacity: nat)
    requires
        capacity >= RECORD_OVERHEAD,
    ensures
        fresh_data(capacity).len() == capacity,
        has_layout(fresh_data(capacity), capacity),
        decoded(fresh_data(capacity)) == Some(RecordView::empty()),
{
    lemma_encoded_fields(RecordView::empty());
    lemma_decode_encode(
        RecordView::empty(),
        Seq::new((capacity - RECORD_OVERHEAD) as nat, |i: int| 0u8),
    );
}

/// What was written is what is read: after a write that succeeded the slot
/// decodes to the record written. Its capacity, its address and its payer of
/// record are what they were, and so is every other slot.
pub proof fn lemma_written_record_is_read_back(
    store: Seq<SlotView>,
    handle: int,
    record: RecordView,
)
    requires
        0 <= handle < store.len(),
        written(store, handle, record).done is Ok,
    ensures
        ({
            let after = written(store, handle, record).store;
            &&& after.len() == store.len()
            &&& decoded(after[handle].data) == Some(record)
            &&& after[handle].data.len() == store[handle].data.len()
            &&& after[handle].address == store[handle].address
            &&& after[handle].funded_by == store[handle].funded_by
            &&& forall|k: int| 0 <= k < store.len() && k != handle ==> after[k] == store[k]
        }),
{
    lemma_encoded_fields(record);
    let data = store[handle].data;
    lemma_decode_encode(record, data.subrange(encoded(record).len() as int, data.len() as int));
}

} // verus!

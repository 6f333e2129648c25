//! The executable claim registry.
//!
//! [`Pallet`] owns the registry's persistent state — the claimed proofs and
//! the append-only event log — and exposes the three state transitions
//! `create_claim`, `revoke_claim` and `transfer_claim`.  Each either commits
//! one change and appends one event, or fails with a specific [`Error`] and
//! leaves the state untouched.  The contracts relate every outcome to the
//! abstract transitions of [`crate::state`].

use vstd::prelude::*;

use crate::state::{
    create_ok, create_step, owner_ok, revoke_step, transfer_step, AccountId, BlockNumber,
    ClaimRecord, RegistryView,
};

verus! {

/// The ways a transition can fail.  Every failure leaves the registry
/// unchanged and emits no event.
#[derive(Clone, Copy, PartialEq, Eq, Debug)]
pub enum Error {
    /// `create_claim` was asked for a proof that is already claimed.
    ProofAlreadyClaimed,
    /// `revoke_claim` or `transfer_claim` was asked for a proof nobody holds.
    NoSuchProof,
    /// `revoke_claim` or `transfer_claim` was called by a principal other
    /// than the recorded owner of the claim.
    NotProofOwner,
}

/// One entry of the event log, recorded for each successful transition.
/// The payload names the caller that performed the transition and the proof
/// it acted on; a transfer does not carry the new owner in its payload.
#[derive(PartialEq, Eq, Debug)]
pub enum Event {
    ClaimCreated(AccountId, Vec<u8>),
    ClaimRevoked(AccountId, Vec<u8>),
    ClaimTransferred(AccountId, Vec<u8>),
}

/// The mathematical value of an [`Event`]: the same payload with the proof
/// bytes as a sequence.
pub enum EventView {
    ClaimCreated(AccountId, Seq<u8>),
    ClaimRevoked(AccountId, Seq<u8>),
    ClaimTransferred(AccountId, Seq<u8>),
}

impl View for Event {
    type V = EventView;

    open spec fn view(&self) -> EventView {
        match self {
            Event::ClaimCreated(who, p) => EventView::ClaimCreated(*who, p@),
            Event::ClaimRevoked(who, p) => EventView::ClaimRevoked(*who, p@),
            Event::ClaimTransferred(who, p) => EventView::ClaimTransferred(*who, p@),
        }
    }
}

/// The mathematical value of a sequence of recorded events.
pub open spec fn events_view(events: Seq<Event>) -> Seq<EventView> {
    events.map_values(|e: Event| e@)
}

/// The mathematical value of the whole registry: the claim map and the event
/// log, in the order the events were recorded.
#[verifier::ext_equal]
pub struct PalletView {
    pub proofs: RegistryView,
    pub events: Seq<EventView>,
}

/// The claim registry.  It is the sole owner of its state: entries enter the
/// claim map only through `create_claim`, change only through
/// `transfer_claim`, and leave only through `revoke_claim`; events are only
/// ever appended.
pub struct Pallet {
    proofs: Vec<(Vec<u8>, ClaimRecord)>,
    events: Vec<Event>,
}

/// The claim map denoted by a list of entries: later entries would win, but
/// the registry keeps at most one entry per proof.
spec fn entries_map(entries: Seq<(Vec<u8>, ClaimRecord)>) -> RegistryView
    decreases entries.len(),
{
    if entries.len() == 0 {
        Map::empty()
    } else {
        entries_map(entries.drop_last()).insert(entries.last().0@, entries.last().1)
    }
}

/// No proof occurs twice in the entry list.
spec fn distinct_keys(entries: Seq<(Vec<u8>, ClaimRecord)>) -> bool {
    forall|i: int, j: int|
        0 <= i < j < entries.len() ==> entries[i].0@ != entries[j].0@
}

impl View for Pallet {
    type V = PalletView;

    closed spec fn view(&self) -> PalletView {
        PalletView { proofs: entries_map(self.proofs@), events: events_view(self.events@) }
    }
}

impl Pallet {
    /// Representation invariant: the entry list holds at most one entry per
    /// proof, so it denotes the claim map faithfully.
    #[verifier::type_invariant]
    spec fn inv(&self) -> bool {
        distinct_keys(self.proofs@)
    }

    /// A fresh registry: nothing claimed, nothing logged.
    pub fn new() -> (r: Pallet)
        ensures
            r@.proofs == Map::<Seq<u8>, ClaimRecord>::empty(),
            r@.events == Seq::<EventView>::empty(),
    {
        let r = Pallet { proofs: Vec::new(), events: Vec::new() };
        proof {
            assert(r@.events =~= Seq::<EventView>::empty());
        }
        r
    }

    /// Register a claim on `proof_bytes` for `caller`, timestamped with the
    /// host's current block height.  Succeeds exactly when no claim holds the
    /// proof yet; otherwise fails with `ProofAlreadyClaimed` and changes
    /// nothing.
    pub fn create_claim(
        &mut self,
        caller: AccountId,
        proof_bytes: Vec<u8>,
        current_block: BlockNumber,
    ) -> (r: Result<(), Error>)
        ensures
            create_ok(old(self)@.proofs, proof_bytes@) ==> ({
                &&& r == Ok::<(), Error>(())
                &&& final(self)@.proofs == create_step(
                    old(self)@.proofs,
                    caller,
                    proof_bytes@,
                    current_block,
                )
                &&& final(self)@.events == old(self)@.events.push(
                    EventView::ClaimCreated(caller, proof_bytes@),
                )
            }),
            !create_ok(old(self)@.proofs, proof_bytes@) ==> ({
                &&& r == Err::<(), Error>(Error::ProofAlreadyClaimed)
                &&& final(self)@ == old(self)@
            }),
    {
        proof {
            use_type_invariant(&*self);
        }
        let ghost pkey: Seq<u8> = proof_bytes@;
        let ghost entries0 = self.proofs@;
        let ghost log0 = self.events@;
        match find_entry(&self.proofs, &proof_bytes) {
            Some(i) => {
                proof {
                    lemma_entries_map_contains(entries0, pkey);
                    assert(entries0[i as int].0@ == pkey);
                }
                Err(Error::ProofAlreadyClaimed)
            },
            None => {
                proof {
                    lemma_entries_map_contains(entries0, pkey);
                }
                let key_copy = copy_bytes(&proof_bytes);
                let record = ClaimRecord { owner: caller, created_at: current_block };
                let ghost entry = (key_copy, record);
                let ghost ev = Event::ClaimCreated(caller, proof_bytes);
                let mut entries: Vec<(Vec<u8>, ClaimRecord)> = Vec::new();
                let mut log: Vec<Event> = Vec::new();
                std::mem::swap(&mut entries, &mut self.proofs);
                std::mem::swap(&mut log, &mut self.events);
                entries.push((key_copy, record));
                log.push(Event::ClaimCreated(caller, proof_bytes));
                proof {
                    lemma_entries_map_push(entries0, entry);
                    lemma_events_view_push(log0, ev);
                    assert forall|a: int, b: int|
                        0 <= a < b < entries@.len() implies entries@[a].0@ != entries@[b].0@ by {
                        if b == entries0.len() {
                            assert(entries@[a] == entries0[a]);
                        } else {
                            assert(entries@[a] == entries0[a] && entries@[b] == entries0[b]);
                        }
                    }
                }
                self.proofs = entries;
                self.events = log;
                Ok(())
            },
        }
    }

    /// Remove the claim on `proof_bytes`.  Succeeds exactly when the proof is
    /// claimed and `caller` is its recorded owner; otherwise fails —
    /// `NoSuchProof` when nobody holds the proof, `NotProofOwner` when
    /// someone else does — and changes nothing.
    pub fn revoke_claim(&mut self, caller: AccountId, proof_bytes: Vec<u8>) -> (r: Result<
        (),
        Error,
    >)
        ensures
            owner_ok(old(self)@.proofs, caller, proof_bytes@) ==> ({
                &&& r == Ok::<(), Error>(())
                &&& final(self)@.proofs == revoke_step(old(self)@.proofs, proof_bytes@)
                &&& final(self)@.events == old(self)@.events.push(
                    EventView::ClaimRevoked(caller, proof_bytes@),
                )
            }),
            !old(self)@.proofs.contains_key(proof_bytes@) ==> ({
                &&& r == Err::<(), Error>(Error::NoSuchProof)
                &&& final(self)@ == old(self)@
            }),
            (old(self)@.proofs.contains_key(proof_bytes@) && !owner_ok(
                old(self)@.proofs,
                caller,
                proof_bytes@,
            )) ==> ({
                &&& r == Err::<(), Error>(Error::NotProofOwner)
                &&& final(self)@ == old(self)@
            }),
    {
        proof {
            use_type_invariant(&*self);
        }
        let ghost pkey: Seq<u8> = proof_bytes@;
        let ghost entries0 = self.proofs@;
        let ghost log0 = self.events@;
        match find_entry(&self.proofs, &proof_bytes) {
            None => {
                proof {
                    lemma_entries_map_contains(entries0, pkey);
                }
                Err(Error::NoSuchProof)
            },
            Some(i) => {
                proof {
                    lemma_entries_map_index(entries0, i as int);
                }
                let owner = self.proofs[i].1.owner;
                if owner != caller {
                    Err(Error::NotProofOwner)
                } else {
                    let ghost ev = Event::ClaimRevoked(caller, proof_bytes);
                    let mut entries: Vec<(Vec<u8>, ClaimRecord)> = Vec::new();
                    let mut log: Vec<Event> = Vec::new();
                    std::mem::swap(&mut entries, &mut self.proofs);
                    std::mem::swap(&mut log, &mut self.events);
                    entries.remove(i);
                    log.push(Event::ClaimRevoked(caller, proof_bytes));
                    proof {
                        lemma_entries_map_remove(entries0, i as int);
                        lemma_events_view_push(log0, ev);
                    }
                    self.proofs = entries;
                    self.events = log;
                    Ok(())
                }
            },
        }
    }

    /// Hand the claim on `proof_bytes` to `new_owner`, keeping its original
    /// creation height.  Succeeds exactly when the proof is claimed and
    /// `caller` is its recorded owner; otherwise fails — `NoSuchProof` when
    /// nobody holds the proof, `NotProofOwner` when someone else does — and
    /// changes nothing.  The recorded event names the caller, not the new
    /// owner.
    pub fn transfer_claim(
        &mut self,
        caller: AccountId,
        proof_bytes: Vec<u8>,
        new_owner: AccountId,
    ) -> (r: Result<(), Error>)
        ensures
            owner_ok(old(self)@.proofs, caller, proof_bytes@) ==> ({
                &&& r == Ok::<(), Error>(())
                &&& final(self)@.proofs == transfer_step(
                    old(self)@.proofs,
                    proof_bytes@,
                    new_owner,
                )
                &&& final(self)@.events == old(self)@.events.push(
                    EventView::ClaimTransferred(caller, proof_bytes@),
                )
            }),
            !old(self)@.proofs.contains_key(proof_bytes@) ==> ({
                &&& r == Err::<(), Error>(Error::NoSuchProof)
                &&& final(self)@ == old(self)@
            }),
            (old(self)@.proofs.contains_key(proof_bytes@) && !owner_ok(
                old(self)@.proofs,
                caller,
                proof_bytes@,
            )) ==> ({
                &&& r == Err::<(), Error>(Error::NotProofOwner)
                &&& final(self)@ == old(self)@
            }),
    {
        proof {
            use_type_invariant(&*self);
        }
        let ghost pkey: Seq<u8> = proof_bytes@;
        let ghost entries0 = self.proofs@;
        let ghost log0 = self.events@;
        match find_entry(&self.proofs, &proof_bytes) {
            None => {
                proof {
                    lemma_entries_map_contains(entries0, pkey);
                }
                Err(Error::NoSuchProof)
            },
            Some(i) => {
                proof {
                    lemma_entries_map_index(entries0, i as int);
                }
                let owner = self.proofs[i].1.owner;
                if owner != caller {
                    Err(Error::NotProofOwner)
                } else {
                    let ghost ev = Event::ClaimTransferred(caller, proof_bytes);
                    let mut entries: Vec<(Vec<u8>, ClaimRecord)> = Vec::new();
                    let mut log: Vec<Event> = Vec::new();
                    std::mem::swap(&mut entries, &mut self.proofs);
                    std::mem::swap(&mut log, &mut self.events);
                    let (stored_key, record) = entries.remove(i);
                    let new_record = ClaimRecord { owner: new_owner, created_at: record.created_at };
                    let ghost entry = (stored_key, new_record);
                    let ghost removed = entries@;
                    entries.push((stored_key, new_record));
                    log.push(Event::ClaimTransferred(caller, proof_bytes));
                    proof {
                        lemma_entries_map_remove(entries0, i as int);
                        lemma_entries_map_push(removed, entry);
                        lemma_events_view_push(log0, ev);
                        assert forall|a: int, b: int|
                            0 <= a < b < entries@.len() implies entries@[a].0@
                            != entries@[b].0@ by {
                            if b == removed.len() {
                                assert(entries@[a] == removed[a]);
                                assert(removed[a].0@ != pkey);
                            } else {
                                assert(entries@[a] == removed[a] && entries@[b] == removed[b]);
                            }
                        }
                        assert(entries_map(entries@) =~= transfer_step(
                            entries_map(entries0),
                            pkey,
                            new_owner,
                        ));
                    }
                    self.proofs = entries;
                    self.events = log;
                    Ok(())
                }
            },
        }
    }

    /// Whether some principal currently holds a claim on `proof_bytes`.
    pub fn contains_claim(&self, proof_bytes: &Vec<u8>) -> (r: bool)
        ensures
            r == self@.proofs.contains_key(proof_bytes@),
    {
        match find_entry(&self.proofs, proof_bytes) {
            Some(i) => {
                proof {
                    lemma_entries_map_contains(self.proofs@, proof_bytes@);
                    assert(self.proofs@[i as int].0@ == proof_bytes@);
                }
                true
            },
            None => {
                proof {
                    lemma_entries_map_contains(self.proofs@, proof_bytes@);
                }
                false
            },
        }
    }

    /// The record of the claim on `proof_bytes`, if one holds it.
    pub fn get_claim(&self, proof_bytes: &Vec<u8>) -> (r: Option<ClaimRecord>)
        ensures
            match r {
                Some(record) => self@.proofs.contains_key(proof_bytes@) && record
                    == self@.proofs[proof_bytes@],
                None => !self@.proofs.contains_key(proof_bytes@),
            },
    {
        proof {
            use_type_invariant(&*self);
        }
        match find_entry(&self.proofs, proof_bytes) {
            Some(i) => {
                proof {
                    lemma_entries_map_index(self.proofs@, i as int);
                }
                Some(self.proofs[i].1)
            },
            None => {
                proof {
                    lemma_entries_map_contains(self.proofs@, proof_bytes@);
                }
                None
            },
        }
    }

    /// How many proofs are currently claimed.
    pub fn claim_count(&self) -> (n: usize)
        ensures
            n == self@.proofs.len(),
    {
        proof {
            use_type_invariant(&*self);
            lemma_entries_map_len(self.proofs@);
        }
        self.proofs.len()
    }

    /// The events recorded so far, oldest first.
    pub fn events(&self) -> (r: &Vec<Event>)
        ensures
            events_view(r@) == self@.events,
    {
        &self.events
    }
}

/// Byte-for-byte equality of two proof identifiers.
fn bytes_eq(a: &Vec<u8>, b: &Vec<u8>) -> (r: bool)
    ensures
        r == (a@ == b@),
{
    if a.len() != b.len() {
        return false;
    }
    let n = a.len();
    let mut i: usize = 0;
    while i < n
        invariant
            n == a@.len(),
            n == b@.len(),
            i <= n,
            forall|k: int| 0 <= k < i ==> a@[k] == b@[k],
        decreases n - i,
    {
        if a[i] != b[i] {
            return false;
        }
        i += 1;
    }
    proof {
        assert(a@ =~= b@);
    }
    true
}

/// A fresh copy of a proof identifier.
fn copy_bytes(src: &Vec<u8>) -> (r: Vec<u8>)
    ensures
        r@ == src@,
{
    let mut out: Vec<u8> = Vec::new();
    let n = src.len();
    let mut i: usize = 0;
    while i < n
        invariant
            n == src@.len(),
            i <= n,
            out@ =~= src@.subrange(0, i as int),
        decreases n - i,
    {
        out.push(src[i]);
        i += 1;
    }
    proof {
        assert(out@ =~= src@);
    }
    out
}

/// A proof is in the denoted map exactly when some entry carries it.
proof fn lemma_entries_map_contains(entries: Seq<(Vec<u8>, ClaimRecord)>, key: Seq<u8>)
    ensures
        entries_map(entries).contains_key(key) <==> (exists|i: int|
            0 <= i < entries.len() && entries[i].0@ == key),
    decreases entries.len(),
{
    if entries.len() > 0 {
        lemma_entries_map_contains(entries.drop_last(), key);
        if entries.last().0@ == key {
            assert(entries[entries.len() - 1].0@ == key);
        } else {
            if entries_map(entries).contains_key(key) {
                let i = choose|i: int|
                    0 <= i < entries.len() - 1 && entries.drop_last()[i].0@ == key;
                assert(entries[i].0@ == key);
            }
            if exists|i: int| 0 <= i < entries.len() && entries[i].0@ == key {
                let i = choose|i: int| 0 <= i < entries.len() && entries[i].0@ == key;
                assert(i < entries.len() - 1);
                assert(entries.drop_last()[i].0@ == key);
            }
        }
    }
}

/// Dropping the last entry of a duplicate-free list keeps it duplicate-free.
proof fn lemma_distinct_drop_last(entries: Seq<(Vec<u8>, ClaimRecord)>)
    requires
        distinct_keys(entries),
        entries.len() > 0,
    ensures
        distinct_keys(entries.drop_last()),
{
    assert forall|i: int, j: int|
        0 <= i < j < entries.drop_last().len() implies entries.drop_last()[i].0@
        != entries.drop_last()[j].0@ by {
        assert(entries[i].0@ != entries[j].0@);
    }
}

/// In a duplicate-free list, the entry at any position gives the value the
/// denoted map takes at its proof.
proof fn lemma_entries_map_index(entries: Seq<(Vec<u8>, ClaimRecord)>, i: int)
    requires
        distinct_keys(entries),
        0 <= i < entries.len(),
    ensures
        entries_map(entries).contains_key(entries[i].0@),
        entries_map(entries)[entries[i].0@] == entries[i].1,
    decreases entries.len(),
{
    if i == entries.len() - 1 {
        assert(entries.last() == entries[i]);
    } else {
        lemma_distinct_drop_last(entries);
        lemma_entries_map_index(entries.drop_last(), i);
        assert(entries.drop_last()[i] == entries[i]);
        assert(entries.last().0@ != entries[i].0@);
    }
}

/// Appending an entry denotes an insertion into the map.
proof fn lemma_entries_map_push(
    entries: Seq<(Vec<u8>, ClaimRecord)>,
    entry: (Vec<u8>, ClaimRecord),
)
    ensures
        entries_map(entries.push(entry)) == entries_map(entries).insert(entry.0@, entry.1),
{
    assert(entries.push(entry).drop_last() =~= entries);
    assert(entries.push(entry).last() == entry);
}

/// Removing the entry at a position of a duplicate-free list denotes removing
/// its proof from the map, and keeps the list duplicate-free.
proof fn lemma_entries_map_remove(entries: Seq<(Vec<u8>, ClaimRecord)>, i: int)
    requires
        distinct_keys(entries),
        0 <= i < entries.len(),
    ensures
        distinct_keys(entries.remove(i)),
        forall|k: int|
            0 <= k < entries.remove(i).len() ==> entries.remove(i)[k].0@ != entries[i].0@,
        entries_map(entries.remove(i)) == entries_map(entries).remove(entries[i].0@),
    decreases entries.len(),
{
    let t = entries.remove(i);
    let key = entries[i].0@;
    entries.remove_ensures(i);
    assert forall|k: int| 0 <= k < t.len() implies t[k].0@ != key by {
        if k < i {
            assert(t[k] == entries[k]);
        } else {
            assert(t[k] == entries[k + 1]);
        }
    }
    assert forall|k: int, l: int| 0 <= k < l < t.len() implies t[k].0@ != t[l].0@ by {
        if l < i {
            assert(t[k] == entries[k] && t[l] == entries[l]);
        } else if k < i {
            assert(t[k] == entries[k] && t[l] == entries[l + 1]);
        } else {
            assert(t[k] == entries[k + 1] && t[l] == entries[l + 1]);
        }
    }
    if i == entries.len() - 1 {
        assert(t =~= entries.drop_last());
        lemma_distinct_drop_last(entries);
        lemma_entries_map_contains(entries.drop_last(), key);
        assert(!entries_map(entries.drop_last()).contains_key(key));
        assert(entries_map(entries) == entries_map(entries.drop_last()).insert(
            key,
            entries[i].1,
        ));
        assert(entries_map(t) =~= entries_map(entries).remove(key));
    } else {
        lemma_distinct_drop_last(entries);
        lemma_entries_map_remove(entries.drop_last(), i);
        assert(t.len() == entries.len() - 1);
        assert(t.last() == entries[entries.len() - 1]);
        assert(t.last() == entries.last());
        assert(t.drop_last() =~= entries.drop_last().remove(i));
        assert(entries.drop_last()[i] == entries[i]);
        assert(entries_map(t) == entries_map(entries.drop_last()).remove(key).insert(
            entries.last().0@,
            entries.last().1,
        ));
        assert(entries.last().0@ != key);
        assert(entries_map(entries) == entries_map(entries.drop_last()).insert(
            entries.last().0@,
            entries.last().1,
        ));
        assert(entries_map(t) =~= entries_map(entries).remove(key));
    }
}

/// A duplicate-free entry list has exactly one entry per claimed proof, so
/// its length is the size of the denoted map.
proof fn lemma_entries_map_len(entries: Seq<(Vec<u8>, ClaimRecord)>)
    requires
        distinct_keys(entries),
    ensures
        entries_map(entries).dom().finite(),
        entries_map(entries).len() == entries.len(),
    decreases entries.len(),
{
    broadcast use vstd::set::axiom_set_empty_len;

    if entries.len() == 0 {
        assert(entries_map(entries).dom() =~= Set::<Seq<u8>>::empty());
    } else {
        let prefix = entries.drop_last();
        let key = entries.last().0@;
        lemma_distinct_drop_last(entries);
        lemma_entries_map_len(prefix);
        lemma_entries_map_contains(prefix, key);
        assert(!entries_map(prefix).contains_key(key));
        assert(entries_map(entries).dom() =~= entries_map(prefix).dom().insert(key));
        vstd::set::axiom_set_insert_len(entries_map(prefix).dom(), key);
        vstd::set::axiom_set_insert_finite(entries_map(prefix).dom(), key);
    }
}

/// Appending an event to the log appends its value to the log's view.
proof fn lemma_events_view_push(events: Seq<Event>, e: Event)
    ensures
        events_view(events.push(e)) == events_view(events).push(e@),
{
    assert(events_view(events.push(e)) =~= events_view(events).push(e@));
}

/// The position of `proof_bytes` in the entry list, if it is claimed.
fn find_entry(entries: &Vec<(Vec<u8>, ClaimRecord)>, proof_bytes: &Vec<u8>) -> (r: Option<
    usize,
>)
    ensures
        match r {
            Some(i) => i < entries@.len() && entries@[i as int].0@ == proof_bytes@,
            None => forall|k: int|
                0 <= k < entries@.len() ==> entries@[k].0@ != proof_bytes@,
        },
{
    let n = entries.len();
    let mut i: usize = 0;
    while i < n
        invariant
            n == entries@.len(),
            i <= n,
            forall|k: int| 0 <= k < i ==> entries@[k].0@ != proof_bytes@,
        decreases n - i,
    {
        if bytes_eq(&entries[i].0, proof_bytes) {
            return Some(i);
        }
        i += 1;
    }
    None
}

} // verus!

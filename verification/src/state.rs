//! The abstract state machine of the claim registry.
//!
//! A registry is modelled as a partial map from proof bytes to the record of
//! the claim that holds them.  Each of the three transitions — create, revoke,
//! transfer — is described here by a guard (when it is allowed) and a step
//! function (the state it produces).  The executable registry in
//! [`crate::pallet`] is proved to follow exactly these transitions.

use vstd::prelude::*;

verus! {

/// The identity of an authenticated caller, as resolved by the host before a
/// call reaches the registry.
pub type AccountId = u64;

/// The host's block counter, used as a creation timestamp for claims.
pub type BlockNumber = u64;

/// The value stored for a claimed proof: the principal currently entitled to
/// revoke or transfer it, and the block height at which the claim was first
/// created.  `created_at` is set once, at creation, and is never changed by a
/// transfer of ownership.
#[derive(Clone, Copy, PartialEq, Eq, Structural, Debug)]
pub struct ClaimRecord {
    pub owner: AccountId,
    pub created_at: BlockNumber,
}

/// The abstract registry state: which proofs are claimed, and by whom.
pub type RegistryView = Map<Seq<u8>, ClaimRecord>;

/// A claim for `proof_bytes` may be created exactly when no claim holds it.
pub open spec fn create_ok(m: RegistryView, proof_bytes: Seq<u8>) -> bool {
    !m.contains_key(proof_bytes)
}

/// The registry after `caller` successfully claims `proof_bytes` at block
/// `height`.
pub open spec fn create_step(
    m: RegistryView,
    caller: AccountId,
    proof_bytes: Seq<u8>,
    height: BlockNumber,
) -> RegistryView {
    m.insert(proof_bytes, ClaimRecord { owner: caller, created_at: height })
}

/// Revocation and transfer are authorized exactly when the proof is claimed
/// and the caller is its recorded owner.
pub open spec fn owner_ok(m: RegistryView, caller: AccountId, proof_bytes: Seq<u8>) -> bool {
    m.contains_key(proof_bytes) && m[proof_bytes].owner == caller
}

/// The registry after the claim on `proof_bytes` is successfully revoked.
pub open spec fn revoke_step(m: RegistryView, proof_bytes: Seq<u8>) -> RegistryView {
    m.remove(proof_bytes)
}

/// The registry after the claim on `proof_bytes` is successfully handed to
/// `new_owner`: only the owner field changes, the creation height is kept.
pub open spec fn transfer_step(
    m: RegistryView,
    proof_bytes: Seq<u8>,
    new_owner: AccountId,
) -> RegistryView {
    m.insert(
        proof_bytes,
        ClaimRecord { owner: new_owner, created_at: m[proof_bytes].created_at },
    )
}

/// Law: a successful transfer leaves the claim in place with the new owner and
/// the original creation height, and the new owner is in turn authorized to
/// revoke or transfer it (so a chain of transfers goes through).
pub proof fn lemma_transfer_enables_new_owner(
    m: RegistryView,
    caller: AccountId,
    proof_bytes: Seq<u8>,
    new_owner: AccountId,
)
    requires
        owner_ok(m, caller, proof_bytes),
    ensures
        transfer_step(m, proof_bytes, new_owner).contains_key(proof_bytes),
        transfer_step(m, proof_bytes, new_owner)[proof_bytes].owner == new_owner,
        transfer_step(m, proof_bytes, new_owner)[proof_bytes].created_at
            == m[proof_bytes].created_at,
        owner_ok(transfer_step(m, proof_bytes, new_owner), new_owner, proof_bytes),
{
}

/// Law: creating a claim and then revoking it restores the registry to
/// exactly the state it had before the creation; in between, the creator is
/// the owner and so is authorized to perform the revocation.
pub proof fn lemma_create_then_revoke(
    m: RegistryView,
    caller: AccountId,
    proof_bytes: Seq<u8>,
    height: BlockNumber,
)
    requires
        create_ok(m, proof_bytes),
    ensures
        owner_ok(create_step(m, caller, proof_bytes, height), caller, proof_bytes),
        revoke_step(create_step(m, caller, proof_bytes, height), proof_bytes) == m,
{
    assert(revoke_step(create_step(m, caller, proof_bytes, height), proof_bytes) =~= m);
}

} // verus!

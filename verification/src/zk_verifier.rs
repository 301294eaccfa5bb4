//! Oracle-attested verification of zero-knowledge proofs.
//!
//! Registered oracles attest that a proof is valid for a claim; only the
//! SHA-256 digests of both are kept. A claim verifies while an attestation
//! for the exact (proof, claim) pair exists and its oracle is still
//! registered: revoking an oracle withdraws every attestation it made.
//! Each attested pair gets a stable credential ID, starting at 1.
use vstd::prelude::*;
use crate::digest::{sha256, sha256_of, DigestPair, HASH_INPUT_LIMIT};
use crate::keymap::KeyMap;
use crate::strmap::StrMap;

verus! {

/// Largest proof accepted, in bytes.
pub const MAX_PROOF_SIZE: u32 = 4096;

/// Largest claim accepted, in bytes.
pub const MAX_CLAIM_SIZE: u32 = 1024;

/// Largest dispute reason accepted, in bytes.
pub const MAX_REASON_SIZE: u32 = 1024;

/// Concurring oracle votes needed to resolve a dispute by default.
pub const DEFAULT_DISPUTE_THRESHOLD: u32 = 3;

/// Why a verifier call is refused.
#[derive(Copy, Clone, Debug, PartialEq, Eq, Structural)]
pub enum VerifierError {
    /// Proof bytes were empty.
    EmptyProof,
    /// Claim bytes were empty.
    EmptyClaim,
    /// Proof bytes exceed `MAX_PROOF_SIZE`.
    ProofTooLarge,
    /// Claim bytes exceed `MAX_CLAIM_SIZE`.
    ClaimTooLarge,
    /// The contract has already been initialized.
    AlreadyInitialized,
    /// The contract has not been initialized.
    NotInitialized,
    /// The oracle is not registered.
    OracleNotFound,
    /// The proof is not a valid conditional proof encoding.
    MalformedConditionalProof,
}

impl VerifierError {
    /// The contract error code.
    pub fn code(&self) -> (c: u32)
        ensures
            c == match *self {
                VerifierError::EmptyProof => 1u32,
                VerifierError::EmptyClaim => 2u32,
                VerifierError::ProofTooLarge => 3u32,
                VerifierError::ClaimTooLarge => 4u32,
                VerifierError::AlreadyInitialized => 5u32,
                VerifierError::NotInitialized => 6u32,
                VerifierError::OracleNotFound => 7u32,
                VerifierError::MalformedConditionalProof => 8u32,
            },
    {
        match self {
            VerifierError::EmptyProof => 1,
            VerifierError::EmptyClaim => 2,
            VerifierError::ProofTooLarge => 3,
            VerifierError::ClaimTooLarge => 4,
            VerifierError::AlreadyInitialized => 5,
            VerifierError::NotInitialized => 6,
            VerifierError::OracleNotFound => 7,
            VerifierError::MalformedConditionalProof => 8,
        }
    }
}

/// A conditional ("prove X if Y, else prove Z") proof bundle.
#[derive(Debug)]
pub struct ConditionalProof {
    /// Proof that the condition claim (Y) holds.
    pub condition_proof: Vec<u8>,
    /// Claim X, checked when the condition holds.
    pub then_claim: Vec<u8>,
    /// Proof of claim X.
    pub then_proof: Vec<u8>,
    /// Claim Z, checked when the condition does not hold.
    pub else_claim: Vec<u8>,
    /// Proof of claim Z.
    pub else_proof: Vec<u8>,
}

/// A stored attestation.
#[derive(Debug)]
pub struct AttestationRecord {
    pub credential_id: u64,
    /// The attesting oracle's address.
    pub oracle: String,
}

impl View for AttestationRecord {
    type V = AttestationRecord;

    open spec fn view(&self) -> AttestationRecord {
        *self
    }
}

/// State of a credential dispute.
#[derive(Copy, Clone, Debug, PartialEq, Eq, Structural)]
pub enum DisputeStatus {
    /// Open for voting.
    Open,
    /// The credential was found invalid.
    Upheld,
    /// The credential was found valid.
    Rejected,
}

/// A dispute against a credential.
#[derive(Debug)]
pub struct Dispute {
    pub id: u64,
    pub credential_id: u64,
    pub initiator: String,
    pub reason: Vec<u8>,
    pub status: DisputeStatus,
    /// Votes asserting the credential is invalid.
    pub votes_for: u32,
    /// Votes asserting the credential remains valid.
    pub votes_against: u32,
    pub created_at: u64,
    /// Ledger timestamp of resolution, or 0 while open.
    pub resolved_at: u64,
}

/// Outcome of verifying a claim.
#[derive(Copy, Clone, Debug, PartialEq, Eq)]
pub struct ClaimVerification {
    pub verified: bool,
    /// SHA-256 of the claim.
    pub claim_hash: [u8; 32],
}

/// Outcome of verifying a conditional proof.
#[derive(Copy, Clone, Debug, PartialEq, Eq)]
pub struct ConditionalVerification {
    /// Whether the selected branch verified.
    pub verified: bool,
    /// Whether the condition verified.
    pub condition_verified: bool,
    /// SHA-256 of the selected branch's claim.
    pub claim_hash: [u8; 32],
}

// ---------------------------------------------------------------------------
// Specification
// ---------------------------------------------------------------------------

/// The first size or emptiness check a (proof, claim) pair fails.
pub open spec fn input_error(proof: Seq<u8>, claim: Seq<u8>) -> Option<VerifierError> {
    if proof.len() == 0 {
        Some(VerifierError::EmptyProof)
    } else if proof.len() > MAX_PROOF_SIZE {
        Some(VerifierError::ProofTooLarge)
    } else if claim.len() == 0 {
        Some(VerifierError::EmptyClaim)
    } else if claim.len() > MAX_CLAIM_SIZE {
        Some(VerifierError::ClaimTooLarge)
    } else {
        None
    }
}

/// The attestation key of a (proof, claim) pair.
pub open spec fn key_of(proof: Seq<u8>, claim: Seq<u8>) -> (Seq<u8>, Seq<u8>) {
    (sha256_of(proof), sha256_of(claim))
}

/// Whether the pair is attested by an oracle that is still registered.
pub open spec fn attested(
    attestations: Map<(Seq<u8>, Seq<u8>), AttestationRecord>,
    oracles: Set<Seq<char>>,
    proof: Seq<u8>,
    claim: Seq<u8>,
) -> bool {
    let k = key_of(proof, claim);
    attestations.contains_key(k) && oracles.contains(attestations[k].oracle@)
}

// ---------------------------------------------------------------------------
// Contract state
// ---------------------------------------------------------------------------

/// The verifier's state: its admin, registered oracles, attestations by
/// (proof digest, claim digest), and the digest pair of each credential.
#[derive(Debug)]
pub struct ZkVerifierContract {
    admin: Option<String>,
    oracles: StrMap<bool>,
    attestations: KeyMap<DigestPair, AttestationRecord>,
    credentials: Vec<DigestPair>,
}

impl ZkVerifierContract {
    /// The maps are well formed, and every attestation names a credential.
    pub closed spec fn wf(&self) -> bool {
        &&& self.oracles.wf()
        &&& forall|k: Seq<char>| #[trigger] self.oracles@.contains_key(k) ==> self.oracles@[k]
        &&& self.attestations.wf()
        &&& forall|k: (Seq<u8>, Seq<u8>)| #[trigger]
            self.attestations@.contains_key(k) ==> 1 <= self.attestations@[k].credential_id
                <= self.credentials@.len()
    }

    /// The admin, once initialized.
    pub closed spec fn admin_value(&self) -> Option<Seq<char>> {
        match self.admin {
            Some(a) => Some(a@),
            None => None,
        }
    }

    /// The registered oracles.
    pub closed spec fn oracle_set(&self) -> Set<Seq<char>> {
        self.oracles@.dom()
    }

    /// The attestations, by (proof digest, claim digest).
    pub closed spec fn attestation_map(&self) -> Map<(Seq<u8>, Seq<u8>), AttestationRecord> {
        self.attestations@
    }

    /// The number of credentials issued.
    pub closed spec fn credential_count(&self) -> nat {
        self.credentials@.len()
    }

    /// The digest pair of credential `id` (IDs start at 1).
    pub closed spec fn credential_key(&self, id: int) -> (Seq<u8>, Seq<u8>) {
        self.credentials@[id - 1]@
    }

    /// A contract before initialization.
    pub fn new() -> (c: Self)
        ensures
            c.wf(),
            c.admin_value() is None,
            c.oracle_set() == Set::<Seq<char>>::empty(),
            c.attestation_map() == Map::<(Seq<u8>, Seq<u8>), AttestationRecord>::empty(),
            c.credential_count() == 0,
    {
        let c = ZkVerifierContract {
            admin: None,
            oracles: StrMap::new(),
            attestations: KeyMap::new(),
            credentials: Vec::new(),
        };
        proof {
            assert(c.oracle_set() =~= Set::<Seq<char>>::empty());
        }
        c
    }

    /// Sets the admin; refused once initialized.
    pub fn initialize(&mut self, admin: String) -> (r: Result<(), VerifierError>)
        requires
            old(self).wf(),
        ensures
            final(self).wf(),
            old(self).admin_value() is Some ==> r == Err::<(), VerifierError>(
                VerifierError::AlreadyInitialized,
            ) && *final(self) == *old(self),
            old(self).admin_value() is None ==> r is Ok && final(self).admin_value() == Some(admin@)
                && final(self).oracle_set() == old(self).oracle_set()
                && final(self).attestation_map() == old(self).attestation_map()
                && final(self).credential_count() == old(self).credential_count(),
    {
        if self.admin.is_some() {
            return Err(VerifierError::AlreadyInitialized);
        }
        self.admin = Some(admin);
        Ok(())
    }

    /// The admin, once initialized.
    pub fn admin(&self) -> (r: Option<&String>)
        ensures
            match r {
                Some(a) => self.admin_value() == Some(a@),
                None => self.admin_value() is None,
            },
    {
        match &self.admin {
            Some(a) => Some(a),
            None => None,
        }
    }

    /// Registers a trusted oracle; refused before initialization.
    pub fn register_oracle(&mut self, oracle: String) -> (r: Result<(), VerifierError>)
        requires
            old(self).wf(),
        ensures
            final(self).wf(),
            final(self).admin_value() == old(self).admin_value(),
            final(self).attestation_map() == old(self).attestation_map(),
            final(self).credential_count() == old(self).credential_count(),
            old(self).admin_value() is None ==> r == Err::<(), VerifierError>(
                VerifierError::NotInitialized,
            ) && final(self).oracle_set() == old(self).oracle_set(),
            old(self).admin_value() is Some ==> r is Ok && final(self).oracle_set() == old(
                self,
            ).oracle_set().insert(oracle@),
    {
        if self.admin.is_none() {
            return Err(VerifierError::NotInitialized);
        }
        let ghost k = oracle@;
        self.oracles.insert(oracle, true);
        proof {
            assert(self.oracle_set() =~= old(self).oracle_set().insert(k));
        }
        Ok(())
    }

    /// Revokes a trusted oracle; refused before initialization.
    pub fn revoke_oracle(&mut self, oracle: &str) -> (r: Result<(), VerifierError>)
        requires
            old(self).wf(),
        ensures
            final(self).wf(),
            final(self).admin_value() == old(self).admin_value(),
            final(self).attestation_map() == old(self).attestation_map(),
            final(self).credential_count() == old(self).credential_count(),
            old(self).admin_value() is None ==> r == Err::<(), VerifierError>(
                VerifierError::NotInitialized,
            ) && final(self).oracle_set() == old(self).oracle_set(),
            old(self).admin_value() is Some ==> r is Ok && final(self).oracle_set() == old(
                self,
            ).oracle_set().remove(oracle@),
    {
        if self.admin.is_none() {
            return Err(VerifierError::NotInitialized);
        }
        self.oracles.remove(oracle);
        proof {
            assert(self.oracle_set() =~= old(self).oracle_set().remove(oracle@));
        }
        Ok(())
    }

    /// Whether `oracle` is registered.
    pub fn is_oracle(&self, oracle: &str) -> (r: bool)
        requires
            self.wf(),
        ensures
            r == self.oracle_set().contains(oracle@),
    {
        match self.oracles.get(oracle) {
            Some(v) => *v,
            None => false,
        }
    }

    /// A registered oracle attests that `proof` is valid for `claim`;
    /// returns the pair's credential ID, a fresh one (the count plus one)
    /// the first time the pair is attested.
    pub fn attest(&mut self, oracle: String, proof: &[u8], claim: &[u8]) -> (r: Result<
        u64,
        VerifierError,
    >)
        requires
            old(self).wf(),
            old(self).credential_count() < u64::MAX,
            proof@.len() <= HASH_INPUT_LIMIT,
            claim@.len() <= HASH_INPUT_LIMIT,
        ensures
            final(self).wf(),
            final(self).admin_value() == old(self).admin_value(),
            final(self).oracle_set() == old(self).oracle_set(),
            proof@.len() == 0 ==> r == Err::<u64, VerifierError>(VerifierError::EmptyProof),
            proof@.len() > 0 && claim@.len() == 0 ==> r == Err::<u64, VerifierError>(
                VerifierError::EmptyClaim,
            ),
            proof@.len() > 0 && claim@.len() > 0 && !old(self).oracle_set().contains(oracle@)
                ==> r == Err::<u64, VerifierError>(VerifierError::OracleNotFound),
            proof@.len() > 0 && claim@.len() > 0 && old(self).oracle_set().contains(oracle@) ==> r is Ok,
            r is Err ==> *final(self) == *old(self),
            r is Ok ==> {
                let k = key_of(proof@, claim@);
                let id = r->Ok_0;
                &&& proof@.len() > 0 && claim@.len() > 0 && old(self).oracle_set().contains(oracle@)
                &&& old(self).attestation_map().contains_key(k) ==> id == old(
                    self,
                ).attestation_map()[k].credential_id && final(self).credential_count() == old(
                    self,
                ).credential_count()
                &&& !old(self).attestation_map().contains_key(k) ==> id == old(self).credential_count()
                    + 1 && final(self).credential_count() == id && final(self).credential_key(
                    id as int,
                ) == k
                &&& final(self).attestation_map() == old(self).attestation_map().insert(
                    k,
                    AttestationRecord { credential_id: id, oracle },
                )
            },
    {
        if proof.len() == 0 {
            return Err(VerifierError::EmptyProof);
        }
        if claim.len() == 0 {
            return Err(VerifierError::EmptyClaim);
        }
        if !self.is_oracle(oracle.as_str()) {
            return Err(VerifierError::OracleNotFound);
        }
        let key = DigestPair { first: sha256(proof), second: sha256(claim) };
        let credential_id = match self.attestations.get(&key) {
            Some(existing) => existing.credential_id,
            None => {
                let id = self.credentials.len() as u64 + 1;
                self.credentials.push(key);
                id
            },
        };
        let ghost pre_map = self.attestations@;
        let record = AttestationRecord { credential_id, oracle };
        let ghost rec = record;
        self.attestations.insert(key, record);
        proof {
            assert forall|k: (Seq<u8>, Seq<u8>)| #[trigger]
                self.attestations@.contains_key(k) implies 1 <= self.attestations@[k].credential_id
                <= self.credentials@.len() by {
                if k != key@ {
                    assert(pre_map.contains_key(k));
                }
            }
        }
        Ok(credential_id)
    }

    /// Checks a (proof, claim) pair: refused when either is empty or too
    /// large; otherwise whether it is attested by a registered oracle.
    fn verify_internal(&self, proof: &[u8], claim: &[u8]) -> (r: Result<bool, VerifierError>)
        requires
            self.wf(),
        ensures
            match input_error(proof@, claim@) {
                Some(e) => r == Err::<bool, VerifierError>(e),
                None => r == Ok::<bool, VerifierError>(
                    attested(self.attestation_map(), self.oracle_set(), proof@, claim@),
                ),
            },
    {
        if proof.len() == 0 {
            return Err(VerifierError::EmptyProof);
        }
        if proof.len() > MAX_PROOF_SIZE as usize {
            return Err(VerifierError::ProofTooLarge);
        }
        if claim.len() == 0 {
            return Err(VerifierError::EmptyClaim);
        }
        if claim.len() > MAX_CLAIM_SIZE as usize {
            return Err(VerifierError::ClaimTooLarge);
        }
        let key = DigestPair { first: sha256(proof), second: sha256(claim) };
        match self.attestations.get(&key) {
            Some(record) => Ok(self.is_oracle(record.oracle.as_str())),
            None => Ok(false),
        }
    }

    /// Verifies a claim by oracle attestation (see `attested`), with the
    /// claim's digest.
    pub fn verify_claim(&self, proof: &[u8], claim: &[u8]) -> (r: Result<
        ClaimVerification,
        VerifierError,
    >)
        requires
            self.wf(),
        ensures
            match input_error(proof@, claim@) {
                Some(e) => r == Err::<ClaimVerification, VerifierError>(e),
                None => r matches Ok(v) && v.verified == attested(
                    self.attestation_map(),
                    self.oracle_set(),
                    proof@,
                    claim@,
                ) && v.claim_hash@ == sha256_of(claim@),
            },
    {
        match self.verify_internal(proof, claim) {
            Ok(verified) => Ok(ClaimVerification { verified, claim_hash: sha256(claim) }),
            Err(e) => Err(e),
        }
    }

    /// Verifies a conditional proof: the condition claim first, with the
    /// bundle's condition proof; then the `then` branch if it holds, the
    /// `else` branch otherwise.
    pub fn verify_conditional_proof(&self, bundle: &ConditionalProof, condition: &[u8]) -> (r:
        Result<ConditionalVerification, VerifierError>)
        requires
            self.wf(),
        ensures
            match input_error(bundle.condition_proof@, condition@) {
                Some(e) => r == Err::<ConditionalVerification, VerifierError>(e),
                None => {
                    let cond = attested(
                        self.attestation_map(),
                        self.oracle_set(),
                        bundle.condition_proof@,
                        condition@,
                    );
                    let proof = if cond {
                        bundle.then_proof@
                    } else {
                        bundle.else_proof@
                    };
                    let claim = if cond {
                        bundle.then_claim@
                    } else {
                        bundle.else_claim@
                    };
                    match input_error(proof, claim) {
                        Some(e) => r == Err::<ConditionalVerification, VerifierError>(e),
                        None => r matches Ok(v) && v.condition_verified == cond && v.verified
                            == attested(self.attestation_map(), self.oracle_set(), proof, claim)
                            && v.claim_hash@ == sha256_of(claim),
                    }
                },
            },
    {
        let condition_verified = match self.verify_internal(
            bundle.condition_proof.as_slice(),
            condition,
        ) {
            Ok(b) => b,
            Err(e) => {
                return Err(e);
            },
        };
        let (proof, claim) = if condition_verified {
            (bundle.then_proof.as_slice(), bundle.then_claim.as_slice())
        } else {
            (bundle.else_proof.as_slice(), bundle.else_claim.as_slice())
        };
        match self.verify_internal(proof, claim) {
            Ok(verified) => Ok(
                ConditionalVerification { verified, condition_verified, claim_hash: sha256(claim) },
            ),
            Err(e) => Err(e),
        }
    }
}

// ---------------------------------------------------------------------------
// Laws
// ---------------------------------------------------------------------------

/// A pair that a registered oracle has just attested verifies.
pub proof fn lemma_attested_pair_verifies(
    attestations: Map<(Seq<u8>, Seq<u8>), AttestationRecord>,
    oracles: Set<Seq<char>>,
    proof: Seq<u8>,
    claim: Seq<u8>,
    record: AttestationRecord,
)
    requires
        oracles.contains(record.oracle@),
    ensures
        attested(attestations.insert(key_of(proof, claim), record), oracles, proof, claim),
{
}

/// Revoking an oracle withdraws its attestations: a pair it attested no
/// longer verifies.
pub proof fn lemma_revoked_oracle_not_honored(
    attestations: Map<(Seq<u8>, Seq<u8>), AttestationRecord>,
    oracles: Set<Seq<char>>,
    proof: Seq<u8>,
    claim: Seq<u8>,
)
    requires
        attestations.contains_key(key_of(proof, claim)),
    ensures
        !attested(
            attestations,
            oracles.remove(attestations[key_of(proof, claim)].oracle@),
            proof,
            claim,
        ),
{
}

/// A pair that no oracle attested does not verify, whatever oracles are
/// registered.
pub proof fn lemma_unattested_pair_fails(
    attestations: Map<(Seq<u8>, Seq<u8>), AttestationRecord>,
    oracles: Set<Seq<char>>,
    proof: Seq<u8>,
    claim: Seq<u8>,
)
    requires
        !attestations.contains_key(key_of(proof, claim)),
    ensures
        !attested(attestations, oracles, proof, claim),
{
}

} // verus!

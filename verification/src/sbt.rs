//! Soulbound tokens: non-transferable, admin-issued badges bound to an
//! address.
//!
//! A token's holder changes only through recovery with a one-time recovery
//! code. On top of minting, the registry links tokens to identities vouched
//! for by trusted attestors (only hashes are kept), caches holder lookups
//! for a short while, migrates metadata between schema versions one step at
//! a time, and rate-limits recovery attempts.
use vstd::prelude::*;
use crate::digest::{same_digest, sha256, sha256_of, DigestPair, HASH_INPUT_LIMIT};
use crate::keymap::KeyMap;
use crate::strmap::StrMap;
use crate::text::str_eq;

verus! {

/// Metadata schema version newly minted tokens are issued at.
pub const CURRENT_SCHEMA_VERSION: u32 = 2;

/// Largest metadata accepted, in bytes.
pub const MAX_METADATA_SIZE: u32 = 4096;

/// Largest identity proof accepted, in bytes.
pub const MAX_IDENTITY_PROOF_SIZE: u32 = 4096;

/// How long a cached holder lookup stays fresh, in seconds.
pub const HOLDER_CACHE_TTL_SECONDS: u64 = 300;

/// Why a registry call is refused.
#[derive(Copy, Clone, Debug, PartialEq, Eq, Structural)]
pub enum SbtError {
    /// The contract has already been initialized.
    AlreadyInitialized,
    /// The contract has not been initialized.
    NotInitialized,
    /// The caller is not a registered identity attestor.
    NotAttestor,
    /// No token exists with the given ID.
    SbtNotFound,
    /// Metadata bytes were empty.
    EmptyMetadata,
    /// Metadata exceeds `MAX_METADATA_SIZE`.
    MetadataTooLarge,
    /// Proof bytes were empty.
    EmptyProof,
    /// Proof exceeds `MAX_IDENTITY_PROOF_SIZE`.
    ProofTooLarge,
    /// The token already has a linked identity.
    IdentityAlreadyLinked,
    /// The token has no linked identity.
    NoIdentityLinked,
    /// No matching attestation by a currently trusted attestor.
    AttestationNotFound,
    /// No migration step exists from this schema version.
    InvalidSchemaTransition,
    /// The token has no recovery codes.
    NoRecoveryCodes,
    /// Too many recovery attempts in the current window.
    RecoveryRateLimited,
}

impl SbtError {
    /// The contract error code.
    pub fn code(&self) -> (c: u32)
        ensures
            c == match *self {
                SbtError::AlreadyInitialized => 1u32,
                SbtError::NotInitialized => 2u32,
                SbtError::NotAttestor => 3u32,
                SbtError::SbtNotFound => 4u32,
                SbtError::EmptyMetadata => 5u32,
                SbtError::MetadataTooLarge => 6u32,
                SbtError::EmptyProof => 7u32,
                SbtError::ProofTooLarge => 8u32,
                SbtError::IdentityAlreadyLinked => 9u32,
                SbtError::NoIdentityLinked => 10u32,
                SbtError::AttestationNotFound => 11u32,
                SbtError::InvalidSchemaTransition => 12u32,
                SbtError::NoRecoveryCodes => 13u32,
                SbtError::RecoveryRateLimited => 14u32,
            },
    {
        match self {
            SbtError::AlreadyInitialized => 1,
            SbtError::NotInitialized => 2,
            SbtError::NotAttestor => 3,
            SbtError::SbtNotFound => 4,
            SbtError::EmptyMetadata => 5,
            SbtError::MetadataTooLarge => 6,
            SbtError::EmptyProof => 7,
            SbtError::ProofTooLarge => 8,
            SbtError::IdentityAlreadyLinked => 9,
            SbtError::NoIdentityLinked => 10,
            SbtError::AttestationNotFound => 11,
            SbtError::InvalidSchemaTransition => 12,
            SbtError::NoRecoveryCodes => 13,
            SbtError::RecoveryRateLimited => 14,
        }
    }
}

/// A soulbound token.
#[derive(Debug)]
pub struct Sbt {
    /// The holder's address.
    pub owner: String,
    pub metadata: Vec<u8>,
    pub schema_version: u32,
    pub issued_at: u64,
}

/// Abstract value of a token.
pub struct SbtView {
    pub owner: Seq<char>,
    pub metadata: Seq<u8>,
    pub schema_version: u32,
    pub issued_at: u64,
}

impl View for Sbt {
    type V = SbtView;

    open spec fn view(&self) -> SbtView {
        SbtView {
            owner: self.owner@,
            metadata: self.metadata@,
            schema_version: self.schema_version,
            issued_at: self.issued_at,
        }
    }
}

impl Clone for Sbt {
    fn clone(&self) -> (r: Self)
        ensures
            r@ == self@,
    {
        Sbt {
            owner: self.owner.clone(),
            metadata: vstd::slice::slice_to_vec(self.metadata.as_slice()),
            schema_version: self.schema_version,
            issued_at: self.issued_at,
        }
    }
}

/// A revealed identity link: only the identity's hash is kept.
#[derive(Debug)]
pub struct IdentityLink {
    pub identity_hash: [u8; 32],
    /// The attestor that vouched for the identity.
    pub attestor: String,
    pub linked_at: u64,
}

/// A cached holder lookup.
#[derive(Debug)]
pub struct HolderCacheEntry {
    pub holder: String,
    pub cached_at: u64,
    pub expires_at: u64,
}

impl Clone for IdentityLink {
    fn clone(&self) -> (r: Self)
        ensures
            r == *self,
    {
        IdentityLink {
            identity_hash: self.identity_hash,
            attestor: self.attestor.clone(),
            linked_at: self.linked_at,
        }
    }
}

impl Clone for HolderCacheEntry {
    fn clone(&self) -> (r: Self)
        ensures
            r == *self,
    {
        HolderCacheEntry {
            holder: self.holder.clone(),
            cached_at: self.cached_at,
            expires_at: self.expires_at,
        }
    }
}

/// Cumulative holder cache hits and misses.
#[derive(Copy, Clone, Debug, PartialEq, Eq, Structural)]
pub struct CacheStats {
    pub hits: u64,
    pub misses: u64,
}

/// Recovery attempts in the current rate-limit window.
#[derive(Copy, Clone, Debug, PartialEq, Eq, Structural)]
pub struct RecoveryAttemptState {
    pub attempt_count: u32,
    pub window_start: u64,
}

/// How recovery attempts are limited: at most `max_attempts` per window of
/// `window_seconds`.
#[derive(Copy, Clone, Debug, PartialEq, Eq, Structural)]
pub struct RecoveryPolicy {
    pub max_attempts: u32,
    pub window_seconds: u64,
}

/// Everything kept for one token.
#[derive(Debug)]
struct SbtRecord {
    sbt: Sbt,
    link: Option<IdentityLink>,
    holder_cache: Option<HolderCacheEntry>,
    recovery_codes: Option<Vec<[u8; 32]>>,
    attempts: Option<RecoveryAttemptState>,
}

/// Abstract value of everything kept for one token.
pub struct SbtRecordView {
    pub sbt: SbtView,
    pub link: Option<IdentityLink>,
    pub holder_cache: Option<HolderCacheEntry>,
    /// SHA-256 digests of the unused recovery codes.
    pub recovery_codes: Option<Seq<[u8; 32]>>,
    pub attempts: Option<RecoveryAttemptState>,
}

impl View for SbtRecord {
    type V = SbtRecordView;

    closed spec fn view(&self) -> SbtRecordView {
        SbtRecordView {
            sbt: self.sbt@,
            link: self.link,
            holder_cache: self.holder_cache,
            recovery_codes: match self.recovery_codes {
                Some(c) => Some(c@),
                None => None,
            },
            attempts: self.attempts,
        }
    }
}

impl Clone for SbtRecord {
    fn clone(&self) -> (r: Self)
        ensures
            r@ == self@,
    {
        SbtRecord {
            sbt: self.sbt.clone(),
            link: match &self.link {
                Some(l) => Some(l.clone()),
                None => None,
            },
            holder_cache: match &self.holder_cache {
                Some(e) => Some(e.clone()),
                None => None,
            },
            recovery_codes: match &self.recovery_codes {
                Some(c) => Some(vstd::slice::slice_to_vec(c.as_slice())),
                None => None,
            },
            attempts: self.attempts,
        }
    }
}

// ---------------------------------------------------------------------------
// Specification
// ---------------------------------------------------------------------------

/// One schema migration step from `from_version`: v1 metadata gets the
/// 1-byte schema tag 2 in front; no other step exists.
pub open spec fn migration_step(from_version: u32, metadata: Seq<u8>) -> Option<Seq<u8>> {
    if from_version == 1 {
        Some(seq![2u8] + metadata)
    } else {
        None
    }
}

/// Metadata migrated step by step from `from` up to `to`; `None` when a
/// step is missing.
pub open spec fn migrated(metadata: Seq<u8>, from: u32, to: u32) -> Option<Seq<u8>>
    decreases to - from,
{
    if from >= to {
        Some(metadata)
    } else {
        match migration_step(from, metadata) {
            Some(m) => migrated(m, (from + 1) as u32, to),
            None => None,
        }
    }
}

/// A call that keeps every token's holder (tokens may be added).
pub open spec fn holders_kept(pre: Seq<SbtRecordView>, post: Seq<SbtRecordView>) -> bool {
    &&& pre.len() <= post.len()
    &&& forall|i: int| 0 <= i < pre.len() ==> (#[trigger] post[i]).sbt.owner == pre[i].sbt.owner
}

/// A successful recovery of token `id` for holder `h`: its holder becomes
/// `h`, every other token keeps its own.
pub open spec fn holder_recovered(
    pre: Seq<SbtRecordView>,
    post: Seq<SbtRecordView>,
    id: int,
    h: Seq<char>,
) -> bool {
    &&& pre.len() == post.len()
    &&& 0 <= id < pre.len()
    &&& post[id].sbt.owner == h
    &&& forall|i: int| 0 <= i < pre.len() && i != id ==> (#[trigger] post[i]).sbt.owner == pre[i].sbt.owner
}

/// A call's effect on the cache counters: a holder check adds one to
/// exactly one of them; any other call leaves them.
pub open spec fn cache_stats_step(pre: CacheStats, post: CacheStats, check: bool) -> bool {
    if check {
        (post.hits == pre.hits + 1 && post.misses == pre.misses) || (post.hits == pre.hits
            && post.misses == pre.misses + 1)
    } else {
        post == pre
    }
}

/// Whether attestation `k` can be redeemed: it exists and its attestor is
/// still trusted.
pub open spec fn attestation_honored(
    amap: Map<(Seq<u8>, Seq<u8>), Seq<char>>,
    attestors: Set<Seq<char>>,
    k: (Seq<u8>, Seq<u8>),
) -> bool {
    amap.contains_key(k) && attestors.contains(amap[k])
}

/// The holders of all tokens, in ID order.
pub open spec fn owners(records: Seq<SbtRecordView>) -> Seq<Seq<char>> {
    records.map_values(|r: SbtRecordView| r.sbt.owner)
}

/// The attempt state a recovery attempt starts from: the stored one, reset
/// when its window has passed.
pub open spec fn window_state(
    stored: Option<RecoveryAttemptState>,
    now: u64,
    policy: RecoveryPolicy,
) -> RecoveryAttemptState {
    let s = match stored {
        Some(s) => s,
        None => RecoveryAttemptState { attempt_count: 0, window_start: now },
    };
    let elapsed = if now >= s.window_start {
        now - s.window_start
    } else {
        0
    };
    if elapsed >= policy.window_seconds {
        RecoveryAttemptState { attempt_count: 0, window_start: now }
    } else {
        s
    }
}

/// The position of the first stored hash equal to `h`, if any.
pub open spec fn first_hash(codes: Seq<[u8; 32]>, h: Seq<u8>) -> Option<int> {
    if exists|i: int| 0 <= i < codes.len() && (#[trigger] codes[i])@ == h {
        Some(
            choose|i: int|
                0 <= i < codes.len() && (#[trigger] codes[i])@ == h && forall|j: int|
                    0 <= j < i ==> codes[j]@ != h,
        )
    } else {
        None
    }
}

// ---------------------------------------------------------------------------
// Registry
// ---------------------------------------------------------------------------

/// The registry's state: its admin, the tokens (token `i` has ID `i`), the
/// trusted attestors, attestations by (identity hash, proof digest), and
/// the holder cache counters.
#[derive(Debug)]
pub struct SbtContract {
    admin: Option<String>,
    records: Vec<SbtRecord>,
    attestors: StrMap<bool>,
    attestations: KeyMap<DigestPair, String>,
    stats: CacheStats,
}

impl SbtContract {
    /// The maps are well formed, and every cached holder is the token's
    /// holder.
    pub closed spec fn wf(&self) -> bool {
        &&& self.attestors.wf()
        &&& forall|k: Seq<char>| #[trigger] self.attestors@.contains_key(k) ==> self.attestors@[k]
        &&& self.attestations.wf()
        &&& forall|i: int|
            0 <= i < self.records@.len() ==> ((#[trigger] self.records@[i])@.holder_cache matches Some(
                e,
            ) ==> e.holder@ == self.records@[i]@.sbt.owner)
    }

    /// The admin, once initialized.
    pub closed spec fn admin_value(&self) -> Option<Seq<char>> {
        match self.admin {
            Some(a) => Some(a@),
            None => None,
        }
    }

    /// Everything kept per token, in ID order.
    pub closed spec fn records(&self) -> Seq<SbtRecordView> {
        self.records@.map_values(|r: SbtRecord| r@)
    }

    /// The trusted attestors.
    pub closed spec fn attestor_set(&self) -> Set<Seq<char>> {
        self.attestors@.dom()
    }

    /// The attestations: (identity hash, proof digest) to attestor.
    pub closed spec fn attestation_map(&self) -> Map<(Seq<u8>, Seq<u8>), Seq<char>> {
        self.attestations@
    }

    /// The holder cache counters.
    pub closed spec fn stats(&self) -> CacheStats {
        self.stats
    }

    /// A registry before initialization.
    pub fn new() -> (c: Self)
        ensures
            c.wf(),
            c.admin_value() is None,
            c.records() == Seq::<SbtRecordView>::empty(),
            c.attestor_set() == Set::<Seq<char>>::empty(),
            c.attestation_map() == Map::<(Seq<u8>, Seq<u8>), Seq<char>>::empty(),
            c.stats() == (CacheStats { hits: 0, misses: 0 }),
    {
        let c = SbtContract {
            admin: None,
            records: Vec::new(),
            attestors: StrMap::new(),
            attestations: KeyMap::new(),
            stats: CacheStats { hits: 0, misses: 0 },
        };
        proof {
            assert(c.records() =~= Seq::<SbtRecordView>::empty());
            assert(c.attestor_set() =~= Set::<Seq<char>>::empty());
        }
        c
    }

    /// Sets the admin, the sole issuer; refused once initialized.
    pub fn initialize(&mut self, admin: String) -> (r: Result<(), SbtError>)
        requires
            old(self).wf(),
        ensures
            final(self).wf(),
            holders_kept(old(self).records(), final(self).records()),
            cache_stats_step(old(self).stats(), final(self).stats(), false),
            old(self).admin_value() is Some ==> r == Err::<(), SbtError>(SbtError::AlreadyInitialized)
                && final(self).admin_value() == old(self).admin_value(),
            old(self).admin_value() is None ==> r is Ok && final(self).admin_value() == Some(admin@),
            final(self).records() == old(self).records(),
            final(self).attestor_set() == old(self).attestor_set(),
            final(self).attestation_map() == old(self).attestation_map(),
            final(self).stats() == old(self).stats(),
    {
        if self.admin.is_some() {
            return Err(SbtError::AlreadyInitialized);
        }
        self.admin = Some(admin);
        Ok(())
    }

    /// The admin, once initialized.
    pub fn admin(&self) -> (r: Option<&String>)
        ensures
            match r {
                Some(a) => self.admin_value() == Some(a@),
                None => self.admin_value() is None,
            },
    {
        match &self.admin {
            Some(a) => Some(a),
            None => None,
        }
    }

    /// Mints a token to `owner` at ledger time `now`, at the current schema
    /// version; returns its ID (the number of tokens before).
    pub fn mint_sbt(&mut self, owner: String, metadata: Vec<u8>, now: u64) -> (r: Result<u64, SbtError>)
        requires
            old(self).wf(),
            old(self).records().len() < u64::MAX,
        ensures
            final(self).wf(),
            holders_kept(old(self).records(), final(self).records()),
            cache_stats_step(old(self).stats(), final(self).stats(), false),
            final(self).admin_value() == old(self).admin_value(),
            final(self).attestor_set() == old(self).attestor_set(),
            final(self).attestation_map() == old(self).attestation_map(),
            final(self).stats() == old(self).stats(),
            old(self).admin_value() is None ==> r == Err::<u64, SbtError>(SbtError::NotInitialized),
            old(self).admin_value() is Some && metadata@.len() == 0 ==> r == Err::<u64, SbtError>(
                SbtError::EmptyMetadata,
            ),
            old(self).admin_value() is Some && metadata@.len() > MAX_METADATA_SIZE ==> r == Err::<
                u64,
                SbtError,
            >(SbtError::MetadataTooLarge),
            old(self).admin_value() is Some && 0 < metadata@.len() <= MAX_METADATA_SIZE ==> r is Ok,
            r is Err ==> final(self).records() == old(self).records(),
            r is Ok ==> old(self).admin_value() is Some && 0 < metadata@.len() <= MAX_METADATA_SIZE
                && r->Ok_0 == old(self).records().len() && final(self).records() == old(
                self,
            ).records().push(
                SbtRecordView {
                    sbt: SbtView {
                        owner: owner@,
                        metadata: metadata@,
                        schema_version: CURRENT_SCHEMA_VERSION,
                        issued_at: now,
                    },
                    link: None,
                    holder_cache: None,
                    recovery_codes: None,
                    attempts: None,
                },
            ),
    {
        if self.admin.is_none() {
            return Err(SbtError::NotInitialized);
        }
        if metadata.len() == 0 {
            return Err(SbtError::EmptyMetadata);
        }
        if metadata.len() > MAX_METADATA_SIZE as usize {
            return Err(SbtError::MetadataTooLarge);
        }
        let sbt_id = self.records.len() as u64;
        let ghost pre = self.records();
        let record = SbtRecord {
            sbt: Sbt { owner, metadata, schema_version: CURRENT_SCHEMA_VERSION, issued_at: now },
            link: None,
            holder_cache: None,
            recovery_codes: None,
            attempts: None,
        };
        let ghost rv = record@;
        self.records.push(record);
        proof {
            assert(self.records() =~= pre.push(rv));
        }
        Ok(sbt_id)
    }

    /// The token with ID `sbt_id`.
    fn load(&self, sbt_id: u64) -> (r: Option<&SbtRecord>)
        ensures
            sbt_id < self.records().len() ==> (r matches Some(rec) && rec@ == self.records()[sbt_id as int]),
            sbt_id >= self.records().len() ==> r is None,
    {
        if sbt_id < self.records.len() as u64 {
            Some(&self.records[sbt_id as usize])
        } else {
            None
        }
    }

    /// Replaces the record of token `sbt_id`.
    fn store(&mut self, sbt_id: u64, rec: SbtRecord)
        requires
            old(self).wf(),
            sbt_id < old(self).records().len(),
            rec@.holder_cache matches Some(e) ==> e.holder@ == rec@.sbt.owner,
        ensures
            final(self).wf(),
            final(self).records() == old(self).records().update(sbt_id as int, rec@),
            final(self).admin_value() == old(self).admin_value(),
            final(self).attestor_set() == old(self).attestor_set(),
            final(self).attestation_map() == old(self).attestation_map(),
            final(self).stats() == old(self).stats(),
    {
        let ghost rv = rec@;
        let n = self.records.len();
        assert(self.records().len() == n);
        self.records.set(sbt_id as usize, rec);
        proof {
            assert forall|j: int| 0 <= j < self.records@.len() implies #[trigger] self.records()[j]
                == old(self).records().update(sbt_id as int, rv)[j] by {
                if j != sbt_id {
                    assert(self.records@[j] == old(self).records@[j]);
                }
            }
            assert(self.records() =~= old(self).records().update(sbt_id as int, rv));
            assert forall|i: int| 0 <= i < self.records@.len() implies ((#[trigger] self.records@[i])@.holder_cache matches Some(
                e,
            ) ==> e.holder@ == self.records@[i]@.sbt.owner) by {
                if i != sbt_id {
                    assert(self.records@[i] == old(self).records@[i]);
                }
            }
        }
    }

    /// The holder of a token.
    pub fn get_holder(&self, sbt_id: u64) -> (r: Result<String, SbtError>)
        ensures
            sbt_id < self.records().len() ==> (r matches Ok(h) && h@ == self.records()[sbt_id as int].sbt.owner),
            sbt_id >= self.records().len() ==> r == Err::<String, SbtError>(SbtError::SbtNotFound),
    {
        match self.load(sbt_id) {
            Some(rec) => Ok(rec.sbt.owner.clone()),
            None => Err(SbtError::SbtNotFound),
        }
    }

    /// The metadata of a token.
    pub fn get_metadata(&self, sbt_id: u64) -> (r: Result<Vec<u8>, SbtError>)
        ensures
            sbt_id < self.records().len() ==> (r matches Ok(m) && m@ == self.records()[sbt_id as int].sbt.metadata),
            sbt_id >= self.records().len() ==> r is Err && r->Err_0 == SbtError::SbtNotFound,
    {
        match self.load(sbt_id) {
            Some(rec) => Ok(vstd::slice::slice_to_vec(rec.sbt.metadata.as_slice())),
            None => Err(SbtError::SbtNotFound),
        }
    }

    /// The schema version of a token's metadata.
    pub fn get_schema_version(&self, sbt_id: u64) -> (r: Result<u32, SbtError>)
        ensures
            sbt_id < self.records().len() ==> r == Ok::<u32, SbtError>(
                self.records()[sbt_id as int].sbt.schema_version,
            ),
            sbt_id >= self.records().len() ==> r == Err::<u32, SbtError>(SbtError::SbtNotFound),
    {
        match self.load(sbt_id) {
            Some(rec) => Ok(rec.sbt.schema_version),
            None => Err(SbtError::SbtNotFound),
        }
    }
}

impl SbtContract {
    /// Grants `attestor` the ability to publish identity attestations;
    /// refused before initialization.
    pub fn add_attestor(&mut self, attestor: String) -> (r: Result<(), SbtError>)
        requires
            old(self).wf(),
        ensures
            final(self).wf(),
            holders_kept(old(self).records(), final(self).records()),
            cache_stats_step(old(self).stats(), final(self).stats(), false),
            final(self).admin_value() == old(self).admin_value(),
            final(self).records() == old(self).records(),
            final(self).attestation_map() == old(self).attestation_map(),
            final(self).stats() == old(self).stats(),
            old(self).admin_value() is None ==> r == Err::<(), SbtError>(SbtError::NotInitialized)
                && final(self).attestor_set() == old(self).attestor_set(),
            old(self).admin_value() is Some ==> r is Ok && final(self).attestor_set() == old(
                self,
            ).attestor_set().insert(attestor@),
    {
        if self.admin.is_none() {
            return Err(SbtError::NotInitialized);
        }
        let ghost k = attestor@;
        self.attestors.insert(attestor, true);
        proof {
            assert(self.attestor_set() =~= old(self).attestor_set().insert(k));
        }
        Ok(())
    }

    /// Revokes an attestor; links it made stay, but its outstanding
    /// attestations can no longer be redeemed. Refused before
    /// initialization.
    pub fn remove_attestor(&mut self, attestor: &str) -> (r: Result<(), SbtError>)
        requires
            old(self).wf(),
        ensures
            final(self).wf(),
            holders_kept(old(self).records(), final(self).records()),
            cache_stats_step(old(self).stats(), final(self).stats(), false),
            final(self).admin_value() == old(self).admin_value(),
            final(self).records() == old(self).records(),
            final(self).attestation_map() == old(self).attestation_map(),
            final(self).stats() == old(self).stats(),
            old(self).admin_value() is None ==> r == Err::<(), SbtError>(SbtError::NotInitialized)
                && final(self).attestor_set() == old(self).attestor_set(),
            old(self).admin_value() is Some ==> r is Ok && final(self).attestor_set() == old(
                self,
            ).attestor_set().remove(attestor@),
    {
        if self.admin.is_none() {
            return Err(SbtError::NotInitialized);
        }
        self.attestors.remove(attestor);
        proof {
            assert(self.attestor_set() =~= old(self).attestor_set().remove(attestor@));
        }
        Ok(())
    }

    /// Whether `attestor` is trusted.
    pub fn is_attestor(&self, attestor: &str) -> (r: bool)
        requires
            self.wf(),
        ensures
            r == self.attestor_set().contains(attestor@),
    {
        match self.attestors.get(attestor) {
            Some(v) => *v,
            None => false,
        }
    }

    /// A trusted attestor commits that `identity_hash` is backed by `proof`;
    /// only the proof's digest is kept.
    pub fn register_identity_attestation(
        &mut self,
        attestor: String,
        identity_hash: [u8; 32],
        proof: &[u8],
    ) -> (r: Result<(), SbtError>)
        requires
            old(self).wf(),
        ensures
            final(self).wf(),
            holders_kept(old(self).records(), final(self).records()),
            cache_stats_step(old(self).stats(), final(self).stats(), false),
            final(self).admin_value() == old(self).admin_value(),
            final(self).records() == old(self).records(),
            final(self).attestor_set() == old(self).attestor_set(),
            final(self).stats() == old(self).stats(),
            proof@.len() == 0 ==> r == Err::<(), SbtError>(SbtError::EmptyProof),
            proof@.len() > MAX_IDENTITY_PROOF_SIZE ==> r == Err::<(), SbtError>(
                SbtError::ProofTooLarge,
            ),
            0 < proof@.len() <= MAX_IDENTITY_PROOF_SIZE && !old(self).attestor_set().contains(
                attestor@,
            ) ==> r == Err::<(), SbtError>(SbtError::NotAttestor),
            0 < proof@.len() <= MAX_IDENTITY_PROOF_SIZE && old(self).attestor_set().contains(attestor@)
                ==> r is Ok,
            r is Err ==> final(self).attestation_map() == old(self).attestation_map(),
            r is Ok ==> 0 < proof@.len() <= MAX_IDENTITY_PROOF_SIZE && old(
                self,
            ).attestor_set().contains(attestor@) && final(self).attestation_map() == old(
                self,
            ).attestation_map().insert((identity_hash@, sha256_of(proof@)), attestor@),
    {
        if proof.len() == 0 {
            return Err(SbtError::EmptyProof);
        }
        if proof.len() > MAX_IDENTITY_PROOF_SIZE as usize {
            return Err(SbtError::ProofTooLarge);
        }
        if !self.is_attestor(attestor.as_str()) {
            return Err(SbtError::NotAttestor);
        }
        let key = DigestPair { first: identity_hash, second: sha256(proof) };
        self.attestations.insert(key, attestor);
        Ok(())
    }

    /// Links token `sbt_id` to `identity_hash` at ledger time `now`, by
    /// revealing a proof matching an attestation of a currently trusted
    /// attestor. Only the identity hash is kept.
    pub fn link_sbt_to_identity(
        &mut self,
        sbt_id: u64,
        identity_hash: [u8; 32],
        proof: &[u8],
        now: u64,
    ) -> (r: Result<(), SbtError>)
        requires
            old(self).wf(),
            proof@.len() <= HASH_INPUT_LIMIT,
        ensures
            final(self).wf(),
            holders_kept(old(self).records(), final(self).records()),
            cache_stats_step(old(self).stats(), final(self).stats(), false),
            final(self).admin_value() == old(self).admin_value(),
            final(self).attestor_set() == old(self).attestor_set(),
            final(self).attestation_map() == old(self).attestation_map(),
            final(self).stats() == old(self).stats(),
            r is Err ==> final(self).records() == old(self).records(),
            ({
                let pre = old(self).records();
                let k = (identity_hash@, sha256_of(proof@));
                let amap = old(self).attestation_map();
                if sbt_id >= pre.len() {
                    r == Err::<(), SbtError>(SbtError::SbtNotFound)
                } else if proof@.len() == 0 {
                    r == Err::<(), SbtError>(SbtError::EmptyProof)
                } else if pre[sbt_id as int].link is Some {
                    r == Err::<(), SbtError>(SbtError::IdentityAlreadyLinked)
                } else if !attestation_honored(amap, old(self).attestor_set(), k) {
                    r == Err::<(), SbtError>(SbtError::AttestationNotFound)
                } else {
                    &&& r is Ok
                    &&& final(self).records().len() == pre.len()
                    &&& forall|i: int| 0 <= i < pre.len() && i != sbt_id ==> final(self).records()[i]
                        == pre[i]
                    &&& final(self).records()[sbt_id as int].sbt == pre[sbt_id as int].sbt
                    &&& final(self).records()[sbt_id as int].holder_cache == pre[sbt_id as int].holder_cache
                    &&& final(self).records()[sbt_id as int].recovery_codes
                        == pre[sbt_id as int].recovery_codes
                    &&& final(self).records()[sbt_id as int].attempts == pre[sbt_id as int].attempts
                    &&& final(self).records()[sbt_id as int].link matches Some(l) && l.identity_hash@
                        == identity_hash@ && l.attestor@ == amap[k] && l.linked_at == now
                }
            }),
    {
        let rec = match self.load(sbt_id) {
            Some(rec) => rec,
            None => {
                return Err(SbtError::SbtNotFound);
            },
        };
        if proof.len() == 0 {
            return Err(SbtError::EmptyProof);
        }
        if rec.link.is_some() {
            return Err(SbtError::IdentityAlreadyLinked);
        }
        let key = DigestPair { first: identity_hash, second: sha256(proof) };
        let attestor = match self.attestations.get(&key) {
            Some(a) => a.clone(),
            None => {
                return Err(SbtError::AttestationNotFound);
            },
        };
        if !self.is_attestor(attestor.as_str()) {
            return Err(SbtError::AttestationNotFound);
        }
        let mut updated = rec.clone();
        updated.link = Some(IdentityLink { identity_hash, attestor, linked_at: now });
        self.store(sbt_id, updated);
        Ok(())
    }

    /// Removes the identity link of a token.
    pub fn unlink_sbt_identity(&mut self, sbt_id: u64) -> (r: Result<(), SbtError>)
        requires
            old(self).wf(),
        ensures
            final(self).wf(),
            holders_kept(old(self).records(), final(self).records()),
            cache_stats_step(old(self).stats(), final(self).stats(), false),
            final(self).admin_value() == old(self).admin_value(),
            final(self).attestor_set() == old(self).attestor_set(),
            final(self).attestation_map() == old(self).attestation_map(),
            final(self).stats() == old(self).stats(),
            sbt_id >= old(self).records().len() ==> r == Err::<(), SbtError>(SbtError::SbtNotFound),
            sbt_id < old(self).records().len() && old(self).records()[sbt_id as int].link is None
                ==> r == Err::<(), SbtError>(SbtError::NoIdentityLinked),
            sbt_id < old(self).records().len() && old(self).records()[sbt_id as int].link is Some
                ==> r is Ok,
            r is Err ==> final(self).records() == old(self).records(),
            r is Ok ==> sbt_id < old(self).records().len() && old(self).records()[sbt_id as int].link is Some
                && final(self).records() == old(self).records().update(
                sbt_id as int,
                SbtRecordView { link: None, ..old(self).records()[sbt_id as int] },
            ),
    {
        let rec = match self.load(sbt_id) {
            Some(rec) => rec,
            None => {
                return Err(SbtError::SbtNotFound);
            },
        };
        if rec.link.is_none() {
            return Err(SbtError::NoIdentityLinked);
        }
        let mut updated = rec.clone();
        updated.link = None;
        self.store(sbt_id, updated);
        Ok(())
    }

    /// Whether a token has a linked identity (not for a missing token).
    pub fn is_identity_linked(&self, sbt_id: u64) -> (r: bool)
        ensures
            r == (sbt_id < self.records().len() && self.records()[sbt_id as int].link is Some),
    {
        match self.load(sbt_id) {
            Some(rec) => rec.link.is_some(),
            None => false,
        }
    }

    /// The linked identity's hash, if any; neither identity data nor proofs
    /// are ever kept.
    pub fn get_linked_identity_hash(&self, sbt_id: u64) -> (r: Option<[u8; 32]>)
        ensures
            sbt_id < self.records().len() && self.records()[sbt_id as int].link is Some ==> r == Some(
                self.records()[sbt_id as int].link->0.identity_hash,
            ),
            !(sbt_id < self.records().len() && self.records()[sbt_id as int].link is Some) ==> r is None,
    {
        match self.load(sbt_id) {
            Some(rec) => match &rec.link {
                Some(l) => Some(l.identity_hash),
                None => None,
            },
            None => None,
        }
    }
}

/// One schema migration step (see `migration_step`).
pub fn apply_schema_migration(from_version: u32, metadata: &[u8]) -> (r: Result<Vec<u8>, SbtError>)
    ensures
        match migration_step(from_version, metadata@) {
            Some(m) => r matches Ok(v) && v@ == m,
            None => r == Err::<Vec<u8>, SbtError>(SbtError::InvalidSchemaTransition),
        },
{
    if from_version == 1 {
        let mut migrated: Vec<u8> = Vec::new();
        migrated.push(2u8);
        let mut i: usize = 0;
        while i < metadata.len()
            invariant
                i <= metadata@.len(),
                migrated@ == seq![2u8] + metadata@.subrange(0, i as int),
            decreases metadata@.len() - i,
        {
            migrated.push(metadata[i]);
            i += 1;
            proof {
                assert(migrated@ =~= seq![2u8] + metadata@.subrange(0, i as int));
            }
        }
        proof {
            assert(metadata@.subrange(0, metadata@.len() as int) =~= metadata@);
        }
        Ok(migrated)
    } else {
        Err(SbtError::InvalidSchemaTransition)
    }
}

impl SbtContract {
    /// Whether `claimed_holder` holds token `sbt_id`, at ledger time `now`:
    /// served from a fresh cache entry when there is one (a hit), otherwise
    /// read from the token and cached for `HOLDER_CACHE_TTL_SECONDS` (a
    /// miss). The answer is always the token's holder compared with the
    /// claimed one.
    pub fn verify_holder_cached(&mut self, sbt_id: u64, claimed_holder: &str, now: u64) -> (r: Result<
        bool,
        SbtError,
    >)
        requires
            old(self).wf(),
            now <= u64::MAX - HOLDER_CACHE_TTL_SECONDS,
            old(self).stats().hits < u64::MAX,
            old(self).stats().misses < u64::MAX,
        ensures
            final(self).wf(),
            holders_kept(old(self).records(), final(self).records()),
            r is Ok ==> cache_stats_step(old(self).stats(), final(self).stats(), true),
            r is Err ==> cache_stats_step(old(self).stats(), final(self).stats(), false),
            final(self).admin_value() == old(self).admin_value(),
            final(self).attestor_set() == old(self).attestor_set(),
            final(self).attestation_map() == old(self).attestation_map(),
            owners(final(self).records()) == owners(old(self).records()),
            sbt_id >= old(self).records().len() ==> r == Err::<bool, SbtError>(SbtError::SbtNotFound)
                && *final(self) == *old(self),
            sbt_id < old(self).records().len() ==> {
                let pre = old(self).records()[sbt_id as int];
                let hit = pre.holder_cache matches Some(e) && e.expires_at > now;
                &&& r == Ok::<bool, SbtError>(pre.sbt.owner == claimed_holder@)
                &&& hit ==> final(self).stats() == (CacheStats {
                    hits: (old(self).stats().hits + 1) as u64,
                    misses: old(self).stats().misses,
                }) && final(self).records() == old(self).records()
                &&& !hit ==> final(self).stats() == (CacheStats {
                    hits: old(self).stats().hits,
                    misses: (old(self).stats().misses + 1) as u64,
                }) && final(self).records() == old(self).records().update(
                    sbt_id as int,
                    SbtRecordView {
                        holder_cache: Some(
                            HolderCacheEntry {
                                holder: final(self).records()[sbt_id as int].holder_cache->0.holder,
                                cached_at: now,
                                expires_at: (now + HOLDER_CACHE_TTL_SECONDS) as u64,
                            },
                        ),
                        ..pre
                    },
                ) && final(self).records()[sbt_id as int].holder_cache->0.holder@ == pre.sbt.owner
            },
    {
        let rec = match self.load(sbt_id) {
            Some(rec) => rec,
            None => {
                return Err(SbtError::SbtNotFound);
            },
        };
        match &rec.holder_cache {
            Some(entry) => {
                if entry.expires_at > now {
                    let answer = str_eq(entry.holder.as_str(), claimed_holder);
                    self.stats.hits = self.stats.hits + 1;
                    return Ok(answer);
                }
            },
            None => {},
        }
        let holder = rec.sbt.owner.clone();
        let answer = str_eq(holder.as_str(), claimed_holder);
        let mut updated = rec.clone();
        updated.holder_cache = Some(
            HolderCacheEntry {
                holder,
                cached_at: now,
                expires_at: now + HOLDER_CACHE_TTL_SECONDS,
            },
        );
        self.stats.misses = self.stats.misses + 1;
        self.store(sbt_id, updated);
        proof {
            assert(owners(self.records()) =~= owners(old(self).records()));
        }
        Ok(answer)
    }

    /// Drops the cached holder of a token; refused before initialization.
    pub fn invalidate_holder_cache(&mut self, sbt_id: u64) -> (r: Result<(), SbtError>)
        requires
            old(self).wf(),
        ensures
            final(self).wf(),
            holders_kept(old(self).records(), final(self).records()),
            cache_stats_step(old(self).stats(), final(self).stats(), false),
            final(self).admin_value() == old(self).admin_value(),
            final(self).attestor_set() == old(self).attestor_set(),
            final(self).attestation_map() == old(self).attestation_map(),
            final(self).stats() == old(self).stats(),
            old(self).admin_value() is None ==> r == Err::<(), SbtError>(SbtError::NotInitialized)
                && final(self).records() == old(self).records(),
            old(self).admin_value() is Some ==> r is Ok && (if sbt_id < old(self).records().len() {
                final(self).records() == old(self).records().update(
                    sbt_id as int,
                    SbtRecordView { holder_cache: None, ..old(self).records()[sbt_id as int] },
                )
            } else {
                final(self).records() == old(self).records()
            }),
    {
        if self.admin.is_none() {
            return Err(SbtError::NotInitialized);
        }
        self.evict_holder_cache(sbt_id);
        Ok(())
    }

    /// Drops the cached holder of a token, if it exists.
    fn evict_holder_cache(&mut self, sbt_id: u64)
        requires
            old(self).wf(),
        ensures
            final(self).wf(),
            final(self).admin_value() == old(self).admin_value(),
            final(self).attestor_set() == old(self).attestor_set(),
            final(self).attestation_map() == old(self).attestation_map(),
            final(self).stats() == old(self).stats(),
            sbt_id < old(self).records().len() ==> final(self).records() == old(self).records().update(
                sbt_id as int,
                SbtRecordView { holder_cache: None, ..old(self).records()[sbt_id as int] },
            ),
            sbt_id >= old(self).records().len() ==> final(self).records() == old(self).records(),
    {
        let rec = match self.load(sbt_id) {
            Some(rec) => rec,
            None => {
                return;
            },
        };
        let mut updated = rec.clone();
        updated.holder_cache = None;
        self.store(sbt_id, updated);
    }

    /// The cumulative cache hit and miss counters.
    pub fn get_cache_stats(&self) -> (r: CacheStats)
        ensures
            r == self.stats(),
    {
        self.stats
    }

    /// The cache hit rate in basis points (0 to 10 000): hits times 10 000
    /// over all lookups, 0 before any lookup.
    pub fn cache_hit_rate_bps(&self) -> (r: u32)
        requires
            self.stats().hits + self.stats().misses <= u64::MAX,
            self.stats().hits * 10_000 <= u64::MAX,
        ensures
            self.stats().hits + self.stats().misses == 0 ==> r == 0,
            self.stats().hits + self.stats().misses > 0 ==> r == (self.stats().hits * 10_000) / (
            self.stats().hits + self.stats().misses),
            r <= 10_000,
    {
        let total = self.stats.hits + self.stats.misses;
        if total == 0 {
            return 0;
        }
        let hits = self.stats.hits;
        let rate = (hits * 10_000) / total;
        assert(rate <= 10_000) by (nonlinear_arith)
            requires
                hits <= total,
                total > 0,
                rate == (hits * 10_000) / (total as int),
        ;
        rate as u32
    }

    /// Migrates a token's metadata forward to `new_schema_version`, one step
    /// at a time. `Ok(false)` (nothing changes) when the target is not above
    /// the token's version or is above `CURRENT_SCHEMA_VERSION`.
    pub fn migrate_sbt_metadata(&mut self, sbt_id: u64, new_schema_version: u32) -> (r: Result<
        bool,
        SbtError,
    >)
        requires
            old(self).wf(),
        ensures
            final(self).wf(),
            holders_kept(old(self).records(), final(self).records()),
            cache_stats_step(old(self).stats(), final(self).stats(), false),
            final(self).admin_value() == old(self).admin_value(),
            final(self).attestor_set() == old(self).attestor_set(),
            final(self).attestation_map() == old(self).attestation_map(),
            final(self).stats() == old(self).stats(),
            owners(final(self).records()) == owners(old(self).records()),
            r != Ok::<bool, SbtError>(true) ==> final(self).records() == old(self).records(),
            sbt_id >= old(self).records().len() ==> r == Err::<bool, SbtError>(SbtError::SbtNotFound),
            sbt_id < old(self).records().len() ==> {
                let pre = old(self).records()[sbt_id as int];
                let v = pre.sbt.schema_version;
                if new_schema_version <= v || new_schema_version > CURRENT_SCHEMA_VERSION {
                    r == Ok::<bool, SbtError>(false)
                } else {
                    match migrated(pre.sbt.metadata, v, new_schema_version) {
                        None => r == Err::<bool, SbtError>(SbtError::InvalidSchemaTransition),
                        Some(m) => r == Ok::<bool, SbtError>(true) && final(self).records()
                            == old(self).records().update(
                            sbt_id as int,
                            SbtRecordView {
                                sbt: SbtView {
                                    metadata: m,
                                    schema_version: new_schema_version,
                                    ..pre.sbt
                                },
                                ..pre
                            },
                        ),
                    }
                }
            },
    {
        let rec = match self.load(sbt_id) {
            Some(rec) => rec,
            None => {
                return Err(SbtError::SbtNotFound);
            },
        };
        let current = rec.sbt.schema_version;
        if new_schema_version <= current || new_schema_version > CURRENT_SCHEMA_VERSION {
            return Ok(false);
        }
        let ghost start_metadata = rec.sbt.metadata@;
        let mut version = current;
        let mut metadata = vstd::slice::slice_to_vec(rec.sbt.metadata.as_slice());
        while version < new_schema_version
            invariant
                self.wf(),
                *self == *old(self),
                sbt_id < old(self).records().len(),
                old(self).records()[sbt_id as int].sbt.metadata == start_metadata,
                old(self).records()[sbt_id as int].sbt.schema_version == current,
                current < new_schema_version <= CURRENT_SCHEMA_VERSION,
                current <= version <= new_schema_version,
                migrated(start_metadata, current, new_schema_version) == migrated(
                    metadata@,
                    version,
                    new_schema_version,
                ),
            decreases new_schema_version - version,
        {
            metadata = match apply_schema_migration(version, metadata.as_slice()) {
                Ok(m) => m,
                Err(e) => {
                    return Err(e);
                },
            };
            version = version + 1;
        }
        let mut updated = rec.clone();
        updated.sbt.metadata = metadata;
        updated.sbt.schema_version = version;
        self.store(sbt_id, updated);
        proof {
            assert(owners(self.records()) =~= owners(old(self).records()));
        }
        Ok(true)
    }
}

/// The stored digests of a list of recovery codes.
pub open spec fn code_hashes(codes: Seq<[u8; 32]>, hashes: Seq<[u8; 32]>) -> bool {
    &&& hashes.len() == codes.len()
    &&& forall|i: int| 0 <= i < codes.len() ==> (#[trigger] hashes[i])@ == sha256_of(codes[i]@)
}

/// The position of the first digest equal to `h`.
fn find_hash(codes: &Vec<[u8; 32]>, h: &[u8; 32]) -> (r: Option<usize>)
    ensures
        match r {
            Some(i) => first_hash(codes@, h@) == Some(i as int) && i < codes@.len(),
            None => first_hash(codes@, h@) is None,
        },
{
    let mut i: usize = 0;
    while i < codes.len()
        invariant
            i <= codes@.len(),
            forall|j: int| 0 <= j < i ==> (#[trigger] codes@[j])@ != h@,
        decreases codes@.len() - i,
    {
        if same_digest(&codes[i], h) {
            proof {
                let s = codes@;
                assert(s[i as int]@ == h@);
                let k = choose|k: int|
                    0 <= k < s.len() && (#[trigger] s[k])@ == h@ && forall|j: int|
                        0 <= j < k ==> s[j]@ != h@;
                if k < i {
                    assert(s[k]@ != h@);
                }
                if k > i {
                    assert(s[i as int]@ != h@);
                }
            }
            return Some(i);
        }
        i += 1;
    }
    None
}

/// Admits one more recovery attempt at `now` under `policy`: refused when
/// the attempts of the current window (a passed window starts over) have
/// reached the maximum; otherwise the counted attempt state.
fn enforce_recovery_rate_limit(
    stored: Option<RecoveryAttemptState>,
    now: u64,
    policy: RecoveryPolicy,
) -> (r: Result<RecoveryAttemptState, SbtError>)
    ensures
        ({
            let st = window_state(stored, now, policy);
            if st.attempt_count >= policy.max_attempts {
                r == Err::<RecoveryAttemptState, SbtError>(SbtError::RecoveryRateLimited)
            } else {
                r == Ok::<RecoveryAttemptState, SbtError>(
                    RecoveryAttemptState {
                        attempt_count: (st.attempt_count + 1) as u32,
                        window_start: st.window_start,
                    },
                )
            }
        }),
{
    let mut state = match stored {
        Some(s) => s,
        None => RecoveryAttemptState { attempt_count: 0, window_start: now },
    };
    if now.saturating_sub(state.window_start) >= policy.window_seconds {
        state.window_start = now;
        state.attempt_count = 0;
    }
    if state.attempt_count >= policy.max_attempts {
        return Err(SbtError::RecoveryRateLimited);
    }
    state.attempt_count = state.attempt_count + 1;
    Ok(state)
}

impl SbtContract {
    /// Stores the digests of fresh recovery `codes` for a token, replacing
    /// (and so invalidating) any earlier ones; returns the plaintext codes.
    pub fn generate_sbt_recovery_codes(&mut self, sbt_id: u64, codes: Vec<[u8; 32]>) -> (r: Result<
        Vec<[u8; 32]>,
        SbtError,
    >)
        requires
            old(self).wf(),
        ensures
            final(self).wf(),
            holders_kept(old(self).records(), final(self).records()),
            cache_stats_step(old(self).stats(), final(self).stats(), false),
            final(self).admin_value() == old(self).admin_value(),
            final(self).attestor_set() == old(self).attestor_set(),
            final(self).attestation_map() == old(self).attestation_map(),
            final(self).stats() == old(self).stats(),
            owners(final(self).records()) == owners(old(self).records()),
            sbt_id >= old(self).records().len() ==> r is Err && r->Err_0 == SbtError::SbtNotFound
                && final(self).records() == old(self).records(),
            sbt_id < old(self).records().len() ==> (r matches Ok(plain) && plain@ == codes@ && {
                let post = final(self).records()[sbt_id as int];
                let pre = old(self).records()[sbt_id as int];
                &&& final(self).records() == old(self).records().update(
                    sbt_id as int,
                    SbtRecordView { recovery_codes: post.recovery_codes, ..pre },
                )
                &&& post.recovery_codes matches Some(h) && code_hashes(codes@, h)
            }),
    {
        let rec = match self.load(sbt_id) {
            Some(rec) => rec,
            None => {
                return Err(SbtError::SbtNotFound);
            },
        };
        let mut hashes: Vec<[u8; 32]> = Vec::new();
        let mut i: usize = 0;
        while i < codes.len()
            invariant
                i <= codes@.len(),
                code_hashes(codes@.subrange(0, i as int), hashes@),
            decreases codes@.len() - i,
        {
            let h = sha256(codes[i].as_slice());
            hashes.push(h);
            i += 1;
            proof {
                assert forall|j: int| 0 <= j < i implies (#[trigger] hashes@[j])@ == sha256_of(
                    codes@.subrange(0, i as int)[j]@,
                ) by {
                    if j < i - 1 {
                        assert(codes@.subrange(0, i as int)[j] == codes@.subrange(0, i - 1)[j]);
                    }
                }
            }
        }
        proof {
            assert(codes@.subrange(0, codes@.len() as int) =~= codes@);
        }
        let mut updated = rec.clone();
        updated.recovery_codes = Some(hashes);
        self.store(sbt_id, updated);
        proof {
            assert(owners(self.records()) =~= owners(old(self).records()));
        }
        Ok(codes)
    }

    /// Reclaims a token for `new_holder` by redeeming an unused recovery
    /// code, at ledger time `now`. Attempts are rate limited by `policy`,
    /// counting failed attempts too. `Ok(true)` when the code matched: it
    /// is used up, the holder changes and the cached holder is dropped;
    /// `Ok(false)` when it matched no stored digest.
    pub fn recover_sbt_with_recovery_code(
        &mut self,
        sbt_id: u64,
        recovery_code: &[u8],
        new_holder: String,
        now: u64,
        policy: RecoveryPolicy,
    ) -> (r: Result<bool, SbtError>)
        requires
            old(self).wf(),
            recovery_code@.len() <= HASH_INPUT_LIMIT,
        ensures
            final(self).wf(),
            r == Ok::<bool, SbtError>(true) ==> holder_recovered(
                old(self).records(),
                final(self).records(),
                sbt_id as int,
                new_holder@,
            ),
            r != Ok::<bool, SbtError>(true) ==> holders_kept(old(self).records(), final(self).records()),
            cache_stats_step(old(self).stats(), final(self).stats(), false),
            final(self).admin_value() == old(self).admin_value(),
            final(self).attestor_set() == old(self).attestor_set(),
            final(self).attestation_map() == old(self).attestation_map(),
            final(self).stats() == old(self).stats(),
            r is Err ==> final(self).records() == old(self).records(),
            sbt_id >= old(self).records().len() ==> r == Err::<bool, SbtError>(SbtError::SbtNotFound),
            sbt_id < old(self).records().len() ==> {
                let pre = old(self).records()[sbt_id as int];
                let st = window_state(pre.attempts, now, policy);
                let counted = Some(
                    RecoveryAttemptState {
                        attempt_count: (st.attempt_count + 1) as u32,
                        window_start: st.window_start,
                    },
                );
                if st.attempt_count >= policy.max_attempts {
                    r == Err::<bool, SbtError>(SbtError::RecoveryRateLimited)
                } else if pre.recovery_codes is None {
                    r == Err::<bool, SbtError>(SbtError::NoRecoveryCodes)
                } else {
                    let codes = pre.recovery_codes->0;
                    match first_hash(codes, sha256_of(recovery_code@)) {
                        None => r == Ok::<bool, SbtError>(false) && final(self).records() == old(
                            self,
                        ).records().update(sbt_id as int, SbtRecordView { attempts: counted, ..pre }),
                        Some(i) => r == Ok::<bool, SbtError>(true) && final(self).records() == old(
                            self,
                        ).records().update(
                            sbt_id as int,
                            SbtRecordView {
                                sbt: SbtView { owner: new_holder@, ..pre.sbt },
                                holder_cache: None,
                                recovery_codes: Some(codes.remove(i)),
                                attempts: counted,
                                ..pre
                            },
                        ),
                    }
                }
            },
    {
        let rec = match self.load(sbt_id) {
            Some(rec) => rec,
            None => {
                return Err(SbtError::SbtNotFound);
            },
        };
        let state = match enforce_recovery_rate_limit(rec.attempts, now, policy) {
            Ok(s) => s,
            Err(e) => {
                return Err(e);
            },
        };
        let codes = match &rec.recovery_codes {
            Some(c) => c,
            None => {
                return Err(SbtError::NoRecoveryCodes);
            },
        };
        let submitted = sha256(recovery_code);
        let mut updated = rec.clone();
        updated.attempts = Some(state);
        match find_hash(codes, &submitted) {
            None => {
                self.store(sbt_id, updated);
                Ok(false)
            },
            Some(i) => {
                let mut remaining = vstd::slice::slice_to_vec(codes.as_slice());
                remaining.remove(i);
                updated.recovery_codes = Some(remaining);
                updated.sbt.owner = new_holder;
                updated.holder_cache = None;
                self.store(sbt_id, updated);
                Ok(true)
            },
        }
    }
}

// ---------------------------------------------------------------------------
// Laws
// ---------------------------------------------------------------------------

/// Migrating v1 metadata to v2 puts the schema tag 2 in front of it.
pub proof fn lemma_v1_to_v2_migration(metadata: Seq<u8>)
    ensures
        migrated(metadata, 1, 2) == Some(seq![2u8] + metadata),
{
    assert(migrated(seq![2u8] + metadata, 2, 2) == Some(seq![2u8] + metadata));
}

/// Once a token has had `max_attempts` recovery attempts in a window that
/// has not yet passed, further attempts are refused.
pub proof fn lemma_rate_limit_refuses(stored: RecoveryAttemptState, now: u64, policy: RecoveryPolicy)
    requires
        stored.attempt_count >= policy.max_attempts,
        now >= stored.window_start,
        now - stored.window_start < policy.window_seconds,
    ensures
        window_state(Some(stored), now, policy).attempt_count >= policy.max_attempts,
{
}

/// Once the window has passed, the count starts over: an attempt is
/// admitted whenever the policy allows any.
pub proof fn lemma_rate_limit_window_resets(
    stored: RecoveryAttemptState,
    now: u64,
    policy: RecoveryPolicy,
)
    requires
        now >= stored.window_start,
        now - stored.window_start >= policy.window_seconds,
        policy.max_attempts > 0,
    ensures
        window_state(Some(stored), now, policy).attempt_count < policy.max_attempts,
        window_state(Some(stored), now, policy).window_start == now,
{
}

/// A recovery code whose digest occurred once among the stored ones cannot
/// be redeemed again after it was used.
pub proof fn lemma_code_single_use(codes: Seq<[u8; 32]>, h: Seq<u8>, i: int)
    requires
        first_hash(codes, h) == Some(i),
        forall|j: int| 0 <= j < codes.len() && j != i ==> (#[trigger] codes[j])@ != h,
    ensures
        first_hash(codes.remove(i), h) is None,
{
    let rest = codes.remove(i);
    assert forall|j: int| 0 <= j < rest.len() implies (#[trigger] rest[j])@ != h by {
        if j < i {
            assert(rest[j] == codes[j]);
        } else {
            assert(rest[j] == codes[j + 1]);
        }
    }
}


/// The holder a token ends with after a run of calls, given for each call
/// the token and new holder of a successful recovery (`None` for any other
/// call): the new holder of the latest recovery of `id`, else `start`.
pub open spec fn latest_holder(
    start: Seq<char>,
    recoveries: Seq<Option<(int, Seq<char>)>>,
    id: int,
) -> Seq<char>
    decreases recoveries.len(),
{
    if recoveries.len() == 0 {
        start
    } else {
        match recoveries.last() {
            Some((t, h)) => if t == id {
                h
            } else {
                latest_holder(start, recoveries.drop_last(), id)
            },
            None => latest_holder(start, recoveries.drop_last(), id),
        }
    }
}

/// Over any run of calls, a token's holder changes only through a
/// successful recovery: `states` are the tokens before and after each call,
/// each call either keeping every holder or being a successful recovery
/// (as `recoveries` records), and a token minted before the run ends with
/// the holder of its latest recovery, or the one it had.
pub proof fn lemma_holder_changes_only_by_recovery(
    states: Seq<Seq<SbtRecordView>>,
    recoveries: Seq<Option<(int, Seq<char>)>>,
    id: int,
)
    requires
        states.len() == recoveries.len() + 1,
        0 <= id < states[0].len(),
        forall|k: int|
            0 <= k < recoveries.len() ==> match #[trigger] recoveries[k] {
                None => holders_kept(states[k], states[k + 1]),
                Some(p) => holder_recovered(states[k], states[k + 1], p.0, p.1),
            },
    ensures
        id < states.last().len(),
        states.last()[id].sbt.owner == latest_holder(states[0][id].sbt.owner, recoveries, id),
    decreases recoveries.len(),
{
    let n = recoveries.len() as int;
    if n > 0 {
        let ps = states.drop_last();
        let rs = recoveries.drop_last();
        assert forall|k: int| 0 <= k < rs.len() implies match #[trigger] rs[k] {
            None => holders_kept(ps[k], ps[k + 1]),
            Some(p) => holder_recovered(ps[k], ps[k + 1], p.0, p.1),
        } by {
            assert(rs[k] == recoveries[k]);
            assert(ps[k] == states[k] && ps[k + 1] == states[k + 1]);
        }
        lemma_holder_changes_only_by_recovery(ps, rs, id);
        assert(ps.last() == states[n - 1]);
        let last = recoveries[n - 1];
        assert(last == recoveries.last());
        match last {
            None => {},
            Some(p) => {},
        }
    }
}

/// Whatever calls came before, every cached holder is the token's holder,
/// so a cached holder check answers what reading the holder answers.
pub proof fn lemma_cached_holder_is_holder(c: &SbtContract, id: int)
    requires
        c.wf(),
        0 <= id < c.records().len(),
    ensures
        c.records()[id].holder_cache matches Some(e) ==> e.holder@ == c.records()[id].sbt.owner,
{
}

/// The number of holder checks among a run of calls.
pub open spec fn check_count(checks: Seq<bool>) -> nat
    decreases checks.len(),
{
    if checks.len() == 0 {
        0
    } else {
        check_count(checks.drop_last()) + if checks.last() {
            1nat
        } else {
            0nat
        }
    }
}

/// Over any run of calls, the cache counters together grow by exactly the
/// number of successful holder checks, and neither ever shrinks.
pub proof fn lemma_cache_counters_count_checks(stats: Seq<CacheStats>, checks: Seq<bool>)
    requires
        stats.len() == checks.len() + 1,
        forall|k: int|
            0 <= k < checks.len() ==> cache_stats_step(stats[k], #[trigger] stats[k + 1], checks[k]),
    ensures
        stats.last().hits + stats.last().misses == stats[0].hits + stats[0].misses + check_count(checks),
        stats.last().hits >= stats[0].hits,
        stats.last().misses >= stats[0].misses,
    decreases checks.len(),
{
    let n = checks.len() as int;
    if n > 0 {
        let ps = stats.drop_last();
        let cs = checks.drop_last();
        assert forall|k: int| 0 <= k < cs.len() implies cache_stats_step(
            ps[k],
            #[trigger] ps[k + 1],
            cs[k],
        ) by {
            assert(ps[k] == stats[k] && ps[k + 1] == stats[k + 1] && cs[k] == checks[k]);
        }
        lemma_cache_counters_count_checks(ps, cs);
        assert(ps.last() == stats[n - 1]);
        assert(cache_stats_step(stats[n - 1], stats[n], checks[n - 1]));
    }
}

/// Generating a new batch of recovery codes retires the earlier ones: a
/// code whose digest is none of the new codes' digests (an earlier code,
/// barring a digest collision) matches no stored digest.
pub proof fn lemma_replaced_codes_fail(codes: Seq<[u8; 32]>, hashes: Seq<[u8; 32]>, code: Seq<u8>)
    requires
        code_hashes(codes, hashes),
        forall|i: int| 0 <= i < codes.len() ==> sha256_of(#[trigger] codes[i]@) != sha256_of(code),
    ensures
        first_hash(hashes, sha256_of(code)) is None,
{
    assert forall|i: int| 0 <= i < hashes.len() implies (#[trigger] hashes[i])@ != sha256_of(code) by {
        assert(hashes[i]@ == sha256_of(codes[i]@));
    }
}

/// Removing an attestor blocks the attestations it made that were not yet
/// redeemed, while the links already made stay (`remove_attestor` leaves
/// the tokens as they are).
pub proof fn lemma_removed_attestor_blocks_its_attestations(
    amap: Map<(Seq<u8>, Seq<u8>), Seq<char>>,
    attestors: Set<Seq<char>>,
    attestor: Seq<char>,
    k: (Seq<u8>, Seq<u8>),
)
    requires
        amap.contains_key(k),
        amap[k] == attestor,
    ensures
        !attestation_honored(amap, attestors.remove(attestor), k),
{
}

} // verus!

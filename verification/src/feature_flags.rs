//! Feature flag storage and evaluation (trunk-based development support).
//!
//! Each flag has a master switch and a `rollout_percentage` (0-100).
//! Evaluation hashes `(flag_key, subject_id)` into a stable bucket in
//! `[0, 100)`, so the same subject always gets the same result and raising
//! the percentage only ever adds subjects. Every update bumps the flag's
//! `version` and records the state before it in `history`.
use vstd::prelude::*;
use vstd::utf8::encode_utf8;
use crate::clock::{utc_now, Timestamp};
use crate::text::{clone_opt_string, decimal, decimal_text, is_blank, is_blank_str, str_eq};

verus! {

/// A historical snapshot of a flag, recorded before an update.
#[derive(Debug)]
pub struct FlagVersionSnapshot {
    pub version: u32,
    pub enabled: bool,
    pub rollout_percentage: u8,
    pub updated_at: Timestamp,
    pub updated_by: Option<String>,
}

/// A feature flag definition.
#[derive(Debug)]
pub struct FeatureFlag {
    pub key: String,
    pub description: Option<String>,
    pub enabled: bool,
    /// Percentage (0-100) of subjects that see the flag as enabled when
    /// `enabled` is true.
    pub rollout_percentage: u8,
    pub version: u32,
    pub created_at: Timestamp,
    pub updated_at: Timestamp,
    pub history: Vec<FlagVersionSnapshot>,
}

impl Clone for FlagVersionSnapshot {
    fn clone(&self) -> (r: Self)
        ensures
            r == *self,
    {
        FlagVersionSnapshot {
            version: self.version,
            enabled: self.enabled,
            rollout_percentage: self.rollout_percentage,
            updated_at: self.updated_at,
            updated_by: clone_opt_string(&self.updated_by),
        }
    }
}

/// The abstract value of a flag: its fields, with the history as a
/// sequence.
pub struct FlagView {
    pub key: String,
    pub description: Option<String>,
    pub enabled: bool,
    pub rollout_percentage: u8,
    pub version: u32,
    pub created_at: Timestamp,
    pub updated_at: Timestamp,
    pub history: Seq<FlagVersionSnapshot>,
}

impl View for FeatureFlag {
    type V = FlagView;

    open spec fn view(&self) -> FlagView {
        FlagView {
            key: self.key,
            description: self.description,
            enabled: self.enabled,
            rollout_percentage: self.rollout_percentage,
            version: self.version,
            created_at: self.created_at,
            updated_at: self.updated_at,
            history: self.history@,
        }
    }
}

impl Clone for FeatureFlag {
    fn clone(&self) -> (r: Self)
        ensures
            r@ == self@,
    {
        let mut history: Vec<FlagVersionSnapshot> = Vec::new();
        let mut i: usize = 0;
        while i < self.history.len()
            invariant
                i <= self.history@.len(),
                history@ =~= self.history@.take(i as int),
            decreases self.history@.len() - i,
        {
            history.push(self.history[i].clone());
            i += 1;
            proof {
                assert(history@ =~= self.history@.take(i as int));
            }
        }
        proof {
            assert(self.history@.take(self.history@.len() as int) =~= self.history@);
        }
        FeatureFlag {
            key: self.key.clone(),
            description: clone_opt_string(&self.description),
            enabled: self.enabled,
            rollout_percentage: self.rollout_percentage,
            version: self.version,
            created_at: self.created_at,
            updated_at: self.updated_at,
            history,
        }
    }
}

/// Request body for creating or updating a flag.
#[derive(Debug)]
pub struct UpsertFlagRequest {
    pub key: String,
    pub description: Option<String>,
    pub enabled: bool,
    pub rollout_percentage: u8,
    pub updated_by: Option<String>,
}

/// The rollout percentage a request gets when it names none.
pub fn default_rollout() -> (p: u8)
    ensures
        p == 100,
{
    100
}

/// Request body for evaluating a flag.
#[derive(Debug)]
pub struct EvaluateFlagRequest {
    pub subject_id: String,
}

/// Result of evaluating a flag for a subject.
#[derive(Debug)]
pub struct FlagEvaluation {
    pub key: String,
    pub subject_id: String,
    pub enabled: bool,
    pub reason: String,
    pub flag_version: u32,
}

/// Why a flag update is refused.
#[derive(Copy, Clone, Debug, PartialEq, Eq, Structural)]
pub enum FlagError {
    /// The key is empty or white space only.
    EmptyKey,
    /// The rollout percentage is above 100.
    RolloutOutOfRange,
}

impl FlagError {
    /// HTTP status of the refusal (422 Unprocessable Entity).
    pub fn status(&self) -> (s: u16)
        ensures
            s == 422,
    {
        422
    }

    /// The error message sent back.
    pub fn message(&self) -> (m: String)
        ensures
            m@ == match *self {
                FlagError::EmptyKey => "key must not be empty"@,
                FlagError::RolloutOutOfRange => "rollout_percentage must be 0-100"@,
            },
    {
        match self {
            FlagError::EmptyKey => String::from_str("key must not be empty"),
            FlagError::RolloutOutOfRange => String::from_str("rollout_percentage must be 0-100"),
        }
    }
}

// ---------------------------------------------------------------------------
// Specification
// ---------------------------------------------------------------------------

/// FNV-1a 64-bit offset basis.
pub const FNV_OFFSET_BASIS: u64 = 0xcbf29ce484222325;

/// FNV-1a 64-bit prime.
pub const FNV_PRIME: u64 = 0x100000001b3;

/// FNV-1a hash of `bytes`.
pub open spec fn fnv1a(bytes: Seq<u8>) -> u64
    decreases bytes.len(),
{
    if bytes.len() == 0 {
        FNV_OFFSET_BASIS
    } else {
        let h = fnv1a(bytes.drop_last()) ^ (bytes.last() as u64);
        ((h as nat * FNV_PRIME as nat) % 0x1_0000_0000_0000_0000) as u64
    }
}

/// The rollout bucket of a subject for a flag key: the FNV-1a hash of
/// `key ":" subject_id` (as UTF-8), modulo 100.
pub open spec fn bucket(key: Seq<char>, subject_id: Seq<char>) -> u8 {
    (fnv1a(encode_utf8(key) + seq![58u8] + encode_utf8(subject_id)) % 100) as u8
}

/// Whether a flag with this switch and percentage is on for a subject in
/// this bucket.
pub open spec fn rollout_enabled(enabled: bool, rollout_percentage: u8, bucket: u8) -> bool {
    if !enabled {
        false
    } else if rollout_percentage >= 100 {
        true
    } else if rollout_percentage == 0 {
        false
    } else {
        bucket < rollout_percentage
    }
}

/// Whether `flag` is on for `subject_id`.
pub open spec fn flag_enabled_for(flag: FlagView, subject_id: Seq<char>) -> bool {
    rollout_enabled(flag.enabled, flag.rollout_percentage, bucket(flag.key@, subject_id))
}

/// The reason given with an evaluation.
pub open spec fn evaluation_reason(enabled: bool, rollout_percentage: u8) -> Seq<char> {
    if !enabled {
        "flag disabled"@
    } else if rollout_percentage >= 100 {
        "fully rolled out"@
    } else {
        "gradual rollout at "@ + decimal(rollout_percentage as nat) + "%"@
    }
}

/// The snapshot an update records of the flag it replaces.
pub open spec fn snapshot_of(flag: FlagView, updated_by: Option<String>) -> FlagVersionSnapshot {
    FlagVersionSnapshot {
        version: flag.version,
        enabled: flag.enabled,
        rollout_percentage: flag.rollout_percentage,
        updated_at: flag.updated_at,
        updated_by,
    }
}

/// The flag after `body` updates `flag` at `now`.
pub open spec fn updated_flag(flag: FlagView, body: UpsertFlagRequest, now: Timestamp) -> FlagView {
    FlagView {
        key: flag.key,
        description: if body.description is Some {
            body.description
        } else {
            flag.description
        },
        enabled: body.enabled,
        rollout_percentage: body.rollout_percentage,
        version: (flag.version + 1) as u32,
        created_at: flag.created_at,
        updated_at: now,
        history: flag.history.push(snapshot_of(flag, body.updated_by)),
    }
}

/// The flag that `body` creates at `now`.
pub open spec fn new_flag(body: UpsertFlagRequest, now: Timestamp) -> FlagView {
    FlagView {
        key: body.key,
        description: body.description,
        enabled: body.enabled,
        rollout_percentage: body.rollout_percentage,
        version: 1,
        created_at: now,
        updated_at: now,
        history: Seq::empty(),
    }
}

// ---------------------------------------------------------------------------
// Evaluation
// ---------------------------------------------------------------------------

/// Deterministically hashes `(key, subject_id)` into a bucket in `[0, 100)`
/// (FNV-1a over `key ":" subject_id`).
pub fn bucket_for(key: &str, subject_id: &str) -> (b: u8)
    ensures
        b == bucket(key@, subject_id@),
        b < 100,
{
    let ghost input = encode_utf8(key@) + seq![58u8] + encode_utf8(subject_id@);
    let key_bytes = key.as_bytes();
    let subject_bytes = subject_id.as_bytes();
    let mut hash: u64 = FNV_OFFSET_BASIS;
    let mut i: usize = 0;
    while i < key_bytes.len()
        invariant
            key_bytes@ == encode_utf8(key@),
            i <= key_bytes@.len(),
            hash == fnv1a(key_bytes@.take(i as int)),
        decreases key_bytes@.len() - i,
    {
        hash = (hash ^ (key_bytes[i] as u64)).wrapping_mul(FNV_PRIME);
        i += 1;
        proof {
            assert(key_bytes@.take(i as int).drop_last() =~= key_bytes@.take(i - 1));
        }
    }
    proof {
        assert(key_bytes@.take(key_bytes@.len() as int) =~= key_bytes@);
    }
    hash = (hash ^ 58u64).wrapping_mul(FNV_PRIME);
    proof {
        assert((key_bytes@ + seq![58u8]).drop_last() =~= key_bytes@);
    }
    let ghost prefix = key_bytes@ + seq![58u8];
    let mut j: usize = 0;
    while j < subject_bytes.len()
        invariant
            subject_bytes@ == encode_utf8(subject_id@),
            j <= subject_bytes@.len(),
            hash == fnv1a(prefix + subject_bytes@.take(j as int)),
        decreases subject_bytes@.len() - j,
    {
        hash = (hash ^ (subject_bytes[j] as u64)).wrapping_mul(FNV_PRIME);
        j += 1;
        proof {
            assert((prefix + subject_bytes@.take(j as int)).drop_last() =~= prefix
                + subject_bytes@.take(j - 1));
        }
    }
    proof {
        assert(subject_bytes@.take(subject_bytes@.len() as int) =~= subject_bytes@);
        assert(prefix + subject_bytes@ =~= input);
    }
    (hash % 100) as u8
}

/// The reason text for a gradual rollout at `pct` percent.
fn gradual_rollout_reason(pct: u8) -> (r: String)
    ensures
        r@ == "gradual rollout at "@ + decimal(pct as nat) + "%"@,
{
    let mut r = String::from_str("gradual rollout at ");
    let digits = decimal_text(pct);
    r.append(digits.as_str());
    r.append("%");
    r
}

/// Evaluates whether `flag` is enabled for `subject_id`.
pub fn evaluate_flag(flag: &FeatureFlag, subject_id: &str) -> (e: FlagEvaluation)
    ensures
        e.enabled == flag_enabled_for(flag@, subject_id@),
        e.reason@ == evaluation_reason(flag.enabled, flag.rollout_percentage),
        e.key@ == flag.key@,
        e.subject_id@ == subject_id@,
        e.flag_version == flag.version,
{
    let enabled = if !flag.enabled {
        false
    } else if flag.rollout_percentage >= 100 {
        true
    } else if flag.rollout_percentage == 0 {
        false
    } else {
        bucket_for(flag.key.as_str(), subject_id) < flag.rollout_percentage
    };
    let reason = if !flag.enabled {
        String::from_str("flag disabled")
    } else if flag.rollout_percentage >= 100 {
        String::from_str("fully rolled out")
    } else {
        gradual_rollout_reason(flag.rollout_percentage)
    };
    FlagEvaluation {
        key: flag.key.clone(),
        subject_id: String::from_str(subject_id),
        enabled,
        reason,
        flag_version: flag.version,
    }
}

/// Raising the rollout percentage only ever adds subjects: a subject on at
/// some percentage stays on at every higher one.
pub proof fn lemma_rollout_monotone(bucket: u8, low: u8, high: u8)
    requires
        low <= high,
        rollout_enabled(true, low, bucket),
    ensures
        rollout_enabled(true, high, bucket),
{
}

/// A disabled flag is off for every subject; a flag at 100% or more is on
/// for every subject; a flag at 0% is off for every subject.
pub proof fn lemma_rollout_extremes(bucket: u8, pct: u8)
    ensures
        !rollout_enabled(false, pct, bucket),
        pct >= 100 ==> rollout_enabled(true, pct, bucket),
        pct == 0 ==> !rollout_enabled(true, pct, bucket),
{
}

/// Evaluation depends on nothing but the flag and the subject: two
/// evaluations of one flag for one subject agree.
pub proof fn lemma_evaluation_deterministic(
    flag: FlagView,
    subject_id: Seq<char>,
    first: FlagEvaluation,
    second: FlagEvaluation,
)
    requires
        first.enabled == flag_enabled_for(flag, subject_id),
        second.enabled == flag_enabled_for(flag, subject_id),
    ensures
        first.enabled == second.enabled,
{
}

// ---------------------------------------------------------------------------
// Storage
// ---------------------------------------------------------------------------

/// In-memory flag storage keyed by flag key (no key occurs twice).
#[derive(Debug)]
pub struct FlagStore {
    flags: Vec<FeatureFlag>,
}

impl FlagStore {
    /// No two stored flags share a key.
    pub closed spec fn wf(&self) -> bool {
        forall|i: int, j: int|
            0 <= i < self.flags@.len() && 0 <= j < self.flags@.len() && i != j
                ==> #[trigger] self.flags@[i].key@ != #[trigger] self.flags@[j].key@
    }

    /// The stored flags, in the order they were first created.
    pub closed spec fn flags(&self) -> Seq<FlagView> {
        self.flags@.map_values(|f: FeatureFlag| f@)
    }

    /// Whether a flag with `key` is stored.
    pub open spec fn contains(&self, key: Seq<char>) -> bool {
        exists|i: int| 0 <= i < self.flags().len() && #[trigger] self.flags()[i].key@ == key
    }

    /// The position of the flag with `key`.
    pub open spec fn index_of(&self, key: Seq<char>) -> int {
        choose|i: int| 0 <= i < self.flags().len() && #[trigger] self.flags()[i].key@ == key
    }

    /// The stored flag with `key`.
    pub open spec fn flag(&self, key: Seq<char>) -> FlagView {
        self.flags()[self.index_of(key)]
    }

    /// What an upsert of `body` at `now` answers.
    pub open spec fn upsert_outcome(&self, body: UpsertFlagRequest, now: Timestamp) -> Result<
        FlagView,
        FlagError,
    > {
        if is_blank(body.key@) {
            Err(FlagError::EmptyKey)
        } else if body.rollout_percentage > 100 {
            Err(FlagError::RolloutOutOfRange)
        } else if self.contains(body.key@) {
            Ok(updated_flag(self.flag(body.key@), body, now))
        } else {
            Ok(new_flag(body, now))
        }
    }

    /// The stored flags after an upsert of `body` at `now`: a refused
    /// upsert changes nothing, an update replaces the flag in place, a new
    /// flag is added last.
    pub open spec fn upsert_flags(&self, body: UpsertFlagRequest, now: Timestamp) -> Seq<
        FlagView,
    > {
        match self.upsert_outcome(body, now) {
            Err(_) => self.flags(),
            Ok(f) => if self.contains(body.key@) {
                self.flags().update(self.index_of(body.key@), f)
            } else {
                self.flags().push(f)
            },
        }
    }

    /// An empty store.
    pub fn new() -> (s: Self)
        ensures
            s.wf(),
            s.flags().len() == 0,
    {
        let s = FlagStore { flags: Vec::new() };
        proof {
            assert(s.flags() =~= Seq::<FlagView>::empty());
        }
        s
    }

    /// Number of stored flags.
    pub fn len(&self) -> (n: usize)
        ensures
            n == self.flags().len(),
    {
        self.flags.len()
    }

    fn find(&self, key: &str) -> (r: Option<usize>)
        requires
            self.wf(),
        ensures
            match r {
                Some(i) => i < self.flags().len() && self.flags()[i as int].key@ == key@
                    && self.index_of(key@) == i && self.contains(key@),
                None => !self.contains(key@),
            },
    {
        let mut i: usize = 0;
        while i < self.flags.len()
            invariant
                self.wf(),
                i <= self.flags@.len(),
                forall|j: int| 0 <= j < i ==> #[trigger] self.flags@[j].key@ != key@,
            decreases self.flags@.len() - i,
        {
            if str_eq(self.flags[i].key.as_str(), key) {
                proof {
                    assert(self.flags()[i as int].key@ == key@);
                    assert(self.contains(key@));
                    let k = self.index_of(key@);
                    assert(0 <= k < self.flags().len());
                    assert(self.flags@[k].key@ == key@);
                    if k != i {
                        assert(self.flags@[i as int].key@ != self.flags@[k].key@);
                    }
                }
                return Some(i);
            }
            i += 1;
        }
        proof {
            assert forall|j: int| 0 <= j < self.flags().len() implies #[trigger] self.flags()[j].key@
                != key@ by {
                assert(self.flags@[j].key@ != key@);
            }
        }
        None
    }

    /// The flag stored under `key`, if any.
    pub fn get(&self, key: &str) -> (r: Option<FeatureFlag>)
        requires
            self.wf(),
        ensures
            match r {
                Some(f) => self.contains(key@) && f@ == self.flag(key@),
                None => !self.contains(key@),
            },
    {
        match self.find(key) {
            Some(i) => Some(self.flags[i].clone()),
            None => None,
        }
    }

    /// All stored flags, in creation order.
    pub fn list(&self) -> (r: Vec<FeatureFlag>)
        ensures
            r@.map_values(|f: FeatureFlag| f@) == self.flags(),
    {
        let mut out: Vec<FeatureFlag> = Vec::new();
        let mut i: usize = 0;
        while i < self.flags.len()
            invariant
                i <= self.flags@.len(),
                out@.len() == i,
                forall|j: int| 0 <= j < i ==> #[trigger] out@[j]@ == self.flags@[j]@,
            decreases self.flags@.len() - i,
        {
            out.push(self.flags[i].clone());
            i += 1;
        }
        proof {
            assert(out@.map_values(|f: FeatureFlag| f@) =~= self.flags());
        }
        out
    }

    /// Creates or updates the flag named by `body` at time `now`.
    ///
    /// Refuses an empty (or white-space) key and a percentage above 100. An
    /// update records the flag's state before it in `history`, keeps the
    /// old description when `body` gives none, and bumps `version`; a new
    /// flag starts at version 1 with no history.
    pub fn upsert(&mut self, body: UpsertFlagRequest, now: Timestamp) -> (r: Result<
        FeatureFlag,
        FlagError,
    >)
        requires
            old(self).wf(),
            !is_blank(body.key@) && body.rollout_percentage <= 100 && old(self).contains(body.key@)
                ==> old(self).flag(body.key@).version < u32::MAX,
        ensures
            final(self).wf(),
            match r {
                Ok(f) => old(self).upsert_outcome(body, now) == Ok::<FlagView, FlagError>(f@),
                Err(e) => old(self).upsert_outcome(body, now) == Err::<FlagView, FlagError>(e),
            },
            final(self).flags() == old(self).upsert_flags(body, now),
            r is Ok && old(self).contains(body.key@) ==> r->Ok_0@.description == if body.description is Some {
                body.description
            } else {
                old(self).flag(body.key@).description
            },
    {
        let ghost spec_body = body;
        if is_blank_str(body.key.as_str()) {
            return Err(FlagError::EmptyKey);
        }
        if body.rollout_percentage > 100 {
            return Err(FlagError::RolloutOutOfRange);
        }
        match self.find(body.key.as_str()) {
            Some(i) => {
                let ghost before = self.flags@;
                let ghost old_flag = self.flags@[i as int]@;
                let existing = self.flags.remove(i);
                let snapshot = FlagVersionSnapshot {
                    version: existing.version,
                    enabled: existing.enabled,
                    rollout_percentage: existing.rollout_percentage,
                    updated_at: existing.updated_at,
                    updated_by: body.updated_by,
                };
                let mut history = existing.history;
                history.push(snapshot);
                let description = match body.description {
                    Some(d) => Some(d),
                    None => existing.description,
                };
                let flag = FeatureFlag {
                    key: existing.key,
                    description,
                    enabled: body.enabled,
                    rollout_percentage: body.rollout_percentage,
                    version: existing.version + 1,
                    created_at: existing.created_at,
                    updated_at: now,
                    history,
                };
                let result = flag.clone();
                self.flags.insert(i, flag);
                proof {
                    assert(flag@ == updated_flag(old_flag, spec_body, now));
                    assert(self.flags@ =~= before.update(i as int, flag));
                    assert(self.flags() =~= old(self).flags().update(i as int, flag@));
                    assert forall|a: int, b: int|
                        0 <= a < self.flags@.len() && 0 <= b < self.flags@.len() && a != b
                            implies #[trigger] self.flags@[a].key@ != #[trigger] self.flags@[b].key@ by {
                        assert(before[a].key@ != before[b].key@);
                    }
                }
                Ok(result)
            },
            None => {
                let flag = FeatureFlag {
                    key: body.key,
                    description: body.description,
                    enabled: body.enabled,
                    rollout_percentage: body.rollout_percentage,
                    version: 1,
                    created_at: now,
                    updated_at: now,
                    history: Vec::new(),
                };
                let result = flag.clone();
                let ghost before = self.flags@;
                self.flags.push(flag);
                proof {
                    assert(flag@ == new_flag(spec_body, now));
                    assert(self.flags() =~= old(self).flags().push(flag@));
                    assert forall|a: int, b: int|
                        0 <= a < self.flags@.len() && 0 <= b < self.flags@.len() && a != b
                            implies #[trigger] self.flags@[a].key@ != #[trigger] self.flags@[b].key@ by {
                        if a < before.len() && b < before.len() {
                            assert(before[a].key@ != before[b].key@);
                        } else if a < before.len() {
                            assert(old(self).flags()[a].key@ != spec_body.key@);
                        } else {
                            assert(old(self).flags()[b].key@ != spec_body.key@);
                        }
                    }
                }
                Ok(result)
            },
        }
    }
}

/// Creates an empty flag store.
pub fn create_flag_store() -> (s: FlagStore)
    ensures
        s.wf(),
        s.flags().len() == 0,
{
    FlagStore::new()
}

/// Shared flag state of the service.
#[derive(Debug)]
pub struct FlagState {
    pub store: FlagStore,
}

impl FlagState {
    /// State with an empty store.
    pub fn new() -> (s: Self)
        ensures
            s.store.wf(),
            s.store.flags().len() == 0,
    {
        FlagState { store: create_flag_store() }
    }
}

/// Creates or updates a flag, stamped with the current time (see
/// `FlagStore::upsert`).
pub fn upsert_flag(store: &mut FlagStore, body: UpsertFlagRequest) -> (r: Result<
    FeatureFlag,
    FlagError,
>)
    requires
        old(store).wf(),
        !is_blank(body.key@) && body.rollout_percentage <= 100 && old(store).contains(body.key@)
            ==> old(store).flag(body.key@).version < u32::MAX,
    ensures
        final(store).wf(),
        exists|now: Timestamp|
            {
                &&& match r {
                    Ok(f) => #[trigger] old(store).upsert_outcome(body, now) == Ok::<
                        FlagView,
                        FlagError,
                    >(f@),
                    Err(e) => old(store).upsert_outcome(body, now) == Err::<FlagView, FlagError>(
                        e,
                    ),
                }
                &&& final(store).flags() == old(store).upsert_flags(body, now)
            },
        r is Ok && old(store).contains(body.key@) ==> r->Ok_0@.description == if body.description is Some {
            body.description
        } else {
            old(store).flag(body.key@).description
        },
{
    let ghost spec_body = body;
    let now = utc_now();
    let r = store.upsert(body, now);
    proof {
        let _ = old(store).upsert_outcome(spec_body, now);
    }
    r
}

/// All flags of the store.
pub fn list_flags(store: &FlagStore) -> (r: Vec<FeatureFlag>)
    ensures
        r@.map_values(|f: FeatureFlag| f@) == store.flags(),
{
    store.list()
}

/// The flag stored under `key`; `None` answers "not found".
pub fn get_flag(store: &FlagStore, key: &str) -> (r: Option<FeatureFlag>)
    requires
        store.wf(),
    ensures
        match r {
            Some(f) => store.contains(key@) && f@ == store.flag(key@),
            None => !store.contains(key@),
        },
{
    store.get(key)
}

/// Evaluates the flag stored under `key` for the request's subject; `None`
/// answers "not found".
pub fn evaluate_flag_handler(store: &FlagStore, key: &str, body: &EvaluateFlagRequest) -> (r: Option<
    FlagEvaluation,
>)
    requires
        store.wf(),
    ensures
        match r {
            Some(e) => store.contains(key@) && e.enabled == flag_enabled_for(
                store.flag(key@),
                body.subject_id@,
            ) && e.reason@ == evaluation_reason(
                store.flag(key@).enabled,
                store.flag(key@).rollout_percentage,
            ) && e.key@ == key@ && e.subject_id@ == body.subject_id@ && e.flag_version
                == store.flag(key@).version,
            None => !store.contains(key@),
        },
{
    match store.find(key) {
        Some(i) => Some(evaluate_flag(&store.flags[i], body.subject_id.as_str())),
        None => None,
    }
}


/// An update keeps the flag's description unless the request gives one:
/// upserting an existing flag with no description leaves the description
/// it had, and with a description replaces it.
pub proof fn lemma_update_keeps_description_unless_given(
    store: &FlagStore,
    body: UpsertFlagRequest,
    now: Timestamp,
)
    requires
        store.contains(body.key@),
        !is_blank(body.key@),
        body.rollout_percentage <= 100,
    ensures
        store.upsert_outcome(body, now) is Ok,
        body.description is None ==> store.upsert_outcome(body, now)->Ok_0.description == store.flag(
            body.key@,
        ).description,
        body.description is Some ==> store.upsert_outcome(body, now)->Ok_0.description
            == body.description,
{
}

} // verus!

//! Performance-based weighting of a vault slice's attestors.
//!
//! Each attestor accumulates its number of responses, how many succeeded
//! and their cumulative latency. Its score is its success rate (scaled by
//! 1 000 000) divided by its average latency (at least 1 ms), and its
//! weight, in basis points, is its share of the sum of scores; the last
//! attestor absorbs the rounding remainder so that the weights of a slice
//! sum to 10 000. When no attestor has a score, the weights are equal, the
//! remainder going to the first.
use vstd::prelude::*;
use crate::keymap::{KeyMap, SameKey};
use crate::text::str_eq;

verus! {

/// Basis points that the weights of a slice sum to.
pub const TOTAL_BPS: u32 = 10_000;

/// Scale of the success rate in a score.
pub const SUCCESS_SCALE: u64 = 1_000_000;

/// Accumulated performance data for one attestor on one slice.
#[derive(Copy, Clone, Debug, PartialEq, Eq, Structural)]
pub struct PerformanceMetrics {
    /// Total number of observed responses (success + failure).
    pub total_responses: u64,
    /// Number of responses counted as successful.
    pub successful_responses: u64,
    /// Cumulative response latency in milliseconds.
    pub total_response_time_ms: u64,
    /// Ledger timestamp of the last recorded observation.
    pub last_recorded_at: u64,
}

/// Weight assigned to one attestor for a slice.
#[derive(Clone, Debug, PartialEq, Eq)]
pub struct AttestorWeight<A> {
    pub attestor: A,
    /// Basis-points allocation.
    pub weight_bps: u32,
}

impl View for PerformanceMetrics {
    type V = PerformanceMetrics;

    open spec fn view(&self) -> PerformanceMetrics {
        *self
    }
}

/// An observation was recorded for an attestor.
#[derive(Clone, Debug)]
pub struct AttestorPerfRecordedEvent {
    pub slice_id: u64,
    pub attestor: String,
    pub success: bool,
    pub response_time_ms: u64,
}

/// A slice's weights were recomputed.
#[derive(Copy, Clone, Debug, PartialEq, Eq, Structural)]
pub struct SliceReweightedEvent {
    pub slice_id: u64,
    /// Number of attestors that received updated weights.
    pub attestor_count: u32,
}

// ---------------------------------------------------------------------------
// Specification
// ---------------------------------------------------------------------------

/// `a + b`, saturating at `u64::MAX`.
pub open spec fn sat_add(a: u64, b: u64) -> u64 {
    if a + b > u64::MAX {
        u64::MAX
    } else {
        (a + b) as u64
    }
}

/// `a * b`, saturating at `u64::MAX`.
pub open spec fn sat_mul(a: u64, b: u64) -> u64 {
    if a * b > u64::MAX {
        u64::MAX
    } else {
        (a * b) as u64
    }
}

/// Metrics as recording builds them: never more successes than responses.
pub open spec fn metrics_valid(m: PerformanceMetrics) -> bool {
    m.successful_responses <= m.total_responses
}

/// The metrics after one more observation at ledger time `now`.
pub open spec fn recorded(
    m: Option<PerformanceMetrics>,
    success: bool,
    response_time_ms: u64,
    now: u64,
) -> PerformanceMetrics {
    let base = match m {
        Some(m) => m,
        None => PerformanceMetrics {
            total_responses: 0,
            successful_responses: 0,
            total_response_time_ms: 0,
            last_recorded_at: 0,
        },
    };
    PerformanceMetrics {
        total_responses: sat_add(base.total_responses, 1),
        successful_responses: if success {
            sat_add(base.successful_responses, 1)
        } else {
            base.successful_responses
        },
        total_response_time_ms: sat_add(base.total_response_time_ms, response_time_ms),
        last_recorded_at: now,
    }
}

/// Success rate scaled by `SUCCESS_SCALE` (0 without responses).
pub open spec fn success_rate_scaled(m: PerformanceMetrics) -> u64 {
    if m.total_responses == 0 {
        0
    } else {
        sat_mul(m.successful_responses, SUCCESS_SCALE) / m.total_responses
    }
}

/// Average latency in milliseconds, at least 1.
pub open spec fn avg_latency(m: PerformanceMetrics) -> u64 {
    let avg = if m.total_responses == 0 {
        0
    } else {
        m.total_response_time_ms / m.total_responses
    };
    if avg < 1 {
        1
    } else {
        avg
    }
}

/// The score of an attestor (0 without data).
pub open spec fn score_of(m: Option<PerformanceMetrics>) -> u64 {
    match m {
        Some(m) => success_rate_scaled(m) / avg_latency(m),
        None => 0,
    }
}

/// The saturating sum of scores, added left to right.
pub open spec fn sat_sum(s: Seq<u64>) -> u64
    decreases s.len(),
{
    if s.len() == 0 {
        0
    } else {
        sat_add(sat_sum(s.drop_last()), s.last())
    }
}

/// An attestor's proportional share, in basis points (at most 10 000).
pub open spec fn raw_share(score: u64, sum: u64) -> u32 {
    let raw = sat_mul(score, TOTAL_BPS as u64) / sum;
    if raw > TOTAL_BPS {
        TOTAL_BPS
    } else {
        raw as u32
    }
}

/// The basis points given to the first `k` attestors, added with
/// saturation at `u32::MAX`.
pub open spec fn assigned(scores: Seq<u64>, sum: u64, k: int) -> u32
    decreases k,
{
    if k <= 0 {
        0
    } else {
        let prev = assigned(scores, sum, k - 1);
        let share = raw_share(scores[k - 1], sum);
        if prev + share > u32::MAX {
            u32::MAX
        } else {
            (prev + share) as u32
        }
    }
}

/// The weight of attestor `i` of `n` (`n > 0`), given their scores.
pub open spec fn weight_at(scores: Seq<u64>, i: int) -> u32 {
    let n = scores.len();
    let sum = sat_sum(scores);
    if sum == 0 {
        let equal = (TOTAL_BPS / n as u32) as u32;
        let remainder = (TOTAL_BPS - equal * n) as u32;
        if i == 0 {
            (equal + remainder) as u32
        } else {
            equal
        }
    } else if i < n - 1 {
        raw_share(scores[i], sum)
    } else {
        let a = assigned(scores, sum, n - 1);
        if a > TOTAL_BPS {
            0
        } else {
            (TOTAL_BPS - a) as u32
        }
    }
}

/// The scores of a list of attestors with their metrics.
pub open spec fn scores_of<A>(entries: Seq<(A, Option<PerformanceMetrics>)>) -> Seq<u64> {
    entries.map_values(|e: (A, Option<PerformanceMetrics>)| score_of(e.1))
}

/// The sum of a list of weights.
pub open spec fn bps_total(w: Seq<u32>) -> int
    decreases w.len(),
{
    if w.len() == 0 {
        0
    } else {
        bps_total(w.drop_last()) + w.last()
    }
}

/// The weights of a list of attestors, given their scores.
pub open spec fn weights_of(scores: Seq<u64>) -> Seq<u32> {
    Seq::new(scores.len(), |i: int| weight_at(scores, i))
}

// ---------------------------------------------------------------------------
// Computation
// ---------------------------------------------------------------------------

/// Adds one observation to an attestor's metrics (none before its first),
/// at ledger time `now`.
pub fn record_attestor_performance(
    metrics: Option<PerformanceMetrics>,
    success: bool,
    response_time_ms: u64,
    now: u64,
) -> (m: PerformanceMetrics)
    ensures
        m == recorded(metrics, success, response_time_ms, now),
        metrics matches Some(old_m) && metrics_valid(old_m) ==> metrics_valid(m),
        metrics is None ==> metrics_valid(m),
{
    let mut m = match metrics {
        Some(m) => m,
        None => PerformanceMetrics {
            total_responses: 0,
            successful_responses: 0,
            total_response_time_ms: 0,
            last_recorded_at: 0,
        },
    };
    m.total_responses = m.total_responses.saturating_add(1);
    if success {
        m.successful_responses = m.successful_responses.saturating_add(1);
    }
    m.total_response_time_ms = m.total_response_time_ms.saturating_add(response_time_ms);
    m.last_recorded_at = now;
    m
}

/// `a * b`, saturating at `u64::MAX`.
fn saturating_mul_u64(a: u64, b: u64) -> (r: u64)
    ensures
        r == sat_mul(a, b),
{
    match a.checked_mul(b) {
        Some(p) => p,
        None => u64::MAX,
    }
}

/// The score of an attestor (see `score_of`).
pub fn attestor_score(metrics: &Option<PerformanceMetrics>) -> (s: u64)
    ensures
        s == score_of(*metrics),
{
    match metrics {
        Some(m) => {
            let success_rate = if m.total_responses == 0 {
                0
            } else {
                saturating_mul_u64(m.successful_responses, SUCCESS_SCALE) / m.total_responses
            };
            let avg = if m.total_responses == 0 {
                0
            } else {
                m.total_response_time_ms / m.total_responses
            };
            let avg = if avg < 1 {
                1
            } else {
                avg
            };
            success_rate / avg
        },
        None => 0,
    }
}

/// Weights, in basis points, of `entries`' attestors given their metrics,
/// in the same order.
pub fn calculate_optimal_weights<A>(entries: Vec<(A, Option<PerformanceMetrics>)>) -> (r: Vec<
    AttestorWeight<A>,
>)
    requires
        entries@.len() <= u32::MAX,
    ensures
        r@.len() == entries@.len(),
        forall|i: int|
            0 <= i < r@.len() ==> (#[trigger] r@[i]).attestor == entries@[i].0 && r@[i].weight_bps
                == weight_at(scores_of(entries@), i),
{
    let ghost ev = entries@;
    let ghost all_scores = scores_of(ev);
    let n = entries.len();
    let mut scores: Vec<u64> = Vec::new();
    let mut score_sum: u64 = 0;
    let mut i: usize = 0;
    while i < n
        invariant
            n == ev.len(),
            entries@ == ev,
            all_scores == scores_of(ev),
            i <= n,
            scores@ == all_scores.subrange(0, i as int),
            score_sum == sat_sum(scores@),
        decreases n - i,
    {
        let s = attestor_score(&entries[i].1);
        proof {
            assert(all_scores[i as int] == s);
        }
        scores.push(s);
        score_sum = score_sum.saturating_add(s);
        proof {
            assert(scores@.drop_last() =~= all_scores.subrange(0, i as int));
            assert(scores@ =~= all_scores.subrange(0, i as int + 1));
        }
        i += 1;
    }
    proof {
        assert(scores@ =~= all_scores);
    }
    let mut weights: Vec<AttestorWeight<A>> = Vec::new();
    if n == 0 {
        return weights;
    }
    let count = n as u32;
    let equal_bps = TOTAL_BPS / count;
    assert(equal_bps * count <= TOTAL_BPS) by (nonlinear_arith)
        requires
            count > 0,
            equal_bps == TOTAL_BPS / count,
    ;
    let remainder = TOTAL_BPS - equal_bps * count;
    let last_idx = count - 1;
    let mut bps_assigned: u32 = 0;
    let mut idx: u32 = 0;
    for entry in it: entries.into_iter()
        invariant
            n == ev.len(),
            count == n,
            it.seq() == ev,
            idx == it.index(),
            idx <= count,
            scores@ == all_scores,
            all_scores == scores_of(ev),
            score_sum == sat_sum(all_scores),
            equal_bps == TOTAL_BPS / count,
            remainder == TOTAL_BPS - equal_bps * count,
            last_idx == count - 1,
            score_sum != 0 && idx <= last_idx ==> bps_assigned == assigned(all_scores, score_sum, idx as int),
            weights@.len() == idx,
            forall|j: int|
                0 <= j < idx ==> (#[trigger] weights@[j]).attestor == ev[j].0 && weights@[j].weight_bps
                    == weight_at(all_scores, j),
    {
        let (attestor, _metrics) = entry;
        let bps = if score_sum == 0 {
            if idx == 0 {
                equal_bps + remainder
            } else {
                equal_bps
            }
        } else if idx == last_idx {
            TOTAL_BPS.saturating_sub(bps_assigned)
        } else {
            let raw = saturating_mul_u64(scores[idx as usize], TOTAL_BPS as u64) / score_sum;
            if raw > TOTAL_BPS as u64 {
                TOTAL_BPS
            } else {
                raw as u32
            }
        };
        proof {
            assert(bps == weight_at(all_scores, idx as int));
        }
        bps_assigned = bps_assigned.saturating_add(bps);
        weights.push(AttestorWeight { attestor, weight_bps: bps });
        idx += 1;
    }
    weights
}

// ---------------------------------------------------------------------------
// Laws
// ---------------------------------------------------------------------------

/// The sum of the first `k` items.
pub open spec fn prefix_sum(s: Seq<u64>, k: int) -> int
    decreases k,
{
    if k <= 0 {
        0
    } else {
        prefix_sum(s, k - 1) + s[k - 1]
    }
}

/// The sum of the first `k` weights.
pub open spec fn weight_prefix(w: Seq<u32>, k: int) -> int
    decreases k,
{
    if k <= 0 {
        0
    } else {
        weight_prefix(w, k - 1) + w[k - 1]
    }
}

/// The sum of the proportional shares of the first `k` attestors.
pub open spec fn share_total(s: Seq<u64>, sum: u64, k: int) -> int
    decreases k,
{
    if k <= 0 {
        0
    } else {
        share_total(s, sum, k - 1) + raw_share(s[k - 1], sum)
    }
}

/// A score built from valid metrics is at most `SUCCESS_SCALE`.
pub proof fn lemma_score_bounded(m: Option<PerformanceMetrics>)
    requires
        m matches Some(mm) ==> metrics_valid(mm),
    ensures
        score_of(m) <= SUCCESS_SCALE,
{
    if let Some(mm) = m {
        let t = mm.total_responses;
        let sc = mm.successful_responses;
        if t > 0 {
            let p = sat_mul(sc, SUCCESS_SCALE);
            assert(p <= t * SUCCESS_SCALE) by (nonlinear_arith)
                requires
                    sc <= t,
                    p == sat_mul(sc, SUCCESS_SCALE),
            ;
            assert(p / t <= SUCCESS_SCALE) by (nonlinear_arith)
                requires
                    t > 0,
                    p <= t * SUCCESS_SCALE,
            ;
            let sr = success_rate_scaled(mm);
            let a = avg_latency(mm);
            assert(sr / a <= sr) by (nonlinear_arith)
                requires
                    a >= 1,
            ;
        }
    }
}

/// The weights of an empty-handed slice: the first attestor gets the equal
/// share and the remainder, every other one the equal share.
proof fn lemma_equal_total(w: Seq<u32>, e: int, r: int, k: int)
    requires
        1 <= k <= w.len(),
        w[0] == e + r,
        forall|i: int| 1 <= i < w.len() ==> w[i] == e,
    ensures
        weight_prefix(w, k) == k * e + r,
    decreases k,
{
    if k > 1 {
        lemma_equal_total(w, e, r, k - 1);
        assert(w[k - 1] == e);
        assert(weight_prefix(w, k) == weight_prefix(w, k - 1) + w[k - 1]);
        assert((k - 1) * e + r + e == k * e + r) by (nonlinear_arith);
    } else {
        assert(weight_prefix(w, 0) == 0);
        assert(weight_prefix(w, 1) == weight_prefix(w, 0) + w[0]);
        assert(1 * e == e);
    }
}

/// The scores' saturating sum is their exact sum, which stays small.
proof fn lemma_sum_exact(s: Seq<u64>, k: int)
    requires
        0 <= k <= s.len(),
        s.len() <= u32::MAX,
        forall|i: int| 0 <= i < s.len() ==> s[i] <= SUCCESS_SCALE,
    ensures
        sat_sum(s.subrange(0, k)) == prefix_sum(s, k),
        0 <= prefix_sum(s, k) <= k * SUCCESS_SCALE,
    decreases k,
{
    if k > 0 {
        lemma_sum_exact(s, k - 1);
        assert(s.subrange(0, k).drop_last() =~= s.subrange(0, k - 1));
    } else {
        assert(s.subrange(0, k) =~= Seq::<u64>::empty());
    }
}

/// Each share is at most the attestor's part of the sum:
/// `share * sum <= score * 10 000`, summed over the first `k`.
proof fn lemma_share_total_bound(s: Seq<u64>, sum: u64, k: int)
    requires
        0 <= k <= s.len(),
        sum > 0,
        forall|i: int| 0 <= i < s.len() ==> s[i] <= SUCCESS_SCALE,
    ensures
        0 <= share_total(s, sum, k),
        share_total(s, sum, k) * sum <= TOTAL_BPS * prefix_sum(s, k),
    decreases k,
{
    if k > 0 {
        lemma_share_total_bound(s, sum, k - 1);
        let x = s[k - 1];
        let raw = sat_mul(x, TOTAL_BPS as u64) / sum;
        assert(sat_mul(x, TOTAL_BPS as u64) == x * TOTAL_BPS);
        assert(raw * sum <= x * TOTAL_BPS) by (nonlinear_arith)
            requires
                sum > 0,
                raw == (x * TOTAL_BPS) / (sum as int),
        ;
        let sh = raw_share(x, sum);
        assert(sh * sum <= x * TOTAL_BPS) by (nonlinear_arith)
            requires
                sh <= raw,
                raw * sum <= x * TOTAL_BPS,
                sum > 0,
                sh >= 0,
        ;
        let a = share_total(s, sum, k - 1);
        let p = prefix_sum(s, k - 1);
        assert((a + sh) * sum <= TOTAL_BPS * (p + x)) by (nonlinear_arith)
            requires
                a * sum <= TOTAL_BPS * p,
                sh * sum <= x * TOTAL_BPS,
        ;
    }
}

/// While the shares stay within the total, adding them with saturation is
/// exact.
proof fn lemma_assigned_exact(s: Seq<u64>, sum: u64, k: int)
    requires
        0 <= k <= s.len(),
        share_total(s, sum, k) <= TOTAL_BPS,
    ensures
        assigned(s, sum, k) == share_total(s, sum, k),
    decreases k,
{
    if k > 0 {
        assert(share_total(s, sum, k - 1) <= share_total(s, sum, k));
        lemma_assigned_exact(s, sum, k - 1);
    }
}

/// The first `k` proportional weights are the first `k` shares.
proof fn lemma_weight_prefix_shares(s: Seq<u64>, k: int)
    requires
        0 <= k < s.len(),
        sat_sum(s) != 0,
    ensures
        weight_prefix(weights_of(s), k) == share_total(s, sat_sum(s), k),
    decreases k,
{
    if k > 0 {
        lemma_weight_prefix_shares(s, k - 1);
    }
}

/// `bps_total` adds the weights up front to back.
proof fn lemma_bps_total_prefix(w: Seq<u32>, k: int)
    requires
        0 <= k <= w.len(),
    ensures
        bps_total(w.subrange(0, k)) == weight_prefix(w, k),
    decreases k,
{
    if k > 0 {
        lemma_bps_total_prefix(w, k - 1);
        assert(w.subrange(0, k).drop_last() =~= w.subrange(0, k - 1));
    } else {
        assert(w.subrange(0, k) =~= Seq::<u32>::empty());
    }
}

/// The weights of a slice sum to 10 000 basis points, whenever it has an
/// attestor and every attestor's metrics were built by recording (never
/// more successes than responses).
#[verifier::spinoff_prover]
pub proof fn lemma_weights_sum_to_total<A>(entries: Seq<(A, Option<PerformanceMetrics>)>)
    requires
        0 < entries.len() <= u32::MAX,
        forall|i: int|
            0 <= i < entries.len() ==> (#[trigger] entries[i].1 matches Some(m) ==> metrics_valid(m)),
    ensures
        bps_total(weights_of(scores_of(entries))) == TOTAL_BPS,
{
    let s = scores_of(entries);
    let n = s.len() as int;
    let w = weights_of(s);
    assert forall|i: int| 0 <= i < n implies s[i] <= SUCCESS_SCALE by {
        lemma_score_bounded(entries[i].1);
    }
    lemma_sum_exact(s, n);
    assert(s.subrange(0, n) =~= s);
    lemma_bps_total_prefix(w, n);
    assert(w.subrange(0, n) =~= w);
    let sum = sat_sum(s);
    if sum == 0 {
        let e = (TOTAL_BPS / n as u32) as int;
        let r = TOTAL_BPS - e * n;
        assert(e * n <= TOTAL_BPS) by (nonlinear_arith)
            requires
                n > 0,
                e == (TOTAL_BPS as int) / n,
        ;
        lemma_equal_total(w, e, r, n);
    } else {
        lemma_share_total_bound(s, sum, n - 1);
        let t = share_total(s, sum, n - 1);
        assert(prefix_sum(s, n - 1) <= prefix_sum(s, n)) by {
            lemma_sum_exact(s, n - 1);
        }
        assert(t <= TOTAL_BPS) by (nonlinear_arith)
            requires
                sum > 0,
                t * sum <= TOTAL_BPS * prefix_sum(s, n - 1),
                prefix_sum(s, n - 1) <= sum,
        ;
        lemma_assigned_exact(s, sum, n - 1);
        lemma_weight_prefix_shares(s, n - 1);
    }
}

// ---------------------------------------------------------------------------
// Storage of metrics and weights
// ---------------------------------------------------------------------------

/// An attestor on a slice, the key of its metrics.
#[derive(Clone, Debug)]
pub struct SliceAttestor {
    pub slice_id: u64,
    pub attestor: String,
}

impl View for SliceAttestor {
    type V = (u64, Seq<char>);

    open spec fn view(&self) -> (u64, Seq<char>) {
        (self.slice_id, self.attestor@)
    }
}

impl SameKey for SliceAttestor {
    fn same_key(&self, other: &Self) -> (r: bool) {
        self.slice_id == other.slice_id && str_eq(self.attestor.as_str(), other.attestor.as_str())
    }
}

/// The stored metrics of `attestor` on `slice_id`, if any.
pub open spec fn stored_metrics(
    m: Map<(u64, Seq<char>), PerformanceMetrics>,
    slice_id: u64,
    attestor: Seq<char>,
) -> Option<PerformanceMetrics> {
    if m.contains_key((slice_id, attestor)) {
        Some(m[(slice_id, attestor)])
    } else {
        None
    }
}

/// The scores of `attestors` on `slice_id`, from the stored metrics.
pub open spec fn stored_scores(
    m: Map<(u64, Seq<char>), PerformanceMetrics>,
    slice_id: u64,
    attestors: Seq<String>,
) -> Seq<u64> {
    Seq::new(attestors.len(), |i: int| score_of(stored_metrics(m, slice_id, attestors[i]@)))
}

/// The per-attestor metrics and the latest weights of each slice.
pub struct SlicePerformanceStore {
    metrics: KeyMap<SliceAttestor, PerformanceMetrics>,
    weights: KeyMap<u64, Vec<AttestorWeight<String>>>,
}

impl SlicePerformanceStore {
    /// The maps are well formed and every stored metrics was built by
    /// recording.
    pub closed spec fn wf(&self) -> bool {
        &&& self.metrics.wf()
        &&& self.weights.wf()
        &&& forall|k: (u64, Seq<char>)| #[trigger]
            self.metrics@.contains_key(k) ==> metrics_valid(self.metrics@[k])
    }

    /// The metrics of each (slice, attestor) pair.
    pub closed spec fn metrics_map(&self) -> Map<(u64, Seq<char>), PerformanceMetrics> {
        self.metrics@
    }

    /// The latest weights of each slice.
    pub closed spec fn weights_map(&self) -> Map<u64, Seq<AttestorWeight<String>>> {
        self.weights@
    }

    /// A store with nothing recorded.
    pub fn new() -> (s: Self)
        ensures
            s.wf(),
            s.metrics_map() == Map::<(u64, Seq<char>), PerformanceMetrics>::empty(),
            s.weights_map() == Map::<u64, Seq<AttestorWeight<String>>>::empty(),
    {
        SlicePerformanceStore { metrics: KeyMap::new(), weights: KeyMap::new() }
    }

    /// The metrics of `attestor` on `slice_id`; `None` before its first
    /// observation.
    pub fn get_attestor_performance(&self, slice_id: u64, attestor: &str) -> (r: Option<
        PerformanceMetrics,
    >)
        requires
            self.wf(),
        ensures
            r == stored_metrics(self.metrics_map(), slice_id, attestor@),
    {
        let key = SliceAttestor { slice_id, attestor: String::from_str(attestor) };
        match self.metrics.get(&key) {
            Some(m) => Some(*m),
            None => None,
        }
    }

    /// Records one observation of `attestor` on `slice_id` at ledger time
    /// `now`; the metrics of every other pair, and the weights, stay.
    pub fn record_attestor_performance(
        &mut self,
        slice_id: u64,
        attestor: String,
        success: bool,
        response_time_ms: u64,
        now: u64,
    ) -> (e: AttestorPerfRecordedEvent)
        requires
            old(self).wf(),
        ensures
            final(self).wf(),
            final(self).metrics_map() == old(self).metrics_map().insert(
                (slice_id, attestor@),
                recorded(
                    stored_metrics(old(self).metrics_map(), slice_id, attestor@),
                    success,
                    response_time_ms,
                    now,
                ),
            ),
            final(self).weights_map() == old(self).weights_map(),
            e.slice_id == slice_id,
            e.attestor@ == attestor@,
            e.success == success,
            e.response_time_ms == response_time_ms,
    {
        let previous = self.get_attestor_performance(slice_id, attestor.as_str());
        let m = record_attestor_performance(previous, success, response_time_ms, now);
        let event = AttestorPerfRecordedEvent {
            slice_id,
            attestor: attestor.clone(),
            success,
            response_time_ms,
        };
        let ghost pre = self.metrics@;
        let ghost k = (slice_id, attestor@);
        self.metrics.insert(SliceAttestor { slice_id, attestor }, m);
        proof {
            assert forall|q: (u64, Seq<char>)| #[trigger]
                self.metrics@.contains_key(q) implies metrics_valid(self.metrics@[q]) by {
                if q != k {
                    assert(pre.contains_key(q));
                }
            }
        }
        event
    }

    /// Weights, in basis points, of `attestors` on `slice_id` from their
    /// stored metrics, in the same order; they sum to 10 000 when there is
    /// an attestor.
    pub fn calculate_optimal_weights(&self, slice_id: u64, attestors: &Vec<String>) -> (r: Vec<
        AttestorWeight<String>,
    >)
        requires
            self.wf(),
            attestors@.len() <= u32::MAX,
        ensures
            r@.len() == attestors@.len(),
            forall|i: int|
                0 <= i < r@.len() ==> (#[trigger] r@[i]).attestor@ == attestors@[i]@
                    && r@[i].weight_bps == weight_at(
                    stored_scores(self.metrics_map(), slice_id, attestors@),
                    i,
                ),
            attestors@.len() > 0 ==> bps_total(
                weights_of(stored_scores(self.metrics_map(), slice_id, attestors@)),
            ) == TOTAL_BPS,
    {
        let ghost scores = stored_scores(self.metrics@, slice_id, attestors@);
        let mut entries: Vec<(String, Option<PerformanceMetrics>)> = Vec::new();
        let mut i: usize = 0;
        while i < attestors.len()
            invariant
                self.wf(),
                i <= attestors@.len(),
                entries@.len() == i,
                forall|j: int|
                    0 <= j < i ==> (#[trigger] entries@[j]).0@ == attestors@[j]@
                        && entries@[j].1 == stored_metrics(self.metrics@, slice_id, attestors@[j]@),
            decreases attestors@.len() - i,
        {
            let m = self.get_attestor_performance(slice_id, attestors[i].as_str());
            entries.push((attestors[i].clone(), m));
            i += 1;
        }
        proof {
            assert(scores_of(entries@) =~= scores);
            assert forall|j: int| 0 <= j < entries@.len() implies (#[trigger] entries@[j].1 matches Some(
                m,
            ) ==> metrics_valid(m)) by {
                let k = (slice_id, attestors@[j]@);
                if self.metrics@.contains_key(k) {
                    assert(metrics_valid(self.metrics@[k]));
                }
            }
            if entries@.len() > 0 {
                lemma_weights_sum_to_total(entries@);
            }
        }
        calculate_optimal_weights(entries)
    }

    /// Keeps `weights` as the latest weights of `slice_id`, replacing any
    /// kept before; the metrics and the other slices' weights stay.
    pub fn reweight_slice(&mut self, slice_id: u64, weights: Vec<AttestorWeight<String>>) -> (e:
        SliceReweightedEvent)
        requires
            old(self).wf(),
            weights@.len() <= u32::MAX,
        ensures
            final(self).wf(),
            final(self).weights_map() == old(self).weights_map().insert(slice_id, weights@),
            final(self).metrics_map() == old(self).metrics_map(),
            e.slice_id == slice_id,
            e.attestor_count == weights@.len(),
    {
        let count = weights.len() as u32;
        self.weights.insert(slice_id, weights);
        SliceReweightedEvent { slice_id, attestor_count: count }
    }

    /// The latest weights kept for `slice_id`, if any.
    pub fn get_slice_weights(&self, slice_id: u64) -> (r: Option<&Vec<AttestorWeight<String>>>)
        requires
            self.wf(),
        ensures
            match r {
                Some(w) => self.weights_map().contains_key(slice_id) && w@ == self.weights_map()[slice_id],
                None => !self.weights_map().contains_key(slice_id),
            },
    {
        self.weights.get(&slice_id)
    }
}

} // verus!

//! Candidate filtering and weighted selection of the next chunk.
//!
//! A chunk is eligible after a given bottom edge if its top edge repeats that
//! edge, its walls pass the anti-softlock rules, and its weight is positive.
//! Among the eligible chunks those of the target pacing tier are preferred; if
//! there is none, any eligible chunk may be picked, which is reported as a
//! pacing fallback. The pick itself is a weighted roulette driven by one random
//! word.

use vstd::prelude::*;
use crate::random::{LiveSource, RandomSource};
use crate::schema::{ChunkLibrary, ChunkPacing, ChunkSchema, EdgeProfile};
use crate::telemetry::{one_if, ValidationCounters, RejectionReason};
use crate::validation::{chunk_verdict, validate_chunk_schema, ProcgenValidationPolicy};

verus! {

/// Number of values that the fraction of a draw can take: two to the power 24.
pub const DRAW_DENOMINATOR: u32 = 16_777_216;

// ---------------------------------------------------------------------------
// Eligibility
// ---------------------------------------------------------------------------

/// Why a chunk is passed over after a chunk whose bottom edge is `required`,
/// or `None` if it is eligible. Validation comes before the weight.
pub open spec fn chunk_rejection(
    chunk: ChunkSchema,
    required: Seq<bool>,
    policy: ProcgenValidationPolicy,
) -> Option<RejectionReason> {
    match chunk_verdict(chunk, required, policy) {
        Some(reason) => Some(RejectionReason::of_validation(reason)),
        None => if chunk.has_valid_weight() {
            None
        } else {
            Some(RejectionReason::InvalidWeight)
        },
    }
}

/// Whether a chunk may follow a chunk whose bottom edge is `required`.
pub open spec fn is_eligible(
    chunk: ChunkSchema,
    required: Seq<bool>,
    policy: ProcgenValidationPolicy,
) -> bool {
    chunk_rejection(chunk, required, policy) is None
}

/// How many of the first `n` chunks are rejected for `reason`.
pub open spec fn rejected_among(
    chunks: Seq<ChunkSchema>,
    required: Seq<bool>,
    policy: ProcgenValidationPolicy,
    reason: RejectionReason,
    n: nat,
) -> nat
    decreases n,
{
    if n == 0 {
        0
    } else {
        rejected_among(chunks, required, policy, reason, (n - 1) as nat) + one_if(
            chunk_rejection(chunks[n - 1], required, policy) == Some(reason),
        ) as nat
    }
}

/// How many chunks of the library are rejected for `reason`.
pub open spec fn rejected_count(
    chunks: Seq<ChunkSchema>,
    required: Seq<bool>,
    policy: ProcgenValidationPolicy,
    reason: RejectionReason,
) -> nat {
    rejected_among(chunks, required, policy, reason, chunks.len())
}

/// The indices of the eligible chunks among the first `n`, in library order.
pub open spec fn eligible_among(
    chunks: Seq<ChunkSchema>,
    required: Seq<bool>,
    policy: ProcgenValidationPolicy,
    n: nat,
) -> Seq<usize>
    decreases n,
{
    if n == 0 {
        Seq::empty()
    } else {
        let before = eligible_among(chunks, required, policy, (n - 1) as nat);
        if is_eligible(chunks[n - 1], required, policy) {
            before.push((n - 1) as usize)
        } else {
            before
        }
    }
}

/// The indices of the eligible chunks, in library order.
pub open spec fn eligible_indices(
    chunks: Seq<ChunkSchema>,
    required: Seq<bool>,
    policy: ProcgenValidationPolicy,
) -> Seq<usize> {
    eligible_among(chunks, required, policy, chunks.len())
}

/// The indices of the eligible chunks of tier `target` among the first `n`, in
/// library order.
pub open spec fn preferred_among(
    chunks: Seq<ChunkSchema>,
    required: Seq<bool>,
    policy: ProcgenValidationPolicy,
    target: ChunkPacing,
    n: nat,
) -> Seq<usize>
    decreases n,
{
    if n == 0 {
        Seq::empty()
    } else {
        let before = preferred_among(chunks, required, policy, target, (n - 1) as nat);
        if is_eligible(chunks[n - 1], required, policy) && chunks[n - 1].pacing == target {
            before.push((n - 1) as usize)
        } else {
            before
        }
    }
}

/// The indices of the eligible chunks of tier `target`, in library order.
pub open spec fn preferred_indices(
    chunks: Seq<ChunkSchema>,
    required: Seq<bool>,
    policy: ProcgenValidationPolicy,
    target: ChunkPacing,
) -> Seq<usize> {
    preferred_among(chunks, required, policy, target, chunks.len())
}

/// The chunks that the pick is made from: the preferred ones if there is any,
/// else all eligible ones.
pub open spec fn active_indices(
    chunks: Seq<ChunkSchema>,
    required: Seq<bool>,
    policy: ProcgenValidationPolicy,
    target: ChunkPacing,
) -> Seq<usize> {
    let preferred = preferred_indices(chunks, required, policy, target);
    if preferred.len() > 0 {
        preferred
    } else {
        eligible_indices(chunks, required, policy)
    }
}

/// Whether a pick is made across pacing tiers: no eligible chunk has the
/// target tier, but some chunk is eligible.
pub open spec fn uses_pacing_fallback(
    chunks: Seq<ChunkSchema>,
    required: Seq<bool>,
    policy: ProcgenValidationPolicy,
    target: ChunkPacing,
) -> bool {
    preferred_indices(chunks, required, policy, target).len() == 0 && eligible_indices(
        chunks,
        required,
        policy,
    ).len() > 0
}

/// What the counters hold after one selection that started from zero.
pub open spec fn counts_selection(
    counters: ValidationCounters,
    chunks: Seq<ChunkSchema>,
    required: Seq<bool>,
    policy: ProcgenValidationPolicy,
) -> bool {
    &&& forall|reason: RejectionReason| #[trigger]
        counters.count(reason) == rejected_count(chunks, required, policy, reason)
    &&& counters.no_candidate == one_if(eligible_indices(chunks, required, policy).len() == 0)
}

// ---------------------------------------------------------------------------
// Weighted roulette
// ---------------------------------------------------------------------------

/// The part of a weight that counts in the roulette: nothing, if the weight is
/// negative.
pub open spec fn usable_weight(weight: int) -> int {
    if weight > 0 {
        weight
    } else {
        0
    }
}

/// The weights of the candidates, in their order.
pub open spec fn candidate_weights(chunks: Seq<ChunkSchema>, candidates: Seq<usize>) -> Seq<int> {
    Seq::new(candidates.len(), |k: int| chunks[candidates[k] as int].weight as int)
}

/// The usable weight of the first `n` candidates together.
pub open spec fn cumulative_weight(weights: Seq<int>, n: nat) -> int
    decreases n,
{
    if n == 0 {
        0
    } else {
        cumulative_weight(weights, (n - 1) as nat) + usable_weight(weights[n - 1])
    }
}

/// The usable weight of all candidates together.
pub open spec fn total_weight(weights: Seq<int>) -> int {
    cumulative_weight(weights, weights.len())
}

/// The fraction of a draw: its 24 most significant bits, a number of
/// `DRAW_DENOMINATOR`-ths from zero up to, but not including, one.
pub open spec fn draw_fraction(word: u32) -> int {
    word as int / 256
}

/// Whether the roulette stops at candidate `k`.
///
/// The draw marks the point `draw_fraction * total / DRAW_DENOMINATOR` on a
/// line on which the candidates lie one after another, each as long as its
/// usable weight. The roulette stops at the first candidate whose end is at or
/// beyond that point.
pub open spec fn roulette_stops_at(weights: Seq<int>, word: u32, k: int) -> bool {
    &&& 0 <= k < weights.len()
    &&& draw_fraction(word) * total_weight(weights) <= DRAW_DENOMINATOR * cumulative_weight(
        weights,
        (k + 1) as nat,
    )
    &&& forall|m: nat|
        0 < m <= k ==> draw_fraction(word) * total_weight(weights) > DRAW_DENOMINATOR
            * #[trigger] cumulative_weight(weights, m)
}

/// The candidate at which the roulette stops.
pub open spec fn roulette_position(weights: Seq<int>, word: u32) -> int {
    choose|k: int| roulette_stops_at(weights, word, k)
}

/// The chunk that is selected for a given random word, or `None` if no chunk
/// is eligible.
pub open spec fn selection_for_word(
    chunks: Seq<ChunkSchema>,
    required: Seq<bool>,
    policy: ProcgenValidationPolicy,
    target: ChunkPacing,
    word: u32,
) -> Option<usize> {
    let active = active_indices(chunks, required, policy, target);
    if active.len() == 0 {
        None
    } else {
        Some(active[roulette_position(candidate_weights(chunks, active), word)])
    }
}

/// Whether `chunk` is the chunk of the library that is selected for `word`.
pub open spec fn selects_chunk(
    chunks: Seq<ChunkSchema>,
    required: Seq<bool>,
    policy: ProcgenValidationPolicy,
    target: ChunkPacing,
    word: u32,
    chunk: ChunkSchema,
) -> bool {
    match selection_for_word(chunks, required, policy, target, word) {
        Some(i) => i < chunks.len() && chunks[i as int] == chunk,
        None => false,
    }
}

/// The roulette cannot stop at two candidates.
pub proof fn lemma_roulette_stop_unique(weights: Seq<int>, word: u32, j: int, k: int)
    requires
        roulette_stops_at(weights, word, j),
        roulette_stops_at(weights, word, k),
    ensures
        j == k,
{
    if j < k {
        assert(draw_fraction(word) * total_weight(weights) > DRAW_DENOMINATOR * cumulative_weight(
            weights,
            (j + 1) as nat,
        ));
    } else if k < j {
        assert(draw_fraction(word) * total_weight(weights) > DRAW_DENOMINATOR * cumulative_weight(
            weights,
            (k + 1) as nat,
        ));
    }
}

/// No more chunks are rejected than there are.
pub proof fn lemma_rejected_among_bound(
    chunks: Seq<ChunkSchema>,
    required: Seq<bool>,
    policy: ProcgenValidationPolicy,
    reason: RejectionReason,
    n: nat,
)
    ensures
        rejected_among(chunks, required, policy, reason, n) <= n,
    decreases n,
{
    if n > 0 {
        lemma_rejected_among_bound(chunks, required, policy, reason, (n - 1) as nat);
    }
}

/// Every chunk is counted once: it is eligible, or it is rejected for exactly
/// one reason.
pub proof fn lemma_every_chunk_counted_once(
    chunks: Seq<ChunkSchema>,
    required: Seq<bool>,
    policy: ProcgenValidationPolicy,
    n: nat,
)
    ensures
        eligible_among(chunks, required, policy, n).len() + rejected_among(
            chunks,
            required,
            policy,
            RejectionReason::ProfileMismatch,
            n,
        ) + rejected_among(chunks, required, policy, RejectionReason::ConcaveTrap, n)
            + rejected_among(chunks, required, policy, RejectionReason::ExitAngleFail, n)
            + rejected_among(chunks, required, policy, RejectionReason::InvalidWeight, n) == n,
    decreases n,
{
    if n > 0 {
        lemma_every_chunk_counted_once(chunks, required, policy, (n - 1) as nat);
    }
}

/// Every index among the eligible ones is a valid index of an eligible chunk.
pub proof fn lemma_eligible_among_members(
    chunks: Seq<ChunkSchema>,
    required: Seq<bool>,
    policy: ProcgenValidationPolicy,
    n: nat,
)
    requires
        n <= chunks.len(),
        chunks.len() <= usize::MAX,
    ensures
        forall|k: int|
            0 <= k < eligible_among(chunks, required, policy, n).len() ==> {
                let i = #[trigger] eligible_among(chunks, required, policy, n)[k];
                i < n && is_eligible(chunks[i as int], required, policy)
            },
    decreases n,
{
    if n > 0 {
        lemma_eligible_among_members(chunks, required, policy, (n - 1) as nat);
        let before = eligible_among(chunks, required, policy, (n - 1) as nat);
        let all = eligible_among(chunks, required, policy, n);
        assert forall|k: int| 0 <= k < all.len() implies {
            let i = #[trigger] all[k];
            i < n && is_eligible(chunks[i as int], required, policy)
        } by {
            if k < before.len() {
                assert(all[k] == before[k]);
            }
        }
    }
}

/// Every index among the preferred ones is a valid index of an eligible chunk
/// of the target tier.
pub proof fn lemma_preferred_among_members(
    chunks: Seq<ChunkSchema>,
    required: Seq<bool>,
    policy: ProcgenValidationPolicy,
    target: ChunkPacing,
    n: nat,
)
    requires
        n <= chunks.len(),
        chunks.len() <= usize::MAX,
    ensures
        forall|k: int|
            0 <= k < preferred_among(chunks, required, policy, target, n).len() ==> {
                let i = #[trigger] preferred_among(chunks, required, policy, target, n)[k];
                &&& i < n
                &&& is_eligible(chunks[i as int], required, policy)
                &&& chunks[i as int].pacing == target
            },
    decreases n,
{
    if n > 0 {
        lemma_preferred_among_members(chunks, required, policy, target, (n - 1) as nat);
        let before = preferred_among(chunks, required, policy, target, (n - 1) as nat);
        let all = preferred_among(chunks, required, policy, target, n);
        assert forall|k: int| 0 <= k < all.len() implies {
            let i = #[trigger] all[k];
            &&& i < n
            &&& is_eligible(chunks[i as int], required, policy)
            &&& chunks[i as int].pacing == target
        } by {
            if k < before.len() {
                assert(all[k] == before[k]);
            }
        }
    }
}

/// The eligible indices are exactly the indices of the eligible chunks, each
/// once and in rising order.
pub proof fn lemma_eligible_among_complete(
    chunks: Seq<ChunkSchema>,
    required: Seq<bool>,
    policy: ProcgenValidationPolicy,
    n: nat,
)
    requires
        n <= chunks.len(),
        chunks.len() <= usize::MAX,
    ensures
        forall|i: int|
            0 <= i < n && is_eligible(#[trigger] chunks[i], required, policy) ==> eligible_among(
                chunks,
                required,
                policy,
                n,
            ).contains(i as usize),
        forall|j: int, k: int|
            0 <= j < k < eligible_among(chunks, required, policy, n).len() ==> eligible_among(
                chunks,
                required,
                policy,
                n,
            )[j] < eligible_among(chunks, required, policy, n)[k],
    decreases n,
{
    if n > 0 {
        lemma_eligible_among_complete(chunks, required, policy, (n - 1) as nat);
        lemma_eligible_among_members(chunks, required, policy, (n - 1) as nat);
        let before = eligible_among(chunks, required, policy, (n - 1) as nat);
        let all = eligible_among(chunks, required, policy, n);
        assert forall|i: int|
            0 <= i < n && is_eligible(#[trigger] chunks[i], required, policy) implies all.contains(
            i as usize,
        ) by {
            if i < n - 1 {
                let at = choose|at: int| 0 <= at < before.len() && before[at] == i as usize;
                assert(all[at] == i as usize);
            } else {
                assert(all[all.len() - 1] == i as usize);
            }
        }
        assert forall|j: int, k: int| 0 <= j < k < all.len() implies all[j] < all[k] by {
            if k < before.len() {
                assert(all[j] == before[j] && all[k] == before[k]);
            } else {
                assert(all[j] == before[j]);
                assert(before[j] < n - 1);
            }
        }
    }
}

/// There are no more preferred chunks than eligible ones.
pub proof fn lemma_preferred_among_eligible(
    chunks: Seq<ChunkSchema>,
    required: Seq<bool>,
    policy: ProcgenValidationPolicy,
    target: ChunkPacing,
    n: nat,
)
    ensures
        preferred_among(chunks, required, policy, target, n).len() <= eligible_among(
            chunks,
            required,
            policy,
            n,
        ).len(),
    decreases n,
{
    if n > 0 {
        lemma_preferred_among_eligible(chunks, required, policy, target, (n - 1) as nat);
    }
}

/// Every chunk that a pick can be made from is eligible, and has the target
/// tier unless the pick is a pacing fallback.
pub proof fn lemma_active_members(
    chunks: Seq<ChunkSchema>,
    required: Seq<bool>,
    policy: ProcgenValidationPolicy,
    target: ChunkPacing,
)
    requires
        chunks.len() <= usize::MAX,
    ensures
        forall|k: int|
            0 <= k < active_indices(chunks, required, policy, target).len() ==> {
                let i = #[trigger] active_indices(chunks, required, policy, target)[k];
                &&& i < chunks.len()
                &&& is_eligible(chunks[i as int], required, policy)
                &&& !uses_pacing_fallback(chunks, required, policy, target) ==> chunks[i as int].pacing
                    == target
            },
{
    lemma_eligible_among_members(chunks, required, policy, chunks.len());
    lemma_preferred_among_members(chunks, required, policy, target, chunks.len());
}

/// Whatever the random word, the selected chunk is eligible: its top edge
/// repeats the required profile, its walls pass the anti-softlock rules and
/// its weight is positive. This holds for a pacing fallback too.
pub proof fn lemma_selection_is_eligible(
    chunks: Seq<ChunkSchema>,
    required: Seq<bool>,
    policy: ProcgenValidationPolicy,
    target: ChunkPacing,
    word: u32,
)
    requires
        chunks.len() <= usize::MAX,
    ensures
        selection_for_word(chunks, required, policy, target, word) matches Some(i) ==> {
            &&& i < chunks.len()
            &&& chunks[i as int].top_profile@ == required
            &&& is_eligible(chunks[i as int], required, policy)
            &&& !uses_pacing_fallback(chunks, required, policy, target) ==> chunks[i as int].pacing
                == target
        },
        selection_for_word(chunks, required, policy, target, word) is None <==> eligible_indices(
            chunks,
            required,
            policy,
        ).len() == 0,
{
    let active = active_indices(chunks, required, policy, target);
    lemma_active_members(chunks, required, policy, target);
    lemma_preferred_among_eligible(chunks, required, policy, target, chunks.len());
    if active.len() > 0 {
        let weights = candidate_weights(chunks, active);
        lemma_roulette_stops(weights, word);
        let k = roulette_position(weights, word);
        assert(is_eligible(chunks[active[k] as int], required, policy));
    }
}

/// The roulette stops at some candidate, whatever the word, as soon as there
/// is a candidate.
pub proof fn lemma_roulette_stops(weights: Seq<int>, word: u32)
    requires
        weights.len() > 0,
    ensures
        roulette_stops_at(weights, word, roulette_position(weights, word)),
{
    let k = lemma_roulette_stops_before(weights, word, weights.len());
}

/// Among the first `n` candidates the roulette stops at one, if the mark lies
/// at or before the end of the `n`-th.
proof fn lemma_roulette_stops_before(weights: Seq<int>, word: u32, n: nat) -> (k: int)
    requires
        0 < n <= weights.len(),
        n < weights.len() ==> draw_fraction(word) * total_weight(weights) <= DRAW_DENOMINATOR
            * cumulative_weight(weights, n),
    ensures
        roulette_stops_at(weights, word, k),
        k < n,
    decreases n,
{
    let mark = draw_fraction(word) * total_weight(weights);
    if n == weights.len() {
        lemma_total_weight_nonnegative(weights, weights.len());
        assert(mark <= DRAW_DENOMINATOR * total_weight(weights)) by (nonlinear_arith)
            requires
                mark == draw_fraction(word) * total_weight(weights),
                0 <= draw_fraction(word) < DRAW_DENOMINATOR,
                0 <= total_weight(weights),
        ;
    }
    if n == 1 || mark > DRAW_DENOMINATOR * cumulative_weight(weights, (n - 1) as nat) {
        if n > 1 {
            lemma_cumulative_weight_monotone(weights, word, (n - 1) as nat);
        }
        n - 1
    } else {
        lemma_roulette_stops_before(weights, word, (n - 1) as nat)
    }
}

proof fn lemma_total_weight_nonnegative(weights: Seq<int>, n: nat)
    ensures
        0 <= cumulative_weight(weights, n),
    decreases n,
{
    if n > 0 {
        lemma_total_weight_nonnegative(weights, (n - 1) as nat);
    }
}

/// If the mark lies beyond the end of the `n`-th candidate, it lies beyond the
/// end of every candidate before it.
proof fn lemma_cumulative_weight_monotone(weights: Seq<int>, word: u32, n: nat)
    requires
        draw_fraction(word) * total_weight(weights) > DRAW_DENOMINATOR * cumulative_weight(
            weights,
            n,
        ),
    ensures
        forall|m: nat|
            0 < m <= n ==> draw_fraction(word) * total_weight(weights) > DRAW_DENOMINATOR
                * #[trigger] cumulative_weight(weights, m),
    decreases n,
{
    if n > 0 {
        let before = cumulative_weight(weights, (n - 1) as nat);
        let here = cumulative_weight(weights, n);
        assert(DRAW_DENOMINATOR * before <= DRAW_DENOMINATOR * here) by (nonlinear_arith)
            requires
                before <= here,
        ;
        lemma_cumulative_weight_monotone(weights, word, (n - 1) as nat);
    }
}

// ---------------------------------------------------------------------------
// Selection
// ---------------------------------------------------------------------------

/// The eligible chunks of a library for one selection, and what was rejected.
#[derive(Debug, Clone)]
pub struct CandidateSet {
    /// Indices of all eligible chunks, in library order.
    pub eligible: Vec<usize>,
    /// Indices of the eligible chunks of the target tier, in library order.
    pub preferred: Vec<usize>,
    /// Rejected chunks by reason.
    pub rejections: ValidationCounters,
}

/// A selected chunk.
#[derive(Debug, Clone, Copy, PartialEq, Eq, Structural)]
pub struct ChunkSelection {
    /// Index of the chunk in the library.
    pub index: usize,
    /// Whether the chunk was picked across pacing tiers, for want of an
    /// eligible chunk of the target tier.
    pub used_pacing_fallback: bool,
}

/// Sorts the library into eligible and rejected chunks for a selection after a
/// chunk whose bottom edge is `current_profile`.
pub fn collect_candidates(
    library: &ChunkLibrary,
    current_profile: &EdgeProfile,
    target_pacing: ChunkPacing,
    policy: &ProcgenValidationPolicy,
) -> (set: CandidateSet)
    ensures
        set.eligible@ == eligible_indices(library.chunks@, current_profile@, *policy),
        set.preferred@ == preferred_indices(
            library.chunks@,
            current_profile@,
            *policy,
            target_pacing,
        ),
        forall|reason: RejectionReason| #[trigger]
            set.rejections.count(reason) == rejected_count(
                library.chunks@,
                current_profile@,
                *policy,
                reason,
            ),
        set.rejections.no_candidate == 0,
{
    let mut eligible: Vec<usize> = Vec::new();
    let mut preferred: Vec<usize> = Vec::new();
    let mut rejections = ValidationCounters::default();
    let n = library.chunks.len();
    let mut i: usize = 0;
    while i < n
        invariant
            n == library.chunks@.len(),
            i <= n,
            eligible@ == eligible_among(library.chunks@, current_profile@, *policy, i as nat),
            preferred@ == preferred_among(
                library.chunks@,
                current_profile@,
                *policy,
                target_pacing,
                i as nat,
            ),
            forall|reason: RejectionReason| #[trigger]
                rejections.count(reason) == rejected_among(
                    library.chunks@,
                    current_profile@,
                    *policy,
                    reason,
                    i as nat,
                ),
            forall|reason: RejectionReason| #[trigger] rejections.count(reason) <= i,
            rejections.no_candidate == 0,
        decreases n - i,
    {
        let chunk = &library.chunks[i];
        let ghost before = rejections;
        match validate_chunk_schema(chunk, current_profile, policy) {
            Ok(()) => {
                if chunk.weight > 0 {
                    eligible.push(i);
                    if chunk.pacing == target_pacing {
                        preferred.push(i);
                    }
                } else {
                    assert(rejections.count(RejectionReason::InvalidWeight) <= i);
                    rejections.record_invalid_weight();
                }
            },
            Err(err) => {
                assert(rejections.count(RejectionReason::of_validation(err.reason)) <= i);
                rejections.record(err.reason);
            },
        }
        assert forall|reason: RejectionReason| #[trigger]
            rejections.count(reason) == rejected_among(
                library.chunks@,
                current_profile@,
                *policy,
                reason,
                (i + 1) as nat,
            ) && rejections.count(reason) <= i + 1 by {
            assert(before.count(reason) <= i);
            assert(before.count(reason) == rejected_among(
                library.chunks@,
                current_profile@,
                *policy,
                reason,
                i as nat,
            ));
        }
        i += 1;
    }
    CandidateSet { eligible, preferred, rejections }
}

/// The weights as mathematical integers.
pub open spec fn weights_of(values: Seq<i32>) -> Seq<int> {
    Seq::new(values.len(), |k: int| values[k] as int)
}

/// Picks a position among the weights by weighted roulette.
///
/// The weights lie one after another on a line, each as long as its usable
/// part. The 24 most significant bits of `word` mark a point on that line,
/// from its start up to, but not including, its end, and the weight that holds
/// the point is picked: the first whose end is at or beyond it. Without any
/// weight nothing is picked.
pub fn pick_weighted_index(weights: &Vec<i32>, word: u32) -> (picked: Option<usize>)
    ensures
        weights@.len() == 0 ==> picked is None,
        weights@.len() > 0 ==> {
            let k = roulette_position(weights_of(weights@), word);
            &&& roulette_stops_at(weights_of(weights@), word, k)
            &&& picked == Some(k as usize)
        },
{
    let n = weights.len();
    if n == 0 {
        return None;
    }
    let ghost ints = weights_of(weights@);
    let mut total: u128 = 0;
    let mut k: usize = 0;
    while k < n
        invariant
            n == weights@.len(),
            k <= n,
            ints == weights_of(weights@),
            total == cumulative_weight(ints, k as nat),
            total <= k * i32::MAX,
        decreases n - k,
    {
        let weight: i32 = weights[k];
        assert(k * i32::MAX + i32::MAX <= usize::MAX * i32::MAX + i32::MAX) by (nonlinear_arith)
            requires
                k <= usize::MAX,
        ;
        if weight > 0 {
            total = total + weight as u128;
        }
        assert((k + 1) * i32::MAX == k * i32::MAX + i32::MAX) by (nonlinear_arith);
        k += 1;
    }
    assert(total <= usize::MAX * i32::MAX) by (nonlinear_arith)
        requires
            total <= n * i32::MAX,
            n <= usize::MAX,
    ;
    let fraction: u128 = (word / 256) as u128;
    assert(fraction * total <= 0xff_ffff * (usize::MAX * i32::MAX)) by (nonlinear_arith)
        requires
            fraction <= 0xff_ffff,
            total <= usize::MAX * i32::MAX,
    ;
    let mark: u128 = fraction * total;
    let mut reached: u128 = 0;
    let mut k: usize = 0;
    while k < n
        invariant
            n == weights@.len(),
            n > 0,
            k <= n,
            ints == weights_of(weights@),
            total == total_weight(ints),
            total <= usize::MAX * i32::MAX,
            mark == draw_fraction(word) * total_weight(ints),
            reached == cumulative_weight(ints, k as nat),
            reached <= total,
            forall|m: nat|
                0 < m <= k ==> mark > DRAW_DENOMINATOR * #[trigger] cumulative_weight(ints, m),
        decreases n - k,
    {
        let weight: i32 = weights[k];
        proof {
            lemma_cumulative_weight_step_bound(ints, (k + 1) as nat);
        }
        if weight > 0 {
            reached = reached + weight as u128;
        }
        assert(DRAW_DENOMINATOR * reached <= 0x100_0000 * (usize::MAX * i32::MAX))
            by (nonlinear_arith)
            requires
                reached <= usize::MAX * i32::MAX,
        ;
        if mark <= (DRAW_DENOMINATOR as u128) * reached {
            proof {
                assert(roulette_stops_at(ints, word, k as int));
                lemma_roulette_stop_unique(ints, word, k as int, roulette_position(ints, word));
            }
            return Some(k);
        }
        k += 1;
    }
    // The mark lies before the end of the line, so the walk has stopped by
    // now. Were it ever to come here, the last weight would be picked.
    proof {
        lemma_roulette_stops(ints, word);
        let stop = roulette_position(ints, word);
        assert(mark > DRAW_DENOMINATOR * cumulative_weight(ints, (stop + 1) as nat));
    }
    Some(n - 1)
}

/// Picks one of the candidates by weighted roulette over their weights.
fn pick_weighted_chunk(library: &ChunkLibrary, candidates: &Vec<usize>, word: u32) -> (picked:
    Option<usize>)
    requires
        forall|k: int| 0 <= k < candidates@.len() ==> #[trigger] candidates@[k] < library.chunks@.len(),
    ensures
        candidates@.len() == 0 ==> picked is None,
        candidates@.len() > 0 ==> {
            let weights = candidate_weights(library.chunks@, candidates@);
            let k = roulette_position(weights, word);
            &&& roulette_stops_at(weights, word, k)
            &&& picked == Some(candidates@[k])
        },
{
    let n = candidates.len();
    let mut weights: Vec<i32> = Vec::new();
    let mut k: usize = 0;
    while k < n
        invariant
            n == candidates@.len(),
            k <= n,
            forall|j: int|
                0 <= j < candidates@.len() ==> #[trigger] candidates@[j] < library.chunks@.len(),
            weights@.len() == k,
            forall|j: int|
                0 <= j < k ==> #[trigger] weights@[j] == library.chunks@[candidates@[j] as int].weight,
        decreases n - k,
    {
        weights.push(library.chunks[candidates[k]].weight);
        k += 1;
    }
    assert(weights_of(weights@) =~= candidate_weights(library.chunks@, candidates@));
    match pick_weighted_index(&weights, word) {
        Some(position) => Some(candidates[position]),
        None => None,
    }
}

/// The usable weight of the first `n` candidates is no more than that of all.
proof fn lemma_cumulative_weight_step_bound(weights: Seq<int>, n: nat)
    requires
        n <= weights.len(),
    ensures
        cumulative_weight(weights, n) <= total_weight(weights),
    decreases weights.len() - n,
{
    if n < weights.len() {
        lemma_cumulative_weight_step_bound(weights, n + 1);
    }
}

/// Selects the next chunk after a chunk whose bottom edge is
/// `current_profile`, drawing from `source` only if there is a candidate.
///
/// Every chunk is checked: edge profile, then wall geometry, then weight. The
/// pick is made among the eligible chunks of the target tier, or among all
/// eligible chunks if that tier has none. Where no chunk is eligible, nothing
/// is selected, the source is left as it was, and the counters say that there
/// was no candidate.
pub fn select_chunk_with<R: RandomSource>(
    library: &ChunkLibrary,
    current_profile: &EdgeProfile,
    target_pacing: ChunkPacing,
    policy: &ProcgenValidationPolicy,
    source: &mut R,
) -> (out: (Option<ChunkSelection>, ValidationCounters))
    requires
        old(source).ready(),
    ensures
        final(source).ready(),
        counts_selection(out.1, library.chunks@, current_profile@, *policy),
        out.0 is None <==> eligible_indices(library.chunks@, current_profile@, *policy).len() == 0,
        out.0 is None ==> *final(source) == *old(source),
        out.0 matches Some(selection) ==> {
            &&& exists|word: u32|
                #![trigger old(source).may_yield(word, final(source))]
                old(source).may_yield(word, final(source)) && Some(selection.index)
                    == selection_for_word(
                    library.chunks@,
                    current_profile@,
                    *policy,
                    target_pacing,
                    word,
                )
            &&& selection.used_pacing_fallback == uses_pacing_fallback(
                library.chunks@,
                current_profile@,
                *policy,
                target_pacing,
            )
            &&& selection.index < library.chunks@.len()
            &&& library.chunks@[selection.index as int].top_profile@ == current_profile@
            &&& is_eligible(library.chunks@[selection.index as int], current_profile@, *policy)
            &&& !selection.used_pacing_fallback ==> library.chunks@[selection.index as int].pacing
                == target_pacing
        },
{
    let set = collect_candidates(library, current_profile, target_pacing, policy);
    let mut rejections = set.rejections;
    let _ = library.chunks.len();
    proof {
        lemma_preferred_among_eligible(
            library.chunks@,
            current_profile@,
            *policy,
            target_pacing,
            library.chunks@.len(),
        );
        lemma_active_members(library.chunks@, current_profile@, *policy, target_pacing);
        lemma_eligible_among_members(
            library.chunks@,
            current_profile@,
            *policy,
            library.chunks@.len(),
        );
        lemma_preferred_among_members(
            library.chunks@,
            current_profile@,
            *policy,
            target_pacing,
            library.chunks@.len(),
        );
    }
    if set.eligible.len() == 0 {
        rejections.record_no_candidate();
        return (None, rejections);
    }
    let used_pacing_fallback = set.preferred.len() == 0;
    let word = source.draw();
    let picked = if used_pacing_fallback {
        pick_weighted_chunk(library, &set.eligible, word)
    } else {
        pick_weighted_chunk(library, &set.preferred, word)
    };
    proof {
        lemma_selection_is_eligible(
            library.chunks@,
            current_profile@,
            *policy,
            target_pacing,
            word,
        );
    }
    match picked {
        Some(index) => (Some(ChunkSelection { index, used_pacing_fallback }), rejections),
        None => (None, rejections),
    }
}

/// Selects the next chunk with a word from the thread's random generator.
///
/// Which of the candidates is picked depends on the word drawn; that a chunk
/// is picked whenever one is eligible, from which candidates, and what is
/// counted, does not.
pub fn select_chunk_validated<'a>(
    library: &'a ChunkLibrary,
    current_profile: &EdgeProfile,
    target_pacing: ChunkPacing,
    policy: &ProcgenValidationPolicy,
) -> (out: (Option<&'a ChunkSchema>, ValidationCounters))
    ensures
        counts_selection(out.1, library.chunks@, current_profile@, *policy),
        out.0 is None <==> eligible_indices(library.chunks@, current_profile@, *policy).len() == 0,
        out.0 matches Some(chunk) ==> exists|word: u32| #[trigger]
            selects_chunk(library.chunks@, current_profile@, *policy, target_pacing, word, *chunk),
        out.0 matches Some(chunk) ==> {
            &&& chunk.top_profile@ == current_profile@
            &&& is_eligible(*chunk, current_profile@, *policy)
            &&& !uses_pacing_fallback(library.chunks@, current_profile@, *policy, target_pacing)
                ==> chunk.pacing == target_pacing
        },
{
    let mut source = LiveSource::new();
    let (selection, rejections) = select_chunk_with(
        library,
        current_profile,
        target_pacing,
        policy,
        &mut source,
    );
    match selection {
        Some(selection) => {
            proof {
                let word = choose|word: u32|
                    #![trigger source.may_yield(word, &source)]
                    Some(selection.index) == selection_for_word(
                        library.chunks@,
                        current_profile@,
                        *policy,
                        target_pacing,
                        word,
                    );
                assert(selects_chunk(
                    library.chunks@,
                    current_profile@,
                    *policy,
                    target_pacing,
                    word,
                    library.chunks@[selection.index as int],
                ));
            }
            (Some(&library.chunks[selection.index]), rejections)
        },
        None => (None, rejections),
    }
}

/// Selects the next chunk under the default thresholds, with a word from the
/// thread's random generator.
pub fn select_chunk<'a>(
    library: &'a ChunkLibrary,
    current_profile: &EdgeProfile,
    target_pacing: ChunkPacing,
) -> (selected: Option<&'a ChunkSchema>)
    ensures
        selected is None <==> eligible_indices(
            library.chunks@,
            current_profile@,
            ProcgenValidationPolicy::default_spec(),
        ).len() == 0,
        selected matches Some(chunk) ==> exists|word: u32| #[trigger]
            selects_chunk(
                library.chunks@,
                current_profile@,
                ProcgenValidationPolicy::default_spec(),
                target_pacing,
                word,
                *chunk,
            ),
        selected matches Some(chunk) ==> {
            &&& chunk.top_profile@ == current_profile@
            &&& is_eligible(*chunk, current_profile@, ProcgenValidationPolicy::default_spec())
            &&& !uses_pacing_fallback(
                library.chunks@,
                current_profile@,
                ProcgenValidationPolicy::default_spec(),
                target_pacing,
            ) ==> chunk.pacing == target_pacing
        },
{
    let policy = ProcgenValidationPolicy::default();
    let (selected, _) = select_chunk_validated(library, current_profile, target_pacing, &policy);
    selected
}

} // verus!

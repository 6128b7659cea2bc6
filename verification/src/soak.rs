//! Offline soak simulation: a seeded run of the selector and the pacing state
//! machine, for the analysis of long-run pick distributions.
//!
//! A run is a function of the library and the configuration alone. Step `k`
//! uses the `k`-th word that the seed yields, and the run stops at the first
//! step that finds no eligible chunk.

use vstd::prelude::*;
use crate::names::NameCounts;
use crate::pacing::{
    canonical_pacing, determine_target_pacing, followed_pacing, lemma_canonical_oscillation,
    pacing_after, start_pacing, target_pacing, PacingState,
};
use crate::random::{seeded_word, RandomSource, SeededSource};
use crate::schema::{ChunkLibrary, ChunkPacing, ChunkSchema, EdgeProfile, PROFILE_RESOLUTION};
use crate::selector::{
    is_eligible, lemma_selection_is_eligible, rejected_count, select_chunk_with,
    selection_for_word, uses_pacing_fallback, ChunkSelection,
};
use crate::telemetry::{one_if, saturated, RejectionReason, ValidationCounters};
use crate::validation::ProcgenValidationPolicy;

verus! {

/// What a soak run starts from.
#[derive(Debug, Clone, Copy)]
pub struct ProcgenSoakConfig {
    /// Seed of the random words.
    pub seed: u64,
    /// Number of selections to make.
    pub steps: usize,
    /// Bottom edge that the first chunk has to continue.
    pub start_profile: EdgeProfile,
    pub start_current_pacing: ChunkPacing,
    pub start_previous_pacing: ChunkPacing,
    pub start_chunks_in_current_pacing: usize,
}

impl Default for ProcgenSoakConfig {
    fn default() -> (config: ProcgenSoakConfig)
        ensures
            config.seed == 1,
            config.steps == 128,
            config.start_profile@ == Seq::new(PROFILE_RESOLUTION as nat, |i: int| false),
            config.start_current_pacing == ChunkPacing::Open,
            config.start_previous_pacing == ChunkPacing::Open,
            config.start_chunks_in_current_pacing == 0,
    {
        let config = ProcgenSoakConfig {
            seed: 1,
            steps: 128,
            start_profile: [false; PROFILE_RESOLUTION],
            start_current_pacing: ChunkPacing::Open,
            start_previous_pacing: ChunkPacing::Open,
            start_chunks_in_current_pacing: 0,
        };
        assert(config.start_profile@ =~= Seq::new(PROFILE_RESOLUTION as nat, |i: int| false));
        config
    }
}

/// How many chunks of each pacing tier were picked.
#[derive(Debug, Clone, Copy, PartialEq, Eq, Structural)]
pub struct PacingPickCounts {
    pub open: u64,
    pub transition: u64,
    pub dense: u64,
}

impl PacingPickCounts {
    /// The count kept for `pacing`.
    pub open spec fn count(self, pacing: ChunkPacing) -> u64 {
        match pacing {
            ChunkPacing::Open => self.open,
            ChunkPacing::Transition => self.transition,
            ChunkPacing::Dense => self.dense,
        }
    }

    /// Returns the count kept for `pacing`.
    pub fn get(&self, pacing: ChunkPacing) -> (count: u64)
        ensures
            count == self.count(pacing),
    {
        match pacing {
            ChunkPacing::Open => self.open,
            ChunkPacing::Transition => self.transition,
            ChunkPacing::Dense => self.dense,
        }
    }

    fn bump(&mut self, pacing: ChunkPacing)
        requires
            old(self).count(pacing) < u64::MAX,
        ensures
            forall|p: ChunkPacing| #[trigger]
                final(self).count(p) == old(self).count(p) + one_if(p == pacing),
    {
        match pacing {
            ChunkPacing::Open => {
                self.open = self.open + 1;
            },
            ChunkPacing::Transition => {
                self.transition = self.transition + 1;
            },
            ChunkPacing::Dense => {
                self.dense = self.dense + 1;
            },
        }
    }
}

/// What a soak run produced.
#[derive(Debug, Clone)]
pub struct ProcgenSoakSummary {
    pub seed: u64,
    pub steps_requested: usize,
    /// Number of selections made: fewer than requested if a step found no
    /// eligible chunk.
    pub steps_completed: usize,
    pub pacing_pick_counts: PacingPickCounts,
    /// Picks by chunk name.
    pub chunk_pick_counts: NameCounts,
    pub rejection_counts: ValidationCounters,
    /// Length of the longest run of consecutive picks of one pacing tier.
    pub longest_same_pacing_streak: usize,
    /// Pacing tier of each pick, in order.
    pub pacing_sequence: Vec<ChunkPacing>,
    /// Name of each picked chunk, in order.
    pub chunk_sequence: Vec<String>,
    /// Number of picks made across pacing tiers.
    pub pacing_fallback_count: usize,
}

// ---------------------------------------------------------------------------
// What a run is
// ---------------------------------------------------------------------------

/// The part of the run's state that decides the next selection.
pub struct SoakCursor {
    /// Bottom edge of the last chunk.
    pub profile: Seq<bool>,
    pub pacing: PacingState,
}

impl SoakCursor {
    /// The pacing tier that the next selection aims for.
    pub open spec fn target(self) -> ChunkPacing {
        target_pacing(self.pacing.current, self.pacing.previous, self.pacing.run_length)
    }

    /// The cursor after `chunk` was selected.
    pub open spec fn after(self, chunk: ChunkSchema) -> SoakCursor {
        SoakCursor {
            profile: chunk.bottom_profile@,
            pacing: pacing_after(self.pacing, chunk.pacing),
        }
    }
}

/// The cursor that a run starts from.
pub open spec fn soak_start(config: ProcgenSoakConfig) -> SoakCursor {
    SoakCursor {
        profile: config.start_profile@,
        pacing: PacingState {
            current: config.start_current_pacing,
            previous: config.start_previous_pacing,
            run_length: config.start_chunks_in_current_pacing as nat,
        },
    }
}

/// The chunk that step `k` selects from the given cursor.
pub open spec fn soak_pick_from(
    chunks: Seq<ChunkSchema>,
    seed: u64,
    cursor: SoakCursor,
    k: nat,
) -> Option<usize> {
    selection_for_word(
        chunks,
        cursor.profile,
        ProcgenValidationPolicy::default_spec(),
        cursor.target(),
        seeded_word(seed, k),
    )
}

/// The cursor before step `k`, where each step before it selected a chunk.
pub open spec fn soak_cursor(chunks: Seq<ChunkSchema>, config: ProcgenSoakConfig, k: nat) -> SoakCursor
    decreases k,
{
    if k == 0 {
        soak_start(config)
    } else {
        let before = soak_cursor(chunks, config, (k - 1) as nat);
        match soak_pick_from(chunks, config.seed, before, (k - 1) as nat) {
            Some(i) => before.after(chunks[i as int]),
            None => before,
        }
    }
}

/// The chunk that step `k` selects, or `None` if it finds no eligible chunk.
pub open spec fn soak_pick(chunks: Seq<ChunkSchema>, config: ProcgenSoakConfig, k: nat) -> Option<
    usize,
> {
    soak_pick_from(chunks, config.seed, soak_cursor(chunks, config, k), k)
}

/// The number of steps, out of at most `limit`, that come before the first
/// step that selects nothing.
pub open spec fn soak_length(chunks: Seq<ChunkSchema>, config: ProcgenSoakConfig, limit: nat) -> nat
    decreases limit,
{
    if limit == 0 {
        0
    } else {
        let before = soak_length(chunks, config, (limit - 1) as nat);
        if before == limit - 1 && soak_pick(chunks, config, before) is Some {
            limit
        } else {
            before
        }
    }
}

/// The indices of the chunks that the first `n` steps select.
pub open spec fn soak_picks(chunks: Seq<ChunkSchema>, config: ProcgenSoakConfig, n: nat) -> Seq<
    usize,
> {
    Seq::new(n, |k: int| soak_pick(chunks, config, k as nat)->0)
}

/// How many chunks the first `n` steps reject for `reason`, all steps
/// together.
pub open spec fn soak_rejections(
    chunks: Seq<ChunkSchema>,
    config: ProcgenSoakConfig,
    reason: RejectionReason,
    n: nat,
) -> nat
    decreases n,
{
    if n == 0 {
        0
    } else {
        soak_rejections(chunks, config, reason, (n - 1) as nat) + rejected_count(
            chunks,
            soak_cursor(chunks, config, (n - 1) as nat).profile,
            ProcgenValidationPolicy::default_spec(),
            reason,
        )
    }
}

/// How many of the first `n` steps pick across pacing tiers.
pub open spec fn soak_fallbacks(chunks: Seq<ChunkSchema>, config: ProcgenSoakConfig, n: nat) -> nat
    decreases n,
{
    if n == 0 {
        0
    } else {
        let cursor = soak_cursor(chunks, config, (n - 1) as nat);
        soak_fallbacks(chunks, config, (n - 1) as nat) + one_if(
            uses_pacing_fallback(
                chunks,
                cursor.profile,
                ProcgenValidationPolicy::default_spec(),
                cursor.target(),
            ),
        ) as nat
    }
}

/// How often `x` occurs among the first `n` items.
pub open spec fn occurrences<T>(items: Seq<T>, x: T, n: nat) -> nat
    decreases n,
{
    if n == 0 {
        0
    } else {
        occurrences(items, x, (n - 1) as nat) + one_if(items[n - 1] == x) as nat
    }
}

/// The length of the run of equal items that ends with the `n`-th item.
pub open spec fn run_ending<T>(items: Seq<T>, n: nat) -> nat
    decreases n,
{
    if n == 0 {
        0
    } else if n >= 2 && items[n - 1] == items[n - 2] {
        run_ending(items, (n - 1) as nat) + 1
    } else {
        1
    }
}

/// The length of the longest run of equal items among the first `n`.
pub open spec fn longest_run<T>(items: Seq<T>, n: nat) -> nat
    decreases n,
{
    if n == 0 {
        0
    } else {
        let before = longest_run(items, (n - 1) as nat);
        let here = run_ending(items, n);
        if here > before {
            here
        } else {
            before
        }
    }
}

/// The distinct names among the first `n`, each at the place of its first
/// occurrence.
pub open spec fn distinct_names(names: Seq<Seq<char>>, n: nat) -> Seq<Seq<char>>
    decreases n,
{
    if n == 0 {
        Seq::empty()
    } else {
        let before = distinct_names(names, (n - 1) as nat);
        if occurrences(names, names[n - 1], (n - 1) as nat) > 0 {
            before
        } else {
            before.push(names[n - 1])
        }
    }
}

/// The names in a list of strings.
pub open spec fn names_of(strings: Seq<String>) -> Seq<Seq<char>> {
    Seq::new(strings.len(), |k: int| strings[k]@)
}

impl ProcgenSoakSummary {
    /// Whether the summary is that of the run on `chunks` that `config`
    /// describes.
    pub open spec fn is_result_of(self, chunks: Seq<ChunkSchema>, config: ProcgenSoakConfig) -> bool {
        let completed = soak_length(chunks, config, config.steps as nat);
        let attempted = if completed < config.steps {
            completed + 1
        } else {
            completed
        };
        let picks = soak_picks(chunks, config, completed);
        &&& self.seed == config.seed
        &&& self.steps_requested == config.steps
        &&& self.steps_completed == completed
        &&& self.pacing_sequence@ == Seq::new(completed, |k: int| chunks[picks[k] as int].pacing)
        &&& names_of(self.chunk_sequence@) == Seq::new(
            completed,
            |k: int| chunks[picks[k] as int].name@,
        )
        &&& forall|pacing: ChunkPacing| #[trigger]
            self.pacing_pick_counts.count(pacing) == occurrences(
                self.pacing_sequence@,
                pacing,
                completed,
            )
        &&& self.chunk_pick_counts.wf()
        &&& forall|name: Seq<char>| #[trigger]
            self.chunk_pick_counts.count(name) == occurrences(
                names_of(self.chunk_sequence@),
                name,
                completed,
            )
        &&& forall|name: Seq<char>| #[trigger]
            self.chunk_pick_counts.contains(name) <==> occurrences(
                names_of(self.chunk_sequence@),
                name,
                completed,
            ) > 0
        &&& names_of(self.chunk_pick_counts.names()) == distinct_names(
            names_of(self.chunk_sequence@),
            completed,
        )
        &&& self.chunk_pick_counts.total() == completed
        &&& forall|reason: RejectionReason| #[trigger]
            self.rejection_counts.count(reason) == saturated(
                soak_rejections(chunks, config, reason, attempted) as int,
            )
        &&& self.rejection_counts.no_candidate == one_if(completed < config.steps)
        &&& self.longest_same_pacing_streak == longest_run(self.pacing_sequence@, completed)
        &&& self.pacing_fallback_count == soak_fallbacks(chunks, config, completed)
    }
}

// ---------------------------------------------------------------------------
// Facts about runs
// ---------------------------------------------------------------------------

/// Occurrences among the first `n` items depend on those items alone.
pub proof fn lemma_occurrences_of_prefix<T>(a: Seq<T>, b: Seq<T>, x: T, n: nat)
    requires
        n <= a.len(),
        n <= b.len(),
        forall|k: int| 0 <= k < n ==> a[k] == b[k],
    ensures
        occurrences(a, x, n) == occurrences(b, x, n),
        occurrences(a, x, n) <= n,
    decreases n,
{
    if n > 0 {
        lemma_occurrences_of_prefix(a, b, x, (n - 1) as nat);
    }
}

/// Runs among the first `n` items depend on those items alone, and none is
/// longer than `n`.
pub proof fn lemma_runs_of_prefix<T>(a: Seq<T>, b: Seq<T>, n: nat)
    requires
        n <= a.len(),
        n <= b.len(),
        forall|k: int| 0 <= k < n ==> a[k] == b[k],
    ensures
        run_ending(a, n) == run_ending(b, n),
        longest_run(a, n) == longest_run(b, n),
        run_ending(a, n) <= n,
        longest_run(a, n) <= n,
    decreases n,
{
    if n > 0 {
        lemma_runs_of_prefix(a, b, (n - 1) as nat);
    }
}

/// The distinct names among the first `n` depend on those names alone.
pub proof fn lemma_distinct_names_of_prefix(a: Seq<Seq<char>>, b: Seq<Seq<char>>, n: nat)
    requires
        n <= a.len(),
        n <= b.len(),
        forall|k: int| 0 <= k < n ==> a[k] == b[k],
    ensures
        distinct_names(a, n) == distinct_names(b, n),
    decreases n,
{
    if n > 0 {
        lemma_distinct_names_of_prefix(a, b, (n - 1) as nat);
        lemma_occurrences_of_prefix(a, b, a[n - 1], (n - 1) as nat);
    }
}

/// Once a step selects nothing, the run has its final length.
pub proof fn lemma_soak_length_after_stop(
    chunks: Seq<ChunkSchema>,
    config: ProcgenSoakConfig,
    stop: nat,
    limit: nat,
)
    requires
        soak_length(chunks, config, stop) == stop,
        soak_pick(chunks, config, stop) is None,
        stop <= limit,
    ensures
        soak_length(chunks, config, limit) == stop,
    decreases limit,
{
    if limit > stop {
        lemma_soak_length_after_stop(chunks, config, stop, (limit - 1) as nat);
    }
}

/// No more steps pick across pacing tiers than there are steps.
pub proof fn lemma_soak_fallbacks_bound(chunks: Seq<ChunkSchema>, config: ProcgenSoakConfig, n: nat)
    ensures
        soak_fallbacks(chunks, config, n) <= n,
    decreases n,
{
    if n > 0 {
        lemma_soak_fallbacks_bound(chunks, config, (n - 1) as nat);
    }
}

/// A run is a function of the library and the configuration: two summaries of
/// the same run agree in the sequence of chunks, the sequence of pacing tiers,
/// the counts of rejections, and everything else that they report.
pub proof fn lemma_soak_is_deterministic(
    chunks: Seq<ChunkSchema>,
    config: ProcgenSoakConfig,
    first: ProcgenSoakSummary,
    second: ProcgenSoakSummary,
)
    requires
        first.is_result_of(chunks, config),
        second.is_result_of(chunks, config),
    ensures
        names_of(first.chunk_sequence@) == names_of(second.chunk_sequence@),
        first.pacing_sequence@ == second.pacing_sequence@,
        first.rejection_counts == second.rejection_counts,
        first.steps_completed == second.steps_completed,
        first.pacing_pick_counts == second.pacing_pick_counts,
        forall|name: Seq<char>| #[trigger]
            first.chunk_pick_counts.count(name) == second.chunk_pick_counts.count(name),
        names_of(first.chunk_pick_counts.names()) == names_of(second.chunk_pick_counts.names()),
        first.longest_same_pacing_streak == second.longest_same_pacing_streak,
        first.pacing_fallback_count == second.pacing_fallback_count,
{
    assert(first.rejection_counts.count(RejectionReason::ProfileMismatch)
        == second.rejection_counts.count(RejectionReason::ProfileMismatch));
    assert(first.rejection_counts.count(RejectionReason::ConcaveTrap)
        == second.rejection_counts.count(RejectionReason::ConcaveTrap));
    assert(first.rejection_counts.count(RejectionReason::ExitAngleFail)
        == second.rejection_counts.count(RejectionReason::ExitAngleFail));
    assert(first.rejection_counts.count(RejectionReason::InvalidWeight)
        == second.rejection_counts.count(RejectionReason::InvalidWeight));
    assert(first.pacing_pick_counts.count(ChunkPacing::Open) == second.pacing_pick_counts.count(
        ChunkPacing::Open,
    ));
    assert(first.pacing_pick_counts.count(ChunkPacing::Transition)
        == second.pacing_pick_counts.count(ChunkPacing::Transition));
    assert(first.pacing_pick_counts.count(ChunkPacing::Dense) == second.pacing_pick_counts.count(
        ChunkPacing::Dense,
    ));
}

/// Every chunk of a run continues the edge before it: the top edge of the
/// chunk that step `k` selects repeats the bottom edge of the chunk selected
/// at step `k - 1`, or the start profile at the first step. A run never
/// completes more steps than were asked for.
pub proof fn lemma_soak_picks_continue_edges(
    chunks: Seq<ChunkSchema>,
    config: ProcgenSoakConfig,
    k: nat,
)
    requires
        chunks.len() <= usize::MAX,
        soak_pick(chunks, config, k) is Some,
    ensures
        soak_pick(chunks, config, k)->0 < chunks.len(),
        chunks[soak_pick(chunks, config, k)->0 as int].top_profile@ == soak_cursor(
            chunks,
            config,
            k,
        ).profile,
        k == 0 ==> soak_cursor(chunks, config, k).profile == config.start_profile@,
        k > 0 && soak_pick(chunks, config, (k - 1) as nat) is Some ==> soak_cursor(
            chunks,
            config,
            k,
        ).profile == chunks[soak_pick(chunks, config, (k - 1) as nat)->0 as int].bottom_profile@,
        soak_length(chunks, config, config.steps as nat) <= config.steps,
{
    let cursor = soak_cursor(chunks, config, k);
    lemma_selection_is_eligible(
        chunks,
        cursor.profile,
        ProcgenValidationPolicy::default_spec(),
        cursor.target(),
        seeded_word(config.seed, k),
    );
    lemma_soak_length_bound(chunks, config, config.steps as nat);
}

/// Every step before the end of a run selects a chunk.
pub proof fn lemma_soak_picks_before_end(
    chunks: Seq<ChunkSchema>,
    config: ProcgenSoakConfig,
    limit: nat,
    k: nat,
)
    requires
        k < soak_length(chunks, config, limit),
    ensures
        soak_pick(chunks, config, k) is Some,
    decreases limit,
{
    if limit > 0 {
        if k < soak_length(chunks, config, (limit - 1) as nat) {
            lemma_soak_picks_before_end(chunks, config, (limit - 1) as nat, k);
        } else {
            lemma_soak_length_bound(chunks, config, (limit - 1) as nat);
        }
    }
}

/// What a summary says of a completed step, for any library and any
/// configuration: the step picked a chunk of the library whose name and
/// pacing tier are the ones listed, which is eligible after the edge before
/// it (positive weight, walls that pass under the default thresholds, also
/// where the pick went across pacing tiers), and whose top edge repeats the
/// bottom edge of the chunk picked at the step before, or the start profile
/// at the first step.
pub proof fn lemma_soak_summary_chains_edges(
    chunks: Seq<ChunkSchema>,
    config: ProcgenSoakConfig,
    summary: ProcgenSoakSummary,
    k: nat,
)
    requires
        chunks.len() <= usize::MAX,
        summary.is_result_of(chunks, config),
        k < summary.steps_completed,
    ensures
        summary.steps_completed <= config.steps,
        soak_pick(chunks, config, k) matches Some(i) && {
            let chunk = chunks[i as int];
            let required = if k == 0 {
                config.start_profile@
            } else {
                chunks[soak_pick(chunks, config, (k - 1) as nat)->0 as int].bottom_profile@
            };
            &&& i < chunks.len()
            &&& names_of(summary.chunk_sequence@)[k as int] == chunk.name@
            &&& summary.pacing_sequence@[k as int] == chunk.pacing
            &&& chunk.top_profile@ == required
            &&& is_eligible(chunk, required, ProcgenValidationPolicy::default_spec())
        },
{
    let completed = soak_length(chunks, config, config.steps as nat);
    lemma_soak_length_bound(chunks, config, config.steps as nat);
    lemma_soak_picks_before_end(chunks, config, config.steps as nat, k);
    lemma_soak_picks_continue_edges(chunks, config, k);
    if k > 0 {
        lemma_soak_picks_before_end(chunks, config, config.steps as nat, (k - 1) as nat);
    }
    let cursor = soak_cursor(chunks, config, k);
    lemma_selection_is_eligible(
        chunks,
        cursor.profile,
        ProcgenValidationPolicy::default_spec(),
        cursor.target(),
        seeded_word(config.seed, k),
    );
    let picks = soak_picks(chunks, config, completed);
    assert(picks[k as int] == soak_pick(chunks, config, k)->0);
}

/// A run from the start state in which every step finds an eligible chunk of
/// the tier aimed for picks the tiers in the cycle Open, Open, Transition,
/// Dense, Transition.
pub proof fn lemma_soak_follows_canonical_pacing(
    chunks: Seq<ChunkSchema>,
    config: ProcgenSoakConfig,
    n: nat,
)
    requires
        chunks.len() <= usize::MAX,
        soak_start(config).pacing == start_pacing(),
        forall|k: nat|
            k < n ==> (#[trigger] soak_pick(chunks, config, k)) is Some && !uses_pacing_fallback(
                chunks,
                soak_cursor(chunks, config, k).profile,
                ProcgenValidationPolicy::default_spec(),
                soak_cursor(chunks, config, k).target(),
            ),
    ensures
        soak_cursor(chunks, config, n).pacing == followed_pacing(n),
        forall|k: nat|
            k < n ==> chunks[(#[trigger] soak_pick(chunks, config, k))->0 as int].pacing
                == canonical_pacing(k),
    decreases n,
{
    if n > 0 {
        let k = (n - 1) as nat;
        lemma_soak_follows_canonical_pacing(chunks, config, k);
        let cursor = soak_cursor(chunks, config, k);
        assert(soak_pick(chunks, config, k) is Some);
        lemma_selection_is_eligible(
            chunks,
            cursor.profile,
            ProcgenValidationPolicy::default_spec(),
            cursor.target(),
            seeded_word(config.seed, k),
        );
        lemma_canonical_oscillation(k);
    }
}

/// A run completes no more steps than its limit.
pub proof fn lemma_soak_length_bound(chunks: Seq<ChunkSchema>, config: ProcgenSoakConfig, limit: nat)
    ensures
        soak_length(chunks, config, limit) <= limit,
    decreases limit,
{
    if limit > 0 {
        lemma_soak_length_bound(chunks, config, (limit - 1) as nat);
    }
}

// ---------------------------------------------------------------------------
// The simulation
// ---------------------------------------------------------------------------

/// The picks made so far, with the counts and streaks that follow from them.
struct PickLog {
    pacing_sequence: Vec<ChunkPacing>,
    chunk_sequence: Vec<String>,
    pacing_pick_counts: PacingPickCounts,
    chunk_pick_counts: NameCounts,
    last_pacing: Option<ChunkPacing>,
    current_streak: usize,
    longest_streak: usize,
}

impl PickLog {
    /// The counts and streaks are those of the two sequences.
    spec fn consistent(&self) -> bool {
        let n = self.pacing_sequence@.len();
        &&& self.chunk_sequence@.len() == n
        &&& forall|pacing: ChunkPacing| #[trigger]
            self.pacing_pick_counts.count(pacing) == occurrences(self.pacing_sequence@, pacing, n)
        &&& self.chunk_pick_counts.wf()
        &&& forall|name: Seq<char>| #[trigger]
            self.chunk_pick_counts.count(name) == occurrences(
                names_of(self.chunk_sequence@),
                name,
                n,
            )
        &&& forall|name: Seq<char>| #[trigger]
            self.chunk_pick_counts.contains(name) <==> occurrences(
                names_of(self.chunk_sequence@),
                name,
                n,
            ) > 0
        &&& names_of(self.chunk_pick_counts.names()) == distinct_names(
            names_of(self.chunk_sequence@),
            n,
        )
        &&& self.chunk_pick_counts.total() == n
        &&& self.last_pacing == if n == 0 {
            None
        } else {
            Some(self.pacing_sequence@[n - 1])
        }
        &&& self.current_streak == run_ending(self.pacing_sequence@, n)
        &&& self.longest_streak == longest_run(self.pacing_sequence@, n)
    }

    fn new() -> (log: PickLog)
        ensures
            log.consistent(),
            log.pacing_sequence@.len() == 0,
    {
        let log = PickLog {
            pacing_sequence: Vec::new(),
            chunk_sequence: Vec::new(),
            pacing_pick_counts: PacingPickCounts { open: 0, transition: 0, dense: 0 },
            chunk_pick_counts: NameCounts::new(),
            last_pacing: None,
            current_streak: 0,
            longest_streak: 0,
        };
        assert(names_of(log.chunk_pick_counts.names()) =~= distinct_names(
            names_of(log.chunk_sequence@),
            0,
        ));
        log
    }

    fn record(&mut self, selected: &ChunkSchema)
        requires
            old(self).consistent(),
            old(self).pacing_sequence@.len() < usize::MAX,
        ensures
            final(self).consistent(),
            final(self).pacing_sequence@ == old(self).pacing_sequence@.push(selected.pacing),
            final(self).chunk_sequence@.len() == old(self).chunk_sequence@.len() + 1,
            forall|k: int|
                0 <= k < old(self).chunk_sequence@.len() ==> #[trigger] final(self).chunk_sequence@[k]
                    == old(self).chunk_sequence@[k],
            final(self).chunk_sequence@[old(self).chunk_sequence@.len() as int]@ == selected.name@,
    {
        let ghost n = self.pacing_sequence@.len();
        let ghost old_pacings = self.pacing_sequence@;
        let ghost old_names = names_of(self.chunk_sequence@);
        let ghost old_counts = self.chunk_pick_counts;
        proof {
            lemma_runs_of_prefix(old_pacings, old_pacings, n);
            assert forall|pacing: ChunkPacing| #[trigger]
                self.pacing_pick_counts.count(pacing) <= n by {
                lemma_occurrences_of_prefix(old_pacings, old_pacings, pacing, n);
            }
            lemma_occurrences_of_prefix(old_names, old_names, selected.name@, n);
        }
        self.pacing_pick_counts.bump(selected.pacing);
        self.chunk_pick_counts.add(selected.name.as_str(), 1);
        self.pacing_sequence.push(selected.pacing);
        self.chunk_sequence.push(selected.name.clone());
        let same = match self.last_pacing {
            Some(pacing) => pacing == selected.pacing,
            None => false,
        };
        if same {
            self.current_streak = self.current_streak + 1;
        } else {
            self.current_streak = 1;
            self.last_pacing = Some(selected.pacing);
        }
        if self.current_streak > self.longest_streak {
            self.longest_streak = self.current_streak;
        }
        proof {
            let new_names = names_of(self.chunk_sequence@);
            assert(new_names[n as int] == selected.name@);
            assert forall|pacing: ChunkPacing| #[trigger]
                self.pacing_pick_counts.count(pacing) == occurrences(
                    self.pacing_sequence@,
                    pacing,
                    n + 1,
                ) by {
                lemma_occurrences_of_prefix(old_pacings, self.pacing_sequence@, pacing, n);
            }
            assert forall|name: Seq<char>|
                #![trigger self.chunk_pick_counts.count(name)]
                #![trigger self.chunk_pick_counts.contains(name)]
                self.chunk_pick_counts.count(name) == occurrences(new_names, name, n + 1) && (
                self.chunk_pick_counts.contains(name) <==> occurrences(new_names, name, n + 1)
                    > 0) by {
                lemma_occurrences_of_prefix(old_names, new_names, name, n);
                if name != selected.name@ {
                    assert(self.chunk_pick_counts.count(name) == old_counts.count(name));
                    assert(self.chunk_pick_counts.contains(name) == old_counts.contains(name));
                }
            }
            lemma_runs_of_prefix(old_pacings, self.pacing_sequence@, n);
            lemma_distinct_names_of_prefix(old_names, new_names, n);
            assert(names_of(self.chunk_pick_counts.names()) =~= distinct_names(new_names, n + 1));
        }
    }
}

/// The decisions of one step, as far as they depend on the cursor.
struct SoakStep {
    selection: Option<ChunkSelection>,
    rejections: ValidationCounters,
}

/// Makes the selection of step `k`.
fn soak_select(
    library: &ChunkLibrary,
    config: &ProcgenSoakConfig,
    source: &mut SeededSource,
    profile: &EdgeProfile,
    current_pacing: ChunkPacing,
    previous_pacing: ChunkPacing,
    chunks_in_current_pacing: usize,
    Ghost(k): Ghost<nat>,
) -> (step: SoakStep)
    requires
        old(source).ready(),
        old(source).seed() == config.seed,
        old(source).drawn() == k,
        profile@ == soak_cursor(library.chunks@, *config, k).profile,
        current_pacing == soak_cursor(library.chunks@, *config, k).pacing.current,
        previous_pacing == soak_cursor(library.chunks@, *config, k).pacing.previous,
        chunks_in_current_pacing == tracked_run_length(
            soak_cursor(library.chunks@, *config, k).pacing.run_length,
        ),
    ensures
        final(source).ready(),
        final(source).seed() == config.seed,
        final(source).drawn() == k + one_if(step.selection is Some),
        step.selection is Some <==> soak_pick(library.chunks@, *config, k) is Some,
        step.selection matches Some(selection) ==> {
            let cursor = soak_cursor(library.chunks@, *config, k);
            &&& Some(selection.index) == soak_pick(library.chunks@, *config, k)
            &&& selection.index < library.chunks@.len()
            &&& selection.used_pacing_fallback == uses_pacing_fallback(
                library.chunks@,
                cursor.profile,
                ProcgenValidationPolicy::default_spec(),
                cursor.target(),
            )
        },
        forall|reason: RejectionReason| #[trigger]
            step.rejections.count(reason) == rejected_count(
                library.chunks@,
                soak_cursor(library.chunks@, *config, k).profile,
                ProcgenValidationPolicy::default_spec(),
                reason,
            ),
        step.rejections.no_candidate == one_if(step.selection is None),
{
    let policy = ProcgenValidationPolicy::default();
    let target = determine_target_pacing(current_pacing, previous_pacing, chunks_in_current_pacing);
    let ghost cursor = soak_cursor(library.chunks@, *config, k);
    assert(target == cursor.target());
    let _ = library.chunks.len();
    proof {
        lemma_selection_is_eligible(
            library.chunks@,
            cursor.profile,
            policy,
            target,
            seeded_word(config.seed, k),
        );
    }
    let (selection, rejections) = select_chunk_with(library, profile, target, &policy, source);
    SoakStep { selection, rejections }
}

/// The run length that the simulation keeps: the true one, as far as it fits.
spec fn tracked_run_length(run_length: nat) -> usize {
    if run_length <= usize::MAX {
        run_length as usize
    } else {
        usize::MAX
    }
}

/// Runs the selector and the pacing state machine for `config.steps` steps
/// under the default thresholds, with the random words of `config.seed`.
///
/// Each step aims for the pacing tier that the state machine names, selects a
/// chunk after the bottom edge of the chunk before it, and moves the pacing
/// state on by the tier of the chunk selected. The run stops early at the
/// first step that finds no eligible chunk. A count of rejections that would
/// leave the range of its counter stops at the largest value.
pub fn simulate_procgen_soak(library: &ChunkLibrary, config: &ProcgenSoakConfig) -> (summary:
    ProcgenSoakSummary)
    ensures
        summary.is_result_of(library.chunks@, *config),
{
    let steps = config.steps;
    let ghost chunks = library.chunks@;
    let mut source = SeededSource::new(config.seed);
    let mut profile: EdgeProfile = config.start_profile;
    let mut current_pacing = config.start_current_pacing;
    let mut previous_pacing = config.start_previous_pacing;
    let mut chunks_in_current_pacing: usize = config.start_chunks_in_current_pacing;
    let mut log = PickLog::new();
    let mut rejection_counts = ValidationCounters::default();
    let mut pacing_fallback_count: usize = 0;
    let mut completed: usize = 0;
    let mut stopped = false;
    while completed < steps && !stopped
        invariant
            chunks == library.chunks@,
            steps == config.steps,
            completed <= steps,
            stopped ==> completed < steps,
            source.ready(),
            source.seed() == config.seed,
            source.drawn() == completed,
            soak_length(chunks, *config, completed as nat) == completed,
            stopped ==> soak_pick(chunks, *config, completed as nat) is None,
            profile@ == soak_cursor(chunks, *config, completed as nat).profile,
            current_pacing == soak_cursor(chunks, *config, completed as nat).pacing.current,
            previous_pacing == soak_cursor(chunks, *config, completed as nat).pacing.previous,
            chunks_in_current_pacing == tracked_run_length(
                soak_cursor(chunks, *config, completed as nat).pacing.run_length,
            ),
            log.consistent(),
            log.pacing_sequence@.len() == completed,
            forall|k: int|
                0 <= k < completed ==> {
                    &&& soak_pick(chunks, *config, k as nat) is Some
                    &&& soak_pick(chunks, *config, k as nat)->0 < chunks.len()
                    &&& #[trigger] log.pacing_sequence@[k] == chunks[soak_pick(
                        chunks,
                        *config,
                        k as nat,
                    )->0 as int].pacing
                },
            forall|k: int|
                0 <= k < completed ==> (#[trigger] log.chunk_sequence@[k])@ == chunks[soak_pick(
                    chunks,
                    *config,
                    k as nat,
                )->0 as int].name@,
            forall|reason: RejectionReason| #[trigger]
                rejection_counts.count(reason) == saturated(
                    soak_rejections(
                        chunks,
                        *config,
                        reason,
                        (completed + one_if(stopped)) as nat,
                    ) as int,
                ),
            rejection_counts.no_candidate == one_if(stopped),
            pacing_fallback_count == soak_fallbacks(chunks, *config, completed as nat),
        decreases steps - completed, one_if(!stopped),
    {
        let step = soak_select(
            library,
            config,
            &mut source,
            &profile,
            current_pacing,
            previous_pacing,
            chunks_in_current_pacing,
            Ghost(completed as nat),
        );
        rejection_counts.absorb(&step.rejections);
        match step.selection {
            None => {
                stopped = true;
            },
            Some(selection) => {
                let selected = &library.chunks[selection.index];
                proof {
                    lemma_soak_fallbacks_bound(chunks, *config, (completed + 1) as nat);
                }
                if selection.used_pacing_fallback {
                    pacing_fallback_count = pacing_fallback_count + 1;
                }
                log.record(selected);
                if selected.pacing != current_pacing {
                    previous_pacing = current_pacing;
                    current_pacing = selected.pacing;
                    chunks_in_current_pacing = 1;
                } else if chunks_in_current_pacing < usize::MAX {
                    chunks_in_current_pacing = chunks_in_current_pacing + 1;
                }
                profile = selected.bottom_profile;
                completed = completed + 1;
            },
        }
    }
    proof {
        if stopped {
            lemma_soak_length_after_stop(chunks, *config, completed as nat, steps as nat);
        }
        let picks = soak_picks(chunks, *config, completed as nat);
        assert(log.pacing_sequence@ =~= Seq::new(
            completed as nat,
            |k: int| chunks[picks[k] as int].pacing,
        ));
        assert(names_of(log.chunk_sequence@) =~= Seq::new(
            completed as nat,
            |k: int| chunks[picks[k] as int].name@,
        ));
    }
    ProcgenSoakSummary {
        seed: config.seed,
        steps_requested: steps,
        steps_completed: completed,
        pacing_pick_counts: log.pacing_pick_counts,
        chunk_pick_counts: log.chunk_pick_counts,
        rejection_counts,
        longest_same_pacing_streak: log.longest_streak,
        pacing_sequence: log.pacing_sequence,
        chunk_sequence: log.chunk_sequence,
        pacing_fallback_count,
    }
}

} // verus!

//! One step of world generation: from the cursor of a run to the next chunk
//! and where it goes.
//!
//! The host calls this once for each chunk that the arena needs, hands in the
//! cursor and the telemetry that it owns, and spawns what comes back.

use vstd::prelude::*;
use crate::pacing::{pacing_after, target_pacing, ChunkPlacement, ProcGenState};
use crate::random::RandomSource;
use crate::schema::ChunkLibrary;
use crate::selector::{
    counts_selection, eligible_indices, lemma_rejected_among_bound, select_chunk_with,
    selection_for_word, uses_pacing_fallback,
};
use crate::telemetry::{one_if, ProcgenValidatorTelemetry, RejectionReason, ValidationCounters};
use crate::validation::ProcgenValidationPolicy;

verus! {

/// The next chunk of a run.
#[derive(Debug, Clone, Copy, PartialEq, Eq, Structural)]
pub struct PlannedChunk {
    /// Index of the chunk in the library.
    pub index: usize,
    /// Where the chunk goes.
    pub placement: ChunkPlacement,
    /// Whether the chunk was picked across pacing tiers.
    pub used_pacing_fallback: bool,
}

/// Whether the cursor and the telemetry can take one more selection from the
/// library without a counter or the spawn position leaving its range.
pub open spec fn has_room_for_step(
    state: ProcGenState,
    library: ChunkLibrary,
    telemetry: ProcgenValidatorTelemetry,
) -> bool {
    &&& forall|i: int|
        0 <= i < library.chunks@.len() ==> state.has_room_for(
            (#[trigger] library.chunks@[i]).height,
        )
    &&& telemetry.profile_mismatch_rejections + library.chunks@.len() <= u64::MAX
    &&& telemetry.concave_trap_rejections + library.chunks@.len() <= u64::MAX
    &&& telemetry.exit_angle_fail_rejections + library.chunks@.len() <= u64::MAX
    &&& telemetry.invalid_weight_rejections + library.chunks@.len() <= u64::MAX
    &&& telemetry.no_candidate_rejections < u64::MAX
    &&& telemetry.selected_chunks < u64::MAX
    &&& telemetry.pacing_fallback_picks < u64::MAX
}

/// The rejections of the selection that a step makes from `state`.
pub open spec fn step_counts(
    counters: ValidationCounters,
    state: ProcGenState,
    library: ChunkLibrary,
    policy: ProcgenValidationPolicy,
) -> bool {
    counts_selection(counters, library.chunks@, state.last_chunk_bottom_profile@, policy)
}

/// Selects the next chunk of a run, moves the cursor on, and keeps the
/// telemetry.
///
/// The pacing state machine names the target tier, and the selector picks a
/// chunk that continues the bottom edge of the last one. The rejections of the
/// selection are added to the telemetry in any case. If a chunk was selected,
/// the cursor records it, the telemetry counts it, and the result says which
/// chunk it is and where it goes. If no chunk is eligible, the cursor stays as
/// it was and nothing is planned: what to do then is the host's decision.
pub fn plan_next_chunk<R: RandomSource>(
    state: &mut ProcGenState,
    library: &ChunkLibrary,
    policy: &ProcgenValidationPolicy,
    telemetry: &mut ProcgenValidatorTelemetry,
    source: &mut R,
) -> (planned: Option<PlannedChunk>)
    requires
        old(source).ready(),
        has_room_for_step(*old(state), *library, *old(telemetry)),
    ensures
        final(source).ready(),
        exists|counters: ValidationCounters|
            #![trigger step_counts(counters, *old(state), *library, *policy)]
            step_counts(counters, *old(state), *library, *policy) && final(telemetry).rejections_grew_by(*old(telemetry), counters),
        final(telemetry).selected_chunks == old(telemetry).selected_chunks + one_if(
            planned is Some,
        ),
        final(telemetry).preflight_total_chunks == old(telemetry).preflight_total_chunks,
        final(telemetry).preflight_invalid_chunks == old(telemetry).preflight_invalid_chunks,
        final(telemetry).preflight_summary_path == old(telemetry).preflight_summary_path,
        planned is None <==> eligible_indices(
            library.chunks@,
            old(state).last_chunk_bottom_profile@,
            *policy,
        ).len() == 0,
        planned is None ==> {
            &&& *final(state) == *old(state)
            &&& *final(source) == *old(source)
            &&& final(telemetry).pacing_fallback_picks == old(telemetry).pacing_fallback_picks
        },
        planned matches Some(plan) ==> {
            let target = target_pacing(
                old(state).current_pacing,
                old(state).previous_pacing,
                old(state).chunks_in_current_pacing as nat,
            );
            &&& plan.index < library.chunks@.len()
            &&& exists|word: u32|
                #![trigger old(source).may_yield(word, final(source))]
                old(source).may_yield(word, final(source)) && Some(plan.index)
                    == selection_for_word(
                    library.chunks@,
                    old(state).last_chunk_bottom_profile@,
                    *policy,
                    target,
                    word,
                )
            &&& plan.used_pacing_fallback == uses_pacing_fallback(
                library.chunks@,
                old(state).last_chunk_bottom_profile@,
                *policy,
                target,
            )
            &&& old(state).last_chunk_bottom_profile@
                == library.chunks@[plan.index as int].top_profile@
            &&& final(state).pacing_state() == pacing_after(
                old(state).pacing_state(),
                library.chunks@[plan.index as int].pacing,
            )
            &&& final(state).next_spawn_y == old(state).next_spawn_y
                + library.chunks@[plan.index as int].height
            &&& final(state).last_chunk_bottom_profile
                == library.chunks@[plan.index as int].bottom_profile
            &&& final(state).chunks_spawned == old(state).chunks_spawned + 1
            &&& final(state).global_seed == old(state).global_seed
            &&& plan.placement.center_y == old(state).next_spawn_y
                + library.chunks@[plan.index as int].height / 2
            &&& plan.placement.sequence_number == old(state).chunks_spawned
            &&& final(telemetry).pacing_fallback_picks == old(telemetry).pacing_fallback_picks
                + one_if(plan.used_pacing_fallback)
        },
{
    let target = state.target_pacing();
    let (selection, counters) = select_chunk_with(
        library,
        &state.last_chunk_bottom_profile,
        target,
        policy,
        source,
    );
    proof {
        let chunks = library.chunks@;
        let required = state.last_chunk_bottom_profile@;
        lemma_rejected_among_bound(
            chunks,
            required,
            *policy,
            RejectionReason::ProfileMismatch,
            chunks.len(),
        );
        lemma_rejected_among_bound(
            chunks,
            required,
            *policy,
            RejectionReason::ConcaveTrap,
            chunks.len(),
        );
        lemma_rejected_among_bound(
            chunks,
            required,
            *policy,
            RejectionReason::ExitAngleFail,
            chunks.len(),
        );
        lemma_rejected_among_bound(
            chunks,
            required,
            *policy,
            RejectionReason::InvalidWeight,
            chunks.len(),
        );
        assert(counters.count(RejectionReason::ProfileMismatch) <= chunks.len());
        assert(counters.count(RejectionReason::ConcaveTrap) <= chunks.len());
        assert(counters.count(RejectionReason::ExitAngleFail) <= chunks.len());
        assert(counters.count(RejectionReason::InvalidWeight) <= chunks.len());
        assert(step_counts(counters, *state, *library, *policy));
    }
    telemetry.record_runtime_rejections(&counters);
    match selection {
        None => None,
        Some(selection) => {
            let placement = state.record_selection(&library.chunks[selection.index]);
            telemetry.record_selection();
            if selection.used_pacing_fallback {
                telemetry.record_pacing_fallback();
            }
            Some(
                PlannedChunk {
                    index: selection.index,
                    placement,
                    used_pacing_fallback: selection.used_pacing_fallback,
                },
            )
        },
    }
}

} // verus!

//! Counters of rejections and selections.
//!
//! The counters are plain values that the caller owns and hands to each call,
//! so that a live session and an offline run never share any.

use vstd::prelude::*;
use crate::preflight::ProcgenPreflightSummary;
use crate::validation::ChunkValidationReason;

verus! {

/// One if the flag holds, else zero.
pub open spec fn one_if(flag: bool) -> int {
    if flag {
        1
    } else {
        0
    }
}

/// The count that a counter holds for `n` events: `n`, or the largest value
/// of the counter if there were more.
pub open spec fn saturated(n: int) -> u64 {
    if n > u64::MAX {
        u64::MAX
    } else {
        n as u64
    }
}

fn add_saturating(a: u64, b: u64) -> (sum: u64)
    ensures
        sum == saturated(a + b),
{
    if a > u64::MAX - b {
        u64::MAX
    } else {
        a + b
    }
}

/// Why a chunk was passed over at selection time.
#[derive(Debug, Clone, Copy, PartialEq, Eq, Structural)]
pub enum RejectionReason {
    /// The chunk's top edge differs from the required profile.
    ProfileMismatch,
    /// Two of the chunk's walls form a concave trap.
    ConcaveTrap,
    /// Two of the chunk's walls leave too narrow an exit angle.
    ExitAngleFail,
    /// The chunk's weight is not positive.
    InvalidWeight,
}

impl RejectionReason {
    /// The selection-time reason that stands for a validation failure.
    pub open spec fn of_validation(reason: ChunkValidationReason) -> RejectionReason {
        match reason {
            ChunkValidationReason::ProfileMismatch => RejectionReason::ProfileMismatch,
            ChunkValidationReason::ConcaveTrap => RejectionReason::ConcaveTrap,
            ChunkValidationReason::ExitAngleFail => RejectionReason::ExitAngleFail,
        }
    }
}

/// Counts of rejections: chunks that were passed over, by reason, and
/// selections that found no candidate at all.
#[derive(Debug, Clone, Copy, PartialEq, Eq, Structural)]
pub struct ValidationCounters {
    pub profile_mismatch: u64,
    pub concave_trap: u64,
    pub exit_angle_fail: u64,
    pub invalid_weight: u64,
    pub no_candidate: u64,
}

impl ValidationCounters {
    /// The count kept for `reason`.
    pub open spec fn count(self, reason: RejectionReason) -> u64 {
        match reason {
            RejectionReason::ProfileMismatch => self.profile_mismatch,
            RejectionReason::ConcaveTrap => self.concave_trap,
            RejectionReason::ExitAngleFail => self.exit_angle_fail,
            RejectionReason::InvalidWeight => self.invalid_weight,
        }
    }

    /// Counts one chunk that failed validation for `reason`.
    pub fn record(&mut self, reason: ChunkValidationReason)
        requires
            old(self).count(RejectionReason::of_validation(reason)) < u64::MAX,
        ensures
            forall|r: RejectionReason| #[trigger]
                final(self).count(r) == old(self).count(r) + one_if(
                    r == RejectionReason::of_validation(reason),
                ),
            final(self).no_candidate == old(self).no_candidate,
    {
        match reason {
            ChunkValidationReason::ProfileMismatch => {
                self.profile_mismatch = self.profile_mismatch + 1;
            },
            ChunkValidationReason::ConcaveTrap => {
                self.concave_trap = self.concave_trap + 1;
            },
            ChunkValidationReason::ExitAngleFail => {
                self.exit_angle_fail = self.exit_angle_fail + 1;
            },
        }
    }

    /// Counts one chunk that was passed over for its weight.
    pub fn record_invalid_weight(&mut self)
        requires
            old(self).invalid_weight < u64::MAX,
        ensures
            forall|r: RejectionReason| #[trigger]
                final(self).count(r) == old(self).count(r) + one_if(
                    r == RejectionReason::InvalidWeight,
                ),
            final(self).no_candidate == old(self).no_candidate,
    {
        self.invalid_weight = self.invalid_weight + 1;
    }

    /// Counts one selection that found no candidate.
    pub fn record_no_candidate(&mut self)
        requires
            old(self).no_candidate < u64::MAX,
        ensures
            final(self).no_candidate == old(self).no_candidate + 1,
            forall|r: RejectionReason| #[trigger] final(self).count(r) == old(self).count(r),
    {
        self.no_candidate = self.no_candidate + 1;
    }

    /// Adds the counts of `other` to those of `self`. A count that would leave
    /// the range of its counter stops at the largest value.
    pub fn absorb(&mut self, other: &ValidationCounters)
        ensures
            forall|r: RejectionReason| #[trigger]
                final(self).count(r) == saturated(old(self).count(r) + other.count(r)),
            final(self).no_candidate == saturated(old(self).no_candidate + other.no_candidate),
    {
        self.profile_mismatch = add_saturating(self.profile_mismatch, other.profile_mismatch);
        self.concave_trap = add_saturating(self.concave_trap, other.concave_trap);
        self.exit_angle_fail = add_saturating(self.exit_angle_fail, other.exit_angle_fail);
        self.invalid_weight = add_saturating(self.invalid_weight, other.invalid_weight);
        self.no_candidate = add_saturating(self.no_candidate, other.no_candidate);
    }
}

impl Default for ValidationCounters {
    fn default() -> (counters: ValidationCounters)
        ensures
            forall|r: RejectionReason| #[trigger] counters.count(r) == 0,
            counters.no_candidate == 0,
    {
        ValidationCounters {
            profile_mismatch: 0,
            concave_trap: 0,
            exit_angle_fail: 0,
            invalid_weight: 0,
            no_candidate: 0,
        }
    }
}

/// What a session has rejected and selected so far, and what the preflight
/// validation of its library found.
#[derive(Debug, Clone)]
pub struct ProcgenValidatorTelemetry {
    pub profile_mismatch_rejections: u64,
    pub concave_trap_rejections: u64,
    pub exit_angle_fail_rejections: u64,
    pub invalid_weight_rejections: u64,
    pub no_candidate_rejections: u64,
    /// Number of chunks selected.
    pub selected_chunks: u64,
    /// Number of chunks selected across pacing tiers.
    pub pacing_fallback_picks: u64,
    pub preflight_total_chunks: usize,
    pub preflight_invalid_chunks: usize,
    /// Where the preflight report was written, if it was.
    pub preflight_summary_path: Option<String>,
}

impl ProcgenValidatorTelemetry {
    /// The rejections counted so far.
    pub open spec fn rejections(self) -> ValidationCounters {
        ValidationCounters {
            profile_mismatch: self.profile_mismatch_rejections,
            concave_trap: self.concave_trap_rejections,
            exit_angle_fail: self.exit_angle_fail_rejections,
            invalid_weight: self.invalid_weight_rejections,
            no_candidate: self.no_candidate_rejections,
        }
    }

    /// Whether the counts of `counters` can be added without a counter
    /// leaving its range.
    pub open spec fn has_room_for(self, counters: ValidationCounters) -> bool {
        &&& self.profile_mismatch_rejections + counters.profile_mismatch <= u64::MAX
        &&& self.concave_trap_rejections + counters.concave_trap <= u64::MAX
        &&& self.exit_angle_fail_rejections + counters.exit_angle_fail <= u64::MAX
        &&& self.invalid_weight_rejections + counters.invalid_weight <= u64::MAX
        &&& self.no_candidate_rejections + counters.no_candidate <= u64::MAX
    }

    /// Whether the counts of rejections are those of `before` and of
    /// `counters` together.
    pub open spec fn rejections_grew_by(
        self,
        before: ProcgenValidatorTelemetry,
        counters: ValidationCounters,
    ) -> bool {
        &&& self.profile_mismatch_rejections == before.profile_mismatch_rejections
            + counters.profile_mismatch
        &&& self.concave_trap_rejections == before.concave_trap_rejections + counters.concave_trap
        &&& self.exit_angle_fail_rejections == before.exit_angle_fail_rejections
            + counters.exit_angle_fail
        &&& self.invalid_weight_rejections == before.invalid_weight_rejections
            + counters.invalid_weight
        &&& self.no_candidate_rejections == before.no_candidate_rejections + counters.no_candidate
    }

    /// Whether the telemetry differs from `before` in nothing but its counts of
    /// rejections.
    pub open spec fn same_but_rejections(self, before: ProcgenValidatorTelemetry) -> bool {
        &&& self.selected_chunks == before.selected_chunks
        &&& self.pacing_fallback_picks == before.pacing_fallback_picks
        &&& self.preflight_total_chunks == before.preflight_total_chunks
        &&& self.preflight_invalid_chunks == before.preflight_invalid_chunks
        &&& self.preflight_summary_path == before.preflight_summary_path
    }

    /// Adds the rejections of one selection.
    pub fn record_runtime_rejections(&mut self, counters: &ValidationCounters)
        requires
            old(self).has_room_for(*counters),
        ensures
            final(self).rejections_grew_by(*old(self), *counters),
            final(self).same_but_rejections(*old(self)),
    {
        self.profile_mismatch_rejections = self.profile_mismatch_rejections
            + counters.profile_mismatch;
        self.concave_trap_rejections = self.concave_trap_rejections + counters.concave_trap;
        self.exit_angle_fail_rejections = self.exit_angle_fail_rejections
            + counters.exit_angle_fail;
        self.invalid_weight_rejections = self.invalid_weight_rejections + counters.invalid_weight;
        self.no_candidate_rejections = self.no_candidate_rejections + counters.no_candidate;
    }

    /// Counts one selected chunk.
    pub fn record_selection(&mut self)
        requires
            old(self).selected_chunks < u64::MAX,
        ensures
            final(self).selected_chunks == old(self).selected_chunks + 1,
            final(self).pacing_fallback_picks == old(self).pacing_fallback_picks,
            final(self).rejections() == old(self).rejections(),
            final(self).preflight_total_chunks == old(self).preflight_total_chunks,
            final(self).preflight_invalid_chunks == old(self).preflight_invalid_chunks,
            final(self).preflight_summary_path == old(self).preflight_summary_path,
    {
        self.selected_chunks = self.selected_chunks + 1;
    }

    /// Counts one chunk that was picked across pacing tiers.
    pub fn record_pacing_fallback(&mut self)
        requires
            old(self).pacing_fallback_picks < u64::MAX,
        ensures
            final(self).pacing_fallback_picks == old(self).pacing_fallback_picks + 1,
            final(self).selected_chunks == old(self).selected_chunks,
            final(self).rejections() == old(self).rejections(),
            final(self).preflight_total_chunks == old(self).preflight_total_chunks,
            final(self).preflight_invalid_chunks == old(self).preflight_invalid_chunks,
            final(self).preflight_summary_path == old(self).preflight_summary_path,
    {
        self.pacing_fallback_picks = self.pacing_fallback_picks + 1;
    }

    /// Notes what the preflight validation found and where its report went.
    pub fn set_preflight(&mut self, summary: &ProcgenPreflightSummary, artifact_path: String)
        ensures
            final(self).preflight_total_chunks == summary.total_chunks,
            final(self).preflight_invalid_chunks == summary.invalid_chunks,
            final(self).preflight_summary_path == Some(artifact_path),
            final(self).rejections() == old(self).rejections(),
            final(self).selected_chunks == old(self).selected_chunks,
            final(self).pacing_fallback_picks == old(self).pacing_fallback_picks,
    {
        self.preflight_total_chunks = summary.total_chunks;
        self.preflight_invalid_chunks = summary.invalid_chunks;
        self.preflight_summary_path = Some(artifact_path);
    }
}

impl Default for ProcgenValidatorTelemetry {
    fn default() -> (telemetry: ProcgenValidatorTelemetry)
        ensures
            telemetry.rejections() == (ValidationCounters {
                profile_mismatch: 0,
                concave_trap: 0,
                exit_angle_fail: 0,
                invalid_weight: 0,
                no_candidate: 0,
            }),
            telemetry.selected_chunks == 0,
            telemetry.pacing_fallback_picks == 0,
            telemetry.preflight_total_chunks == 0,
            telemetry.preflight_invalid_chunks == 0,
            telemetry.preflight_summary_path is None,
    {
        ProcgenValidatorTelemetry {
            profile_mismatch_rejections: 0,
            concave_trap_rejections: 0,
            exit_angle_fail_rejections: 0,
            invalid_weight_rejections: 0,
            no_candidate_rejections: 0,
            selected_chunks: 0,
            pacing_fallback_picks: 0,
            preflight_total_chunks: 0,
            preflight_invalid_chunks: 0,
            preflight_summary_path: None,
        }
    }
}

} // verus!

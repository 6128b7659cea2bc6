//! Chunk generation and validation for an endless, vertically scrolling arena.
//!
//! The arena is assembled from authored chunks. This crate decides which chunk
//! comes next and checks that the choice is safe: consecutive chunks must share
//! an edge profile, wall geometry must not trap a bouncing projectile, and the
//! pacing of the run follows a small state machine. Offline tools built on the
//! same selection code measure long-run pick distributions and propose
//! corrected chunk weights.
//!
//! Every quantity is an integer in a fixed-point unit, so that each decision is
//! exact and repeatable:
//!
//! * lengths and positions are in thousandths of a world unit,
//! * angles are in microradians,
//! * chunk weights and weight shares are in millionths.

pub mod generation;
pub mod minigame;
pub mod names;
pub mod pacing;
pub mod preflight;
pub mod random;
pub mod rebalance;
pub mod schema;
pub mod selector;
pub mod soak;
pub mod telemetry;
pub mod text;
pub mod validation;

pub use generation::{plan_next_chunk, PlannedChunk};
pub use minigame::MiniGame;
pub use names::NameCounts;
pub use pacing::{
    determine_target_pacing, ChunkPlacement, ProcGenState, DEFAULT_GLOBAL_SEED, SPAWN_AHEAD_DISTANCE,
};
pub use preflight::{format_preflight_summary, run_preflight_validation, ProcgenPreflightSummary};
pub use random::{LiveSource, RandomSource, SeededSource};
pub use rebalance::{
    normalize_with_bounds, rebalance_chunk_weights, ChunkWeight, MAX_REDISTRIBUTION_ROUNDS,
    MIN_PROPOSAL, SHARE_ONE, SUM_TOLERANCE,
};
pub use schema::{
    ChunkLibrary, ChunkPacing, ChunkSchema, EdgeProfile, MilliVec2, SpawnDef, SpawnType, WallDef,
    CHUNK_WIDTH, DEFAULT_CHUNK_HEIGHT, MILLIS_PER_UNIT, PROFILE_RESOLUTION, WEIGHT_ONE,
};
pub use selector::{
    collect_candidates, pick_weighted_index, select_chunk, select_chunk_validated,
    select_chunk_with, CandidateSet, ChunkSelection, DRAW_DENOMINATOR,
};
pub use soak::{simulate_procgen_soak, PacingPickCounts, ProcgenSoakConfig, ProcgenSoakSummary};
pub use telemetry::{ProcgenValidatorTelemetry, RejectionReason, ValidationCounters};
pub use validation::{
    normalize_angle_diff, validate_chunk_schema, validate_edge_match,
    validate_edge_match_detailed, validate_softlock_constraints,
    validate_softlock_constraints_detailed, ChunkValidationError, ChunkValidationReason,
    ProcgenValidationPolicy, ValidationResult, CONCAVE_TRAP_MAX_DISTANCE,
    CONCAVE_TRAP_RIGHT_ANGLE_TOLERANCE_MICRORADIANS, EXIT_ANGLE_CHECK_DISTANCE,
    FULL_TURN_MICRORADIANS, HALF_TURN_MICRORADIANS, MIN_EXIT_ANGLE_MICRORADIANS,
    RIGHT_ANGLE_MICRORADIANS,
};

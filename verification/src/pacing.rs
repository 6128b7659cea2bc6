//! The pacing state machine and the generation cursor of a run.
//!
//! A run starts in the state (Open, Open, 0). Before each selection the state
//! machine names the pacing tier to aim for; after each selection the cursor
//! takes over the tier of the chunk that was actually chosen. Where every tier
//! has an eligible chunk this yields the cycle Open, Open, Transition, Dense,
//! Transition, and again from the start.

use vstd::prelude::*;
use crate::schema::{ChunkPacing, ChunkSchema, EdgeProfile, PROFILE_RESOLUTION};

verus! {

/// A new chunk is due as soon as the next spawn position is closer than this:
/// 1200 world units.
pub const SPAWN_AHEAD_DISTANCE: i64 = 1_200_000;

/// Seed taken by a run that was given none.
pub const DEFAULT_GLOBAL_SEED: u64 = 0x4E42_5F53_4545_445F;

/// The pacing tier to aim for next, given the current tier, the tier before
/// it, and the number of consecutive chunks in the current tier.
pub open spec fn target_pacing(
    current: ChunkPacing,
    previous: ChunkPacing,
    run_length: nat,
) -> ChunkPacing {
    match current {
        ChunkPacing::Open => if run_length >= 2 {
            ChunkPacing::Transition
        } else {
            ChunkPacing::Open
        },
        ChunkPacing::Transition => if run_length >= 1 {
            if previous == ChunkPacing::Open {
                ChunkPacing::Dense
            } else {
                ChunkPacing::Open
            }
        } else {
            ChunkPacing::Transition
        },
        ChunkPacing::Dense => if run_length >= 1 {
            ChunkPacing::Transition
        } else {
            ChunkPacing::Dense
        },
    }
}

/// Names the pacing tier that the next chunk should have.
///
/// Open lasts for two chunks and leads to Transition. Transition lasts for one
/// chunk and leads to Dense if it was entered from Open, else back to Open.
/// Dense lasts for one chunk and leads to Transition.
pub fn determine_target_pacing(
    current_pacing: ChunkPacing,
    previous_pacing: ChunkPacing,
    chunks_in_current_pacing: usize,
) -> (target: ChunkPacing)
    ensures
        target == target_pacing(current_pacing, previous_pacing, chunks_in_current_pacing as nat),
{
    match current_pacing {
        ChunkPacing::Open => {
            if chunks_in_current_pacing >= 2 {
                ChunkPacing::Transition
            } else {
                ChunkPacing::Open
            }
        },
        ChunkPacing::Transition => {
            if chunks_in_current_pacing >= 1 {
                if previous_pacing == ChunkPacing::Open {
                    ChunkPacing::Dense
                } else {
                    ChunkPacing::Open
                }
            } else {
                ChunkPacing::Transition
            }
        },
        ChunkPacing::Dense => {
            if chunks_in_current_pacing >= 1 {
                ChunkPacing::Transition
            } else {
                ChunkPacing::Dense
            }
        },
    }
}

/// The pacing part of a cursor: current tier, tier before it, and the number
/// of consecutive chunks in the current tier.
pub struct PacingState {
    pub current: ChunkPacing,
    pub previous: ChunkPacing,
    pub run_length: nat,
}

/// The pacing state after a chunk of tier `selected` was chosen: a change of
/// tier starts a new run of length one, the same tier extends the run.
pub open spec fn pacing_after(state: PacingState, selected: ChunkPacing) -> PacingState {
    if selected != state.current {
        PacingState { current: selected, previous: state.current, run_length: 1 }
    } else {
        PacingState {
            current: state.current,
            previous: state.previous,
            run_length: state.run_length + 1,
        }
    }
}

/// The pacing state at the start of a run: (Open, Open, 0).
pub open spec fn start_pacing() -> PacingState {
    PacingState { current: ChunkPacing::Open, previous: ChunkPacing::Open, run_length: 0 }
}

/// The pacing state after `k` chunks, where each chunk had the tier that the
/// state machine aimed for.
pub open spec fn followed_pacing(k: nat) -> PacingState
    decreases k,
{
    if k == 0 {
        start_pacing()
    } else {
        let before = followed_pacing((k - 1) as nat);
        pacing_after(before, target_pacing(before.current, before.previous, before.run_length))
    }
}

/// The tier of chunk number `k`, counted from zero, in the cycle Open, Open,
/// Transition, Dense, Transition.
pub open spec fn canonical_pacing(k: nat) -> ChunkPacing {
    if k % 5 == 0 || k % 5 == 1 {
        ChunkPacing::Open
    } else if k % 5 == 3 {
        ChunkPacing::Dense
    } else {
        ChunkPacing::Transition
    }
}

/// Where every chunk has the tier that the state machine aims for, the tiers
/// follow the cycle Open, Open, Transition, Dense, Transition from the start
/// of the run on.
pub proof fn lemma_canonical_oscillation(k: nat)
    ensures
        target_pacing(
            followed_pacing(k).current,
            followed_pacing(k).previous,
            followed_pacing(k).run_length,
        ) == canonical_pacing(k),
        k >= 3 && k % 5 == 3 ==> followed_pacing(k) == (PacingState {
            current: ChunkPacing::Transition,
            previous: ChunkPacing::Open,
            run_length: 1,
        }),
        k >= 3 && k % 5 == 4 ==> followed_pacing(k) == (PacingState {
            current: ChunkPacing::Dense,
            previous: ChunkPacing::Transition,
            run_length: 1,
        }),
        k >= 3 && k % 5 == 0 ==> followed_pacing(k) == (PacingState {
            current: ChunkPacing::Transition,
            previous: ChunkPacing::Dense,
            run_length: 1,
        }),
        k >= 3 && k % 5 == 1 ==> followed_pacing(k) == (PacingState {
            current: ChunkPacing::Open,
            previous: ChunkPacing::Transition,
            run_length: 1,
        }),
        k >= 3 && k % 5 == 2 ==> followed_pacing(k) == (PacingState {
            current: ChunkPacing::Open,
            previous: ChunkPacing::Transition,
            run_length: 2,
        }),
        k < 3 ==> followed_pacing(k) == (PacingState {
            current: ChunkPacing::Open,
            previous: ChunkPacing::Open,
            run_length: k,
        }),
    decreases k,
{
    if k > 0 {
        lemma_canonical_oscillation((k - 1) as nat);
    }
}

/// The generation cursor of one run.
#[derive(Debug, Clone, Copy)]
pub struct ProcGenState {
    /// Bottom edge of the last chunk: the top edge that the next one must have.
    pub last_chunk_bottom_profile: EdgeProfile,
    /// Where the next chunk starts along the scroll axis.
    pub next_spawn_y: i64,
    pub current_pacing: ChunkPacing,
    pub previous_pacing: ChunkPacing,
    /// Number of consecutive chunks in the current pacing tier.
    pub chunks_in_current_pacing: usize,
    /// Number of chunks spawned in this run.
    pub chunks_spawned: u64,
    /// Seed for whatever the run derives deterministically.
    pub global_seed: u64,
}

/// Where a selected chunk goes.
#[derive(Debug, Clone, Copy, PartialEq, Eq, Structural)]
pub struct ChunkPlacement {
    /// Position of the chunk's centre along the scroll axis.
    pub center_y: i64,
    /// How many chunks were spawned before this one.
    pub sequence_number: u64,
}

impl ProcGenState {
    /// The pacing part of the cursor.
    pub open spec fn pacing_state(self) -> PacingState {
        PacingState {
            current: self.current_pacing,
            previous: self.previous_pacing,
            run_length: self.chunks_in_current_pacing as nat,
        }
    }

    /// The cursor at the start of a run: nothing spawned, an empty bottom
    /// edge, and the pacing state (Open, Open, 0).
    pub open spec fn is_start(self) -> bool {
        &&& self.last_chunk_bottom_profile@ == Seq::new(PROFILE_RESOLUTION as nat, |i: int| false)
        &&& self.next_spawn_y == 0
        &&& self.current_pacing == ChunkPacing::Open
        &&& self.previous_pacing == ChunkPacing::Open
        &&& self.chunks_in_current_pacing == 0
        &&& self.chunks_spawned == 0
    }

    /// Whether one more chunk of the given height can be recorded without a
    /// counter or the spawn position leaving its range.
    pub open spec fn has_room_for(self, height: i32) -> bool {
        &&& self.chunks_in_current_pacing < usize::MAX
        &&& self.chunks_spawned < u64::MAX
        &&& i64::MIN <= self.next_spawn_y + height <= i64::MAX
    }

    /// Puts the cursor back to the start of a run. A seed of zero is replaced
    /// by the default seed; any other seed is kept.
    pub fn begin_run(&mut self)
        ensures
            final(self).is_start(),
            final(self).global_seed == if old(self).global_seed == 0 {
                DEFAULT_GLOBAL_SEED
            } else {
                old(self).global_seed
            },
    {
        self.next_spawn_y = 0;
        self.last_chunk_bottom_profile = [false; PROFILE_RESOLUTION];
        self.current_pacing = ChunkPacing::Open;
        self.previous_pacing = ChunkPacing::Open;
        self.chunks_in_current_pacing = 0;
        self.chunks_spawned = 0;
        if self.global_seed == 0 {
            self.global_seed = DEFAULT_GLOBAL_SEED;
        }
        assert(self.last_chunk_bottom_profile@ =~= Seq::new(
            PROFILE_RESOLUTION as nat,
            |i: int| false,
        ));
    }

    /// Names the pacing tier that the next chunk should have.
    pub fn target_pacing(&self) -> (target: ChunkPacing)
        ensures
            target == target_pacing(
                self.current_pacing,
                self.previous_pacing,
                self.chunks_in_current_pacing as nat,
            ),
    {
        determine_target_pacing(
            self.current_pacing,
            self.previous_pacing,
            self.chunks_in_current_pacing,
        )
    }

    /// Whether the arena needs its next chunk: the next spawn position has
    /// come closer than `SPAWN_AHEAD_DISTANCE`.
    pub fn needs_next_chunk(&self) -> (due: bool)
        ensures
            due == (self.next_spawn_y < SPAWN_AHEAD_DISTANCE),
    {
        self.next_spawn_y < SPAWN_AHEAD_DISTANCE
    }

    /// Moves the next spawn position closer by `delta_y`, stopping at the ends
    /// of the range.
    pub fn scroll(&mut self, delta_y: i64)
        ensures
            final(self).next_spawn_y == if old(self).next_spawn_y - delta_y > i64::MAX {
                i64::MAX as int
            } else if old(self).next_spawn_y - delta_y < i64::MIN {
                i64::MIN as int
            } else {
                old(self).next_spawn_y - delta_y
            },
            final(self).last_chunk_bottom_profile == old(self).last_chunk_bottom_profile,
            final(self).pacing_state() == old(self).pacing_state(),
            final(self).chunks_spawned == old(self).chunks_spawned,
            final(self).global_seed == old(self).global_seed,
    {
        let moved: i128 = self.next_spawn_y as i128 - delta_y as i128;
        self.next_spawn_y = if moved > i64::MAX as i128 {
            i64::MAX
        } else if moved < i64::MIN as i128 {
            i64::MIN
        } else {
            moved as i64
        };
    }

    /// Records that `selected` was chosen as the next chunk and says where it
    /// goes.
    ///
    /// The pacing state follows the chunk's tier, the spawn position moves on
    /// by the chunk's height, the chunk's bottom edge becomes the required
    /// profile, and the count of spawned chunks grows by one.
    pub fn record_selection(&mut self, selected: &ChunkSchema) -> (placement: ChunkPlacement)
        requires
            old(self).has_room_for(selected.height),
        ensures
            final(self).pacing_state() == pacing_after(old(self).pacing_state(), selected.pacing),
            final(self).next_spawn_y == old(self).next_spawn_y + selected.height,
            final(self).last_chunk_bottom_profile == selected.bottom_profile,
            final(self).chunks_spawned == old(self).chunks_spawned + 1,
            final(self).global_seed == old(self).global_seed,
            placement.center_y == old(self).next_spawn_y + selected.height / 2,
            placement.sequence_number == old(self).chunks_spawned,
    {
        if selected.pacing != self.current_pacing {
            self.previous_pacing = self.current_pacing;
            self.current_pacing = selected.pacing;
            self.chunks_in_current_pacing = 1;
        } else {
            self.chunks_in_current_pacing = self.chunks_in_current_pacing + 1;
        }
        let half: i64 = if selected.height >= 0 {
            (selected.height / 2) as i64
        } else {
            -((-(selected.height as i64)) / 2) - (if (-(selected.height as i64)) % 2 == 0 {
                0
            } else {
                1
            })
        };
        let placement = ChunkPlacement {
            center_y: self.next_spawn_y + half,
            sequence_number: self.chunks_spawned,
        };
        self.next_spawn_y = self.next_spawn_y + selected.height as i64;
        self.last_chunk_bottom_profile = selected.bottom_profile;
        self.chunks_spawned = self.chunks_spawned + 1;
        placement
    }
}

impl Default for ProcGenState {
    fn default() -> (state: ProcGenState)
        ensures
            state.is_start(),
            state.global_seed == 0,
    {
        let state = ProcGenState {
            last_chunk_bottom_profile: [false; PROFILE_RESOLUTION],
            next_spawn_y: 0,
            current_pacing: ChunkPacing::Open,
            previous_pacing: ChunkPacing::Open,
            chunks_in_current_pacing: 0,
            chunks_spawned: 0,
            global_seed: 0,
        };
        assert(state.last_chunk_bottom_profile@ =~= Seq::new(
            PROFILE_RESOLUTION as nat,
            |i: int| false,
        ));
        state
    }
}

} // verus!

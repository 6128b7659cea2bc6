//! Authored chunk data: geometry, spawn points, weight, pacing tag and edge
//! profiles.

use vstd::prelude::*;

verus! {

/// Fixed-point steps per world unit of length.
pub const MILLIS_PER_UNIT: i32 = 1000;

/// The weight 1.0, in millionths.
pub const WEIGHT_ONE: i32 = 1_000_000;

/// Width of every chunk, in thousandths of a world unit.
pub const CHUNK_WIDTH: i32 = 800_000;

/// Height of a chunk that does not say otherwise, in thousandths of a world unit.
pub const DEFAULT_CHUNK_HEIGHT: i32 = 800_000;

/// Number of horizontal slots in an edge profile.
pub const PROFILE_RESOLUTION: usize = 10;

/// Wall presence at each horizontal slot along one edge of a chunk.
pub type EdgeProfile = [bool; PROFILE_RESOLUTION];

/// What a spawn point produces.
#[derive(Debug, Clone, Copy, PartialEq, Eq, Structural)]
pub enum SpawnType {
    Enemy,
    Resource,
    Hazard,
}

/// Density classification of a chunk.
#[derive(Debug, Clone, Copy, PartialEq, Eq, Structural)]
pub enum ChunkPacing {
    /// Low hazard, high visibility.
    Open,
    /// Moderate hazard, narrow paths.
    Transition,
    /// High hazard, complex bounce geometry.
    Dense,
}

impl ChunkPacing {
    /// The lower-case name of the pacing tier.
    pub open spec fn name(self) -> Seq<char> {
        match self {
            ChunkPacing::Open => "open"@,
            ChunkPacing::Transition => "transition"@,
            ChunkPacing::Dense => "dense"@,
        }
    }

    /// Returns the lower-case name of the pacing tier.
    pub fn as_str(self) -> (s: &'static str)
        ensures
            s@ == self.name(),
    {
        match self {
            ChunkPacing::Open => "open",
            ChunkPacing::Transition => "transition",
            ChunkPacing::Dense => "dense",
        }
    }
}

impl Default for ChunkPacing {
    fn default() -> (pacing: ChunkPacing)
        ensures
            pacing == ChunkPacing::Open,
    {
        ChunkPacing::Open
    }
}

/// A two-dimensional vector in thousandths of a world unit.
#[derive(Debug, Clone, Copy, PartialEq, Eq, Structural)]
pub struct MilliVec2 {
    pub x: i32,
    pub y: i32,
}

impl MilliVec2 {
    /// Builds a vector from its two coordinates.
    pub fn new(x: i32, y: i32) -> (v: MilliVec2)
        ensures
            v.x == x,
            v.y == y,
    {
        MilliVec2 { x, y }
    }

    /// The squared length of `self - other`.
    pub open spec fn distance_squared_spec(self, other: MilliVec2) -> int {
        (self.x - other.x) * (self.x - other.x) + (self.y - other.y) * (self.y - other.y)
    }

    /// Computes the squared distance between two points.
    pub fn distance_squared(self, other: MilliVec2) -> (d: u128)
        ensures
            d == self.distance_squared_spec(other),
    {
        let dx: u128 = (if self.x >= other.x {
            self.x as i64 - other.x as i64
        } else {
            other.x as i64 - self.x as i64
        }) as u128;
        let dy: u128 = (if self.y >= other.y {
            self.y as i64 - other.y as i64
        } else {
            other.y as i64 - self.y as i64
        }) as u128;
        assert(dx <= 0xffff_ffff && dy <= 0xffff_ffff);
        assert(dx * dx <= 0xffff_ffff * 0xffff_ffff) by (nonlinear_arith)
            requires
                dx <= 0xffff_ffff,
        ;
        assert(dy * dy <= 0xffff_ffff * 0xffff_ffff) by (nonlinear_arith)
            requires
                dy <= 0xffff_ffff,
        ;
        assert(dx * dx == (self.x - other.x) * (self.x - other.x)) by (nonlinear_arith)
            requires
                dx == self.x - other.x || dx == other.x - self.x,
        ;
        assert(dy * dy == (self.y - other.y) * (self.y - other.y)) by (nonlinear_arith)
            requires
                dy == self.y - other.y || dy == other.y - self.y,
        ;
        dx * dx + dy * dy
    }
}

/// One wall of a chunk: a rotated rectangle.
#[derive(Debug, Clone, Copy, PartialEq, Eq, Structural)]
pub struct WallDef {
    /// Centre of the wall, relative to the chunk's centre.
    pub position: MilliVec2,
    /// Width and height of the wall.
    pub size: MilliVec2,
    /// Rotation about the centre, in microradians.
    pub rotation: i32,
}

/// One spawn point of a chunk.
#[derive(Debug, Clone, Copy, PartialEq, Eq, Structural)]
pub struct SpawnDef {
    pub spawn_type: SpawnType,
    /// Position relative to the chunk's centre.
    pub position: MilliVec2,
}

/// An authored chunk.
#[derive(Debug, Clone)]
pub struct ChunkSchema {
    /// Identifier used in reports. Nothing requires it to be unique.
    pub name: String,
    /// Extent along the scroll axis, in thousandths of a world unit.
    pub height: i32,
    pub walls: Vec<WallDef>,
    pub spawns: Vec<SpawnDef>,
    /// Relative selection likelihood, in millionths. A chunk whose weight is
    /// not positive is never selected.
    pub weight: i32,
    pub pacing: ChunkPacing,
    /// Wall presence along the top edge.
    pub top_profile: EdgeProfile,
    /// Wall presence along the bottom edge.
    pub bottom_profile: EdgeProfile,
}

impl ChunkSchema {
    /// Whether the chunk may be selected at all: its weight is positive.
    pub open spec fn has_valid_weight(self) -> bool {
        self.weight > 0
    }
}

impl Default for ChunkSchema {
    fn default() -> (chunk: ChunkSchema)
        ensures
            chunk.name@ == "Default"@,
            chunk.height == DEFAULT_CHUNK_HEIGHT,
            chunk.walls@ == Seq::<WallDef>::empty(),
            chunk.spawns@ == Seq::<SpawnDef>::empty(),
            chunk.weight == WEIGHT_ONE,
            chunk.pacing == ChunkPacing::Open,
            chunk.top_profile@ == Seq::new(PROFILE_RESOLUTION as nat, |i: int| false),
            chunk.bottom_profile@ == Seq::new(PROFILE_RESOLUTION as nat, |i: int| false),
    {
        let chunk = ChunkSchema {
            name: String::from_str("Default"),
            height: DEFAULT_CHUNK_HEIGHT,
            walls: Vec::new(),
            spawns: Vec::new(),
            weight: WEIGHT_ONE,
            pacing: ChunkPacing::Open,
            top_profile: [false; PROFILE_RESOLUTION],
            bottom_profile: [false; PROFILE_RESOLUTION],
        };
        assert(chunk.top_profile@ =~= Seq::new(PROFILE_RESOLUTION as nat, |i: int| false));
        assert(chunk.bottom_profile@ =~= Seq::new(PROFILE_RESOLUTION as nat, |i: int| false));
        chunk
    }
}

/// The authored chunks, in authoring order. Filled once and read-only while a
/// run is generated.
#[derive(Debug, Clone)]
pub struct ChunkLibrary {
    pub chunks: Vec<ChunkSchema>,
}

impl Default for ChunkLibrary {
    fn default() -> (library: ChunkLibrary)
        ensures
            library.chunks@.len() == 0,
    {
        ChunkLibrary { chunks: Vec::new() }
    }
}

} // verus!

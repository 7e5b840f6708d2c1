//! Positions on the ground plane, the square arena and the exclusion test.

use vstd::prelude::*;

verus! {

/// A point of the ground plane, in grid steps along each horizontal axis.
#[derive(Clone, Copy, Debug, PartialEq, Eq, Structural)]
pub struct Position {
    pub x: i32,
    pub z: i32,
}

/// Squared Euclidean distance between two positions.
pub open spec fn dist_sq(a: Position, b: Position) -> int {
    (a.x - b.x) * (a.x - b.x) + (a.z - b.z) * (a.z - b.z)
}

/// What an [`Arena`] stands for: the square `[-half_extent, half_extent]` on
/// both axes, and the radius kept free around every tracked entity.
pub struct ArenaModel {
    pub half_extent: int,
    pub exclusion_radius: int,
}

impl ArenaModel {
    /// Both lengths are non-negative and fit a coordinate.
    pub open spec fn wf(self) -> bool {
        &&& 0 <= self.half_extent <= i32::MAX
        &&& 0 <= self.exclusion_radius <= i32::MAX
    }

    /// `p` lies in the square, both edges included.
    pub open spec fn contains(self, p: Position) -> bool {
        &&& -self.half_extent <= p.x <= self.half_extent
        &&& -self.half_extent <= p.z <= self.half_extent
    }

    /// `a` lies within the exclusion radius of `b`. The boundary counts as
    /// inside: a distance of exactly the radius is too close.
    pub open spec fn too_close(self, a: Position, b: Position) -> bool {
        dist_sq(a, b) <= self.exclusion_radius * self.exclusion_radius
    }

    /// `candidate` is too close to at least one of `occupied`.
    pub open spec fn blocked(self, candidate: Position, occupied: Seq<Position>) -> bool {
        exists|i: int| 0 <= i < occupied.len() && self.too_close(candidate, #[trigger] occupied[i])
    }

    /// `p` is a place where a pickup may be put: inside the square and clear
    /// of every occupied position.
    pub open spec fn free_at(self, p: Position, occupied: Seq<Position>) -> bool {
        self.contains(p) && !self.blocked(p, occupied)
    }

    /// Every place of the square is free.
    pub open spec fn all_clear(self, occupied: Seq<Position>) -> bool {
        forall|p: Position| self.contains(p) ==> !#[trigger] self.blocked(p, occupied)
    }

    /// No place of the square is free.
    pub open spec fn crowded(self, occupied: Seq<Position>) -> bool {
        forall|p: Position| self.contains(p) ==> #[trigger] self.blocked(p, occupied)
    }
}

/// The playing field: a square centred on the origin, with the exclusion
/// radius that applies inside it.
#[derive(Clone, Copy, Debug)]
pub struct Arena {
    half_extent: i32,
    exclusion_radius: i32,
}

impl View for Arena {
    type V = ArenaModel;

    closed spec fn view(&self) -> ArenaModel {
        ArenaModel {
            half_extent: self.half_extent as int,
            exclusion_radius: self.exclusion_radius as int,
        }
    }
}

impl Arena {
    /// An arena of the given half side length and exclusion radius, or `None`
    /// if either is negative.
    pub fn new(half_extent: i32, exclusion_radius: i32) -> (arena: Option<Arena>)
        ensures
            arena is Some <==> half_extent >= 0 && exclusion_radius >= 0,
            arena matches Some(a) ==> a@.wf() && a@.half_extent == half_extent
                && a@.exclusion_radius == exclusion_radius,
    {
        if half_extent >= 0 && exclusion_radius >= 0 {
            Some(Arena { half_extent, exclusion_radius })
        } else {
            None
        }
    }

    /// Half the side length of the square.
    pub fn half_extent(&self) -> (h: i32)
        ensures
            h == self@.half_extent,
    {
        self.half_extent
    }

    /// The radius kept free around every tracked entity.
    pub fn exclusion_radius(&self) -> (r: i32)
        ensures
            r == self@.exclusion_radius,
    {
        self.exclusion_radius
    }

    /// Whether `p` lies in the square.
    pub fn contains(&self, p: Position) -> (inside: bool)
        requires
            self@.wf(),
        ensures
            inside == self@.contains(p),
    {
        let h: i32 = self.half_extent;
        -h <= p.x && p.x <= h && -h <= p.z && p.z <= h
    }

    /// Whether `a` lies within the exclusion radius of `b`, by squared
    /// distance against squared radius.
    pub fn too_close(&self, a: Position, b: Position) -> (close: bool)
        ensures
            close == self@.too_close(a, b),
    {
        let dx: i128 = a.x as i128 - b.x as i128;
        let dz: i128 = a.z as i128 - b.z as i128;
        let r: i128 = self.exclusion_radius as i128;
        assert(0 <= dx * dx <= 0x1_0000_0000_0000_0000) by (nonlinear_arith)
            requires
                -0x1_0000_0000 <= dx <= 0x1_0000_0000,
        ;
        assert(0 <= dz * dz <= 0x1_0000_0000_0000_0000) by (nonlinear_arith)
            requires
                -0x1_0000_0000 <= dz <= 0x1_0000_0000,
        ;
        assert(0 <= r * r <= 0x1_0000_0000_0000_0000) by (nonlinear_arith)
            requires
                -0x1_0000_0000 <= r <= 0x1_0000_0000,
        ;
        dx * dx + dz * dz <= r * r
    }

    /// Whether `candidate` is too close to any of `occupied`.
    pub fn is_blocked(&self, candidate: Position, occupied: &Vec<Position>) -> (blocked: bool)
        ensures
            blocked == self@.blocked(candidate, occupied@),
    {
        let mut i: usize = 0;
        while i < occupied.len()
            invariant
                i <= occupied.len(),
                forall|j: int| 0 <= j < i ==> !self@.too_close(candidate, #[trigger] occupied@[j]),
            decreases occupied.len() - i,
        {
            if self.too_close(candidate, occupied[i]) {
                return true;
            }
            i += 1;
        }
        false
    }
}

} // verus!

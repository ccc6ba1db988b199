//! Points, chunk shapes, extents, and the arithmetic that ties a world point
//! to its chunk key and to its position inside that chunk's dense array.
//!
//! A chunk key is the world point divided componentwise by the chunk shape,
//! rounded toward negative infinity, so every world point belongs to exactly
//! one chunk. Inside a chunk, voxels are laid out x-fastest in a dense array
//! of length `shape.x * shape.y * shape.z`.

use vstd::prelude::*;
use vstd::arithmetic::div_mod::{
    lemma_fundamental_div_mod, lemma_fundamental_div_mod_converse, lemma_mod_bound,
};

verus! {

/// Largest coordinate magnitude accepted for a world point.
pub const WORLD_BOUND: i32 = 0x10_0000;

/// Largest coordinate magnitude a chunk key can take (keys of in-world points,
/// with a margin of one chunk for neighbor expansion).
pub const KEY_BOUND: i32 = 0x10_0001;

/// Largest chunk side length accepted.
pub const MAX_SHAPE_DIM: i32 = 256;

/// A 3D integer coordinate: a world point or a chunk key.
#[derive(Clone, Copy, PartialEq, Eq, Structural, Debug)]
pub struct Point3i {
    pub x: i32,
    pub y: i32,
    pub z: i32,
}

impl Point3i {
    /// Whether every coordinate is within the supported world range.
    pub open spec fn in_world(self) -> bool {
        -WORLD_BOUND <= self.x <= WORLD_BOUND && -WORLD_BOUND <= self.y <= WORLD_BOUND
            && -WORLD_BOUND <= self.z <= WORLD_BOUND
    }

    /// Whether every coordinate is within the range a chunk key can take.
    pub open spec fn in_key_range(self) -> bool {
        -KEY_BOUND <= self.x <= KEY_BOUND && -KEY_BOUND <= self.y <= KEY_BOUND
            && -KEY_BOUND <= self.z <= KEY_BOUND
    }

    /// Componentwise less-or-equal.
    pub open spec fn le(self, other: Point3i) -> bool {
        self.x <= other.x && self.y <= other.y && self.z <= other.z
    }
}

/// The fixed extent of every chunk in a store, set once at creation.
#[derive(Clone, Copy, PartialEq, Eq, Structural, Debug)]
pub struct ChunkShape {
    pub x: i32,
    pub y: i32,
    pub z: i32,
}

impl ChunkShape {
    /// A usable shape: every side positive and bounded.
    pub open spec fn wf(self) -> bool {
        1 <= self.x <= MAX_SHAPE_DIM && 1 <= self.y <= MAX_SHAPE_DIM && 1 <= self.z
            <= MAX_SHAPE_DIM
    }

    /// Number of voxels in one chunk.
    pub open spec fn volume(self) -> int {
        (self.x as int) * (self.y as int) * (self.z as int)
    }

    /// Number of voxels in one chunk, executable form.
    pub fn volume_exec(&self) -> (r: usize)
        requires
            self.wf(),
        ensures
            r as int == self.volume(),
            0 < r <= 0x100_0000,
    {
        proof {
            lemma_volume_bounds(*self);
            assert((self.x as int) * (self.y as int) <= 0x1_0000) by (nonlinear_arith)
                requires
                    1 <= self.x <= 256 && 1 <= self.y <= 256,
            ;
        }
        (self.x as usize) * (self.y as usize) * (self.z as usize)
    }

    /// The chunk key of the chunk containing world point `p`: the floor of the
    /// componentwise quotient of `p` by the shape.
    pub open spec fn key_of(self, p: Point3i) -> Point3i {
        Point3i {
            x: ((p.x as int) / (self.x as int)) as i32,
            y: ((p.y as int) / (self.y as int)) as i32,
            z: ((p.z as int) / (self.z as int)) as i32,
        }
    }

    /// Linear index of offsets `(ox, oy, oz)` in a chunk's dense array,
    /// x-fastest.
    pub open spec fn lin_index(self, ox: int, oy: int, oz: int) -> int {
        (oz * (self.y as int) + oy) * (self.x as int) + ox
    }

    /// Linear index of world point `p` inside its chunk's dense array.
    pub open spec fn offset_of(self, p: Point3i) -> int {
        self.lin_index(
            (p.x as int) % (self.x as int),
            (p.y as int) % (self.y as int),
            (p.z as int) % (self.z as int),
        )
    }

    /// The world point of linear index `i` in the chunk with key `k`.
    pub open spec fn point_at(self, k: Point3i, i: int) -> Point3i {
        Point3i {
            x: ((k.x as int) * (self.x as int) + i % (self.x as int)) as i32,
            y: ((k.y as int) * (self.y as int) + (i / (self.x as int)) % (self.y as int)) as i32,
            z: ((k.z as int) * (self.z as int) + i / (self.x as int) / (self.y as int)) as i32,
        }
    }
}

/// An axis-aligned box of world points, inclusive on both ends.
#[derive(Clone, Copy, PartialEq, Eq, Structural, Debug)]
pub struct Extent3i {
    pub minimum: Point3i,
    pub maximum: Point3i,
}

impl Extent3i {
    /// A usable extent: nonempty and within the world range.
    pub open spec fn wf(self) -> bool {
        self.minimum.le(self.maximum) && self.minimum.in_world() && self.maximum.in_world()
    }

    /// Whether `p` lies inside this extent.
    pub open spec fn contains(self, p: Point3i) -> bool {
        self.minimum.x <= p.x <= self.maximum.x && self.minimum.y <= p.y <= self.maximum.y
            && self.minimum.z <= p.z <= self.maximum.z
    }

    /// Builds the extent from its inclusive minimum and maximum.
    pub fn from_min_and_max(minimum: Point3i, maximum: Point3i) -> (r: Extent3i)
        ensures
            r.minimum == minimum,
            r.maximum == maximum,
    {
        Extent3i { minimum, maximum }
    }

    /// Whether `p` lies inside this extent, executable form.
    pub fn contains_point(&self, p: Point3i) -> (r: bool)
        ensures
            r == self.contains(p),
    {
        self.minimum.x <= p.x && p.x <= self.maximum.x && self.minimum.y <= p.y && p.y
            <= self.maximum.y && self.minimum.z <= p.z && p.z <= self.maximum.z
    }

    /// Whether chunk key `k` overlaps this extent, given chunk shape `s`: the
    /// key lies in the inclusive key range spanned by the extent's corners.
    pub open spec fn overlaps_key(self, s: ChunkShape, k: Point3i) -> bool {
        s.key_of(self.minimum).le(k) && k.le(s.key_of(self.maximum))
    }

    /// Whether chunk key `k` is within the dirty range of this extent: the
    /// overlapping keys, widened by one chunk in every direction when
    /// `touch_neighbors` is set (the Moore neighborhood of the edit).
    pub open spec fn in_dirty_range(
        self,
        s: ChunkShape,
        touch_neighbors: bool,
        k: Point3i,
    ) -> bool {
        if touch_neighbors {
            s.key_of(self.minimum).x - 1 <= k.x <= s.key_of(self.maximum).x + 1
                && s.key_of(self.minimum).y - 1 <= k.y <= s.key_of(self.maximum).y + 1
                && s.key_of(self.minimum).z - 1 <= k.z <= s.key_of(self.maximum).z + 1
        } else {
            self.overlaps_key(s, k)
        }
    }
}

/// The chunk volume is positive and at most `256^3`.
pub proof fn lemma_volume_bounds(s: ChunkShape)
    requires
        s.wf(),
    ensures
        0 < s.volume() <= 0x100_0000,
{
    assert(0 < s.volume() <= 0x100_0000) by (nonlinear_arith)
        requires
            1 <= s.x <= 256 && 1 <= s.y <= 256 && 1 <= s.z <= 256,
    ;
}

/// Floor division of a bounded coordinate by a chunk side: one axis of
/// [`ChunkShape::key_of`].
pub fn floor_div(a: i32, b: i32) -> (q: i32)
    requires
        -0x20_0000 <= a <= 0x20_0000,
        1 <= b <= MAX_SHAPE_DIM,
    ensures
        q as int == (a as int) / (b as int),
        -0x20_0000 <= q <= 0x20_0000,
{
    proof {
        lemma_div_bounds(a as int, b as int, -0x20_0000, 0x20_0000);
    }
    if a >= 0 {
        let q = (a as u32) / (b as u32);
        proof {
            lemma_fundamental_div_mod(a as int, b as int);
        }
        q as i32
    } else {
        let na = (-a) as u32;
        let bb = b as u32;
        let qq = (na + bb - 1) / bb;
        proof {
            let ai = a as int;
            let bi = b as int;
            lemma_fundamental_div_mod(ai, bi);
            lemma_mod_bound(ai, bi);
            let fq = ai / bi;
            let fr = ai % bi;
            // -a + b - 1 == (-fq) * b + (b - 1 - fr), with the remainder in range,
            // so the unsigned ceiling quotient is exactly -fq.
            assert((-ai) + bi - 1 == (-fq) * bi + (bi - 1 - fr)) by (nonlinear_arith)
                requires
                    ai == bi * fq + fr,
            ;
            lemma_fundamental_div_mod_converse((-ai) + bi - 1, bi, -fq, bi - 1 - fr);
        }
        -((qq as i32))
    }
}

/// Floor remainder of a bounded coordinate by a chunk side: one axis of
/// [`ChunkShape::offset_of`]. Always in `[0, b)`.
pub fn floor_mod(a: i32, b: i32) -> (r: i32)
    requires
        -0x20_0000 <= a <= 0x20_0000,
        1 <= b <= MAX_SHAPE_DIM,
    ensures
        r as int == (a as int) % (b as int),
        0 <= r < b,
{
    let q = floor_div(a, b);
    proof {
        lemma_fundamental_div_mod(a as int, b as int);
        lemma_mod_bound(a as int, b as int);
    }
    a - q * b
}

/// The floor quotient of a bounded value by a positive divisor stays within
/// the same bounds.
pub proof fn lemma_div_bounds(a: int, b: int, lo: int, hi: int)
    requires
        lo <= a <= hi,
        lo <= 0 <= hi,
        1 <= b,
    ensures
        lo <= a / b <= hi,
{
    lemma_fundamental_div_mod(a, b);
    lemma_mod_bound(a, b);
    let q = a / b;
    let r = a % b;
    assert(lo <= q <= hi) by (nonlinear_arith)
        requires
            a == b * q + r,
            0 <= r < b,
            1 <= b,
            lo <= a <= hi,
            lo <= 0 <= hi,
    ;
}

/// The chunk key of an in-world point is in the key range, and keys of
/// extent corners bound each other monotonically.
pub proof fn lemma_key_of_in_range(s: ChunkShape, p: Point3i)
    requires
        s.wf(),
        p.in_world(),
    ensures
        s.key_of(p).in_key_range(),
        -WORLD_BOUND <= s.key_of(p).x <= WORLD_BOUND,
        -WORLD_BOUND <= s.key_of(p).y <= WORLD_BOUND,
        -WORLD_BOUND <= s.key_of(p).z <= WORLD_BOUND,
{
    lemma_div_bounds(p.x as int, s.x as int, -WORLD_BOUND as int, WORLD_BOUND as int);
    lemma_div_bounds(p.y as int, s.y as int, -WORLD_BOUND as int, WORLD_BOUND as int);
    lemma_div_bounds(p.z as int, s.z as int, -WORLD_BOUND as int, WORLD_BOUND as int);
}

/// The linear index of in-range offsets lies in `[0, volume)` and decodes
/// back to the same offsets.
pub proof fn lemma_lin_index(s: ChunkShape, ox: int, oy: int, oz: int)
    requires
        s.wf(),
        0 <= ox < s.x,
        0 <= oy < s.y,
        0 <= oz < s.z,
    ensures
        0 <= s.lin_index(ox, oy, oz) < s.volume(),
        s.lin_index(ox, oy, oz) % (s.x as int) == ox,
        (s.lin_index(ox, oy, oz) / (s.x as int)) % (s.y as int) == oy,
        s.lin_index(ox, oy, oz) / (s.x as int) / (s.y as int) == oz,
{
    let sx = s.x as int;
    let sy = s.y as int;
    let sz = s.z as int;
    let i = s.lin_index(ox, oy, oz);
    assert(0 <= i < sx * sy * sz) by (nonlinear_arith)
        requires
            i == (oz * sy + oy) * sx + ox,
            0 <= ox < sx,
            0 <= oy < sy,
            0 <= oz < sz,
    ;
    assert(i == (oz * sy + oy) * sx + ox);
    lemma_fundamental_div_mod_converse(i, sx, oz * sy + oy, ox);
    assert(i / sx == oz * sy + oy);
    lemma_fundamental_div_mod_converse(oz * sy + oy, sy, oz, oy);
}

/// A world point decomposes into its chunk key and its linear offset, and
/// that offset is in `[0, volume)`.
pub proof fn lemma_point_decompose(s: ChunkShape, p: Point3i)
    requires
        s.wf(),
        p.in_world(),
    ensures
        0 <= s.offset_of(p) < s.volume(),
        s.point_at(s.key_of(p), s.offset_of(p)) == p,
{
    let sx = s.x as int;
    let sy = s.y as int;
    let sz = s.z as int;
    let ox = (p.x as int) % sx;
    let oy = (p.y as int) % sy;
    let oz = (p.z as int) % sz;
    lemma_mod_bound(p.x as int, sx);
    lemma_mod_bound(p.y as int, sy);
    lemma_mod_bound(p.z as int, sz);
    lemma_lin_index(s, ox, oy, oz);
    lemma_fundamental_div_mod(p.x as int, sx);
    lemma_fundamental_div_mod(p.y as int, sy);
    lemma_fundamental_div_mod(p.z as int, sz);
    lemma_key_of_in_range(s, p);
    lemma_div_bounds(p.x as int, sx, -WORLD_BOUND as int, WORLD_BOUND as int);
    lemma_div_bounds(p.y as int, sy, -WORLD_BOUND as int, WORLD_BOUND as int);
    lemma_div_bounds(p.z as int, sz, -WORLD_BOUND as int, WORLD_BOUND as int);
    let k = s.key_of(p);
    let i = s.offset_of(p);
    assert(k.x as int == (p.x as int) / sx);
    assert(k.y as int == (p.y as int) / sy);
    assert(k.z as int == (p.z as int) / sz);
    assert((k.x as int) * sx + i % sx == p.x as int) by (nonlinear_arith)
        requires
            i % sx == ox,
            p.x as int == sx * ((p.x as int) / sx) + ox,
            k.x as int == (p.x as int) / sx,
    ;
    assert((k.y as int) * sy + (i / sx) % sy == p.y as int) by (nonlinear_arith)
        requires
            (i / sx) % sy == oy,
            p.y as int == sy * ((p.y as int) / sy) + oy,
            k.y as int == (p.y as int) / sy,
    ;
    assert((k.z as int) * sz + i / sx / sy == p.z as int) by (nonlinear_arith)
        requires
            i / sx / sy == oz,
            p.z as int == sz * ((p.z as int) / sz) + oz,
            k.z as int == (p.z as int) / sz,
    ;
}

/// Every point of chunk `k` maps back to key `k` and offset `i`, and stays
/// within bounded coordinates.
pub proof fn lemma_point_at_key(s: ChunkShape, k: Point3i, i: int)
    requires
        s.wf(),
        k.in_key_range(),
        0 <= i < s.volume(),
    ensures
        s.key_of(s.point_at(k, i)) == k,
        s.offset_of(s.point_at(k, i)) == i,
        -0x20_0000 * 256 <= s.point_at(k, i).x <= 0x20_0000 * 256,
        0 <= i % (s.x as int) < s.x,
        0 <= (i / (s.x as int)) % (s.y as int) < s.y,
        0 <= i / (s.x as int) / (s.y as int) < s.z,
{
    let sx = s.x as int;
    let sy = s.y as int;
    let sz = s.z as int;
    let ox = i % sx;
    let t = i / sx;
    let oy = t % sy;
    let oz = t / sy;
    lemma_mod_bound(i, sx);
    lemma_fundamental_div_mod(i, sx);
    lemma_mod_bound(t, sy);
    lemma_fundamental_div_mod(t, sy);
    assert(0 <= t < sy * sz) by (nonlinear_arith)
        requires
            i == sx * t + ox,
            0 <= ox < sx,
            0 <= i < sx * sy * sz,
            1 <= sx,
            1 <= sy,
            1 <= sz,
    ;
    assert(0 <= oz < sz) by (nonlinear_arith)
        requires
            t == sy * oz + oy,
            0 <= oy < sy,
            0 <= t < sy * sz,
            1 <= sy,
            1 <= sz,
    ;
    let px = (k.x as int) * sx + ox;
    let py = (k.y as int) * sy + oy;
    let pz = (k.z as int) * sz + oz;
    assert(-0x20_0000 * 256 <= px <= 0x20_0000 * 256 && -0x20_0000 * 256 <= py <= 0x20_0000 * 256
        && -0x20_0000 * 256 <= pz <= 0x20_0000 * 256) by (nonlinear_arith)
        requires
            px == (k.x as int) * sx + ox,
            py == (k.y as int) * sy + oy,
            pz == (k.z as int) * sz + oz,
            -0x10_0001 <= k.x as int <= 0x10_0001,
            -0x10_0001 <= k.y as int <= 0x10_0001,
            -0x10_0001 <= k.z as int <= 0x10_0001,
            0 <= ox < sx <= 256,
            0 <= oy < sy <= 256,
            0 <= oz < sz <= 256,
    ;
    let p = s.point_at(k, i);
    assert(p.x as int == px && p.y as int == py && p.z as int == pz);
    assert(px == (k.x as int) * sx + ox);
    lemma_fundamental_div_mod_converse(px, sx, k.x as int, ox);
    lemma_fundamental_div_mod_converse(py, sy, k.y as int, oy);
    lemma_fundamental_div_mod_converse(pz, sz, k.z as int, oz);
    // Reassemble the offset: lin_index of the decoded offsets is `i` again.
    assert(s.lin_index(ox, oy, oz) == i) by (nonlinear_arith)
        requires
            i == sx * t + ox,
            t == sy * oz + oy,
            s.lin_index(ox, oy, oz) == (oz * sy + oy) * sx + ox,
    ;
}

/// Computes the chunk key of world point `p`, executable form of
/// [`ChunkShape::key_of`].
pub fn chunk_key(s: &ChunkShape, p: Point3i) -> (k: Point3i)
    requires
        s.wf(),
        p.in_world(),
    ensures
        k == s.key_of(p),
        k.in_key_range(),
{
    proof {
        lemma_key_of_in_range(*s, p);
    }
    Point3i { x: floor_div(p.x, s.x), y: floor_div(p.y, s.y), z: floor_div(p.z, s.z) }
}

/// Computes the linear index of world point `p` inside its chunk, executable
/// form of [`ChunkShape::offset_of`].
pub fn linear_offset(s: &ChunkShape, p: Point3i) -> (i: usize)
    requires
        s.wf(),
        p.in_world(),
    ensures
        i as int == s.offset_of(p),
        (i as int) < s.volume(),
{
    proof {
        lemma_point_decompose(*s, p);
    }
    let ox = floor_mod(p.x, s.x) as usize;
    let oy = floor_mod(p.y, s.y) as usize;
    let oz = floor_mod(p.z, s.z) as usize;
    proof {
        assert(oz * (s.y as int) + oy <= 0xFFFF && (oz * (s.y as int) + oy) * (s.x as int) + ox
            <= 0xFF_FFFF) by (nonlinear_arith)
            requires
                0 <= ox < 256,
                0 <= oy < 256,
                0 <= oz < 256,
                1 <= s.x <= 256,
                1 <= s.y <= 256,
        ;
    }
    (oz * (s.y as usize) + oy) * (s.x as usize) + ox
}

/// Computes the world point of linear index `i` in the chunk with key `k`,
/// executable form of [`ChunkShape::point_at`].
pub fn chunk_point(s: &ChunkShape, k: Point3i, i: usize) -> (p: Point3i)
    requires
        s.wf(),
        k.in_key_range(),
        (i as int) < s.volume(),
    ensures
        p == s.point_at(k, i as int),
{
    proof {
        lemma_point_at_key(*s, k, i as int);
        lemma_volume_bounds(*s);
        lemma_div_bounds(i as int, s.x as int, 0, 0x100_0000);
        lemma_div_bounds((i as int) / (s.x as int), s.y as int, 0, 0x100_0000);
        lemma_mod_bound(i as int, s.x as int);
        lemma_mod_bound((i as int) / (s.x as int), s.y as int);
    }
    let sx = s.x as usize;
    let sy = s.y as usize;
    let ox = (i % sx) as i32;
    let oy = ((i / sx) % sy) as i32;
    let oz = (i / sx / sy) as i32;
    proof {
        assert(-0x2000_0100 <= (k.x as int) * (s.x as int) + ox <= 0x2000_0100 && -0x2000_0100 <= (
        k.y as int) * (s.y as int) + oy <= 0x2000_0100 && -0x2000_0100 <= (k.z as int) * (
        s.z as int) + oz <= 0x2000_0100) by (nonlinear_arith)
            requires
                -0x10_0001 <= k.x <= 0x10_0001,
                -0x10_0001 <= k.y <= 0x10_0001,
                -0x10_0001 <= k.z <= 0x10_0001,
                1 <= s.x <= 256,
                1 <= s.y <= 256,
                1 <= s.z <= 256,
                0 <= ox < 256,
                0 <= oy < 256,
                0 <= oz < 256,
        ;
    }
    Point3i { x: k.x * s.x + ox, y: k.y * s.y + oy, z: k.z * s.z + oz }
}

} // verus!

use vstd::prelude::*;
use vstd::arithmetic::div_mod::{
    lemma_fundamental_div_mod_converse, lemma_mod_multiples_basic, lemma_div_is_ordered,
    lemma_fundamental_div_mod,
};
use crate::point::Point3i;
use crate::extent::Extent3i;

verus! {

/// Translates from lattice coordinates to chunk key space.
///
/// The key for a chunk is the minimum point of that chunk's extent.  Every
/// axis of the chunk shape is a power of two, so the key of the chunk that
/// contains a point can be computed with a bit mask, and chunk-sized
/// divisions can be done with shifts.
#[derive(Clone, Copy, PartialEq, Eq, Structural, Debug)]
pub struct ChunkIndexer {
    pub chunk_shape: Point3i,
    pub chunk_shape_mask: Point3i,
    pub chunk_shape_log2: Point3i,
}

/// One axis of a power-of-two chunk shape together with its cached mask and
/// base-2 logarithm.
pub open spec fn axis_wf(s: i32, k: i32, m: i32) -> bool {
    &&& 0 <= k <= 30
    &&& s == 1i32 << (k as u32)
    &&& m == !((s - 1) as i32)
}

pub open spec fn is_power_of_two(s: i32) -> bool {
    exists|k: i32| 0 <= k <= 30 && s == #[trigger] (1i32 << (k as u32))
}

/// Floor of `p` to the next multiple of `s` below it, as an `i32` value.
pub open spec fn axis_key(p: i32, s: i32) -> i32 {
    (p - p as int % s as int) as i32
}

/// What one masked axis computes: the mask rounds down to a multiple of the
/// axis size, the shift divides by it, and the low bits are the remainder.
proof fn lemma_axis(p: i32, s: i32, k: i32, m: i32)
    requires
        axis_wf(s, k, m),
    ensures
        1 <= s,
        (p & m) == p - p as int % s as int,
        (p & m) as int % s as int == 0,
        (p & m) <= p < (p & m) + s,
        (p >> (k as u32)) == p as int / s as int,
        (p & ((s - 1) as i32)) == p as int % s as int,
{
    let q = p >> (k as u32);
    let key = p & m;
    assert(1 <= s && key == q as int * s as int && 0 <= p - key < s && (p & ((s - 1) as i32)) == p
        - key) by (bit_vector)
        requires
            0 <= k <= 30,
            s == 1i32 << (k as u32),
            m == !((s - 1) as i32),
            q == p >> (k as u32),
            key == p & m,
    ;
    lemma_fundamental_div_mod_converse(p as int, s as int, q as int, p - key);
    lemma_mod_multiples_basic(q as int, s as int);
}

/// Right-shifting keeps values inside the `i32` range, and strictly below
/// `i32::MAX` whenever the input is.
proof fn lemma_axis_shr_below_max(pmin: i32, pmax: i32, s: i32, k: i32)
    requires
        0 <= k <= 30,
        s == 1i32 << (k as u32),
        pmax < i32::MAX,
    ensures
        i32::MIN <= axis_quot(pmin, s) <= i32::MAX,
        i32::MIN <= axis_quot(pmax, s) < i32::MAX,
{
    let m: i32 = !((s - 1) as i32);
    lemma_axis(pmin, s, k, m);
    lemma_axis(pmax, s, k, m);
    assert((pmax >> (k as u32)) < i32::MAX) by (bit_vector)
        requires
            0 <= k <= 30,
            pmax < i32::MAX,
    ;
}

/// A chunk-space coordinate between the floors of `emin` and `emax` scales
/// back to an in-range chunk key that reaches into `[emin, emax]`.
proof fn lemma_axis_scale(q: i32, emin: i32, emax: i32, s: i32, k: i32, m: i32)
    requires
        axis_wf(s, k, m),
        emin <= emax,
        axis_quot(emin, s) <= q <= axis_quot(emax, s),
    ensures
        i32::MIN <= q as int * s as int <= i32::MAX,
        (q << (k as u32)) == q as int * s as int,
        q as int * s as int <= emax,
        q as int * s as int + s > emin,
{
    lemma_axis(emin, s, k, m);
    lemma_axis(emax, s, k, m);
    lemma_fundamental_div_mod(emin as int, s as int);
    lemma_fundamental_div_mod(emax as int, s as int);
    let qmin = axis_quot(emin, s);
    let qmax = axis_quot(emax, s);
    assert(s as int * qmin <= s as int * q <= s as int * qmax) by (nonlinear_arith)
        requires
            qmin <= q <= qmax,
            s >= 1,
    ;
    assert((q << (k as u32)) == q as int * s as int) by (bit_vector)
        requires
            0 <= k <= 30,
            s == 1i32 << (k as u32),
            i32::MIN <= q as int * s as int <= i32::MAX,
    ;
}

/// A point within one axis step above an aligned value floors back to it.
proof fn lemma_axis_of_aligned(p: i32, a: i32, s: i32, k: i32, m: i32)
    requires
        axis_wf(s, k, m),
        a as int % s as int == 0,
        a <= p < a + s,
    ensures
        axis_key(p, s) == a,
{
    lemma_axis(p, s, k, m);
    lemma_axis(a, s, k, m);
    lemma_fundamental_div_mod(a as int, s as int);
    let qa = a as int / s as int;
    lemma_fundamental_div_mod_converse(p as int, s as int, qa, p - a);
}

impl ChunkIndexer {
    pub open spec fn wf(self) -> bool {
        &&& axis_wf(self.chunk_shape.x, self.chunk_shape_log2.x, self.chunk_shape_mask.x)
        &&& axis_wf(self.chunk_shape.y, self.chunk_shape_log2.y, self.chunk_shape_mask.y)
        &&& axis_wf(self.chunk_shape.z, self.chunk_shape_log2.z, self.chunk_shape_mask.z)
    }

    /// The key of the chunk containing `p`: each axis rounded down to a
    /// multiple of the chunk shape.
    pub open spec fn spec_key(self, p: Point3i) -> Point3i {
        Point3i {
            x: axis_key(p.x, self.chunk_shape.x),
            y: axis_key(p.y, self.chunk_shape.y),
            z: axis_key(p.z, self.chunk_shape.z),
        }
    }

    pub open spec fn spec_key_is_valid(self, key: Point3i) -> bool {
        &&& key.x as int % self.chunk_shape.x as int == 0
        &&& key.y as int % self.chunk_shape.y as int == 0
        &&& key.z as int % self.chunk_shape.z as int == 0
    }

    /// The extent spanned by the chunk at `key`, as a value; it is
    /// well-formed whenever `spec_key_in_range(key)` holds.
    pub open spec fn spec_chunk_extent(self, key: Point3i) -> Extent3i {
        Extent3i { minimum: key, shape: self.chunk_shape }
    }

    /// The chunk at `key` shares at least one point with `e`.
    pub open spec fn spec_chunk_overlaps(self, key: Point3i, e: Extent3i) -> bool {
        exists|p: Point3i| self.spec_chunk_extent(key).spec_contains(p) && e.spec_contains(p)
    }

    /// The chunk extent of `key` stays inside the `i32` range.
    pub open spec fn spec_key_in_range(self, key: Point3i) -> bool {
        &&& key.x + self.chunk_shape.x <= i32::MAX
        &&& key.y + self.chunk_shape.y <= i32::MAX
        &&& key.z + self.chunk_shape.z <= i32::MAX
    }

    /// The chunk of the point `p` stays inside the `i32` range.
    pub open spec fn spec_point_in_range(self, p: Point3i) -> bool {
        self.spec_key_in_range(self.spec_key(p))
    }

    /// Every axis of the chunk shape is at least one.
    pub proof fn lemma_shape_positive(self)
        requires
            self.wf(),
        ensures
            1 <= self.chunk_shape.x,
            1 <= self.chunk_shape.y,
            1 <= self.chunk_shape.z,
    {
        lemma_shifted_one_is_positive(self.chunk_shape.x, self.chunk_shape_log2.x);
        lemma_shifted_one_is_positive(self.chunk_shape.y, self.chunk_shape_log2.y);
        lemma_shifted_one_is_positive(self.chunk_shape.z, self.chunk_shape_log2.z);
    }

    /// Every point lies in the chunk of its own key, and that key is valid.
    pub proof fn lemma_point_in_own_chunk(self, p: Point3i)
        requires
            self.wf(),
        ensures
            self.spec_key_is_valid(self.spec_key(p)),
            self.spec_chunk_extent(self.spec_key(p)).spec_contains(p),
    {
        lemma_axis(p.x, self.chunk_shape.x, self.chunk_shape_log2.x, self.chunk_shape_mask.x);
        lemma_axis(p.y, self.chunk_shape.y, self.chunk_shape_log2.y, self.chunk_shape_mask.y);
        lemma_axis(p.z, self.chunk_shape.z, self.chunk_shape_log2.z, self.chunk_shape_mask.z);
    }

    /// The chunk of a valid key holds exactly the points whose key it is.
    pub proof fn lemma_chunk_contains_iff_key(self, key: Point3i, p: Point3i)
        requires
            self.wf(),
            self.spec_key_is_valid(key),
        ensures
            self.spec_chunk_extent(key).spec_contains(p) <==> self.spec_key(p) == key,
    {
        self.lemma_point_in_own_chunk(p);
        if self.spec_chunk_extent(key).spec_contains(p) {
            lemma_axis_of_aligned(p.x, key.x, self.chunk_shape.x, self.chunk_shape_log2.x, self.chunk_shape_mask.x);
            lemma_axis_of_aligned(p.y, key.y, self.chunk_shape.y, self.chunk_shape_log2.y, self.chunk_shape_mask.y);
            lemma_axis_of_aligned(p.z, key.z, self.chunk_shape.z, self.chunk_shape_log2.z, self.chunk_shape_mask.z);
        }
    }

    /// Constructs an indexer for the given chunk shape, whose every axis must
    /// be a power of two; the mask and logarithm are derived and cached.
    pub fn new(chunk_shape: Point3i) -> (r: Self)
        requires
            is_power_of_two(chunk_shape.x),
            is_power_of_two(chunk_shape.y),
            is_power_of_two(chunk_shape.z),
        ensures
            r.wf(),
            r.chunk_shape == chunk_shape,
    {
        let kx = log2_of_power_of_two(chunk_shape.x);
        let ky = log2_of_power_of_two(chunk_shape.y);
        let kz = log2_of_power_of_two(chunk_shape.z);
        proof {
            lemma_shifted_one_is_positive(chunk_shape.x, kx);
            lemma_shifted_one_is_positive(chunk_shape.y, ky);
            lemma_shifted_one_is_positive(chunk_shape.z, kz);
        }
        ChunkIndexer {
            chunk_shape,
            chunk_shape_mask: Point3i {
                x: !(chunk_shape.x - 1),
                y: !(chunk_shape.y - 1),
                z: !(chunk_shape.z - 1),
            },
            chunk_shape_log2: Point3i { x: kx, y: ky, z: kz },
        }
    }

    /// The constant shape of a chunk.  The same for all chunks.
    pub fn chunk_shape(&self) -> (r: Point3i)
        ensures
            r == self.chunk_shape,
    {
        self.chunk_shape
    }

    /// The mask used for calculating the chunk key of a chunk that contains a
    /// given point.
    pub fn chunk_shape_mask(&self) -> (r: Point3i)
        ensures
            r == self.chunk_shape_mask,
    {
        self.chunk_shape_mask
    }

    /// Returns the key of the chunk that contains `point`: on every axis the
    /// key is a multiple of the chunk shape, rounded toward negative
    /// infinity, and the point lies within one chunk shape above it.
    pub fn chunk_key_containing_point(&self, point: Point3i) -> (r: Point3i)
        requires
            self.wf(),
        ensures
            r == self.spec_key(point),
            self.spec_key_is_valid(r),
            r.x <= point.x < r.x + self.chunk_shape.x,
            r.y <= point.y < r.y + self.chunk_shape.y,
            r.z <= point.z < r.z + self.chunk_shape.z,
    {
        proof {
            lemma_axis(point.x, self.chunk_shape.x, self.chunk_shape_log2.x, self.chunk_shape_mask.x);
            lemma_axis(point.y, self.chunk_shape.y, self.chunk_shape_log2.y, self.chunk_shape_mask.y);
            lemma_axis(point.z, self.chunk_shape.z, self.chunk_shape_log2.z, self.chunk_shape_mask.z);
        }
        Point3i {
            x: point.x & self.chunk_shape_mask.x,
            y: point.y & self.chunk_shape_mask.y,
            z: point.z & self.chunk_shape_mask.z,
        }
    }

    /// Determines whether `key` is a valid chunk key: a multiple of the chunk
    /// shape on every axis.
    pub fn chunk_key_is_valid(&self, key: Point3i) -> (r: bool)
        requires
            self.wf(),
        ensures
            r == self.spec_key_is_valid(key),
    {
        proof {
            lemma_axis(key.x, self.chunk_shape.x, self.chunk_shape_log2.x, self.chunk_shape_mask.x);
            lemma_axis(key.y, self.chunk_shape.y, self.chunk_shape_log2.y, self.chunk_shape_mask.y);
            lemma_axis(key.z, self.chunk_shape.z, self.chunk_shape_log2.z, self.chunk_shape_mask.z);
        }
        (key.x & (self.chunk_shape.x - 1)) == 0 && (key.y & (self.chunk_shape.y - 1)) == 0 && (
        key.z & (self.chunk_shape.z - 1)) == 0
    }

    /// Returns the keys of every chunk that overlaps `extent`, in the
    /// row-major order of the shifted key range: every point of `extent` is
    /// covered by the chunk of some returned key, and every returned key's
    /// chunk shares at least one point with `extent`.
    pub fn chunk_keys_for_extent(&self, extent: &Extent3i) -> (r: Vec<Point3i>)
        requires
            self.wf(),
            extent.wf(),
            self.spec_key_counts_fit(*extent),
            self.spec_key_extent(*extent).volume() <= usize::MAX,
        ensures
            extent.spec_nonempty() ==> r@ == self.spec_chunk_keys(*extent),
            !extent.spec_nonempty() ==> r@.len() == 0,
            forall|j: int| 0 <= j < r@.len() ==> self.spec_key_is_valid(#[trigger] r@[j]),
            forall|j: int|
                0 <= j < r@.len() ==> self.spec_chunk_overlaps(#[trigger] r@[j], *extent),
            forall|p: Point3i|
                extent.spec_contains(p) ==> exists|j: int|
                    0 <= j < r@.len() && r@[j] == self.spec_key(p),
    {
        let e = *extent;
        if e.shape.x == 0 || e.shape.y == 0 || e.shape.z == 0 {
            let r: Vec<Point3i> = Vec::new();
            return r;
        }
        let emax = e.max();
        let kx = self.chunk_shape_log2.x;
        let ky = self.chunk_shape_log2.y;
        let kz = self.chunk_shape_log2.z;
        proof {
            lemma_axis(e.minimum.x, self.chunk_shape.x, kx, self.chunk_shape_mask.x);
            lemma_axis(e.minimum.y, self.chunk_shape.y, ky, self.chunk_shape_mask.y);
            lemma_axis(e.minimum.z, self.chunk_shape.z, kz, self.chunk_shape_mask.z);
            lemma_axis(emax.x, self.chunk_shape.x, kx, self.chunk_shape_mask.x);
            lemma_axis(emax.y, self.chunk_shape.y, ky, self.chunk_shape_mask.y);
            lemma_axis(emax.z, self.chunk_shape.z, kz, self.chunk_shape_mask.z);
            lemma_div_is_ordered(e.minimum.x as int, emax.x as int, self.chunk_shape.x as int);
            lemma_div_is_ordered(e.minimum.y as int, emax.y as int, self.chunk_shape.y as int);
            lemma_div_is_ordered(e.minimum.z as int, emax.z as int, self.chunk_shape.z as int);
            lemma_axis_shr_below_max(e.minimum.x, emax.x, self.chunk_shape.x, kx);
            lemma_axis_shr_below_max(e.minimum.y, emax.y, self.chunk_shape.y, ky);
            lemma_axis_shr_below_max(e.minimum.z, emax.z, self.chunk_shape.z, kz);
        }
        let qmin = Point3i {
            x: e.minimum.x >> (kx as u32),
            y: e.minimum.y >> (ky as u32),
            z: e.minimum.z >> (kz as u32),
        };
        let qmax = Point3i { x: emax.x >> (kx as u32), y: emax.y >> (ky as u32), z: emax.z >> (kz as u32) };
        let key_extent = Extent3i::from_min_and_max(qmin, qmax);
        proof {
            assert(key_extent == self.spec_key_extent(e));
        }
        let qs = key_extent.points();
        let mut r: Vec<Point3i> = Vec::new();
        let mut i: usize = 0;
        let n: usize = qs.len();
        while i < n
            invariant
                0 <= i <= n,
                n == qs@.len(),
                qs@ == key_extent.points_seq(),
                r@.len() == i,
                forall|j: int| 0 <= j < i ==> r@[j] == self.spec_scaled(qs@[j]),
                self.wf(),
                key_extent.wf(),
                key_extent.spec_nonempty(),
                key_extent == self.spec_key_extent(e),
                e.wf(),
                e.spec_nonempty(),
                emax.x == e.minimum.x + e.shape.x - 1,
                emax.y == e.minimum.y + e.shape.y - 1,
                emax.z == e.minimum.z + e.shape.z - 1,
                kx == self.chunk_shape_log2.x,
                ky == self.chunk_shape_log2.y,
                kz == self.chunk_shape_log2.z,
                self.spec_key_counts_fit(e),
            decreases n - i,
        {
            let q = qs[i];
            proof {
                lemma_axis(e.minimum.x, self.chunk_shape.x, kx, self.chunk_shape_mask.x);
                lemma_axis(e.minimum.y, self.chunk_shape.y, ky, self.chunk_shape_mask.y);
                lemma_axis(e.minimum.z, self.chunk_shape.z, kz, self.chunk_shape_mask.z);
                lemma_axis(emax.x, self.chunk_shape.x, kx, self.chunk_shape_mask.x);
                lemma_axis(emax.y, self.chunk_shape.y, ky, self.chunk_shape_mask.y);
                lemma_axis(emax.z, self.chunk_shape.z, kz, self.chunk_shape_mask.z);
                lemma_div_is_ordered(e.minimum.x as int, emax.x as int, self.chunk_shape.x as int);
                lemma_div_is_ordered(e.minimum.y as int, emax.y as int, self.chunk_shape.y as int);
                lemma_div_is_ordered(e.minimum.z as int, emax.z as int, self.chunk_shape.z as int);
                lemma_axis_shr_below_max(e.minimum.x, emax.x, self.chunk_shape.x, kx);
                lemma_axis_shr_below_max(e.minimum.y, emax.y, self.chunk_shape.y, ky);
                lemma_axis_shr_below_max(e.minimum.z, emax.z, self.chunk_shape.z, kz);
                key_extent.lemma_point_of_index(i as int);
                lemma_axis_scale(q.x, e.minimum.x, emax.x, self.chunk_shape.x, kx, self.chunk_shape_mask.x);
                lemma_axis_scale(q.y, e.minimum.y, emax.y, self.chunk_shape.y, ky, self.chunk_shape_mask.y);
                lemma_axis_scale(q.z, e.minimum.z, emax.z, self.chunk_shape.z, kz, self.chunk_shape_mask.z);
            }
            let key = Point3i { x: q.x << (kx as u32), y: q.y << (ky as u32), z: q.z << (kz as u32) };
            r.push(key);
            i = i + 1;
        }
        proof {
            assert(r@ =~= self.spec_chunk_keys(e));
            self.lemma_chunk_keys_cover(e, r@);
        }
        r
    }

    /// The `spec_chunk_keys` sequence is made of valid keys whose chunks
    /// overlap `e`, and together those chunks cover `e`.
    proof fn lemma_chunk_keys_cover(self, e: Extent3i, keys: Seq<Point3i>)
        requires
            self.wf(),
            e.wf(),
            e.spec_nonempty(),
            self.spec_key_counts_fit(e),
            keys == self.spec_chunk_keys(e),
        ensures
            forall|j: int| 0 <= j < keys.len() ==> self.spec_key_is_valid(#[trigger] keys[j]),
            forall|j: int|
                0 <= j < keys.len() ==> self.spec_chunk_overlaps(#[trigger] keys[j], e),
            forall|p: Point3i|
                e.spec_contains(p) ==> exists|j: int|
                    0 <= j < keys.len() && keys[j] == self.spec_key(p),
    {
        let ke = self.spec_key_extent(e);
        let emaxx = (e.minimum.x + e.shape.x - 1) as i32;
        let emaxy = (e.minimum.y + e.shape.y - 1) as i32;
        let emaxz = (e.minimum.z + e.shape.z - 1) as i32;
        lemma_axis(e.minimum.x, self.chunk_shape.x, self.chunk_shape_log2.x, self.chunk_shape_mask.x);
        lemma_axis(e.minimum.y, self.chunk_shape.y, self.chunk_shape_log2.y, self.chunk_shape_mask.y);
        lemma_axis(e.minimum.z, self.chunk_shape.z, self.chunk_shape_log2.z, self.chunk_shape_mask.z);
        lemma_axis(emaxx, self.chunk_shape.x, self.chunk_shape_log2.x, self.chunk_shape_mask.x);
        lemma_axis(emaxy, self.chunk_shape.y, self.chunk_shape_log2.y, self.chunk_shape_mask.y);
        lemma_axis(emaxz, self.chunk_shape.z, self.chunk_shape_log2.z, self.chunk_shape_mask.z);
        lemma_div_is_ordered(e.minimum.x as int, emaxx as int, self.chunk_shape.x as int);
        lemma_div_is_ordered(e.minimum.y as int, emaxy as int, self.chunk_shape.y as int);
        lemma_div_is_ordered(e.minimum.z as int, emaxz as int, self.chunk_shape.z as int);
        lemma_axis_shr_below_max(e.minimum.x, emaxx, self.chunk_shape.x, self.chunk_shape_log2.x);
        lemma_axis_shr_below_max(e.minimum.y, emaxy, self.chunk_shape.y, self.chunk_shape_log2.y);
        lemma_axis_shr_below_max(e.minimum.z, emaxz, self.chunk_shape.z, self.chunk_shape_log2.z);
        assert(ke.wf() && ke.spec_nonempty());
        assert forall|j: int| 0 <= j < keys.len() implies self.spec_key_is_valid(
            #[trigger] keys[j],
        ) by {
            ke.lemma_point_of_index(j);
            let q = ke.point_of(j);
            lemma_axis_scale(q.x, e.minimum.x, emaxx, self.chunk_shape.x, self.chunk_shape_log2.x, self.chunk_shape_mask.x);
            lemma_axis_scale(q.y, e.minimum.y, emaxy, self.chunk_shape.y, self.chunk_shape_log2.y, self.chunk_shape_mask.y);
            lemma_axis_scale(q.z, e.minimum.z, emaxz, self.chunk_shape.z, self.chunk_shape_log2.z, self.chunk_shape_mask.z);
            assert(keys[j] == self.spec_scaled(q));
            lemma_mod_multiples_basic(q.x as int, self.chunk_shape.x as int);
            lemma_mod_multiples_basic(q.y as int, self.chunk_shape.y as int);
            lemma_mod_multiples_basic(q.z as int, self.chunk_shape.z as int);
        }
        assert forall|j: int| 0 <= j < keys.len() implies self.spec_chunk_overlaps(
            #[trigger] keys[j],
            e,
        ) by {
            ke.lemma_point_of_index(j);
            let q = ke.point_of(j);
            lemma_axis_scale(q.x, e.minimum.x, emaxx, self.chunk_shape.x, self.chunk_shape_log2.x, self.chunk_shape_mask.x);
            lemma_axis_scale(q.y, e.minimum.y, emaxy, self.chunk_shape.y, self.chunk_shape_log2.y, self.chunk_shape_mask.y);
            lemma_axis_scale(q.z, e.minimum.z, emaxz, self.chunk_shape.z, self.chunk_shape_log2.z, self.chunk_shape_mask.z);
            let key = self.spec_scaled(q);
            assert(keys[j] == key);
            assert(key.x as int == q.x as int * self.chunk_shape.x as int);
            assert(key.y as int == q.y as int * self.chunk_shape.y as int);
            assert(key.z as int == q.z as int * self.chunk_shape.z as int);
            lemma_mod_multiples_basic(q.x as int, self.chunk_shape.x as int);
            lemma_mod_multiples_basic(q.y as int, self.chunk_shape.y as int);
            lemma_mod_multiples_basic(q.z as int, self.chunk_shape.z as int);
            let w = Point3i {
                x: if key.x >= e.minimum.x { key.x } else { e.minimum.x },
                y: if key.y >= e.minimum.y { key.y } else { e.minimum.y },
                z: if key.z >= e.minimum.z { key.z } else { e.minimum.z },
            };
            assert(self.spec_chunk_extent(keys[j]).spec_contains(w));
            assert(e.spec_contains(w));
        }
        assert forall|p: Point3i| e.spec_contains(p) implies exists|j: int|
            0 <= j < keys.len() && keys[j] == self.spec_key(p) by {
            lemma_axis(p.x, self.chunk_shape.x, self.chunk_shape_log2.x, self.chunk_shape_mask.x);
            lemma_axis(p.y, self.chunk_shape.y, self.chunk_shape_log2.y, self.chunk_shape_mask.y);
            lemma_axis(p.z, self.chunk_shape.z, self.chunk_shape_log2.z, self.chunk_shape_mask.z);
            lemma_div_is_ordered(e.minimum.x as int, p.x as int, self.chunk_shape.x as int);
            lemma_div_is_ordered(e.minimum.y as int, p.y as int, self.chunk_shape.y as int);
            lemma_div_is_ordered(e.minimum.z as int, p.z as int, self.chunk_shape.z as int);
            lemma_div_is_ordered(p.x as int, emaxx as int, self.chunk_shape.x as int);
            lemma_div_is_ordered(p.y as int, emaxy as int, self.chunk_shape.y as int);
            lemma_div_is_ordered(p.z as int, emaxz as int, self.chunk_shape.z as int);
            let q = Point3i {
                x: axis_quot(p.x, self.chunk_shape.x) as i32,
                y: axis_quot(p.y, self.chunk_shape.y) as i32,
                z: axis_quot(p.z, self.chunk_shape.z) as i32,
            };
            assert(ke.spec_contains(q));
            ke.lemma_index_of_point(q);
            let j = ke.index_of(q);
            lemma_axis_scale(q.x, e.minimum.x, emaxx, self.chunk_shape.x, self.chunk_shape_log2.x, self.chunk_shape_mask.x);
            lemma_axis_scale(q.y, e.minimum.y, emaxy, self.chunk_shape.y, self.chunk_shape_log2.y, self.chunk_shape_mask.y);
            lemma_axis_scale(q.z, e.minimum.z, emaxz, self.chunk_shape.z, self.chunk_shape_log2.z, self.chunk_shape_mask.z);
            assert(keys[j] == self.spec_scaled(q));
            lemma_fundamental_div_mod(p.x as int, self.chunk_shape.x as int);
            lemma_fundamental_div_mod(p.y as int, self.chunk_shape.y as int);
            lemma_fundamental_div_mod(p.z as int, self.chunk_shape.z as int);
            assert(q.x as int == p.x as int / self.chunk_shape.x as int);
            assert(q.y as int == p.y as int / self.chunk_shape.y as int);
            assert(q.z as int == p.z as int / self.chunk_shape.z as int);
            assert(q.x as int * self.chunk_shape.x as int == p.x as int - p.x as int
                % self.chunk_shape.x as int);
            assert(q.y as int * self.chunk_shape.y as int == p.y as int - p.y as int
                % self.chunk_shape.y as int);
            assert(q.z as int * self.chunk_shape.z as int == p.z as int - p.z as int
                % self.chunk_shape.z as int);
            assert(self.spec_scaled(q) == self.spec_key(p));
        }
    }

    /// The extent spanned by the chunk at `key`.
    pub fn extent_for_chunk_at_key(&self, key: Point3i) -> (r: Extent3i)
        requires
            self.wf(),
            self.spec_key_in_range(key),
        ensures
            r == self.spec_chunk_extent(key),
            r.wf(),
            r.spec_nonempty(),
    {
        proof {
            lemma_axis(key.x, self.chunk_shape.x, self.chunk_shape_log2.x, self.chunk_shape_mask.x);
            lemma_axis(key.y, self.chunk_shape.y, self.chunk_shape_log2.y, self.chunk_shape_mask.y);
            lemma_axis(key.z, self.chunk_shape.z, self.chunk_shape_log2.z, self.chunk_shape_mask.z);
        }
        Extent3i::from_min_and_shape(key, self.chunk_shape)
    }
}

/// Floor division of one axis by the chunk size on that axis.
pub open spec fn axis_quot(p: i32, s: i32) -> int {
    p as int / s as int
}

impl ChunkIndexer {
    /// The extent, in chunk-key space divided by the chunk shape, spanned by
    /// the chunks that overlap `e`; meaningful for nonempty `e`.
    pub open spec fn spec_key_extent(self, e: Extent3i) -> Extent3i {
        let qminx = axis_quot(e.minimum.x, self.chunk_shape.x);
        let qminy = axis_quot(e.minimum.y, self.chunk_shape.y);
        let qminz = axis_quot(e.minimum.z, self.chunk_shape.z);
        let qmaxx = axis_quot((e.minimum.x + e.shape.x - 1) as i32, self.chunk_shape.x);
        let qmaxy = axis_quot((e.minimum.y + e.shape.y - 1) as i32, self.chunk_shape.y);
        let qmaxz = axis_quot((e.minimum.z + e.shape.z - 1) as i32, self.chunk_shape.z);
        Extent3i {
            minimum: Point3i { x: qminx as i32, y: qminy as i32, z: qminz as i32 },
            shape: Point3i {
                x: (qmaxx - qminx + 1) as i32,
                y: (qmaxy - qminy + 1) as i32,
                z: (qmaxz - qminz + 1) as i32,
            },
        }
    }

    /// Each chunk-space axis count stays in `i32` range.
    pub open spec fn spec_key_counts_fit(self, e: Extent3i) -> bool {
        &&& axis_quot((e.minimum.x + e.shape.x - 1) as i32, self.chunk_shape.x) - axis_quot(
            e.minimum.x,
            self.chunk_shape.x,
        ) < i32::MAX
        &&& axis_quot((e.minimum.y + e.shape.y - 1) as i32, self.chunk_shape.y) - axis_quot(
            e.minimum.y,
            self.chunk_shape.y,
        ) < i32::MAX
        &&& axis_quot((e.minimum.z + e.shape.z - 1) as i32, self.chunk_shape.z) - axis_quot(
            e.minimum.z,
            self.chunk_shape.z,
        ) < i32::MAX
    }

    /// A chunk-space point scaled back to a chunk key.
    pub open spec fn spec_scaled(self, q: Point3i) -> Point3i {
        Point3i {
            x: (q.x as int * self.chunk_shape.x as int) as i32,
            y: (q.y as int * self.chunk_shape.y as int) as i32,
            z: (q.z as int * self.chunk_shape.z as int) as i32,
        }
    }

    /// The keys of all chunks that overlap a nonempty `e`, in the row-major
    /// order of the chunk-space extent.
    pub open spec fn spec_chunk_keys(self, e: Extent3i) -> Seq<Point3i> {
        self.spec_key_extent(e).points_seq().map_values(|q: Point3i| self.spec_scaled(q))
    }
}

proof fn lemma_shifted_one_is_positive(s: i32, k: i32)
    requires
        0 <= k <= 30,
        s == 1i32 << (k as u32),
    ensures
        1 <= s,
{
    assert(1 <= s) by (bit_vector)
        requires
            0 <= k <= 30,
            s == 1i32 << (k as u32),
    ;
}

/// Finds the exponent of a power of two by scanning the 31 candidates.
fn log2_of_power_of_two(s: i32) -> (k: i32)
    requires
        is_power_of_two(s),
    ensures
        0 <= k <= 30,
        s == 1i32 << (k as u32),
{
    let mut k: i32 = 0;
    while k < 31
        invariant
            0 <= k <= 31,
            is_power_of_two(s),
            forall|j: i32| 0 <= j < k ==> s != #[trigger] (1i32 << (j as u32)),
        decreases 31 - k,
    {
        if s == 1i32 << (k as u32) {
            return k;
        }
        k = k + 1;
    }
    proof {
        let j = choose|j: i32| 0 <= j <= 30 && s == #[trigger] (1i32 << (j as u32));
        assert(false);
    }
    0
}

} // verus!

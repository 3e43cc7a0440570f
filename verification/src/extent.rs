use vstd::prelude::*;
use vstd::arithmetic::div_mod::{
    lemma_fundamental_div_mod, lemma_fundamental_div_mod_converse, lemma_div_denominator,
    lemma_mod_division_less_than_divisor, lemma_div_pos_is_pos, lemma_multiply_divide_lt,
};
use crate::point::Point3i;

verus! {

/// An axis-aligned box of lattice points, given by its minimum corner and its
/// size on each axis.  A point `p` lies in the extent when
/// `minimum <= p < minimum + shape` holds on every axis.
#[derive(Clone, Copy, PartialEq, Eq, Structural, Debug)]
pub struct Extent3i {
    pub minimum: Point3i,
    pub shape: Point3i,
}

impl Extent3i {
    /// The shape is non-negative and the exclusive upper corner fits in `i32`.
    pub open spec fn wf(self) -> bool {
        &&& 0 <= self.shape.x && self.minimum.x + self.shape.x <= i32::MAX
        &&& 0 <= self.shape.y && self.minimum.y + self.shape.y <= i32::MAX
        &&& 0 <= self.shape.z && self.minimum.z + self.shape.z <= i32::MAX
    }

    pub open spec fn spec_contains(self, p: Point3i) -> bool {
        &&& self.minimum.x <= p.x < self.minimum.x + self.shape.x
        &&& self.minimum.y <= p.y < self.minimum.y + self.shape.y
        &&& self.minimum.z <= p.z < self.minimum.z + self.shape.z
    }

    /// The number of lattice points in the extent.
    pub open spec fn volume(self) -> int {
        self.shape.x * self.shape.y * self.shape.z
    }

    pub open spec fn spec_nonempty(self) -> bool {
        self.shape.x >= 1 && self.shape.y >= 1 && self.shape.z >= 1
    }

    /// Row-major position of `p` within the extent: `x` varies fastest.
    pub open spec fn index_of(self, p: Point3i) -> int {
        (p.x - self.minimum.x) + self.shape.x * ((p.y - self.minimum.y) + self.shape.y * (p.z
            - self.minimum.z))
    }

    /// The point at row-major position `i`; inverse of `index_of`.
    pub open spec fn point_of(self, i: int) -> Point3i {
        Point3i {
            x: (self.minimum.x + i % (self.shape.x as int)) as i32,
            y: (self.minimum.y + (i / (self.shape.x as int)) % (self.shape.y as int)) as i32,
            z: (self.minimum.z + i / (self.shape.x as int * self.shape.y as int)) as i32,
        }
    }

    /// All points of the extent, in row-major order.
    pub open spec fn points_seq(self) -> Seq<Point3i> {
        Seq::new(self.volume() as nat, |i: int| self.point_of(i))
    }

    pub fn from_min_and_shape(minimum: Point3i, shape: Point3i) -> (r: Self)
        requires
            0 <= shape.x && minimum.x + shape.x <= i32::MAX,
            0 <= shape.y && minimum.y + shape.y <= i32::MAX,
            0 <= shape.z && minimum.z + shape.z <= i32::MAX,
        ensures
            r == (Extent3i { minimum, shape }),
            r.wf(),
    {
        Extent3i { minimum, shape }
    }

    /// The extent whose corners are `minimum` and `mx`, both inclusive.
    pub fn from_min_and_max(minimum: Point3i, mx: Point3i) -> (r: Self)
        requires
            minimum.x <= mx.x < i32::MAX,
            minimum.y <= mx.y < i32::MAX,
            minimum.z <= mx.z < i32::MAX,
            mx.x - minimum.x < i32::MAX,
            mx.y - minimum.y < i32::MAX,
            mx.z - minimum.z < i32::MAX,
        ensures
            r.minimum == minimum,
            r.shape.x == mx.x - minimum.x + 1,
            r.shape.y == mx.y - minimum.y + 1,
            r.shape.z == mx.z - minimum.z + 1,
            r.wf(),
            r.spec_nonempty(),
    {
        Extent3i {
            minimum,
            shape: Point3i {
                x: mx.x - minimum.x + 1,
                y: mx.y - minimum.y + 1,
                z: mx.z - minimum.z + 1,
            },
        }
    }

    /// The maximum (inclusive) corner.
    pub fn max(&self) -> (r: Point3i)
        requires
            self.wf(),
            self.spec_nonempty(),
        ensures
            r.x == self.minimum.x + self.shape.x - 1,
            r.y == self.minimum.y + self.shape.y - 1,
            r.z == self.minimum.z + self.shape.z - 1,
    {
        Point3i {
            x: self.minimum.x + self.shape.x - 1,
            y: self.minimum.y + self.shape.y - 1,
            z: self.minimum.z + self.shape.z - 1,
        }
    }

    pub fn contains(&self, p: Point3i) -> (r: bool)
        requires
            self.wf(),
        ensures
            r == self.spec_contains(p),
    {
        self.minimum.x <= p.x && p.x < self.minimum.x + self.shape.x && self.minimum.y <= p.y
            && p.y < self.minimum.y + self.shape.y && self.minimum.z <= p.z && p.z < self.minimum.z
            + self.shape.z
    }

    /// The largest extent contained in both `self` and `other`.
    pub fn intersection(&self, other: &Extent3i) -> (r: Extent3i)
        requires
            self.wf(),
            other.wf(),
        ensures
            r.wf(),
            forall|p: Point3i|
                r.spec_contains(p) <==> (self.spec_contains(p) && other.spec_contains(p)),
    {
        let lox: i32 = if self.minimum.x >= other.minimum.x {
            self.minimum.x
        } else {
            other.minimum.x
        };
        let loy: i32 = if self.minimum.y >= other.minimum.y {
            self.minimum.y
        } else {
            other.minimum.y
        };
        let loz: i32 = if self.minimum.z >= other.minimum.z {
            self.minimum.z
        } else {
            other.minimum.z
        };
        let endx: i32 = {
            let a: i32 = self.minimum.x + self.shape.x;
            let b: i32 = other.minimum.x + other.shape.x;
            if a <= b {
                a
            } else {
                b
            }
        };
        let endy: i32 = {
            let a: i32 = self.minimum.y + self.shape.y;
            let b: i32 = other.minimum.y + other.shape.y;
            if a <= b {
                a
            } else {
                b
            }
        };
        let endz: i32 = {
            let a: i32 = self.minimum.z + self.shape.z;
            let b: i32 = other.minimum.z + other.shape.z;
            if a <= b {
                a
            } else {
                b
            }
        };
        let shx: i32 = if endx > lox {
            endx - lox
        } else {
            0
        };
        let shy: i32 = if endy > loy {
            endy - loy
        } else {
            0
        };
        let shz: i32 = if endz > loz {
            endz - loz
        } else {
            0
        };
        Extent3i { minimum: Point3i { x: lox, y: loy, z: loz }, shape: Point3i { x: shx, y: shy, z: shz } }
    }

    pub fn num_points(&self) -> (r: usize)
        requires
            self.wf(),
            self.volume() <= usize::MAX,
        ensures
            r == self.volume(),
    {
        if self.shape.x == 0 || self.shape.y == 0 || self.shape.z == 0 {
            assert(self.volume() == 0) by (nonlinear_arith)
                requires
                    self.volume() == self.shape.x * self.shape.y * self.shape.z,
                    self.shape.x == 0 || self.shape.y == 0 || self.shape.z == 0,
            ;
            return 0;
        }
        let sx: usize = self.shape.x as usize;
        let sy: usize = self.shape.y as usize;
        let sz: usize = self.shape.z as usize;
        assert(sx * sy <= sx * sy * sz && sx * sy * sz == self.volume()) by (nonlinear_arith)
            requires
                sx == self.shape.x,
                sy == self.shape.y,
                sz == self.shape.z,
                1 <= sx,
                1 <= sy,
                1 <= sz,
        ;
        let a: usize = sx * sy;
        a * sz
    }

    /// Every point of the extent, in row-major order (`x` fastest).
    pub fn points(&self) -> (r: Vec<Point3i>)
        requires
            self.wf(),
            self.volume() <= usize::MAX,
        ensures
            r@ == self.points_seq(),
            r@.len() == self.volume(),
    {
        let n: usize = self.num_points();
        let mut r: Vec<Point3i> = Vec::new();
        let mut i: usize = 0;
        if n == 0 {
            assert(r@ =~= self.points_seq());
            return r;
        }
        assert(self.spec_nonempty()) by (nonlinear_arith)
            requires
                self.volume() == n,
                n >= 1,
                0 <= self.shape.x,
                0 <= self.shape.y,
                0 <= self.shape.z,
                self.volume() == self.shape.x * self.shape.y * self.shape.z,
        ;
        let sx: usize = self.shape.x as usize;
        let sy: usize = self.shape.y as usize;
        let sz: usize = self.shape.z as usize;
        assert(sx * sy <= n && sy >= 1 && sx >= 1) by (nonlinear_arith)
            requires
                sx == self.shape.x,
                sy == self.shape.y,
                sz == self.shape.z,
                1 <= sx,
                1 <= sy,
                1 <= sz,
                sx * sy * sz == n,
        ;
        let plane: usize = sx * sy;
        while i < n
            invariant
                0 <= i <= n,
                r@.len() == i,
                forall|j: int| 0 <= j < i ==> r@[j] == self.point_of(j),
                self.wf(),
                self.spec_nonempty(),
                n == self.volume(),
                sx == self.shape.x,
                sy == self.shape.y,
                sz == self.shape.z,
                plane == sx * sy,
            decreases n - i,
        {
            let dx: usize = i % sx;
            let dy: usize = (i / sx) % sy;
            let dz: usize = i / plane;
            proof {
                lemma_mod_division_less_than_divisor(i as int, sx as int);
                lemma_mod_division_less_than_divisor(i as int / (sx as int), sy as int);
                lemma_div_pos_is_pos(i as int, sx as int);
                lemma_div_pos_is_pos(i as int, plane as int);
                lemma_multiply_divide_lt(i as int, plane as int, sz as int);
                lemma_div_denominator(i as int, sx as int, sy as int);
            }
            let p = Point3i {
                x: self.minimum.x + dx as i32,
                y: self.minimum.y + dy as i32,
                z: self.minimum.z + dz as i32,
            };
            assert(p == self.point_of(i as int));
            r.push(p);
            i = i + 1;
        }
        assert(r@ =~= self.points_seq());
        r
    }

    /// `index_of` maps the points of a well-formed extent into `[0, volume)`,
    /// and `point_of` undoes it.
    pub proof fn lemma_index_of_point(self, p: Point3i)
        requires
            self.wf(),
            self.spec_contains(p),
        ensures
            0 <= self.index_of(p) < self.volume(),
            self.point_of(self.index_of(p)) == p,
    {
        let sx = self.shape.x as int;
        let sy = self.shape.y as int;
        let sz = self.shape.z as int;
        let dx = p.x - self.minimum.x;
        let dy = p.y - self.minimum.y;
        let dz = p.z - self.minimum.z;
        let m = dy + sy * dz;
        let i = dx + sx * m;
        assert(0 <= m < sy * sz && 0 <= i < sx * (sy * sz)) by (nonlinear_arith)
            requires
                0 <= dx < sx,
                0 <= dy < sy,
                0 <= dz < sz,
                m == dy + sy * dz,
                i == dx + sx * m,
        ;
        assert(sx * (sy * sz) == self.volume()) by (nonlinear_arith)
            requires
                sx == self.shape.x,
                sy == self.shape.y,
                sz == self.shape.z,
        ;
        assert(i == m * sx + dx && m == dz * sy + dy) by (nonlinear_arith)
            requires
                m == dy + sy * dz,
                i == dx + sx * m,
        ;
        lemma_fundamental_div_mod_converse(i, sx, m, dx);
        lemma_fundamental_div_mod_converse(m, sy, dz, dy);
        lemma_div_denominator(i, sx, sy);
        assert(i % sx == dx && i / sx == m);
        assert((i / sx) % sy == dy && (i / sx) / sy == dz);
        assert(i / (sx * sy) == dz);
    }

    /// Every row-major position names a point of the extent.
    pub proof fn lemma_point_of_index(self, i: int)
        requires
            self.wf(),
            0 <= i < self.volume(),
        ensures
            self.spec_contains(self.point_of(i)),
            self.index_of(self.point_of(i)) == i,
    {
        let sx = self.shape.x as int;
        let sy = self.shape.y as int;
        let sz = self.shape.z as int;
        assert(sx >= 1 && sy >= 1 && sz >= 1) by (nonlinear_arith)
            requires
                0 <= sx,
                0 <= sy,
                0 <= sz,
                0 <= i < sx * sy * sz,
        ;
        lemma_mod_division_less_than_divisor(i, sx);
        lemma_div_pos_is_pos(i, sx);
        lemma_mod_division_less_than_divisor(i / sx, sy);
        assert(sx * sy >= 1 && (sx * sy) * sz == sx * sy * sz) by (nonlinear_arith)
            requires
                sx >= 1,
                sy >= 1,
        ;
        lemma_div_pos_is_pos(i, sx * sy);
        lemma_multiply_divide_lt(i, sx * sy, sz);
        lemma_div_denominator(i, sx, sy);
        let dx = i % sx;
        let dy = (i / sx) % sy;
        let dz = i / (sx * sy);
        assert(self.point_of(i).x == self.minimum.x + dx);
        assert(self.point_of(i).y == self.minimum.y + dy);
        assert(self.point_of(i).z == self.minimum.z + dz);
        lemma_fundamental_div_mod(i, sx);
        lemma_fundamental_div_mod(i / sx, sy);
        assert(i == dx + sx * (dy + sy * dz)) by (nonlinear_arith)
            requires
                i == sx * (i / sx) + dx,
                i / sx == sy * ((i / sx) / sy) + dy,
                dz == (i / sx) / sy,
        ;
    }
}

} // verus!

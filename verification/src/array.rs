use vstd::prelude::*;
use crate::point::Point3i;
use crate::extent::Extent3i;

verus! {

/// A dense, single-channel block of values occupying exactly one extent.
/// Values are stored in row-major order, `x` varying fastest.
pub struct Array3x1<T> {
    pub extent: Extent3i,
    pub values: Vec<T>,
}

/// Row-major position of `p` within `extent`, as an index into the backing
/// vector.
pub fn index_in_extent(extent: &Extent3i, p: Point3i) -> (r: usize)
    requires
        extent.wf(),
        extent.spec_contains(p),
        extent.volume() <= usize::MAX,
    ensures
        r == extent.index_of(p),
        r < extent.volume(),
{
    proof {
        extent.lemma_index_of_point(p);
    }
    let dx: usize = (p.x - extent.minimum.x) as usize;
    let dy: usize = (p.y - extent.minimum.y) as usize;
    let dz: usize = (p.z - extent.minimum.z) as usize;
    let sx: usize = extent.shape.x as usize;
    let sy: usize = extent.shape.y as usize;
    proof {
        let m = dy + sy * dz;
        let idx = extent.index_of(p);
        assert(sy * dz <= m && m >= 0 && m <= sx * m && sx * m <= idx && idx == dx + sx * m)
            by (nonlinear_arith)
            requires
                0 <= dy,
                0 <= dz,
                0 <= dx,
                1 <= sx,
                1 <= sy,
                m == dy + sy * dz,
                idx == dx + sx * m,
        ;
    }
    dx + sx * (dy + sy * dz)
}

impl<T: Copy> Array3x1<T> {
    /// The backing vector holds exactly one value for each point of a
    /// well-formed extent.
    pub open spec fn wf(self) -> bool {
        &&& self.extent.wf()
        &&& self.extent.volume() <= usize::MAX
        &&& self.values@.len() == self.extent.volume()
    }

    /// The value stored for the point `p` of the extent.
    pub open spec fn value_at(self, p: Point3i) -> T {
        self.values@[self.extent.index_of(p)]
    }

    /// Creates an array over `extent` holding `value` at every point.
    pub fn fill(extent: Extent3i, value: T) -> (r: Self)
        requires
            extent.wf(),
            extent.volume() <= usize::MAX,
        ensures
            r.wf(),
            r.extent == extent,
            forall|i: int| 0 <= i < r.values@.len() ==> r.values@[i] == value,
            forall|p: Point3i| extent.spec_contains(p) ==> r.value_at(p) == value,
    {
        let n: usize = extent.num_points();
        let mut values: Vec<T> = Vec::new();
        let mut i: usize = 0;
        while i < n
            invariant
                0 <= i <= n,
                values@.len() == i,
                forall|j: int| 0 <= j < i ==> values@[j] == value,
            decreases n - i,
        {
            values.push(value);
            i = i + 1;
        }
        let r = Array3x1 { extent, values };
        proof {
            assert forall|p: Point3i| extent.spec_contains(p) implies r.value_at(p) == value by {
                extent.lemma_index_of_point(p);
            }
        }
        r
    }

    /// Creates an array over `extent` from a vector already in row-major
    /// order.
    pub fn new(extent: Extent3i, values: Vec<T>) -> (r: Self)
        requires
            extent.wf(),
            extent.volume() <= usize::MAX,
            values@.len() == extent.volume(),
        ensures
            r.wf(),
            r.extent == extent,
            r.values == values,
    {
        Array3x1 { extent, values }
    }

    pub fn extent(&self) -> (r: Extent3i)
        ensures
            r == self.extent,
    {
        self.extent
    }

    /// Reads the value at a point of the extent.
    pub fn get(&self, p: Point3i) -> (r: T)
        requires
            self.wf(),
            self.extent.spec_contains(p),
        ensures
            r == self.value_at(p),
    {
        let i = index_in_extent(&self.extent, p);
        self.values[i]
    }

    /// Writes the value at a point of the extent.
    pub fn set(&mut self, p: Point3i, value: T)
        requires
            old(self).wf(),
            old(self).extent.spec_contains(p),
        ensures
            final(self).wf(),
            final(self).extent == old(self).extent,
            final(self).value_at(p) == value,
            forall|q: Point3i|
                old(self).extent.spec_contains(q) && q != p ==> final(self).value_at(q) == old(
                    self,
                ).value_at(q),
            final(self).values@ == old(self).values@.update(old(self).extent.index_of(p), value),
    {
        let i = index_in_extent(&self.extent, p);
        self.values.set(i, value);
        proof {
            self.extent.lemma_index_of_point(p);
            assert forall|q: Point3i|
                old(self).extent.spec_contains(q) && q != p implies self.value_at(q) == old(
                self,
            ).value_at(q) by {
                self.extent.lemma_index_of_point(q);
                if self.extent.index_of(q) == self.extent.index_of(p) {
                    assert(self.extent.point_of(self.extent.index_of(q)) == q);
                    assert(self.extent.point_of(self.extent.index_of(p)) == p);
                }
            }
        }
    }

    /// Borrow the value at a point of the extent.
    pub fn get_ref(&self, p: Point3i) -> (r: &T)
        requires
            self.wf(),
            self.extent.spec_contains(p),
        ensures
            *r == self.value_at(p),
    {
        let i = index_in_extent(&self.extent, p);
        &self.values[i]
    }

    /// Mutably borrow the value at a point of the extent.
    pub fn get_mut(&mut self, p: Point3i) -> (r: &mut T)
        requires
            old(self).wf(),
            old(self).extent.spec_contains(p),
        ensures
            *r == old(self).value_at(p),
            final(self).wf(),
            final(self).extent == old(self).extent,
            final(self).values@ == old(self).values@.update(
                old(self).extent.index_of(p),
                *final(r),
            ),
            final(self).value_at(p) == *final(r),
            forall|q: Point3i|
                old(self).extent.spec_contains(q) && q != p ==> final(self).value_at(q) == old(
                    self,
                ).value_at(q),
    {
        proof {
            self.extent.lemma_index_of_point(p);
            assert forall|q: Point3i|
                self.extent.spec_contains(q) && q != p implies 0 <= #[trigger] self.extent.index_of(
                q,
            ) < self.values@.len() && self.extent.index_of(q) != self.extent.index_of(p) by {
                self.extent.lemma_index_of_point(q);
                if self.extent.index_of(q) == self.extent.index_of(p) {
                    assert(self.extent.point_of(self.extent.index_of(q)) == q);
                    assert(self.extent.point_of(self.extent.index_of(p)) == p);
                }
            }
        }
        let i = index_in_extent(&self.extent, p);
        &mut self.values[i]
    }

    /// A copy of the array; the element type is plain data.
    pub fn duplicate(&self) -> (r: Self)
        requires
            self.wf(),
        ensures
            r.wf(),
            r.extent == self.extent,
            r.values@ == self.values@,
    {
        let mut values: Vec<T> = Vec::new();
        let n: usize = self.values.len();
        let mut i: usize = 0;
        while i < n
            invariant
                0 <= i <= n,
                n == self.values@.len(),
                values@.len() == i,
                forall|j: int| 0 <= j < i ==> values@[j] == self.values@[j],
            decreases n - i,
        {
            values.push(self.values[i]);
            i = i + 1;
        }
        proof {
            assert(values@ =~= self.values@);
        }
        Array3x1 { extent: self.extent, values }
    }
}

} // verus!

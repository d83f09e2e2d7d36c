//! Points, the capabilities a shape offers (its representative points, and
//! a test of whether it contains a point), and the collision relation built
//! on them.

use vstd::prelude::*;

verus! {

/// A point of the plane.
pub type Point = (i64, i64);

/// The representative points of a shape, handed out one at a time.
pub struct PointsIter {
    points: Vec<Point>,
    idx: usize,
}

impl View for PointsIter {
    type V = Seq<Point>;

    /// The points not handed out yet.
    closed spec fn view(&self) -> Seq<Point> {
        self.points@.skip(self.idx as int)
    }
}

impl PointsIter {
    #[verifier::type_invariant]
    spec fn inv(&self) -> bool {
        self.idx <= self.points@.len()
    }

    /// Starts handing out `points`, first to last.
    pub fn from(points: Vec<Point>) -> (r: PointsIter)
        ensures
            r@ == points@,
    {
        let r = PointsIter { points, idx: 0 };
        assert(r@ =~= r.points@);
        r
    }

    /// The next point, or `None` once all have been handed out.
    pub fn next(&mut self) -> (r: Option<Point>)
        ensures
            old(self)@.len() == 0 ==> r is None && final(self)@ == old(self)@,
            old(self)@.len() > 0 ==> r == Some(old(self)@[0]) && final(self)@
                == old(self)@.drop_first(),
    {
        proof {
            use_type_invariant(&*self);
        }
        if self.idx < self.points.len() {
            let p = self.points[self.idx];
            let ghost before = self@;
            self.idx = self.idx + 1;
            assert(self@ =~= before.drop_first());
            Some(p)
        } else {
            None
        }
    }
}

/// A shape that has a finite sequence of representative points.
pub trait Points {
    spec fn spec_points(&self) -> Seq<Point>;

    fn get_points_iter(&self) -> (r: PointsIter)
        ensures
            r@ == self.spec_points(),
    ;
}

/// A shape that can tell whether a point lies within its bounds.
pub trait Contains {
    spec fn spec_contains(&self, p: Point) -> bool;

    fn contains_point(&self, point: Point) -> (r: bool)
        ensures
            r == self.spec_contains(point),
    ;
}

/// `self` collides with `other` when `self` contains one of the
/// representative points of `other`.  The relation samples only the points
/// of its second operand, so it need not be symmetric.
pub trait Collidable<T> {
    spec fn spec_collide(&self, other: &T) -> bool;

    fn collide(&self, other: &T) -> (r: bool)
        ensures
            r == self.spec_collide(other),
    ;

    /// Whether `self` collides with any of `others`.
    fn collides(&self, others: &[T]) -> (r: bool)
        ensures
            r == exists|i: int| 0 <= i < others@.len() && self.spec_collide(&others@[i]),
    {
        let n = others.len();
        let mut i: usize = 0;
        while i < n
            invariant
                i <= n,
                n == others@.len(),
                forall|j: int| 0 <= j < i ==> !self.spec_collide(&others@[j]),
            decreases n - i,
        {
            if self.collide(&others[i]) {
                return true;
            }
            i = i + 1;
        }
        false
    }
}

/// Whether some point of `pts` lies within `a`.
pub open spec fn contains_any<V: Contains>(a: &V, pts: Seq<Point>) -> bool {
    exists|i: int| 0 <= i < pts.len() && a.spec_contains(pts[i])
}

impl<V: Contains, T: Points> Collidable<T> for V {
    open spec fn spec_collide(&self, other: &T) -> bool {
        contains_any(self, other.spec_points())
    }

    fn collide(&self, other: &T) -> (r: bool) {
        let mut it = other.get_points_iter();
        let ghost all = it@;
        let ghost mut seen: int = 0;
        loop
            invariant
                0 <= seen <= all.len(),
                it@ == all.skip(seen),
                all == other.spec_points(),
                forall|j: int| 0 <= j < seen ==> !self.spec_contains(all[j]),
            decreases all.len() - seen,
        {
            let ghost before = it@;
            match it.next() {
                Some(p) => {
                    assert(all[seen] == p);
                    if self.contains_point(p) {
                        return true;
                    }
                    proof {
                        assert(all.skip(seen + 1) =~= before.drop_first());
                        seen = seen + 1;
                    }
                },
                None => {
                    assert(seen == all.len());
                    return false;
                },
            }
        }
    }
}

} // verus!

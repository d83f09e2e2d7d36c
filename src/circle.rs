//! Circles.

use vstd::prelude::*;
use crate::collisions::{Collidable, Contains, Point, Points, PointsIter};
use crate::error::{ShapeError, ShapeKind};
use crate::text::{chars_of, i32_value, parse_i32, split_fields, split_spaces, fields_view};

verus! {

/// A circle with center `(x, y)`.  The radius is meant to be non-negative,
/// but nothing enforces it; a negative one bounds the same disc as its
/// absolute value.
#[derive(Debug, Clone, Copy, PartialEq, Eq, Structural)]
pub struct Circle {
    pub x: i32,
    pub y: i32,
    pub radius: i32,
}

/// The circle that the fields `x y radius` describe.
pub open spec fn circle_from_fields(f: Seq<Seq<char>>) -> Result<Circle, ShapeError> {
    if f.len() != 3 {
        Err(ShapeError::MalformedShape(ShapeKind::Circle))
    } else if i32_value(f[0]) is Some && i32_value(f[1]) is Some && i32_value(f[2]) is Some {
        Ok(
            Circle {
                x: i32_value(f[0])->0,
                y: i32_value(f[1])->0,
                radius: i32_value(f[2])->0,
            },
        )
    } else {
        Err(ShapeError::InvalidNumber)
    }
}

/// A circle is represented by its center alone.
pub open spec fn circle_center(c: Circle) -> Seq<Point> {
    seq![(c.x as i64, c.y as i64)]
}

/// Whether `p` lies in the closed disc: its squared distance from the
/// center is at most the squared radius.
pub open spec fn circle_contains(c: Circle, p: Point) -> bool {
    let dx = p.0 - c.x;
    let dy = p.1 - c.y;
    dx * dx + dy * dy <= c.radius * c.radius
}

/// A circle contains its own center, whatever its radius, and so collides
/// with itself.
pub proof fn lemma_circle_contains_center(c: Circle)
    ensures
        c.spec_contains((c.x as i64, c.y as i64)),
        c.spec_collide(&c),
{
    let r = c.radius as int;
    let p = (c.x as i64, c.y as i64);
    assert(r * r >= 0) by (nonlinear_arith);
    assert(p.0 - c.x == 0 && p.1 - c.y == 0);
    assert(circle_contains(c, p));
    assert(c.spec_points()[0] == p);
}

impl Circle {
    /// Reads a circle from the fields `x y radius`, separated by single
    /// spaces.
    pub fn from_str(s: &str) -> (r: Result<Circle, ShapeError>)
        ensures
            r == circle_from_fields(split_spaces(s@)),
    {
        let chars = chars_of(s);
        let fields = split_fields(chars.as_slice());
        Circle::from_fields(&fields)
    }

    /// Reads a circle from fields already cut apart.
    pub fn from_fields(fields: &Vec<Vec<char>>) -> (r: Result<Circle, ShapeError>)
        ensures
            r == circle_from_fields(fields_view(fields@)),
    {
        let ghost f = fields_view(fields@);
        if fields.len() != 3 {
            return Err(ShapeError::MalformedShape(ShapeKind::Circle));
        }
        assert(f[0] == fields@[0]@ && f[1] == fields@[1]@ && f[2] == fields@[2]@);
        let x = parse_i32(fields[0].as_slice());
        let y = parse_i32(fields[1].as_slice());
        let radius = parse_i32(fields[2].as_slice());
        match (x, y, radius) {
            (Some(x), Some(y), Some(radius)) => Ok(Circle { x, y, radius }),
            _ => Err(ShapeError::InvalidNumber),
        }
    }
}

impl Points for Circle {
    open spec fn spec_points(&self) -> Seq<Point> {
        circle_center(*self)
    }

    fn get_points_iter(&self) -> (r: PointsIter) {
        let r = PointsIter::from(vec![(self.x as i64, self.y as i64)]);
        assert(r@ =~= circle_center(*self));
        r
    }
}

impl Contains for Circle {
    open spec fn spec_contains(&self, p: Point) -> bool {
        circle_contains(*self, p)
    }

    fn contains_point(&self, point: Point) -> (r: bool) {
        let (px, py) = point;
        let dx = px as i128 - self.x as i128;
        let dy = py as i128 - self.y as i128;
        let reach: i128 = if self.radius < 0 {
            0 - self.radius as i128
        } else {
            self.radius as i128
        };
        // Past the radius along either axis, the point is outside; within it,
        // the squares are small enough to compute.
        if dx > reach || dx < -reach || dy > reach || dy < -reach {
            proof {
                let r = self.radius as int;
                assert(reach * reach == r * r) by (nonlinear_arith)
                    requires
                        reach == r || reach == -r,
                ;
                assert(dx * dx >= 0 && dy * dy >= 0) by (nonlinear_arith);
                if dx > reach || dx < -reach {
                    assert(dx * dx > reach * reach) by (nonlinear_arith)
                        requires
                            dx > reach || dx < -reach,
                            reach >= 0,
                    ;
                } else {
                    assert(dy * dy > reach * reach) by (nonlinear_arith)
                        requires
                            dy > reach || dy < -reach,
                            reach >= 0,
                    ;
                }
            }
            false
        } else {
            proof {
                assert(0 <= reach <= 2147483648);
                assert(0 <= dx * dx <= reach * reach && 0 <= dy * dy <= reach * reach)
                    by (nonlinear_arith)
                    requires
                        -reach <= dx <= reach,
                        -reach <= dy <= reach,
                ;
                assert(reach * reach <= 2147483648 * 2147483648) by (nonlinear_arith)
                    requires
                        0 <= reach <= 2147483648,
                ;
                assert(dx * dx <= 4611686018427387904);
                assert(dy * dy <= 4611686018427387904);
                let r = self.radius as int;
                assert(0 <= r * r <= 4611686018427387904) by (nonlinear_arith)
                    requires
                        -2147483648 <= r <= 2147483647,
                ;
            }
            dx * dx + dy * dy <= self.radius as i128 * self.radius as i128
        }
    }
}

} // verus!

//! Axis-aligned rectangles.

use vstd::prelude::*;
use crate::collisions::{Collidable, Contains, Point, Points, PointsIter};
use crate::error::{ShapeError, ShapeKind};
use crate::text::{chars_of, i32_value, parse_i32, split_fields, split_spaces, fields_view};

verus! {

/// A rectangle with corner `(x, y)`, extending `width` along x and `height`
/// along y.  Width and height are meant to be non-negative, but nothing
/// enforces it.
#[derive(Debug, Clone, Copy, PartialEq, Eq, Structural)]
pub struct Rect {
    pub x: i32,
    pub y: i32,
    pub height: i32,
    pub width: i32,
}

/// The rectangle that the fields `x y height width` describe.
pub open spec fn rect_from_fields(f: Seq<Seq<char>>) -> Result<Rect, ShapeError> {
    if f.len() != 4 {
        Err(ShapeError::MalformedShape(ShapeKind::Rect))
    } else if i32_value(f[0]) is Some && i32_value(f[1]) is Some && i32_value(f[2]) is Some
        && i32_value(f[3]) is Some {
        Ok(
            Rect {
                x: i32_value(f[0])->0,
                y: i32_value(f[1])->0,
                height: i32_value(f[2])->0,
                width: i32_value(f[3])->0,
            },
        )
    } else {
        Err(ShapeError::InvalidNumber)
    }
}

/// The four corners, in this order: `(x, y)`, `(x, y + height)`,
/// `(x + width, y)`, `(x + width, y + height)`.
pub open spec fn rect_corners(r: Rect) -> Seq<Point> {
    let x0 = r.x as i64;
    let y0 = r.y as i64;
    let x1 = (r.x + r.width) as i64;
    let y1 = (r.y + r.height) as i64;
    seq![(x0, y0), (x0, y1), (x1, y0), (x1, y1)]
}

/// Whether `p` lies in the closed rectangle: all four sides are inclusive.
pub open spec fn rect_contains(r: Rect, p: Point) -> bool {
    &&& r.x as int <= p.0 as int <= r.x + r.width
    &&& r.y as int <= p.1 as int <= r.y + r.height
}

/// With a non-negative width and height, a rectangle contains each of its
/// own corners, and so collides with itself.
pub proof fn lemma_rect_contains_own_corners(r: Rect)
    requires
        r.width >= 0,
        r.height >= 0,
    ensures
        forall|i: int| 0 <= i < r.spec_points().len() ==> r.spec_contains(#[trigger] r.spec_points()[i]),
        r.spec_collide(&r),
{
    assert(r.spec_contains(r.spec_points()[0]));
}

impl Rect {
    /// Reads a rectangle from the fields `x y height width`, separated by
    /// single spaces.
    pub fn from_str(s: &str) -> (r: Result<Rect, ShapeError>)
        ensures
            r == rect_from_fields(split_spaces(s@)),
    {
        let chars = chars_of(s);
        let fields = split_fields(chars.as_slice());
        Rect::from_fields(&fields)
    }

    /// Reads a rectangle from fields already cut apart.
    pub fn from_fields(fields: &Vec<Vec<char>>) -> (r: Result<Rect, ShapeError>)
        ensures
            r == rect_from_fields(fields_view(fields@)),
    {
        let ghost f = fields_view(fields@);
        if fields.len() != 4 {
            return Err(ShapeError::MalformedShape(ShapeKind::Rect));
        }
        assert(f[0] == fields@[0]@ && f[1] == fields@[1]@ && f[2] == fields@[2]@ && f[3]
            == fields@[3]@);
        let x = parse_i32(fields[0].as_slice());
        let y = parse_i32(fields[1].as_slice());
        let height = parse_i32(fields[2].as_slice());
        let width = parse_i32(fields[3].as_slice());
        match (x, y, height, width) {
            (Some(x), Some(y), Some(height), Some(width)) => Ok(Rect { x, y, height, width }),
            _ => Err(ShapeError::InvalidNumber),
        }
    }
}

impl Default for Rect {
    fn default() -> (r: Rect)
        ensures
            r == (Rect { x: 0, y: 0, height: 10, width: 30 }),
    {
        Rect { x: 0, y: 0, height: 10, width: 30 }
    }
}

impl Points for Rect {
    open spec fn spec_points(&self) -> Seq<Point> {
        rect_corners(*self)
    }

    fn get_points_iter(&self) -> (r: PointsIter) {
        let x0 = self.x as i64;
        let y0 = self.y as i64;
        let x1 = self.x as i64 + self.width as i64;
        let y1 = self.y as i64 + self.height as i64;
        let r = PointsIter::from(vec![(x0, y0), (x0, y1), (x1, y0), (x1, y1)]);
        assert(r@ =~= rect_corners(*self));
        r
    }
}

impl Contains for Rect {
    open spec fn spec_contains(&self, p: Point) -> bool {
        rect_contains(*self, p)
    }

    fn contains_point(&self, point: Point) -> (r: bool) {
        let (px, py) = point;
        self.x as i64 <= px && px <= self.x as i64 + self.width as i64 && self.y as i64 <= py
            && py <= self.y as i64 + self.height as i64
    }
}

} // verus!

//! The closed set of shapes, and reading one from a line of text.

use vstd::prelude::*;
use crate::circle::{circle_center, circle_from_fields, Circle};
use crate::collisions::{Contains, Point, Points, PointsIter};
use crate::error::ShapeError;
use crate::rect::{rect_corners, rect_from_fields, Rect};
use crate::text::{
    chars_of, fields_view, i32_value, lemma_split_spaces_nonempty, split_fields, split_spaces,
};

verus! {

#[derive(Debug, Clone, Copy, PartialEq, Eq, Structural)]
pub enum Shape {
    Rect(Rect),
    Circle(Circle),
}

/// The shape a line describes: its first field names the kind, the rest
/// hold the numbers (`rect x y height width` or `circle x y radius`).
pub open spec fn shape_from_line(line: Seq<char>) -> Result<Shape, ShapeError> {
    let f = split_spaces(line);
    if f[0] == "rect"@ {
        match rect_from_fields(f.drop_first()) {
            Ok(r) => Ok(Shape::Rect(r)),
            Err(e) => Err(e),
        }
    } else if f[0] == "circle"@ {
        match circle_from_fields(f.drop_first()) {
            Ok(c) => Ok(Shape::Circle(c)),
            Err(e) => Err(e),
        }
    } else {
        Err(ShapeError::UnknownShapeKind)
    }
}

/// The coordinates of each point, as integers.
pub open spec fn coordinates(pts: Seq<Point>) -> Seq<(int, int)> {
    pts.map_values(|p: Point| (p.0 as int, p.1 as int))
}

/// A line that reads as a rectangle `rect x y height width` yields exactly
/// four points, the corners `(x, y)`, `(x, y + height)`, `(x + width, y)` and
/// `(x + width, y + height)`, built from the numbers on the line.
pub proof fn lemma_rect_line_points(line: Seq<char>)
    requires
        split_spaces(line)[0] == "rect"@,
        shape_from_line(line) is Ok,
    ensures
        ({
            let f = split_spaces(line);
            let x = i32_value(f[1])->0 as int;
            let y = i32_value(f[2])->0 as int;
            let h = i32_value(f[3])->0 as int;
            let w = i32_value(f[4])->0 as int;
            &&& f.len() == 5
            &&& shape_from_line(line)->Ok_0 is Rect
            &&& coordinates(shape_from_line(line)->Ok_0.spec_points()) == seq![
                (x, y),
                (x, y + h),
                (x + w, y),
                (x + w, y + h),
            ]
        }),
{
    let f = split_spaces(line);
    lemma_split_spaces_nonempty(line);
    assert(rect_from_fields(f.drop_first()) is Ok);
    assert(f.len() == 5);
    let r = rect_from_fields(f.drop_first())->Ok_0;
    assert(shape_from_line(line)->Ok_0 == Shape::Rect(r));
    assert(f.drop_first()[0] == f[1] && f.drop_first()[1] == f[2] && f.drop_first()[2] == f[3]
        && f.drop_first()[3] == f[4]);
    assert(coordinates(rect_corners(r)) =~= seq![
        (r.x as int, r.y as int),
        (r.x as int, r.y + r.height),
        (r.x + r.width, r.y as int),
        (r.x + r.width, r.y + r.height),
    ]);
}

/// A line that reads as a circle `circle x y radius` yields exactly one
/// point, its center `(x, y)`, built from the numbers on the line.
pub proof fn lemma_circle_line_points(line: Seq<char>)
    requires
        split_spaces(line)[0] == "circle"@,
        shape_from_line(line) is Ok,
    ensures
        ({
            let f = split_spaces(line);
            let x = i32_value(f[1])->0 as int;
            let y = i32_value(f[2])->0 as int;
            &&& f.len() == 4
            &&& shape_from_line(line)->Ok_0 is Circle
            &&& coordinates(shape_from_line(line)->Ok_0.spec_points()) == seq![(x, y)]
        }),
{
    reveal_strlit("rect");
    reveal_strlit("circle");
    assert("circle"@.len() != "rect"@.len());
    let f = split_spaces(line);
    lemma_split_spaces_nonempty(line);
    assert(f[0] != "rect"@);
    assert(circle_from_fields(f.drop_first()) is Ok);
    assert(f.len() == 4);
    let c = circle_from_fields(f.drop_first())->Ok_0;
    assert(shape_from_line(line)->Ok_0 == Shape::Circle(c));
    assert(f.drop_first()[0] == f[1] && f.drop_first()[1] == f[2]);
    assert(coordinates(circle_center(c)) =~= seq![(c.x as int, c.y as int)]);
}

/// Whether `f` spells out `word`.
fn is_word(f: &Vec<char>, word: &str) -> (r: bool)
    ensures
        r == (f@ == word@),
{
    let w = chars_of(word);
    if f.len() != w.len() {
        return false;
    }
    let mut i: usize = 0;
    while i < f.len()
        invariant
            i <= f@.len(),
            f@.len() == w@.len(),
            w@ == word@,
            forall|j: int| 0 <= j < i ==> f@[j] == w@[j],
        decreases f@.len() - i,
    {
        if f[i] != w[i] {
            assert(f@[i as int] != w@[i as int]);
            return false;
        }
        i = i + 1;
    }
    assert(f@ =~= w@);
    true
}

impl Shape {
    /// Reads a shape from a line such as `rect 0 0 10 10` or `circle 5 5 1`.
    pub fn from_str(line: &str) -> (r: Result<Shape, ShapeError>)
        ensures
            r == shape_from_line(line@),
    {
        let chars = chars_of(line);
        let mut fields = split_fields(chars.as_slice());
        proof {
            lemma_split_spaces_nonempty(line@);
        }
        let ghost all = fields_view(fields@);
        let kind = fields.remove(0);
        proof {
            assert(fields_view(fields@) =~= all.drop_first());
        }
        if is_word(&kind, "rect") {
            match Rect::from_fields(&fields) {
                Ok(r) => Ok(Shape::Rect(r)),
                Err(e) => Err(e),
            }
        } else if is_word(&kind, "circle") {
            match Circle::from_fields(&fields) {
                Ok(c) => Ok(Shape::Circle(c)),
                Err(e) => Err(e),
            }
        } else {
            Err(ShapeError::UnknownShapeKind)
        }
    }
}

impl std::str::FromStr for Shape {
    type Err = ShapeError;

    fn from_str(line: &str) -> Result<Shape, ShapeError> {
        Shape::from_str(line)
    }
}

impl Points for Shape {
    open spec fn spec_points(&self) -> Seq<Point> {
        match self {
            Shape::Rect(r) => r.spec_points(),
            Shape::Circle(c) => c.spec_points(),
        }
    }

    fn get_points_iter(&self) -> (r: PointsIter) {
        match self {
            Shape::Rect(r) => r.get_points_iter(),
            Shape::Circle(c) => c.get_points_iter(),
        }
    }
}

impl Contains for Shape {
    open spec fn spec_contains(&self, p: Point) -> bool {
        match self {
            Shape::Rect(r) => r.spec_contains(p),
            Shape::Circle(c) => c.spec_contains(p),
        }
    }

    fn contains_point(&self, point: Point) -> (r: bool) {
        match self {
            Shape::Rect(r) => r.contains_point(point),
            Shape::Circle(c) => c.contains_point(point),
        }
    }
}

} // verus!

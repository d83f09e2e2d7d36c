//! Reading a list of lines into shapes, and checking each adjacent pair for
//! a collision.

use vstd::prelude::*;
use crate::collisions::Collidable;
use crate::error::ShapeError;
use crate::shape::{shape_from_line, Shape};

verus! {

/// The shapes that the lines describe, in order; lines that describe no
/// shape are left out.
pub open spec fn valid_shapes(lines: Seq<Seq<char>>) -> Seq<Shape>
    decreases lines.len(),
{
    if lines.len() == 0 {
        Seq::empty()
    } else {
        let prev = valid_shapes(lines.drop_last());
        match shape_from_line(lines.last()) {
            Ok(s) => prev.push(s),
            Err(_) => prev,
        }
    }
}

/// What each line of a slice holds.
pub open spec fn lines_view(lines: Seq<&str>) -> Seq<Seq<char>> {
    lines.map_values(|l: &str| l@)
}

/// For each adjacent pair `(shapes[i], shapes[i + 1])`, whether the first
/// collides with the second.
pub open spec fn adjacent_collisions_of(shapes: Seq<Shape>) -> Seq<bool> {
    if shapes.len() == 0 {
        Seq::empty()
    } else {
        Seq::new((shapes.len() - 1) as nat, |i: int| shapes[i].spec_collide(&shapes[i + 1]))
    }
}

/// Reading lines one after another reads each part on its own.
pub proof fn lemma_valid_shapes_concat(a: Seq<Seq<char>>, b: Seq<Seq<char>>)
    ensures
        valid_shapes(a + b) == valid_shapes(a) + valid_shapes(b),
    decreases b.len(),
{
    if b.len() == 0 {
        assert(a + b =~= a);
        assert(valid_shapes(a) + valid_shapes(b) =~= valid_shapes(a));
    } else {
        lemma_valid_shapes_concat(a, b.drop_last());
        assert((a + b).drop_last() =~= a + b.drop_last());
        assert((a + b).last() == b.last());
        match shape_from_line(b.last()) {
            Ok(s) => {
                assert(valid_shapes(a) + valid_shapes(b) =~= (valid_shapes(a) + valid_shapes(
                    b.drop_last(),
                )).push(s));
            },
            Err(_) => {},
        }
    }
}

/// A line that describes no shape is dropped, and the lines after it are
/// read as if it were not there.
pub proof fn lemma_failed_line_dropped(
    before: Seq<Seq<char>>,
    bad: Seq<char>,
    after: Seq<Seq<char>>,
)
    requires
        shape_from_line(bad) is Err,
    ensures
        valid_shapes(before + seq![bad] + after) == valid_shapes(before) + valid_shapes(after),
{
    lemma_valid_shapes_concat(before + seq![bad], after);
    lemma_valid_shapes_concat(before, seq![bad]);
    assert(seq![bad].drop_last() =~= Seq::<Seq<char>>::empty());
    assert(seq![bad].last() == bad);
    assert(valid_shapes(Seq::<Seq<char>>::empty()) == Seq::<Shape>::empty());
    assert(valid_shapes(seq![bad]) =~= Seq::<Shape>::empty());
    assert(valid_shapes(before) + Seq::<Shape>::empty() =~= valid_shapes(before));
}

/// Parses each line, keeping the shapes and dropping the lines that fail.
pub fn parse_valid_shapes(lines: &[&str]) -> (r: Vec<Shape>)
    ensures
        r@ == valid_shapes(lines_view(lines@)),
{
    let mut shapes: Vec<Shape> = Vec::new();
    let n = lines.len();
    let mut i: usize = 0;
    proof {
        assert(lines_view(lines@).take(0) =~= Seq::<Seq<char>>::empty());
    }
    while i < n
        invariant
            i <= n,
            n == lines@.len(),
            shapes@ == valid_shapes(lines_view(lines@).take(i as int)),
        decreases n - i,
    {
        let parsed: Result<Shape, ShapeError> = Shape::from_str(lines[i]);
        proof {
            let all = lines_view(lines@);
            assert(all.take(i + 1).drop_last() =~= all.take(i as int));
            assert(all.take(i + 1).last() == lines@[i as int]@);
        }
        match parsed {
            Ok(s) => shapes.push(s),
            Err(_) => {},
        }
        i = i + 1;
    }
    proof {
        assert(lines_view(lines@).take(n as int) =~= lines_view(lines@));
    }
    shapes
}

/// Whether each shape collides with the one after it.
pub fn adjacent_collisions(shapes: &[Shape]) -> (r: Vec<bool>)
    ensures
        r@ == adjacent_collisions_of(shapes@),
{
    let mut r: Vec<bool> = Vec::new();
    let n = shapes.len();
    if n == 0 {
        assert(r@ =~= adjacent_collisions_of(shapes@));
        return r;
    }
    let mut i: usize = 1;
    while i < n
        invariant
            1 <= i <= n,
            n == shapes@.len(),
            r@.len() == i - 1,
            forall|j: int|
                0 <= j < i - 1 ==> r@[j] == shapes@[j].spec_collide(&shapes@[j + 1]),
        decreases n - i,
    {
        let c = shapes[i - 1].collide(&shapes[i]);
        r.push(c);
        i = i + 1;
    }
    assert(r@ =~= adjacent_collisions_of(shapes@));
    r
}

/// Reads the shapes that the lines describe, dropping lines that describe
/// none, and tells for each adjacent pair whether the first collides with
/// the second.
pub fn collision_report(lines: &[&str]) -> (r: Vec<bool>)
    ensures
        r@ == adjacent_collisions_of(valid_shapes(lines_view(lines@))),
{
    let shapes = parse_valid_shapes(lines);
    adjacent_collisions(shapes.as_slice())
}

} // verus!

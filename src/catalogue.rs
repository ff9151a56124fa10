//! The shapes of the puzzle, in canonical pose.

use vstd::prelude::*;
use crate::geometry::Point;
use crate::placement::Dingus;

verus! {

pub open spec fn p(x: i32, y: i32, z: i32) -> Point {
    Point { x, y, z }
}

pub open spec fn shape_l() -> Seq<Point> {
    seq![p(0, 0, 0), p(1, 0, 0), p(2, 0, 0), p(2, 1, 0)]
}

pub open spec fn shape_t() -> Seq<Point> {
    seq![p(0, 0, 0), p(1, 0, 0), p(1, 1, 0), p(2, 0, 0)]
}

pub open spec fn shape_s() -> Seq<Point> {
    seq![p(0, 0, 0), p(1, 0, 0), p(1, 1, 0), p(2, 1, 0)]
}

pub open spec fn shape_r() -> Seq<Point> {
    seq![p(0, 0, 0), p(0, 1, 0), p(1, 1, 0)]
}

fn corner_shape(a: Point, b: Point, c: Point) -> (d: Dingus)
    ensures
        d.points@ == seq![a, b, c],
{
    let mut points: Vec<Point> = Vec::new();
    points.push(a);
    points.push(b);
    points.push(c);
    assert(points@ =~= seq![a, b, c]);
    Dingus { points }
}

fn four_shape(a: Point, b: Point, c: Point, d: Point) -> (r: Dingus)
    ensures
        r.points@ == seq![a, b, c, d],
{
    let mut points: Vec<Point> = Vec::new();
    points.push(a);
    points.push(b);
    points.push(c);
    points.push(d);
    assert(points@ =~= seq![a, b, c, d]);
    Dingus { points }
}

/// The four shapes of the puzzle: the L piece, the T piece, the S piece and
/// the three-cell corner piece, each with its first point at the origin.
pub fn catalogue() -> (r: Vec<Dingus>)
    ensures
        r@.len() == 4,
        r@[0].points@ == shape_l(),
        r@[1].points@ == shape_t(),
        r@[2].points@ == shape_s(),
        r@[3].points@ == shape_r(),
{
    let o = Point { x: 0, y: 0, z: 0 };
    let x1 = Point { x: 1, y: 0, z: 0 };
    let x2 = Point { x: 2, y: 0, z: 0 };
    let y1 = Point { x: 0, y: 1, z: 0 };
    let x1y1 = Point { x: 1, y: 1, z: 0 };
    let x2y1 = Point { x: 2, y: 1, z: 0 };
    let l = four_shape(o, x1, x2, x2y1);
    let t = four_shape(o, x1, x1y1, x2);
    let s = four_shape(o, x1, x1y1, x2y1);
    let c = corner_shape(o, y1, x1y1);
    let mut r: Vec<Dingus> = Vec::new();
    r.push(l);
    r.push(t);
    r.push(s);
    r.push(c);
    r
}

} // verus!

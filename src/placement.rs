//! The 3x3x3 volume, pieces, and the placement of one piece into a volume.

use vstd::prelude::*;
use crate::geometry::{IPoint, Point, orient, rotate_xy, rotate_z, valid_xy_rot, valid_z_rot};

verus! {

/// A rigid piece: the offsets of its cells in canonical pose.
#[derive(Debug)]
pub struct Dingus {
    pub points: Vec<Point>,
}

impl Dingus {
    /// Every coordinate can be negated without overflow.
    pub open spec fn coords_in_range(&self) -> bool {
        forall|i: int|
            0 <= i < self.points@.len() ==> #[trigger] self.points@[i].x > i32::MIN
                && self.points@[i].y > i32::MIN && self.points@[i].z > i32::MIN
    }

    /// The first point is the origin.
    pub open spec fn starts_at_origin_spec(&self) -> bool {
        self.points@.len() > 0 && self.points@[0] == (Point { x: 0, y: 0, z: 0 })
    }

    /// Tells whether the piece's first point is the origin, as the placement
    /// of a piece at a cell assumes.
    pub fn starts_at_origin(&self) -> (r: bool)
        ensures
            r == self.starts_at_origin_spec(),
    {
        self.points.len() > 0 && self.points[0] == Point { x: 0, y: 0, z: 0 }
    }
}

/// A 3x3x3 grid of cell labels, stored flat: the cell `(x, y, z)` is at
/// `9 * x + 3 * y + z`. A label of 0 means the cell is empty.
#[derive(Clone, Copy, Debug, PartialEq, Eq)]
pub struct Universe {
    pub cells: [i32; 27],
}

pub open spec fn in_bounds(p: IPoint) -> bool {
    0 <= p.0 < 3 && 0 <= p.1 < 3 && 0 <= p.2 < 3
}

pub open spec fn cell_index(p: IPoint) -> int {
    9 * p.0 + 3 * p.1 + p.2
}

/// The cell that a point of a piece lands on for the given origin and orientation.
pub open spec fn target(pt: Point, origin: Point, xr: int, zr: int) -> IPoint {
    let q = orient(pt@, xr, zr);
    (q.0 + origin.x, q.1 + origin.y, q.2 + origin.z)
}

/// Placing the points `pts` one after another into `cells`: each point's cell
/// must lie in the volume and be empty, and is then given `label`. The first
/// point that fails stops the placement, and what was written before stays.
/// Returns whether every point was placed, and the cells afterwards.
pub open spec fn stamp(
    cells: Seq<i32>,
    pts: Seq<Point>,
    origin: Point,
    xr: int,
    zr: int,
    label: i32,
) -> (bool, Seq<i32>)
    decreases pts.len(),
{
    if pts.len() == 0 {
        (true, cells)
    } else {
        let t = target(pts[0], origin, xr, zr);
        if !in_bounds(t) {
            (false, cells)
        } else if cells[cell_index(t)] != 0 {
            (false, cells)
        } else {
            stamp(cells.update(cell_index(t), label), pts.drop_first(), origin, xr, zr, label)
        }
    }
}

/// Number of nonzero cells.
pub open spec fn nonzero_count(s: Seq<i32>) -> nat
    decreases s.len(),
{
    if s.len() == 0 {
        0
    } else {
        nonzero_count(s.drop_last()) + if s.last() != 0 {
            1nat
        } else {
            0nat
        }
    }
}

/// Number of cells labelled `v`.
pub open spec fn count_eq(s: Seq<i32>, v: i32) -> nat
    decreases s.len(),
{
    if s.len() == 0 {
        0
    } else {
        count_eq(s.drop_last(), v) + if s.last() == v {
            1nat
        } else {
            0nat
        }
    }
}

impl Universe {
    /// The empty volume.
    pub fn new() -> (u: Universe)
        ensures
            forall|i: int| 0 <= i < 27 ==> u.cells@[i] == 0,
    {
        Universe { cells: [0i32; 27] }
    }

    /// The label of the cell `(x, y, z)`.
    pub fn get(&self, x: usize, y: usize, z: usize) -> (r: i32)
        requires
            x < 3,
            y < 3,
            z < 3,
        ensures
            r == self.cells@[cell_index((x as int, y as int, z as int))],
    {
        self.cells[9 * x + 3 * y + z]
    }
}

/// Places `dingus` with its first point at `origin`, turned by the planar
/// rotation `xy_rotnum` and then the spatial rotation `z_rotnum`, writing
/// `dingnum` into each cell it covers. Returns false as soon as a point falls
/// off the volume or onto an occupied cell; the cells written up to then are
/// left as they are, so the caller discards the volume after a failure.
pub fn place_dingus(
    universe: &mut Universe,
    dingus: &Dingus,
    origin: Point,
    xy_rotnum: i32,
    z_rotnum: i32,
    dingnum: i32,
) -> (r: bool)
    requires
        valid_xy_rot(xy_rotnum as int),
        valid_z_rot(z_rotnum as int),
        dingus.coords_in_range(),
    ensures
        (r, final(universe).cells@) == stamp(
            old(universe).cells@,
            dingus.points@,
            origin,
            xy_rotnum as int,
            z_rotnum as int,
            dingnum,
        ),
{
    let pts = &dingus.points;
    let n = pts.len();
    let mut i: usize = 0;
    assert(pts@.skip(0) =~= pts@);
    while i < n
        invariant
            0 <= i <= n,
            n == pts@.len(),
            pts@ == dingus.points@,
            dingus.coords_in_range(),
            valid_xy_rot(xy_rotnum as int),
            valid_z_rot(z_rotnum as int),
            stamp(
                old(universe).cells@,
                pts@,
                origin,
                xy_rotnum as int,
                z_rotnum as int,
                dingnum,
            ) == stamp(
                universe.cells@,
                pts@.skip(i as int),
                origin,
                xy_rotnum as int,
                z_rotnum as int,
                dingnum,
            ),
        decreases n - i,
    {
        let point = pts[i];
        assert(pts@.skip(i as int).drop_first() =~= pts@.skip(i + 1));
        assert(pts@.skip(i as int)[0] == point);
        let (ux, uy) = rotate_xy(point.x, point.y, xy_rotnum);
        let (ux, uy, uz) = rotate_z(ux, uy, point.z, z_rotnum);
        let x = ux as i64 + origin.x as i64;
        let y = uy as i64 + origin.y as i64;
        let z = uz as i64 + origin.z as i64;
        if x < 0 || x >= 3 || y < 0 || y >= 3 || z < 0 || z >= 3 {
            return false;  // off edge
        }
        let idx = (9 * x + 3 * y + z) as usize;
        if universe.cells[idx] != 0 {
            return false;  // collision
        }
        universe.cells[idx] = dingnum;
        i = i + 1;
    }
    assert(pts@.skip(n as int) =~= Seq::<Point>::empty());
    true
}

proof fn lemma_nonzero_count_update(s: Seq<i32>, i: int, v: i32)
    requires
        0 <= i < s.len(),
        s[i] == 0,
        v != 0,
    ensures
        nonzero_count(s.update(i, v)) == nonzero_count(s) + 1,
    decreases s.len(),
{
    let t = s.update(i, v);
    if i == s.len() - 1 {
        assert(t.drop_last() =~= s.drop_last());
    } else {
        assert(t.drop_last() =~= s.drop_last().update(i, v));
        lemma_nonzero_count_update(s.drop_last(), i, v);
    }
}

proof fn lemma_count_eq_update(s: Seq<i32>, i: int, v: i32, w: i32)
    requires
        0 <= i < s.len(),
        s[i] == 0,
        v != 0,
        w != 0,
    ensures
        count_eq(s.update(i, v), w) == count_eq(s, w) + if w == v {
            1nat
        } else {
            0nat
        },
    decreases s.len(),
{
    let t = s.update(i, v);
    if i == s.len() - 1 {
        assert(t.drop_last() =~= s.drop_last());
    } else {
        assert(t.drop_last() =~= s.drop_last().update(i, v));
        lemma_count_eq_update(s.drop_last(), i, v, w);
    }
}

/// A sequence with as many nonzero entries as entries has no zero entry.
pub proof fn lemma_nonzero_count_full(s: Seq<i32>)
    requires
        nonzero_count(s) == s.len(),
    ensures
        forall|i: int| 0 <= i < s.len() ==> s[i] != 0,
    decreases s.len(),
{
    if s.len() > 0 {
        lemma_nonzero_count_le(s.drop_last());
        lemma_nonzero_count_full(s.drop_last());
        assert forall|i: int| 0 <= i < s.len() implies s[i] != 0 by {
            if i < s.len() - 1 {
                assert(s[i] == s.drop_last()[i]);
            }
        }
    }
}

proof fn lemma_nonzero_count_le(s: Seq<i32>)
    ensures
        nonzero_count(s) <= s.len(),
    decreases s.len(),
{
    if s.len() > 0 {
        lemma_nonzero_count_le(s.drop_last());
    }
}

/// A placement that succeeds with a nonzero label adds one cell per point to
/// the count of that label, and leaves the count of every other nonzero
/// label as it was.
pub proof fn lemma_place_label_counts(
    cells: Seq<i32>,
    pts: Seq<Point>,
    origin: Point,
    xr: int,
    zr: int,
    label: i32,
    w: i32,
)
    requires
        cells.len() == 27,
        label != 0,
        w != 0,
        stamp(cells, pts, origin, xr, zr, label).0,
    ensures
        count_eq(stamp(cells, pts, origin, xr, zr, label).1, w) == count_eq(cells, w) + if w
            == label {
            pts.len()
        } else {
            0
        },
    decreases pts.len(),
{
    if pts.len() > 0 {
        let t = target(pts[0], origin, xr, zr);
        lemma_count_eq_update(cells, cell_index(t), label, w);
        lemma_place_label_counts(
            cells.update(cell_index(t), label),
            pts.drop_first(),
            origin,
            xr,
            zr,
            label,
            w,
        );
    }
}

/// A placement that succeeds with a nonzero label fills exactly one more cell
/// per point of the piece, each of them with the label, and every other cell
/// keeps its value.
pub proof fn lemma_place_footprint(
    cells: Seq<i32>,
    pts: Seq<Point>,
    origin: Point,
    xr: int,
    zr: int,
    label: i32,
)
    requires
        cells.len() == 27,
        label != 0,
        stamp(cells, pts, origin, xr, zr, label).0,
    ensures
        ({
            let after = stamp(cells, pts, origin, xr, zr, label).1;
            &&& after.len() == 27
            &&& nonzero_count(after) == nonzero_count(cells) + pts.len()
            &&& forall|i: int|
                0 <= i < 27 ==> after[i] == cells[i] || (cells[i] == 0 && after[i] == label)
            &&& forall|j: int|
                0 <= j < pts.len() ==> in_bounds(#[trigger] target(pts[j], origin, xr, zr))
                    && after[cell_index(target(pts[j], origin, xr, zr))] == label
        }),
    decreases pts.len(),
{
    if pts.len() > 0 {
        let t = target(pts[0], origin, xr, zr);
        let c2 = cells.update(cell_index(t), label);
        let rest = pts.drop_first();
        lemma_nonzero_count_update(cells, cell_index(t), label);
        lemma_place_footprint(c2, rest, origin, xr, zr, label);
        let after = stamp(cells, pts, origin, xr, zr, label).1;
        assert forall|j: int|
            0 <= j < pts.len() implies in_bounds(#[trigger] target(pts[j], origin, xr, zr))
            && after[cell_index(target(pts[j], origin, xr, zr))] == label by {
            if j > 0 {
                assert(pts[j] == rest[j - 1]);
            } else {
                lemma_stamp_keeps_nonzero(c2, rest, origin, xr, zr, label, cell_index(t));
            }
        }
    }
}

/// Placing never changes a cell that is already nonzero.
pub proof fn lemma_stamp_keeps_nonzero(
    cells: Seq<i32>,
    pts: Seq<Point>,
    origin: Point,
    xr: int,
    zr: int,
    label: i32,
    i: int,
)
    requires
        cells.len() == 27,
        0 <= i < 27,
        cells[i] != 0,
    ensures
        stamp(cells, pts, origin, xr, zr, label).1.len() == 27,
        stamp(cells, pts, origin, xr, zr, label).1[i] == cells[i],
    decreases pts.len(),
{
    if pts.len() > 0 {
        let t = target(pts[0], origin, xr, zr);
        if in_bounds(t) && cells[cell_index(t)] == 0 {
            let c2 = cells.update(cell_index(t), label);
            lemma_stamp_keeps_nonzero(c2, pts.drop_first(), origin, xr, zr, label, i);
        }
    }
}

/// A placement in which some point lands outside the volume fails, whatever
/// the volume holds.
pub proof fn lemma_off_edge_fails(
    cells: Seq<i32>,
    pts: Seq<Point>,
    origin: Point,
    xr: int,
    zr: int,
    label: i32,
    j: int,
)
    requires
        cells.len() == 27,
        0 <= j < pts.len(),
        !in_bounds(target(pts[j], origin, xr, zr)),
    ensures
        !stamp(cells, pts, origin, xr, zr, label).0,
    decreases pts.len(),
{
    if j > 0 {
        let t = target(pts[0], origin, xr, zr);
        if in_bounds(t) && cells[cell_index(t)] == 0 {
            let rest = pts.drop_first();
            assert(rest[j - 1] == pts[j]);
            lemma_off_edge_fails(cells.update(cell_index(t), label), rest, origin, xr, zr, label, j - 1);
        }
    }
}

/// A placement in which some point lands on a cell that is already occupied
/// fails, even where the other points would fit.
pub proof fn lemma_collision_fails(
    cells: Seq<i32>,
    pts: Seq<Point>,
    origin: Point,
    xr: int,
    zr: int,
    label: i32,
    j: int,
)
    requires
        cells.len() == 27,
        0 <= j < pts.len(),
        in_bounds(target(pts[j], origin, xr, zr)),
        cells[cell_index(target(pts[j], origin, xr, zr))] != 0,
    ensures
        !stamp(cells, pts, origin, xr, zr, label).0,
    decreases pts.len(),
{
    if j > 0 {
        let t = target(pts[0], origin, xr, zr);
        if in_bounds(t) && cells[cell_index(t)] == 0 {
            let rest = pts.drop_first();
            assert(rest[j - 1] == pts[j]);
            lemma_collision_fails(cells.update(cell_index(t), label), rest, origin, xr, zr, label, j - 1);
        }
    }
}

} // verus!

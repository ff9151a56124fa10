//! Depth-first search over every placement of every remaining piece.

use vstd::prelude::*;
use vstd::slice::slice_subrange;
use crate::geometry::Point;
use crate::placement::{
    Dingus,
    Universe,
    count_eq,
    lemma_nonzero_count_full,
    lemma_place_footprint,
    lemma_place_label_counts,
    nonzero_count,
    place_dingus,
    stamp,
};

verus! {

/// Placement attempts per volume: 27 origin cells times 24 orientations.
pub open spec fn attempts() -> int {
    648
}

/// The cell `c` of the flat layout as a point.
pub open spec fn cell_point(c: int) -> Point {
    Point { x: (c / 9) as i32, y: ((c / 3) % 3) as i32, z: (c % 3) as i32 }
}

/// The label given to the cells of the head piece when `n` pieces remain.
pub open spec fn label_for(n: int) -> i32 {
    (8 - n) as i32
}

/// The shapes of a work list.
pub open spec fn shapes(dingi: Seq<&Dingus>) -> Seq<Seq<Point>> {
    dingi.map_values(|d: &Dingus| d.points@)
}

/// The cells of each volume of a list.
pub open spec fn cells_of(us: Seq<Universe>) -> Seq<Seq<i32>> {
    us.map_values(|u: Universe| u.cells@)
}

/// The solutions found from attempt `a` on, in order. Attempt `a` puts the
/// head piece's first point at cell `a / 24`, with spatial rotation
/// `(a % 24) / 4` and planar rotation `a % 4`; it is skipped where that cell
/// is occupied or the placement fails. A successful placement of the last
/// piece is a solution; otherwise the search goes on with the rest of the
/// pieces in the new volume.
pub open spec fn solutions(cells: Seq<i32>, pieces: Seq<Seq<Point>>, a: int) -> Seq<Seq<i32>>
    decreases pieces.len(), attempts() - a,
{
    if pieces.len() == 0 || a < 0 || a >= attempts() {
        Seq::empty()
    } else {
        let c = a / 24;
        let placed = stamp(
            cells,
            pieces[0],
            cell_point(c),
            a % 4,
            (a % 24) / 4,
            label_for(pieces.len() as int),
        );
        let here = if cells[c] != 0 || !placed.0 {
            Seq::empty()
        } else if pieces.len() == 1 {
            seq![placed.1]
        } else {
            solutions(placed.1, pieces.drop_first(), 0)
        };
        here + solutions(cells, pieces, a + 1)
    }
}

/// The work list's shapes can all be rotated without overflow.
pub open spec fn pieces_in_range(dingi: Seq<&Dingus>) -> bool {
    forall|i: int| 0 <= i < dingi.len() ==> #[trigger] dingi[i].coords_in_range()
}

/// Tries every placement of the head of `dingi` in `universe`, cell by cell
/// (x, then y, then z), spatial rotation outside planar rotation, and appends
/// each volume completed by the last piece to `out`, in the order found.
pub fn turn_the_crank(universe: &Universe, dingi: &[&Dingus], out: &mut Vec<Universe>)
    requires
        pieces_in_range(dingi@),
        dingi@.len() <= i32::MAX,
    ensures
        cells_of(final(out)@) == cells_of(old(out)@) + solutions(
            universe.cells@,
            shapes(dingi@),
            0,
        ),
    decreases dingi@.len(),
{
    let ghost pieces = shapes(dingi@);
    let ghost start = cells_of(out@);
    let n = dingi.len();
    if n == 0 {
        assert(cells_of(out@) =~= start + solutions(universe.cells@, pieces, 0));
        return;
    }
    let dingnum: i32 = 8 - n as i32;
    let rest = slice_subrange(dingi, 1, n);
    assert(shapes(rest@) =~= pieces.drop_first());
    assert(pieces_in_range(rest@)) by {
        assert forall|i: int| 0 <= i < rest@.len() implies #[trigger] rest@[i].coords_in_range() by {
            assert(rest@[i] == dingi@[i + 1]);
        }
    }
    assert(dingi@[0].coords_in_range());
    let mut a: usize = 0;
    assert(start =~= cells_of(out@));
    assert(cells_of(out@) + solutions(universe.cells@, pieces, 0) =~= start + solutions(
        universe.cells@,
        pieces,
        0,
    ));
    while a < 648
        invariant
            a <= 648,
            n == dingi@.len(),
            0 < n <= i32::MAX,
            pieces == shapes(dingi@),
            pieces_in_range(dingi@),
            pieces_in_range(rest@),
            shapes(rest@) == pieces.drop_first(),
            rest@.len() == n - 1,
            dingnum == label_for(n as int),
            cells_of(out@) + solutions(universe.cells@, pieces, a as int) == start + solutions(
                universe.cells@,
                pieces,
                0,
            ),
        decreases 648 - a,
    {
        let ghost before = cells_of(out@);
        let c = a / 24;
        let z_rotnum = ((a % 24) / 4) as i32;
        let xy_rotnum = (a % 4) as i32;
        if universe.cells[c] == 0 {
            let origin = Point { x: (c / 9) as i32, y: ((c / 3) % 3) as i32, z: (c % 3) as i32 };
            let mut newuniverse = *universe;
            let ret = place_dingus(&mut newuniverse, dingi[0], origin, xy_rotnum, z_rotnum, dingnum);
            if ret {
                if n == 1 {
                    out.push(newuniverse);
                    assert(cells_of(out@) =~= before + seq![newuniverse.cells@]);
                } else {
                    turn_the_crank(&newuniverse, rest, out);
                }
            }
        }
        assert(solutions(universe.cells@, pieces, a as int) == {
            let placed = stamp(
                universe.cells@,
                pieces[0],
                cell_point(c as int),
                a as int % 4,
                (a as int % 24) / 4,
                label_for(n as int),
            );
            let here = if universe.cells@[c as int] != 0 || !placed.0 {
                Seq::empty()
            } else if n == 1 {
                seq![placed.1]
            } else {
                solutions(placed.1, pieces.drop_first(), 0)
            };
            here + solutions(universe.cells@, pieces, a + 1)
        });
        a = a + 1;
        assert(cells_of(out@) + solutions(universe.cells@, pieces, a as int) =~= start
            + solutions(universe.cells@, pieces, 0));
    }
    assert(solutions(universe.cells@, pieces, 648) =~= Seq::<Seq<i32>>::empty());
    assert(cells_of(out@) =~= start + solutions(universe.cells@, pieces, 0));
}

/// Total number of cells of the pieces.
pub open spec fn total_size(pieces: Seq<Seq<Point>>) -> nat
    decreases pieces.len(),
{
    if pieces.len() == 0 {
        0
    } else {
        pieces[0].len() + total_size(pieces.drop_first())
    }
}

/// The number of cells that the search labels `w`: the size of the piece
/// that gets that label, or 0 where no piece does.
pub open spec fn size_with_label(pieces: Seq<Seq<Point>>, w: int) -> nat {
    let n = pieces.len() as int;
    if 8 - n <= w < 8 {
        pieces[w - (8 - n)].len()
    } else {
        0
    }
}

/// Every solution found from a volume with a work list of at most seven
/// pieces keeps each occupied cell, and places every piece in full under its
/// own label: each nonzero label gains exactly the cells of the piece that
/// carries it, and the volume gains as many occupied cells as the pieces
/// have. Where these are as many as the empty cells, the solution is full.
pub proof fn lemma_solutions_sound(cells: Seq<i32>, pieces: Seq<Seq<Point>>, a: int, k: int)
    requires
        cells.len() == 27,
        1 <= pieces.len() <= 7,
        0 <= k < solutions(cells, pieces, a).len(),
    ensures
        ({
            let s = solutions(cells, pieces, a)[k];
            &&& s.len() == 27
            &&& forall|i: int| 0 <= i < 27 && cells[i] != 0 ==> s[i] == cells[i]
            &&& nonzero_count(s) == nonzero_count(cells) + total_size(pieces)
            &&& forall|w: i32|
                w != 0 ==> #[trigger] count_eq(s, w) == count_eq(cells, w) + size_with_label(
                    pieces,
                    w as int,
                )
            &&& nonzero_count(cells) + total_size(pieces) == 27 ==> forall|i: int|
                0 <= i < 27 ==> s[i] != 0
        }),
    decreases pieces.len(), attempts() - a,
{
    let n = pieces.len() as int;
    let c = a / 24;
    let label = label_for(n);
    let placed = stamp(cells, pieces[0], cell_point(c), a % 4, (a % 24) / 4, label);
    let here = if cells[c] != 0 || !placed.0 {
        Seq::empty()
    } else if n == 1 {
        seq![placed.1]
    } else {
        solutions(placed.1, pieces.drop_first(), 0)
    };
    let all = solutions(cells, pieces, a);
    assert(all == here + solutions(cells, pieces, a + 1));
    let s = all[k];
    if k >= here.len() {
        assert(s == solutions(cells, pieces, a + 1)[k - here.len()]);
        lemma_solutions_sound(cells, pieces, a + 1, k - here.len());
    } else {
        let nc = placed.1;
        lemma_place_footprint(cells, pieces[0], cell_point(c), a % 4, (a % 24) / 4, label);
        assert forall|w: i32| w != 0 implies #[trigger] count_eq(nc, w) == count_eq(cells, w) + if w
            == label {
            pieces[0].len()
        } else {
            0
        } by {
            lemma_place_label_counts(cells, pieces[0], cell_point(c), a % 4, (a % 24) / 4, label, w);
        }
        if n == 1 {
            assert(s == nc);
            assert(pieces.drop_first().len() == 0);
            assert(total_size(pieces.drop_first()) == 0);
            assert(total_size(pieces) == pieces[0].len());
        } else {
            let tail = pieces.drop_first();
            lemma_solutions_sound(nc, tail, 0, k);
            assert(total_size(pieces) == pieces[0].len() + total_size(tail));
            assert forall|w: i32|
                w != 0 implies #[trigger] count_eq(s, w) == count_eq(cells, w) + size_with_label(
                pieces,
                w as int,
            ) by {
                assert(count_eq(s, w) == count_eq(nc, w) + size_with_label(tail, w as int));
                if w as int >= 8 - n + 1 && (w as int) < 8 {
                    assert(tail[w - (8 - (n - 1))] == pieces[w - (8 - n)]);
                }
            }
        }
    }
    if nonzero_count(cells) + total_size(pieces) == 27 {
        lemma_nonzero_count_full(s);
    }
}

} // verus!

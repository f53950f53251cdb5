//! Directional line-capture semantics: what makes a direction capturing,
//! which cells a move flips, and how flipping changes the piece counts.

use vstd::prelude::*;
use crate::cell::{Cell, color_pair};
use crate::counting::{count, lemma_count_update, lemma_count_le_len};
use crate::position::{in_bounds, idx};

verus! {

/// A compass step: each component is -1, 0 or 1, and not both are 0.
pub open spec fn valid_delta(dr: int, dc: int) -> bool {
    -1 <= dr <= 1 && -1 <= dc <= 1 && !(dr == 0 && dc == 0)
}

/// How many steps a walk from (r, c) can take along one axis before leaving
/// the board; 9 on an axis the walk does not move along.
pub open spec fn axis_steps(x: int, d: int) -> int {
    if d > 0 {
        8 - x
    } else if d < 0 {
        x + 1
    } else {
        9
    }
}

/// Steps before a walk from (r, c) in direction (dr, dc) leaves the board.
pub open spec fn walk_measure(r: int, c: int, dr: int, dc: int) -> int {
    if axis_steps(r, dr) <= axis_steps(c, dc) {
        axis_steps(r, dr)
    } else {
        axis_steps(c, dc)
    }
}

/// The first position, walking from (r, c) in direction (dr, dc), that is
/// not an in-bounds cell of colour `opp`: the cell just past the maximal
/// contiguous run of opponent pieces starting at (r, c).
pub open spec fn run_stop(b: Seq<Cell>, r: int, c: int, dr: int, dc: int, opp: Cell) -> (int, int)
    decreases walk_measure(r, c, dr, dc)
        when valid_delta(dr, dc)
{
    if in_bounds(r, c) && b[idx(r, c)] == opp {
        run_stop(b, r + dr, c + dc, dr, dc, opp)
    } else {
        (r, c)
    }
}

/// A direction captures from an (empty) origin exactly when the neighbouring
/// cell holds an opponent piece and the maximal run of opponent pieces it
/// begins is immediately followed, within the board, by a cell of one's own
/// colour.
pub open spec fn is_capturing(
    b: Seq<Cell>,
    r: int,
    c: int,
    dr: int,
    dc: int,
    me: Cell,
    opp: Cell,
) -> bool {
    let stop = run_stop(b, r + dr, c + dc, dr, dc, opp);
    &&& in_bounds(r + dr, c + dc)
    &&& b[idx(r + dr, c + dc)] == opp
    &&& in_bounds(stop.0, stop.1)
    &&& b[idx(stop.0, stop.1)] == me
}

/// The board after walking from (r, c) in direction (dr, dc), recolouring
/// every cell to `me` until a cell already of colour `me` (or the board
/// edge) is reached, together with the number of cells recoloured.
pub open spec fn flip_walk(b: Seq<Cell>, r: int, c: int, dr: int, dc: int, me: Cell) -> (
    Seq<Cell>,
    nat,
)
    decreases walk_measure(r, c, dr, dc)
        when valid_delta(dr, dc)
{
    if in_bounds(r, c) && b[idx(r, c)] != me {
        let rec = flip_walk(b.update(idx(r, c), me), r + dr, c + dc, dr, dc, me);
        (rec.0, rec.1 + 1)
    } else {
        (b, 0)
    }
}

/// The eight compass directions, in scanning order.
pub open spec fn delta(i: int) -> (int, int) {
    if i == 0 {
        (-1, -1)
    } else if i == 1 {
        (-1, 0)
    } else if i == 2 {
        (-1, 1)
    } else if i == 3 {
        (0, -1)
    } else if i == 4 {
        (0, 1)
    } else if i == 5 {
        (1, -1)
    } else if i == 6 {
        (1, 0)
    } else {
        (1, 1)
    }
}

/// The board and flip count after treating directions i..8 in order: for
/// each direction that captures on the board as it then stands, the run
/// beside the origin is recoloured.
pub open spec fn apply_dirs(b: Seq<Cell>, r: int, c: int, me: Cell, opp: Cell, i: int) -> (
    Seq<Cell>,
    nat,
)
    decreases 8 - i,
{
    if i < 0 || i >= 8 {
        (b, 0)
    } else {
        let d = delta(i);
        let step = if is_capturing(b, r, c, d.0, d.1, me, opp) {
            flip_walk(b, r + d.0, c + d.1, d.0, d.1, me)
        } else {
            (b, 0)
        };
        let rest = apply_dirs(step.0, r, c, me, opp, i + 1);
        (rest.0, step.1 + rest.1)
    }
}

/// The board after playing `me` at (r, c) — every capturing run recoloured,
/// the origin itself occupied — and the number of cells recoloured.
pub open spec fn apply_move(b: Seq<Cell>, r: int, c: int, me: Cell, opp: Cell) -> (Seq<Cell>, nat) {
    let ad = apply_dirs(b, r, c, me, opp, 0);
    (ad.0.update(idx(r, c), me), ad.1)
}

/// A legal destination for `me`: an empty in-bounds cell with at least one
/// capturing direction.
pub open spec fn is_available(b: Seq<Cell>, r: int, c: int, me: Cell, opp: Cell) -> bool {
    &&& in_bounds(r, c)
    &&& b[idx(r, c)] == Cell::Empty
    &&& exists|i: int|
        0 <= i < 8 && is_capturing(b, r, c, delta(i).0, delta(i).1, me, opp)
}

/// Whether the side playing `me` has any legal move at all.
pub open spec fn has_any_move(b: Seq<Cell>, me: Cell, opp: Cell) -> bool {
    exists|r: int, c: int| in_bounds(r, c) && is_available(b, r, c, me, opp)
}

/// The k-th step of the walk that starts at (r, c) and moves in
/// direction (dr, dc).
pub open spec fn ray_point(r: int, c: int, dr: int, dc: int, k: int) -> (int, int) {
    (r + k * dr, c + k * dc)
}

/// The position is an in-bounds cell holding an opponent piece.
pub open spec fn opp_cell(b: Seq<Cell>, p: (int, int), opp: Cell) -> bool {
    in_bounds(p.0, p.1) && b[idx(p.0, p.1)] == opp
}

/// What `run_stop` finds is indeed the cell just past the maximal
/// contiguous run of opponent pieces: for some step count n, every step of
/// the walk strictly before the n-th lands on an opponent piece, and the
/// n-th step itself is the first that does not (an in-bounds cell of some
/// other state, or a position off the board). Together with the definition
/// of `is_capturing` this says: a direction captures exactly when the
/// maximal opponent run beside the origin is non-empty and the cell
/// immediately after it, within bounds, holds one's own colour.
pub proof fn lemma_run_stop_characterization(
    b: Seq<Cell>,
    r: int,
    c: int,
    dr: int,
    dc: int,
    opp: Cell,
)
    requires
        valid_delta(dr, dc),
        b.len() == 64,
    ensures
        ({
            let stop = run_stop(b, r, c, dr, dc, opp);
            exists|n: int|
                {
                    &&& 0 <= n
                    &&& stop == #[trigger] ray_point(r, c, dr, dc, n)
                    &&& (forall|k: int|
                        0 <= k < n ==> opp_cell(b, #[trigger] ray_point(r, c, dr, dc, k), opp))
                    &&& !opp_cell(b, stop, opp)
                }
        }),
    decreases walk_measure(r, c, dr, dc),
{
    let stop = run_stop(b, r, c, dr, dc, opp);
    if in_bounds(r, c) && b[idx(r, c)] == opp {
        lemma_run_stop_characterization(b, r + dr, c + dc, dr, dc, opp);
        let n2 = choose|n2: int|
            {
                &&& 0 <= n2
                &&& stop == #[trigger] ray_point(r + dr, c + dc, dr, dc, n2)
                &&& (forall|k: int|
                    0 <= k < n2 ==> opp_cell(b, #[trigger] ray_point(r + dr, c + dc, dr, dc, k), opp))
                &&& !opp_cell(b, stop, opp)
            };
        let n = n2 + 1;
        assert(ray_point(r, c, dr, dc, n) == ray_point(r + dr, c + dc, dr, dc, n2)) by (nonlinear_arith)
            requires
                n == n2 + 1,
        ;
        assert forall|k: int| 0 <= k < n implies opp_cell(
            b,
            #[trigger] ray_point(r, c, dr, dc, k),
            opp,
        ) by {
            if k == 0 {
                assert(ray_point(r, c, dr, dc, 0) == (r, c)) by (nonlinear_arith);
            } else {
                assert(ray_point(r, c, dr, dc, k) == ray_point(r + dr, c + dc, dr, dc, k - 1))
                    by (nonlinear_arith);
                assert(0 <= k - 1 < n2);
                assert(opp_cell(b, ray_point(r + dr, c + dc, dr, dc, k - 1), opp));
            }
        }
        assert({
            &&& 0 <= n
            &&& stop == ray_point(r, c, dr, dc, n)
            &&& (forall|k: int| 0 <= k < n ==> opp_cell(b, #[trigger] ray_point(r, c, dr, dc, k), opp))
            &&& !opp_cell(b, stop, opp)
        });
    } else {
        assert(ray_point(r, c, dr, dc, 0) == (r, c)) by (nonlinear_arith);
        assert({
            &&& 0 <= 0
            &&& stop == ray_point(r, c, dr, dc, 0)
            &&& (forall|k: int| 0 <= k < 0 ==> opp_cell(b, #[trigger] ray_point(r, c, dr, dc, k), opp))
            &&& !opp_cell(b, stop, opp)
        });
    }
}

/// (ur, uc) lies strictly off the walk that starts at (r, c) and moves in
/// direction (dr, dc): no step of the walk ever lands on it.
pub open spec fn off_walk(ur: int, uc: int, r: int, c: int, dr: int, dc: int) -> bool {
    ||| (dr == 1 && ur < r)
    ||| (dr == -1 && ur > r)
    ||| (dc == 1 && uc < c)
    ||| (dc == -1 && uc > c)
    ||| (dr == 0 && ur != r)
    ||| (dc == 0 && uc != c)
}

/// Overwriting a cell off the walk does not change where a run stops.
pub proof fn lemma_run_stop_off_walk(
    b: Seq<Cell>,
    r: int,
    c: int,
    dr: int,
    dc: int,
    opp: Cell,
    ur: int,
    uc: int,
    v: Cell,
)
    requires
        valid_delta(dr, dc),
        b.len() == 64,
        in_bounds(ur, uc),
        off_walk(ur, uc, r, c, dr, dc),
    ensures
        run_stop(b.update(idx(ur, uc), v), r, c, dr, dc, opp) == run_stop(b, r, c, dr, dc, opp),
    decreases walk_measure(r, c, dr, dc),
{
    let b2 = b.update(idx(ur, uc), v);
    if in_bounds(r, c) {
        assert((ur, uc) != (r, c));
        assert(idx(ur, uc) != idx(r, c));
        assert(b2[idx(r, c)] == b[idx(r, c)]);
        if b[idx(r, c)] == opp {
            assert(run_stop(b, r, c, dr, dc, opp) == run_stop(b, r + dr, c + dc, dr, dc, opp));
            assert(run_stop(b2, r, c, dr, dc, opp) == run_stop(b2, r + dr, c + dc, dr, dc, opp));
            assert(off_walk(ur, uc, r + dr, c + dc, dr, dc));
            lemma_run_stop_off_walk(b, r + dr, c + dc, dr, dc, opp, ur, uc, v);
        } else {
            assert(run_stop(b, r, c, dr, dc, opp) == (r, c));
            assert(run_stop(b2, r, c, dr, dc, opp) == (r, c));
        }
    } else {
        assert(run_stop(b, r, c, dr, dc, opp) == (r, c));
        assert(run_stop(b2, r, c, dr, dc, opp) == (r, c));
    }
}

/// Recolouring a run whose stop cell holds one's own colour flips exactly
/// the opponent pieces of the run: the board keeps its length, every changed
/// cell goes from `opp` to `me`, and the counts shift by the flip count.
pub proof fn lemma_flip_walk_capturing(
    b: Seq<Cell>,
    r: int,
    c: int,
    dr: int,
    dc: int,
    me: Cell,
    opp: Cell,
)
    requires
        valid_delta(dr, dc),
        color_pair(me, opp),
        b.len() == 64,
        ({
            let stop = run_stop(b, r, c, dr, dc, opp);
            in_bounds(stop.0, stop.1) && b[idx(stop.0, stop.1)] == me
        }),
    ensures
        ({
            let fr = flip_walk(b, r, c, dr, dc, me);
            &&& fr.0.len() == 64
            &&& count(fr.0, me) == count(b, me) + fr.1
            &&& count(fr.0, opp) + fr.1 == count(b, opp)
            &&& count(fr.0, Cell::Empty) == count(b, Cell::Empty)
            &&& fr.1 <= count(b, opp)
            &&& forall|p: int|
                0 <= p < 64 ==> (fr.0[p] == b[p] || (b[p] == opp && fr.0[p] == me))
            &&& (in_bounds(r, c) && b[idx(r, c)] == opp) ==> fr.1 >= 1
            &&& run_stop(b, r, c, dr, dc, opp) == (r, c) ==> fr == (b, 0nat)
        }),
    decreases walk_measure(r, c, dr, dc),
{
    let stop = run_stop(b, r, c, dr, dc, opp);
    lemma_count_le_len(b, opp);
    if in_bounds(r, c) && b[idx(r, c)] == opp {
        // The walk recolours this cell and goes on; the run stop is unchanged
        // because the overwritten cell lies behind the rest of the walk.
        let b2 = b.update(idx(r, c), me);
        assert(b[idx(r, c)] != me);
        assert(stop == run_stop(b, r + dr, c + dc, dr, dc, opp));
        assert(off_walk(r, c, r + dr, c + dc, dr, dc));
        lemma_run_stop_off_walk(b, r + dr, c + dc, dr, dc, opp, r, c, me);
        assert(run_stop(b2, r + dr, c + dc, dr, dc, opp) == stop);
        assert((stop.0, stop.1) != (r, c));
        assert(idx(stop.0, stop.1) != idx(r, c));
        assert(b2[idx(stop.0, stop.1)] == me);
        lemma_count_update(b, idx(r, c), me, me);
        lemma_count_update(b, idx(r, c), me, opp);
        lemma_count_update(b, idx(r, c), me, Cell::Empty);
        lemma_flip_walk_capturing(b2, r + dr, c + dc, dr, dc, me, opp);
        let rec = flip_walk(b2, r + dr, c + dc, dr, dc, me);
        let fr = flip_walk(b, r, c, dr, dc, me);
        assert(fr.0 == rec.0 && fr.1 == rec.1 + 1);
        assert(count(b2, me) == count(b, me) + 1);
        assert(count(b2, opp) + 1 == count(b, opp));
        assert(count(b2, Cell::Empty) == count(b, Cell::Empty));
        assert forall|p: int| 0 <= p < 64 implies (fr.0[p] == b[p] || (b[p] == opp && fr.0[p]
            == me)) by {
            assert(rec.0[p] == b2[p] || (b2[p] == opp && rec.0[p] == me));
            if p != idx(r, c) {
                assert(b2[p] == b[p]);
            } else {
                assert(b2[p] == me);
                assert(rec.0[p] == me);
            }
        }
    } else {
        // The run is empty here, so the stop is this very cell, which holds
        // `me`: the walk ends at once.
        assert(stop == (r, c));
        assert(b[idx(r, c)] == me);
        assert(flip_walk(b, r, c, dr, dc, me) == (b, 0nat));
    }
}

/// Each compass direction is a valid step.
pub proof fn lemma_delta_valid(i: int)
    requires
        0 <= i < 8,
    ensures
        valid_delta(delta(i).0, delta(i).1),
{
}

/// Treating the remaining directions flips only opponent pieces to one's own
/// colour, shifts the counts by the total flip count, and flips at least one
/// piece if some remaining direction captures.
pub proof fn lemma_apply_dirs(b: Seq<Cell>, r: int, c: int, me: Cell, opp: Cell, i: int)
    requires
        color_pair(me, opp),
        b.len() == 64,
        0 <= i <= 8,
    ensures
        ({
            let ad = apply_dirs(b, r, c, me, opp, i);
            &&& ad.0.len() == 64
            &&& count(ad.0, me) == count(b, me) + ad.1
            &&& count(ad.0, opp) + ad.1 == count(b, opp)
            &&& count(ad.0, Cell::Empty) == count(b, Cell::Empty)
            &&& ad.1 <= count(b, opp)
            &&& forall|p: int|
                0 <= p < 64 ==> (ad.0[p] == b[p] || (b[p] == opp && ad.0[p] == me))
            &&& (exists|j: int|
                i <= j < 8 && is_capturing(b, r, c, delta(j).0, delta(j).1, me, opp)) ==> ad.1 >= 1
        }),
    decreases 8 - i,
{
    lemma_count_le_len(b, opp);
    if i < 8 {
        let d = delta(i);
        lemma_delta_valid(i);
        if is_capturing(b, r, c, d.0, d.1, me, opp) {
            lemma_flip_walk_capturing(b, r + d.0, c + d.1, d.0, d.1, me, opp);
            let step = flip_walk(b, r + d.0, c + d.1, d.0, d.1, me);
            assert(step.1 >= 1);
            lemma_apply_dirs(step.0, r, c, me, opp, i + 1);
        } else {
            assert(apply_dirs(b, r, c, me, opp, i) == apply_dirs(b, r, c, me, opp, i + 1));
            lemma_apply_dirs(b, r, c, me, opp, i + 1);
            if exists|j: int|
                i <= j < 8 && is_capturing(b, r, c, delta(j).0, delta(j).1, me, opp) {
                let j = choose|j: int|
                    i <= j < 8 && is_capturing(b, r, c, delta(j).0, delta(j).1, me, opp);
                assert(j != i);
                assert(i + 1 <= j < 8 && is_capturing(b, r, c, delta(j).0, delta(j).1, me, opp));
            }
        }
    }
}

/// Piece accounting for one move: playing `me` on an empty in-bounds cell
/// fills exactly that cell, recolours exactly the flipped opponent pieces,
/// and leaves every other cell as it was. In counts: one's own pieces grow
/// by the flips plus the placed piece, the opponent loses the flips, and
/// exactly one empty cell disappears. A legal move flips at least one piece.
pub proof fn lemma_apply_move(b: Seq<Cell>, r: int, c: int, me: Cell, opp: Cell)
    requires
        color_pair(me, opp),
        b.len() == 64,
        in_bounds(r, c),
        b[idx(r, c)] == Cell::Empty,
    ensures
        ({
            let mv = apply_move(b, r, c, me, opp);
            &&& mv.0.len() == 64
            &&& count(mv.0, me) == count(b, me) + mv.1 + 1
            &&& count(mv.0, opp) + mv.1 == count(b, opp)
            &&& count(mv.0, Cell::Empty) + 1 == count(b, Cell::Empty)
            &&& mv.1 <= count(b, opp)
            &&& mv.0[idx(r, c)] == me
            &&& forall|p: int|
                0 <= p < 64 && p != idx(r, c) ==> (mv.0[p] == b[p] || (b[p] == opp && mv.0[p]
                    == me))
            &&& is_available(b, r, c, me, opp) ==> mv.1 >= 1
        }),
{
    let ad = apply_dirs(b, r, c, me, opp, 0);
    lemma_apply_dirs(b, r, c, me, opp, 0);
    assert(0 <= idx(r, c) < 64);
    // The origin is empty and flipping only turns opponent pieces, so the
    // origin is still empty when it is finally occupied.
    assert(ad.0[idx(r, c)] == Cell::Empty);
    lemma_count_update(ad.0, idx(r, c), me, me);
    lemma_count_update(ad.0, idx(r, c), me, opp);
    lemma_count_update(ad.0, idx(r, c), me, Cell::Empty);
}

} // verus!

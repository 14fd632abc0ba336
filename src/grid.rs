//! Cells of a square grid in row-major order, and moves on it with wrap-around.
use vstd::prelude::*;
use vstd::arithmetic::div_mod::{
    lemma_fundamental_div_mod, lemma_fundamental_div_mod_converse, lemma_mod_self_0, lemma_small_mod,
};

verus! {

/// A heading on the grid.
#[derive(Clone, Copy, Debug, PartialEq, Eq, Structural)]
pub enum Direction {
    Up,
    Right,
    Down,
    Left,
}

/// The cell reached from cell `h` by one move towards `d` on a `w` by `w` torus:
/// the row (for `Up` and `Down`) or the column (for `Left` and `Right`) moves by one,
/// modulo `w`, and the other coordinate stays.
pub open spec fn next_index(h: int, w: int, d: Direction) -> int {
    let r = h / w;
    let c = h % w;
    match d {
        Direction::Up => ((r + w - 1) % w) * w + c,
        Direction::Down => ((r + 1) % w) * w + c,
        Direction::Left => r * w + (c + w - 1) % w,
        Direction::Right => r * w + (c + 1) % w,
    }
}

/// The move opposite to `d`.
pub open spec fn opposite(d: Direction) -> Direction {
    match d {
        Direction::Up => Direction::Down,
        Direction::Down => Direction::Up,
        Direction::Left => Direction::Right,
        Direction::Right => Direction::Left,
    }
}

/// A cell's row and column: `h == row * w + col` with both in `[0, w)`.
pub proof fn lemma_row_col(h: int, w: int)
    requires
        0 < w,
        0 <= h < w * w,
    ensures
        h == (h / w) * w + h % w,
        0 <= h % w < w,
        0 <= h / w < w,
{
    lemma_fundamental_div_mod(h, w);
    assert(h == (h / w) * w + h % w) by (nonlinear_arith)
        requires h == w * (h / w) + (h % w);
    assert(0 <= h % w < w) by (nonlinear_arith)
        requires 0 < w, 0 <= h, h == (h / w) * w + h % w;
    assert(0 <= h / w < w) by (nonlinear_arith)
        requires 0 < w, 0 <= h < w * w, h == (h / w) * w + h % w, 0 <= h % w < w;
}

/// A move off an edge of the grid re-enters from the opposite edge, in the same row or
/// column; every other move goes to the neighbouring cell. The result lies in the grid.
pub proof fn lemma_wrap(h: int, w: int)
    requires
        0 < w,
        0 <= h < w * w,
    ensures
        next_index(h, w, Direction::Right) == if h % w == w - 1 { h - (w - 1) } else { h + 1 },
        next_index(h, w, Direction::Left) == if h % w == 0 { h + (w - 1) } else { h - 1 },
        next_index(h, w, Direction::Up) == if h / w == 0 { h + (w * w - w) } else { h - w },
        next_index(h, w, Direction::Down) == if h / w == w - 1 { h - (w * w - w) } else { h + w },
        forall|d: Direction| 0 <= #[trigger] next_index(h, w, d) < w * w,
{
    lemma_row_col(h, w);
    let r = h / w;
    let c = h % w;
    lemma_mod_self_0(w);
    if c + 1 < w {
        lemma_small_mod((c + 1) as nat, w as nat);
    }
    if c > 0 {
        lemma_small_mod((c - 1) as nat, w as nat);
        lemma_fundamental_div_mod_converse(c + w - 1, w, 1, c - 1);
    } else {
        lemma_small_mod((w - 1) as nat, w as nat);
    }
    if r + 1 < w {
        lemma_small_mod((r + 1) as nat, w as nat);
    } else {
        assert((r + 1) % w == 0);
        assert(0 * w == 0);
    }
    if r > 0 {
        lemma_fundamental_div_mod_converse(r + w - 1, w, 1, r - 1);
    } else {
        lemma_small_mod((w - 1) as nat, w as nat);
    }
    assert(r * w + w == (r + 1) * w) by (nonlinear_arith);
    assert((w - 1) * w == w * w - w) by (nonlinear_arith);
    assert((r - 1) * w == r * w - w) by (nonlinear_arith);
    assert(0 <= r * w <= (w - 1) * w) by (nonlinear_arith)
        requires 0 <= r < w, 0 < w;
    assert forall|d: Direction| 0 <= #[trigger] next_index(h, w, d) < w * w by {
        assert(0 <= (r + w - 1) % w < w) by (nonlinear_arith) requires 0 < w;
        assert(0 <= (r + 1) % w < w) by (nonlinear_arith) requires 0 < w;
        assert(0 <= (c + w - 1) % w < w) by (nonlinear_arith) requires 0 < w;
        assert(0 <= (c + 1) % w < w) by (nonlinear_arith) requires 0 < w;
        let a = (r + w - 1) % w;
        let b = (r + 1) % w;
        assert(0 <= a * w <= (w - 1) * w) by (nonlinear_arith)
            requires 0 <= a < w, 0 < w;
        assert(0 <= b * w <= (w - 1) * w) by (nonlinear_arith)
            requires 0 <= b < w, 0 < w;
    }
}

/// Moving one step and then one step back returns to the starting cell.
pub proof fn lemma_move_back(h: int, w: int, d: Direction)
    requires
        0 < w,
        0 <= h < w * w,
    ensures
        next_index(next_index(h, w, d), w, opposite(d)) == h,
{
    lemma_wrap(h, w);
    let n = next_index(h, w, d);
    lemma_wrap(n, w);
    lemma_row_col(h, w);
    lemma_row_col(n, w);
    let r = h / w;
    let c = h % w;
    assert((r - 1) * w == r * w - w) by (nonlinear_arith);
    assert((r + 1) * w == r * w + w) by (nonlinear_arith);
    assert((w - 1) * w == w * w - w) by (nonlinear_arith);
    assert(0 * w == 0);
    match d {
        Direction::Right => {
            if c == w - 1 {
                lemma_fundamental_div_mod_converse(n, w, r, 0);
            } else {
                lemma_fundamental_div_mod_converse(n, w, r, c + 1);
            }
        },
        Direction::Left => {
            if c == 0 {
                lemma_fundamental_div_mod_converse(n, w, r, w - 1);
            } else {
                lemma_fundamental_div_mod_converse(n, w, r, c - 1);
            }
        },
        Direction::Up => {
            if r == 0 {
                lemma_fundamental_div_mod_converse(n, w, w - 1, c);
            } else {
                lemma_fundamental_div_mod_converse(n, w, r - 1, c);
            }
        },
        Direction::Down => {
            if r == w - 1 {
                lemma_fundamental_div_mod_converse(n, w, 0, c);
            } else {
                lemma_fundamental_div_mod_converse(n, w, r + 1, c);
            }
        },
    }
}

} // verus!

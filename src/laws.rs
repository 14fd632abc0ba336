//! Properties of the game that hold for every well-formed world.
use vstd::prelude::*;
use vstd::set_lib::{lemma_int_range, lemma_len_subset, set_int_range};

use crate::grid::{next_index, Direction};
use crate::world::{initial_body, lemma_moved_cells, lemma_wf_kept, GameState, WorldView};

verus! {

/// A request to turn back onto the cell right behind the head changes nothing: neither
/// the direction nor the staged move.
pub proof fn lemma_reversal_ignored(v: WorldView, d: Direction)
    requires
        v.wf(),
        next_index(v.head(), v.width, d) == v.body[1],
    ensures
        v.with_direction(d) == v,
{
}

/// A step that lands the head on the reward cell while the snake does not fill the grid
/// never loses the game: the snake grows by exactly one cell, the score by exactly one
/// point, and a new reward cell is awaited. Some cell of the grid is then off the snake,
/// and the cell taken as the reward lies off it.
pub proof fn lemma_growth(v: WorldView, c: int)
    requires
        v.wf(),
        v.state == Some(GameState::Playing),
        v.reward_cell == Some(v.new_head()),
        v.body.len() < v.size,
    ensures
        !v.collides(),
        v.stepped().state == Some(GameState::Playing),
        v.stepped().body.len() == v.body.len() + 1,
        v.stepped().points == v.points + 1,
        v.stepped().needs_reward(),
        v.stepped().accepts_reward(c) ==> !v.stepped().with_reward(c).body.contains(c),
        exists|f: int| 0 <= f < v.size && !v.stepped().body.contains(f),
{
    lemma_not_lost_on_reward(v);
    lemma_moved_cells(v);
    let m = v.moved_body();
    let g = v.stepped().body;
    assert(g == m.push(v.body[v.body.len() - 2]));
    assert(m[m.len() - 1] == v.body[v.body.len() - 2]);
    assert(g.to_set() =~= m.to_set()) by {
        assert forall|y: int| g.contains(y) implies m.contains(y) by {
            let i = choose|i: int| 0 <= i < g.len() && g[i] == y;
            if i < m.len() {
                assert(m[i] == y);
            } else {
                assert(m[m.len() - 1] == y);
            }
        }
        assert forall|y: int| m.contains(y) implies g.contains(y) by {
            let i = choose|i: int| 0 <= i < m.len() && m[i] == y;
            assert(g[i] == y);
        }
    }
    m.lemma_cardinality_of_set();
    lemma_free_cell(g, v.size);
}

/// A new world covers three cells of a grid of at least four, so a cell is left for its
/// first reward.
pub proof fn lemma_free_cell_at_start(width: int, start: int)
    requires
        2 <= width,
        2 <= start < width * width,
    ensures
        exists|f: int|
            0 <= f < width * width && !#[trigger] initial_body(start).contains(f),
{
    let s = initial_body(start);
    assert(4 <= width * width) by (nonlinear_arith)
        requires 2 <= width;
    s.lemma_cardinality_of_set();
    lemma_free_cell(s, width * width);
}

/// A sequence with fewer distinct values than `size` misses some cell below `size`.
proof fn lemma_free_cell(s: Seq<int>, size: int)
    requires
        0 <= size,
        s.to_set().len() < size,
    ensures
        exists|f: int| 0 <= f < size && !s.contains(f),
{
    if !(exists|f: int| 0 <= f < size && !s.contains(f)) {
        lemma_int_range(0, size);
        assert(set_int_range(0, size).subset_of(s.to_set())) by {
            assert forall|c: int| set_int_range(0, size).contains(c) implies s.to_set().contains(c) by {
                assert(s.contains(c));
            }
        }
        lemma_len_subset(set_int_range(0, size), s.to_set());
    }
}

/// A step onto the reward cell never collides: the reward lies off the snake, and the
/// moved body holds no cell other than the new head that was off it.
proof fn lemma_not_lost_on_reward(v: WorldView)
    requires
        v.wf(),
        v.reward_cell == Some(v.new_head()),
    ensures
        !v.collides(),
{
    lemma_moved_cells(v);
    let m = v.moved_body();
    if v.collides() {
        let k = choose|k: int| 0 <= k < m.drop_first().len() && m.drop_first()[k] == v.new_head();
        assert(v.body[k] == v.new_head());
        assert(v.body.contains(v.new_head()));
    }
}

/// Whatever the world, the reward cell, when there is one, lies off the snake, and stays
/// so through every operation.
pub proof fn lemma_reward_off_snake(v: WorldView, d: Direction, c: int)
    requires
        v.wf(),
    ensures
        v.reward_cell matches Some(r) ==> !v.body.contains(r),
        v.stepped().reward_cell matches Some(r) ==> !v.stepped().body.contains(r),
        v.with_direction(d).reward_cell matches Some(r) ==> !v.with_direction(d).body.contains(r),
        v.started().reward_cell matches Some(r) ==> !v.started().body.contains(r),
        v.accepts_reward(c) ==> !v.with_reward(c).body.contains(c),
{
    lemma_wf_kept(v, d, c);
}

/// A step whose new head lands on another cell of the moved snake loses the game; the
/// world then stays as it is on every further step.
pub proof fn lemma_loss(v: WorldView)
    requires
        v.wf(),
        v.state == Some(GameState::Playing),
        v.collides(),
    ensures
        v.stepped().state == Some(GameState::Lost),
        v.stepped().body == v.moved_body(),
        v.stepped().stepped() == v.stepped(),
{
}

/// A step that lands the head on the reward cell while the snake fills the grid wins the
/// game and leaves no reward cell.
pub proof fn lemma_win(v: WorldView)
    requires
        v.wf(),
        v.state == Some(GameState::Playing),
        v.reward_cell == Some(v.new_head()),
        v.body.len() == v.size,
    ensures
        v.stepped().state == Some(GameState::Won),
        v.stepped().reward_cell is None,
        v.stepped().stepped() == v.stepped(),
{
    lemma_not_lost_on_reward(v);
}

/// Starting a game twice is starting it once, and neither a start nor a step after the
/// game is lost or won changes anything.
pub proof fn lemma_idempotent(v: WorldView)
    ensures
        v.started().started() == v.started(),
        v.state == Some(GameState::Lost) ==> v.started() == v,
        v.state == Some(GameState::Won) ==> v.started() == v,
        v.state == Some(GameState::Lost) ==> v.stepped() == v,
        v.state == Some(GameState::Won) ==> v.stepped() == v,
{
}

} // verus!

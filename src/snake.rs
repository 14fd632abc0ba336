//! The snake: the cells it covers, head first, and its heading.
use vstd::prelude::*;

use crate::grid::Direction;

verus! {

/// One cell of the grid, by its row-major index.
#[derive(Clone, Copy, Debug, PartialEq, Eq, Structural)]
pub struct SnakeCell(pub usize);

/// The indices of a sequence of cells.
pub open spec fn cell_indices(body: Seq<SnakeCell>) -> Seq<int> {
    body.map_values(|c: SnakeCell| c.0 as int)
}

/// Whether some cell of `cells` from position `from` on has index `idx`.
pub(crate) fn occupies_from(cells: &Vec<SnakeCell>, from: usize, idx: usize) -> (r: bool)
    requires
        from <= cells@.len(),
    ensures
        r == cell_indices(cells@).subrange(from as int, cells@.len() as int).contains(idx as int),
{
    let ghost tail = cell_indices(cells@).subrange(from as int, cells@.len() as int);
    let mut i: usize = from;
    while i < cells.len()
        invariant
            from <= i <= cells@.len(),
            tail == cell_indices(cells@).subrange(from as int, cells@.len() as int),
            forall|j: int| from <= j < i ==> (#[trigger] cells@[j]).0 != idx,
        decreases cells@.len() - i,
    {
        if cells[i].0 == idx {
            assert(tail[i - from] == idx as int);
            return true;
        }
        i = i + 1;
    }
    assert forall|k: int| 0 <= k < tail.len() implies tail[k] != idx as int by {
        assert(cells@[k + from].0 != idx);
    }
    false
}

/// An ordered body of cells, head first and tail last, and the direction it faces.
pub struct Snake {
    pub body: Vec<SnakeCell>,
    pub direction: Direction,
}

impl Snake {
    /// A snake of `size` cells whose head is at `spawn_index` and whose body runs back
    /// through the indices just below it, facing up.
    pub fn new(spawn_index: usize, size: usize) -> (s: Snake)
        requires
            size <= spawn_index + 1,
        ensures
            s.body@.len() == size,
            forall|i: int| 0 <= i < size ==> (#[trigger] s.body@[i]).0 == spawn_index - i,
            s.direction == Direction::Up,
    {
        let mut body: Vec<SnakeCell> = Vec::new();
        let mut i: usize = 0;
        while i < size
            invariant
                i <= size,
                size <= spawn_index + 1,
                body@.len() == i,
                forall|j: int| 0 <= j < i ==> (#[trigger] body@[j]).0 == spawn_index - j,
            decreases size - i,
        {
            body.push(SnakeCell(spawn_index - i));
            i = i + 1;
        }
        Snake { body, direction: Direction::Up }
    }
}

} // verus!

//! The world: a snake on a wrapped square grid, a reward cell, a score and the game's state.
use vstd::prelude::*;

use crate::grid::{lemma_row_col, lemma_wrap, next_index, Direction};
use crate::snake::{cell_indices, occupies_from, Snake, SnakeCell};

verus! {

/// Where a game stands once it has started.
#[derive(Clone, Copy, Debug, PartialEq, Eq, Structural)]
pub enum GameState {
    Won,
    Lost,
    Playing,
}

/// The text shown for a game's state.
pub open spec fn state_text(s: Option<GameState>) -> Seq<char> {
    match s {
        Some(GameState::Won) => "You have Won"@,
        Some(GameState::Lost) => "You have Lost"@,
        Some(GameState::Playing) => "You are Playing"@,
        None => "No State"@,
    }
}

/// The cells of a new snake whose head is at `start`: the head, then the two indices below.
pub open spec fn initial_body(start: int) -> Seq<int> {
    seq![start, start - 1, start - 2]
}

/// The mathematical state of a world.
pub struct WorldView {
    /// Side of the square grid.
    pub width: int,
    /// Number of cells of the grid.
    pub size: int,
    /// Cells covered by the snake, head first.
    pub body: Seq<int>,
    /// The snake's heading.
    pub direction: Direction,
    /// The head's next cell, staged by a change of direction.
    pub next_cell: Option<int>,
    /// Absent until the game starts.
    pub state: Option<GameState>,
    /// Absent when the game is won or while a new reward cell is awaited.
    pub reward_cell: Option<int>,
    pub points: int,
}

impl WorldView {
    pub open spec fn wf(self) -> bool {
        &&& 2 <= self.width
        &&& self.size == self.width * self.width
        &&& self.size <= usize::MAX
        &&& 2 <= self.body.len() <= self.size
        &&& 0 <= self.points < self.body.len()
        &&& forall|i: int| 0 <= i < self.body.len() ==> 0 <= #[trigger] self.body[i] < self.size
        &&& match self.next_cell {
            Some(c) => 0 <= c < self.size,
            None => true,
        }
        &&& match self.reward_cell {
            Some(c) => 0 <= c < self.size && !self.body.contains(c),
            None => true,
        }
    }

    pub open spec fn head(self) -> int {
        self.body[0]
    }

    /// The world after a request to start the game: a lost or won game stays as it is,
    /// any other is being played.
    pub open spec fn started(self) -> WorldView {
        if self.state == Some(GameState::Lost) || self.state == Some(GameState::Won) {
            self
        } else {
            WorldView { state: Some(GameState::Playing), ..self }
        }
    }

    /// The world after a request to turn towards `d`: ignored when the move would take the
    /// head straight back onto the cell behind it, else staged.
    pub open spec fn with_direction(self, d: Direction) -> WorldView {
        let cand = next_index(self.head(), self.width, d);
        if cand == self.body[1] {
            self
        } else {
            WorldView { next_cell: Some(cand), direction: d, ..self }
        }
    }

    /// Where the head goes on the next step: the staged cell if any, else one move on.
    pub open spec fn new_head(self) -> int {
        match self.next_cell {
            Some(c) => c,
            None => next_index(self.head(), self.width, self.direction),
        }
    }

    /// The body after one move: the new head, then every cell where its predecessor was.
    pub open spec fn moved_body(self) -> Seq<int> {
        seq![self.new_head()] + self.body.drop_last()
    }

    /// The new head lands on another cell of the moved body.
    pub open spec fn collides(self) -> bool {
        self.moved_body().drop_first().contains(self.new_head())
    }

    /// The world after one tick.
    pub open spec fn stepped(self) -> WorldView {
        if self.state != Some(GameState::Playing) {
            self
        } else {
            let moved = WorldView { body: self.moved_body(), next_cell: None, ..self };
            if self.collides() {
                WorldView { state: Some(GameState::Lost), ..moved }
            } else if self.reward_cell == Some(self.new_head()) {
                if self.body.len() < self.size {
                    WorldView {
                        body: moved.body.push(self.body[self.body.len() - 2]),
                        points: self.points + 1,
                        reward_cell: None,
                        ..moved
                    }
                } else {
                    WorldView { reward_cell: None, state: Some(GameState::Won), ..moved }
                }
            } else {
                moved
            }
        }
    }

    /// A reward cell is awaited.
    pub open spec fn needs_reward(self) -> bool {
        self.reward_cell is None && self.state != Some(GameState::Won)
    }

    /// Cell `c` is taken as the new reward cell: one is awaited, and `c` is a free cell.
    pub open spec fn accepts_reward(self, c: int) -> bool {
        self.needs_reward() && 0 <= c < self.size && !self.body.contains(c)
    }

    pub open spec fn with_reward(self, c: int) -> WorldView {
        WorldView { reward_cell: Some(c), ..self }
    }
}

/// The cells of the moved body are the new head and cells of the body before.
pub proof fn lemma_moved_cells(v: WorldView)
    requires
        v.body.len() >= 1,
    ensures
        v.moved_body().len() == v.body.len(),
        v.moved_body()[0] == v.new_head(),
        forall|i: int|
            1 <= i < v.body.len() ==> #[trigger] v.moved_body()[i] == v.body[i - 1],
        forall|x: int| #[trigger]
            v.moved_body().contains(x) ==> x == v.new_head() || v.body.contains(x),
{
    let m = v.moved_body();
    assert forall|x: int| #[trigger] m.contains(x) implies x == v.new_head() || v.body.contains(x) by {
        let i = choose|i: int| 0 <= i < m.len() && m[i] == x;
        if i > 0 {
            assert(v.body[i - 1] == x);
        }
    }
}

/// Every operation keeps a world well formed.
pub proof fn lemma_wf_kept(v: WorldView, d: Direction, c: int)
    requires
        v.wf(),
    ensures
        v.started().wf(),
        v.with_direction(d).wf(),
        v.stepped().wf(),
        v.accepts_reward(c) ==> v.with_reward(c).wf(),
{
    lemma_wrap(v.head(), v.width);
    lemma_moved_cells(v);
    let h = v.new_head();
    let m = v.moved_body();
    if v.state == Some(GameState::Playing) {
        assert(0 <= h < v.size);
        assert forall|i: int| 0 <= i < m.len() implies 0 <= #[trigger] m[i] < v.size by {
            if i > 0 {
                assert(m[i] == v.body[i - 1]);
            }
        }
        if v.collides() {
            let k = choose|k: int| 0 <= k < m.drop_first().len() && m.drop_first()[k] == h;
            assert(v.body[k] == h);
            assert(v.body.contains(h));
        } else if v.reward_cell == Some(h) && v.body.len() < v.size {
            let g = m.push(v.body[v.body.len() - 2]);
            assert forall|i: int| 0 <= i < g.len() implies 0 <= #[trigger] g[i] < v.size by {
                if i < m.len() {
                    assert(g[i] == m[i]);
                }
            }
        }
    }
}

/// A snake on a wrapped square grid, with a reward cell, a score and the game's state.
pub struct World {
    width: usize,
    size: usize,
    snake: Snake,
    next_cell: Option<SnakeCell>,
    state: Option<GameState>,
    reward_cell: Option<usize>,
    points: usize,
}

impl View for World {
    type V = WorldView;

    closed spec fn view(&self) -> WorldView {
        WorldView {
            width: self.width as int,
            size: self.size as int,
            body: cell_indices(self.snake.body@),
            direction: self.snake.direction,
            next_cell: match self.next_cell {
                Some(c) => Some(c.0 as int),
                None => None,
            },
            state: self.state,
            reward_cell: match self.reward_cell {
                Some(c) => Some(c as int),
                None => None,
            },
            points: self.points as int,
        }
    }
}

impl World {
    pub open spec fn wf(&self) -> bool {
        self@.wf()
    }

    /// The cell that the head would reach by one move towards `direction`.
    pub fn generate_next_cell(&self, direction: &Direction) -> (r: SnakeCell)
        requires
            self.wf(),
        ensures
            r.0 == next_index(self@.head(), self@.width, *direction),
    {
        let h = self.snake.body[0].0;
        let w = self.width;
        let row = h / w;
        proof {
            assert(self@.head() == h as int);
            assert(0 <= self@.body[0] < self@.size);
            lemma_row_col(h as int, w as int);
            lemma_wrap(h as int, w as int);
            let c = h as int % w as int;
            assert((row + 1) * w <= w * w) by (nonlinear_arith)
                requires row < w;
            assert((row + 1) * w == row * w + w) by (nonlinear_arith);
            assert(row * w <= h);
            assert(row == 0 ==> row * w == 0) by (nonlinear_arith);
            assert(row == w - 1 ==> row * w == w * w - w) by (nonlinear_arith);
            if row + 1 < w {
                assert(row * w + w <= w * w - w) by (nonlinear_arith)
                    requires row + 1 < w, 0 < w;
            }
        }
        match direction {
            Direction::Right => {
                let threshold = (row + 1) * w;
                if h + 1 == threshold {
                    SnakeCell(threshold - w)
                } else {
                    SnakeCell(h + 1)
                }
            },
            Direction::Left => {
                let threshold = row * w;
                if h == threshold {
                    SnakeCell(threshold + w - 1)
                } else {
                    SnakeCell(h - 1)
                }
            },
            Direction::Up => {
                if row == 0 {
                    SnakeCell(self.size - w + h)
                } else {
                    SnakeCell(h - w)
                }
            },
            Direction::Down => {
                if row == w - 1 {
                    SnakeCell(h - (self.size - w))
                } else {
                    SnakeCell(h + w)
                }
            },
        }
    }

    /// Advances the world by one tick; nothing happens unless the game is being played.
    /// The head moves to the staged cell, or one cell on in its direction, and every other
    /// cell takes its predecessor's place. Landing on another cell of the snake loses the
    /// game. Landing on the reward cell scores a point, grows the snake by a cell at the
    /// place its second-to-last cell held, and leaves a new reward cell awaited; when the
    /// snake already fills the grid it wins the game instead.
    pub fn step(&mut self)
        requires
            old(self).wf(),
        ensures
            final(self).wf(),
            final(self)@ == old(self)@.stepped(),
    {
        match self.state {
            Some(GameState::Playing) => {},
            _ => {
                return;
            },
        }
        let ghost v = self@;
        proof {
            lemma_wf_kept(v, Direction::Up, 0);
            lemma_moved_cells(v);
        }
        let head = match self.next_cell {
            Some(cell) => cell,
            None => self.generate_next_cell(&self.snake.direction),
        };
        assert(head.0 == v.new_head());
        self.next_cell = None;
        let len = self.snake.body.len();
        let grow = self.snake.body[len - 2];
        let mut body: Vec<SnakeCell> = Vec::with_capacity(len);
        body.push(head);
        let mut i: usize = 0;
        while i + 1 < len
            invariant
                len == self.snake.body@.len(),
                2 <= len,
                i + 1 <= len,
                body@.len() == i + 1,
                body@[0] == head,
                forall|j: int| 1 <= j <= i ==> #[trigger] body@[j] == self.snake.body@[j - 1],
            decreases len - i,
        {
            body.push(self.snake.body[i]);
            i = i + 1;
        }
        assert(cell_indices(body@) =~= v.moved_body());
        self.snake.body = body;
        if occupies_from(&self.snake.body, 1, head.0) {
            assert(cell_indices(self.snake.body@).subrange(1, len as int) =~= v.moved_body().drop_first());
            self.state = Some(GameState::Lost);
            assert(self@ == v.stepped());
            return;
        }
        assert(cell_indices(self.snake.body@).subrange(1, len as int) =~= v.moved_body().drop_first());
        let landed = match self.reward_cell {
            Some(c) => c == head.0,
            None => false,
        };
        if landed {
            if len < self.size {
                self.points = self.points + 1;
                self.reward_cell = None;
                self.snake.body.push(grow);
                assert(cell_indices(self.snake.body@) =~= v.moved_body().push(v.body[len - 2]));
            } else {
                self.reward_cell = None;
                self.state = Some(GameState::Won);
            }
        }
        assert(self@ == v.stepped());
    }

    /// `candidate` as a reward cell when it lies in the first `max` cells and no cell of
    /// `snake_body` covers it.
    pub fn generate_reward_cell(max: usize, snake_body: &Vec<SnakeCell>, candidate: usize) -> (r:
        Option<usize>)
        ensures
            r == (if candidate < max && !cell_indices(snake_body@).contains(candidate as int) {
                Some(candidate)
            } else {
                None::<usize>
            }),
    {
        if candidate >= max {
            return None;
        }
        let taken = occupies_from(snake_body, 0, candidate);
        assert(cell_indices(snake_body@).subrange(0, snake_body@.len() as int) =~= cell_indices(
            snake_body@,
        ));
        if taken {
            None
        } else {
            Some(candidate)
        }
    }

    /// Whether a reward cell is awaited: none is placed and the game is not won.
    pub fn needs_reward_cell(&self) -> (r: bool)
        requires
            self.wf(),
        ensures
            r == self@.needs_reward(),
    {
        let won = match self.state {
            Some(GameState::Won) => true,
            _ => false,
        };
        self.reward_cell.is_none() && !won
    }

    /// Offers `draw`, a cell index drawn at random below `size()`, as the new reward cell.
    /// It is taken, and `true` returned, when a reward cell is awaited and no part of the
    /// snake covers `draw`; else nothing changes.
    pub fn place_reward_cell(&mut self, draw: usize) -> (placed: bool)
        requires
            old(self).wf(),
        ensures
            final(self).wf(),
            placed == old(self)@.accepts_reward(draw as int),
            final(self)@ == (if placed {
                old(self)@.with_reward(draw as int)
            } else {
                old(self)@
            }),
    {
        proof {
            lemma_wf_kept(self@, Direction::Up, draw as int);
        }
        if !self.needs_reward_cell() {
            return false;
        }
        match World::generate_reward_cell(self.size, &self.snake.body, draw) {
            Some(c) => {
                self.reward_cell = Some(c);
                true
            },
            None => false,
        }
    }

    /// A world on a `width` by `width` grid with a snake of three cells whose head is at
    /// `snake_start_idx` and whose body runs back through the two indices below it, facing
    /// up. The game has not started, and a reward cell is awaited.
    pub fn new(width: usize, snake_start_idx: usize) -> (w: World)
        requires
            2 <= width,
            width * width <= usize::MAX,
            2 <= snake_start_idx < width * width,
        ensures
            w.wf(),
            w@ == (WorldView {
                width: width as int,
                size: width * width,
                body: initial_body(snake_start_idx as int),
                direction: Direction::Up,
                next_cell: None,
                state: None,
                reward_cell: None,
                points: 0,
            }),
    {
        let size = width * width;
        assert(3 <= size) by (nonlinear_arith)
            requires 2 <= width, size == width * width;
        let snake = Snake::new(snake_start_idx, 3);
        let w = World {
            width,
            size,
            snake,
            next_cell: None,
            state: None,
            reward_cell: None,
            points: 0,
        };
        assert(w@.body =~= initial_body(snake_start_idx as int));
        w
    }

    pub fn game_state(&self) -> (r: Option<GameState>)
        ensures
            r == self@.state,
    {
        self.state
    }

    pub fn game_state_text(&self) -> (r: String)
        ensures
            r@ == state_text(self@.state),
    {
        match self.state {
            Some(GameState::Won) => "You have Won".to_owned(),
            Some(GameState::Lost) => "You have Lost".to_owned(),
            Some(GameState::Playing) => "You are Playing".to_owned(),
            None => "No State".to_owned(),
        }
    }

    pub fn points(&self) -> (r: usize)
        ensures
            r == self@.points,
    {
        self.points
    }

    /// Starts the game. Starting a game being played changes nothing, and a lost or won
    /// game stays over.
    pub fn start_game(&mut self)
        requires
            old(self).wf(),
        ensures
            final(self).wf(),
            final(self)@ == old(self)@.started(),
    {
        proof {
            lemma_wf_kept(self@, Direction::Up, 0);
        }
        match self.state {
            Some(GameState::Lost) => {},
            Some(GameState::Won) => {},
            _ => {
                self.state = Some(GameState::Playing);
            },
        }
    }

    /// The cells of the snake, head first.
    pub fn snake_cells(&self) -> (r: &[SnakeCell])
        ensures
            cell_indices(r@) == self@.body,
    {
        self.snake.body.as_slice()
    }

    pub fn snake_len(&self) -> (r: usize)
        ensures
            r == self@.body.len(),
    {
        self.snake.body.len()
    }

    /// Turns the snake towards `direction` from the next tick on, unless that move would
    /// take the head straight back onto the cell behind it, in which case nothing changes.
    pub fn set_snake_direction(&mut self, direction: Direction)
        requires
            old(self).wf(),
        ensures
            final(self).wf(),
            final(self)@ == old(self)@.with_direction(direction),
    {
        proof {
            lemma_wf_kept(self@, direction, 0);
        }
        let next_cell = self.generate_next_cell(&direction);
        if self.snake.body[1].0 == next_cell.0 {
            return;
        }
        self.next_cell = Some(next_cell);
        self.snake.direction = direction;
    }

    pub fn width(&self) -> (r: usize)
        ensures
            r == self@.width,
    {
        self.width
    }

    /// Number of cells of the grid.
    pub fn size(&self) -> (r: usize)
        ensures
            r == self@.size,
    {
        self.size
    }

    pub fn reward_cell(&self) -> (r: Option<usize>)
        ensures
            r matches Some(c) ==> self@.reward_cell == Some(c as int),
            r is None ==> self@.reward_cell is None,
    {
        self.reward_cell
    }

    pub fn snake_head_idx(&self) -> (r: usize)
        requires
            self.wf(),
        ensures
            r == self@.head(),
    {
        self.snake.body[0].0
    }
}

} // verus!

//! The game state: a rectangular board of tiles, a snake (an ordered list of
//! cell positions, head first), a single food cell, and the tick-based rules
//! that advance them.
use vstd::prelude::*;

verus! {

/// The direction the snake travels in. `Stationary` is the state before the
/// first input; it is never a valid argument to `change_direction`.
#[derive(Clone, Copy, Debug, PartialEq, Eq, Structural)]
pub enum Direction {
    Stationary,
    Right,
    Left,
    Up,
    Down,
}

/// What one board cell holds.
#[derive(Clone, Copy, Debug, PartialEq, Eq, Structural)]
pub enum Tile {
    Empty,
    Food,
    SnakeBody,
    SnakeHead,
}

/// A cell position: `x` is the column, `y` the row, both 0-indexed.
#[derive(Clone, Copy, Debug, PartialEq, Eq, Structural)]
pub struct Pos {
    pub x: usize,
    pub y: usize,
}

/// The snake: its segments, head first, tail last, and its travel direction.
pub struct Snake {
    pub tiles: Vec<Pos>,
    pub direction: Direction,
}

/// The whole game state. The board is a flat row-major array of
/// `rows * cols` tiles; a cell `(x, y)` lives at index `y * cols + x`.
pub struct Game {
    pub board: Vec<Tile>,
    pub cols: usize,
    pub rows: usize,

    pub board_width: usize,
    pub board_height: usize,

    pub board_size: usize,

    // each tile is a square
    pub tile_size: usize,

    pub snake: Snake,

    pub food_location: usize,
}

/// One drawable cell for the renderer: its column, its row, and the index
/// of the color class it is painted with.
#[derive(Clone, Copy, Debug, PartialEq, Eq, Structural)]
pub struct RenderCell {
    pub col: usize,
    pub row: usize,
    pub coloridx: u32,
}

/// The color class a tile is painted with: snake head and body share
/// class 0, empty background is class 1, food is class 2.
pub open spec fn color_class(t: Tile) -> u32 {
    match t {
        Tile::Empty => 1u32,
        Tile::Food => 2u32,
        Tile::SnakeBody => 0u32,
        Tile::SnakeHead => 0u32,
    }
}

/// Row-major index of a position on a board with `cols` columns.
pub open spec fn cell_index(p: Pos, cols: int) -> int {
    p.y * cols + p.x
}

/// Some position of the sequence has flat index `c` on a board with `cols`
/// columns.
pub open spec fn occupies(tiles: Seq<Pos>, cols: int, c: int) -> bool {
    exists|i: int| 0 <= i < tiles.len() && cell_index(#[trigger] tiles[i], cols) == c
}

/// Column of the cell a snake with these segments grows into: one step
/// past the tail, away from the segment before it; with a single segment,
/// the cell to the right.
pub open spec fn growth_x_of(m: Seq<Pos>) -> int {
    if m.len() == 1 {
        m[0].x + 1
    } else {
        2 * m[m.len() - 1].x - m[m.len() - 2].x
    }
}

/// Row of the cell a snake with these segments grows into.
pub open spec fn growth_y_of(m: Seq<Pos>) -> int {
    if m.len() == 1 {
        m[0].y as int
    } else {
        2 * m[m.len() - 1].y - m[m.len() - 2].y
    }
}

/// Column of the cell the head would move to: one step from `p` in
/// direction `d`, as an unbounded integer.
pub open spec fn step_target_x(p: Pos, d: Direction) -> int {
    match d {
        Direction::Stationary => p.x as int,
        Direction::Right => p.x + 1,
        Direction::Left => p.x - 1,
        Direction::Up => p.x as int,
        Direction::Down => p.x as int,
    }
}

/// Row of the cell the head would move to: one step from `p` in
/// direction `d`, as an unbounded integer.
pub open spec fn step_target_y(p: Pos, d: Direction) -> int {
    match d {
        Direction::Stationary => p.y as int,
        Direction::Right => p.y as int,
        Direction::Left => p.y as int,
        Direction::Up => p.y + 1,
        Direction::Down => p.y - 1,
    }
}

/// One step from `p` in direction `d` lands exactly on cell `q`.
pub open spec fn targets(p: Pos, d: Direction, q: Pos) -> bool {
    q.x == step_target_x(p, d) && q.y == step_target_y(p, d)
}

impl Game {
    /// The head segment.
    pub open spec fn head(self) -> Pos {
        self.snake.tiles@[0]
    }

    /// Number of cells of the board.
    pub open spec fn cell_count(self) -> int {
        self.rows * self.cols
    }

    /// The position lies on the board.
    pub open spec fn in_bounds(self, p: Pos) -> bool {
        p.x < self.cols && p.y < self.rows
    }

    /// The board geometry is valid and derived from the stored pixel
    /// dimensions: at least one column and one row, at least two cells in
    /// all (so a food cell distinct from the head exists), and the flat
    /// array is addressable.
    pub open spec fn geometry_wf(self) -> bool {
        &&& self.tile_size >= 1
        &&& self.cols == self.board_width as int / self.tile_size as int
        &&& self.rows == self.board_height as int / self.tile_size as int
        &&& self.cols >= 1
        &&& self.rows >= 1
        &&& self.cell_count() >= 2
        &&& self.cell_count() <= usize::MAX
        &&& self.board_size == self.cell_count()
    }

    /// Structural well-formedness: valid geometry, a board of the right
    /// length, a nonempty snake whose segments all lie on the board, and a
    /// food index inside the board.
    pub open spec fn wf(self) -> bool {
        &&& self.geometry_wf()
        &&& self.board@.len() == self.cell_count()
        &&& self.snake.tiles@.len() >= 1
        &&& forall|i: int|
            0 <= i < self.snake.tiles@.len() ==> self.in_bounds(#[trigger] self.snake.tiles@[i])
        &&& self.food_location < self.cell_count()
    }

    /// Some snake segment occupies the board cell with flat index `c`.
    pub open spec fn snake_at(self, c: int) -> bool {
        occupies(self.snake.tiles@, self.cols as int, c)
    }

    /// No two snake segments share a position.
    pub open spec fn distinct_snake(self) -> bool {
        forall|i: int, j: int|
            0 <= i < j < self.snake.tiles@.len() ==> self.snake.tiles@[i] != self.snake.tiles@[j]
    }

    /// The head sits on the same cell as some other segment. A state like
    /// this loses the game on the next tick.
    pub open spec fn self_collision(self) -> bool {
        exists|j: int|
            1 <= j < self.snake.tiles@.len() && #[trigger] self.snake.tiles@[j]
                == self.snake.tiles@[0]
    }

    /// The food cell is not occupied by any snake segment.
    pub open spec fn food_free(self) -> bool {
        forall|i: int|
            0 <= i < self.snake.tiles@.len() ==> cell_index(
                #[trigger] self.snake.tiles@[i],
                self.cols as int,
            ) != self.food_location
    }

    /// The board array is the exact picture of the snake and the food: the
    /// head cell holds `SnakeHead`, every other segment's cell holds
    /// `SnakeBody`, the food cell holds `Food`, and every remaining cell is
    /// `Empty`.
    pub open spec fn board_matches(self) -> bool {
        &&& self.board@[self.food_location as int] == Tile::Food
        &&& self.board@[cell_index(self.head(), self.cols as int)] == Tile::SnakeHead
        &&& forall|i: int|
            1 <= i < self.snake.tiles@.len() ==> self.board@[cell_index(
                #[trigger] self.snake.tiles@[i],
                self.cols as int,
            )] == Tile::SnakeBody
        &&& forall|c: int|
            0 <= c < self.board@.len() && c != self.food_location && !self.snake_at(c)
                ==> self.board@[c] == Tile::Empty
    }

    /// Full consistency: well-formed, no overlapping segments, food off the
    /// snake, and a board that pictures both.
    pub open spec fn consistent(self) -> bool {
        &&& self.wf()
        &&& self.distinct_snake()
        &&& self.food_free()
        &&& self.board_matches()
    }

    /// The states reachable between ticks: either fully consistent, or the
    /// head has just moved onto a body segment, which the next call of
    /// `update` reports as a loss before touching anything.
    pub open spec fn inv(self) -> bool {
        self.consistent() || (self.wf() && self.self_collision())
    }

    /// One step ahead lies off the board. Only meaningful while the snake
    /// moves; `Stationary` never walks into a wall.
    pub open spec fn hits_wall(self) -> bool {
        match self.snake.direction {
            Direction::Stationary => false,
            Direction::Right => self.head().x == self.cols - 1,
            Direction::Left => self.head().x == 0,
            Direction::Up => self.head().y == self.rows - 1,
            Direction::Down => self.head().y == 0,
        }
    }

    /// The cell the head moves to next. Meaningful when the step stays on
    /// the board, i.e. under `!hits_wall()`.
    pub open spec fn next_head(self) -> Pos {
        Pos {
            x: step_target_x(self.head(), self.snake.direction) as usize,
            y: step_target_y(self.head(), self.snake.direction) as usize,
        }
    }

    /// The next step lands on the food cell.
    pub open spec fn eats(self) -> bool {
        cell_index(self.next_head(), self.cols as int) == self.food_location
    }

    /// The segments after one step: the new head in front, everything else
    /// shifted toward the tail, the old tail position dropped.
    pub open spec fn moved_tiles(self) -> Seq<Pos> {
        seq![self.next_head()] + self.snake.tiles@.take(self.snake.tiles@.len() - 1)
    }

    /// The board after one step, before any growth or food placement: the
    /// vacated tail cell cleared, the old head cell demoted to body (when a
    /// body exists), the new head cell marked.
    pub open spec fn board_after_move(self) -> Seq<Tile> {
        let cols = self.cols as int;
        let tiles = self.snake.tiles@;
        let b1 = self.board@.update(cell_index(tiles[tiles.len() - 1], cols), Tile::Empty);
        let b2 = if tiles.len() > 1 {
            b1.update(cell_index(self.head(), cols), Tile::SnakeBody)
        } else {
            b1
        };
        b2.update(cell_index(self.next_head(), cols), Tile::SnakeHead)
    }

    /// Column of the cell a new segment grows into after eating.
    pub open spec fn growth_x(self) -> int {
        growth_x_of(self.moved_tiles())
    }

    /// Row of the cell a new segment grows into after eating.
    pub open spec fn growth_y(self) -> int {
        growth_y_of(self.moved_tiles())
    }

    /// The growth cell lies on the board and is empty after the step, so
    /// the snake can actually grow there.
    pub open spec fn grow_fits(self) -> bool {
        &&& 0 <= self.growth_x() < self.cols
        &&& 0 <= self.growth_y() < self.rows
        &&& self.board_after_move()[self.growth_y() * self.cols + self.growth_x()] == Tile::Empty
    }

    /// The segments after a step that eats: grown by one at the tail when
    /// the growth cell is available, unchanged in length otherwise.
    pub open spec fn grown_tiles(self) -> Seq<Pos> {
        if self.grow_fits() {
            self.moved_tiles().push(
                Pos { x: self.growth_x() as usize, y: self.growth_y() as usize },
            )
        } else {
            self.moved_tiles()
        }
    }

    /// The board after a step that eats and after growth, before the new
    /// food is placed.
    pub open spec fn board_after_growth(self) -> Seq<Tile> {
        if self.grow_fits() {
            self.board_after_move().update(
                self.growth_y() * self.cols + self.growth_x(),
                Tile::SnakeBody,
            )
        } else {
            self.board_after_move()
        }
    }

    /// The step eats the food and afterwards no empty cell remains to put
    /// new food on: the snake has filled the board.
    pub open spec fn food_trapped(self) -> bool {
        self.eats() && forall|c: int|
            0 <= c < self.board_after_growth().len() ==> self.board_after_growth()[c]
                != Tile::Empty
    }

    /// Whether a tick of `update` keeps the game alive: the snake is not
    /// yet moving, or it neither walks into a wall, nor already sits on its
    /// own body, nor fills the board by eating the last free cell.
    pub open spec fn tick_survives(self) -> bool {
        self.snake.direction == Direction::Stationary || (!self.hits_wall()
            && !self.self_collision() && !self.food_trapped())
    }

    /// A freshly constructed state for the stored geometry: a single
    /// segment at the center cell, direction not yet chosen, food somewhere
    /// else, and a board picturing exactly that.
    pub open spec fn initial_state(self) -> bool {
        &&& self.geometry_wf()
        &&& self.board@.len() == self.cell_count()
        &&& self.snake.tiles@.len() == 1
        &&& self.head() == (Pos { x: (self.cols as int / 2) as usize, y: (self.rows as int / 2) as usize })
        &&& self.snake.direction == Direction::Stationary
        &&& self.food_location < self.cell_count()
        &&& self.food_location != cell_index(self.head(), self.cols as int)
        &&& self.board@[self.food_location as int] == Tile::Food
        &&& self.board@[cell_index(self.head(), self.cols as int)] == Tile::SnakeHead
        &&& forall|c: int|
            0 <= c < self.board@.len() && c != self.food_location && c != cell_index(
                self.head(),
                self.cols as int,
            ) ==> self.board@[c] == Tile::Empty
    }
}

/// A position on a `rows x cols` board has a flat index inside the array.
pub proof fn lemma_cell_index_in_range(p: Pos, cols: int, rows: int)
    requires
        cols >= 1,
        rows >= 1,
        p.x < cols,
        p.y < rows,
    ensures
        0 <= cell_index(p, cols) < rows * cols,
{
    assert(p.y * cols + p.x < rows * cols) by (nonlinear_arith)
        requires
            cols >= 1,
            p.x < cols,
            p.y < rows,
    ;
    assert(p.y * cols + p.x >= 0) by (nonlinear_arith)
        requires
            cols >= 1,
            p.x >= 0,
            p.y >= 0,
    ;
}

/// Two in-bounds positions with the same flat index are the same position.
pub proof fn lemma_cell_index_injective(p: Pos, q: Pos, cols: int)
    requires
        cols >= 1,
        p.x < cols,
        q.x < cols,
        cell_index(p, cols) == cell_index(q, cols),
    ensures
        p == q,
{
    assert(p.x == q.x && p.y == q.y) by (nonlinear_arith)
        requires
            cols >= 1,
            p.x < cols,
            q.x < cols,
            p.y * cols + p.x == q.y * cols + q.x,
    ;
}

/// Translate a position one tile in the given direction.
fn move_in_direction(tile: Pos, direction: Direction) -> (r: Pos)
    requires
        direction == Direction::Left ==> tile.x >= 1,
        direction == Direction::Down ==> tile.y >= 1,
        direction == Direction::Right ==> tile.x + 1 <= usize::MAX,
        direction == Direction::Up ==> tile.y + 1 <= usize::MAX,
    ensures
        r.x == step_target_x(tile, direction),
        r.y == step_target_y(tile, direction),
{
    match direction {
        Direction::Stationary => tile,
        Direction::Right => Pos { x: tile.x + 1, y: tile.y },
        Direction::Left => Pos { x: tile.x - 1, y: tile.y },
        Direction::Up => Pos { x: tile.x, y: tile.y + 1 },
        Direction::Down => Pos { x: tile.x, y: tile.y - 1 },
    }
}

/// Why a game could not be constructed.
#[derive(Clone, Copy, Debug, PartialEq, Eq, Structural)]
pub enum ConfigError {
    /// The tile size is zero, or a board dimension is smaller than one tile.
    ZeroSize,
    /// The board has a single cell, so no food cell disjoint from the snake
    /// exists.
    BoardTooSmall,
    /// The tile count `rows * cols` does not fit in a `usize`.
    BoardTooLarge,
}

impl Game {
    /// Pick a food cell uniformly among the `Empty` cells of the board.
    fn generate_new_food(board: &Vec<Tile>) -> (r: usize)
        requires
            exists|c: int| 0 <= c < board@.len() && board@[c] == Tile::Empty,
        ensures
            r < board@.len(),
            board@[r as int] == Tile::Empty,
    {
        let candidates = empty_cells(board);
        proof {
            let w = choose|c: int| 0 <= c < board@.len() && board@[c] == Tile::Empty;
            assert(candidates@.contains(w as usize));
        }
        let k = pick_index(candidates.len());
        candidates[k]
    }

    /// The snake's current travel direction.
    pub fn current_direction(&self) -> (d: Direction)
        ensures
            d == self.snake.direction,
    {
        self.snake.direction
    }

    /// Build a fresh game for a board of `board_width` by `board_height`
    /// pixels cut into square tiles of `tile_size` pixels: `cols` and
    /// `rows` are the dimensions divided by the tile size, rounded down.
    /// The snake starts as a single segment at the center cell, not yet
    /// moving, and the food is placed uniformly at random among the empty
    /// cells. Construction fails exactly when the geometry leaves no valid
    /// board: a zero dimension or tile size, a single-cell board, or a tile
    /// count beyond `usize`.
    pub fn new(board_width: usize, board_height: usize, tile_size: usize) -> (r: Result<
        Game,
        ConfigError,
    >)
        ensures
            ({
                let cols = board_width as int / tile_size as int;
                let rows = board_height as int / tile_size as int;
                &&& r is Ok <==> (tile_size >= 1 && cols >= 1 && rows >= 1 && 2 <= rows * cols
                    <= usize::MAX)
                &&& tile_size == 0 || (tile_size >= 1 && (cols == 0 || rows == 0)) ==> r
                    == Result::<Game, ConfigError>::Err(ConfigError::ZeroSize)
                &&& tile_size >= 1 && cols >= 1 && rows >= 1 && rows * cols > usize::MAX ==> r
                    == Result::<Game, ConfigError>::Err(ConfigError::BoardTooLarge)
                &&& tile_size >= 1 && cols >= 1 && rows >= 1 && rows * cols < 2 ==> r
                    == Result::<Game, ConfigError>::Err(ConfigError::BoardTooSmall)
                &&& r matches Ok(g) ==> {
                    &&& g.board_width == board_width
                    &&& g.board_height == board_height
                    &&& g.tile_size == tile_size
                    &&& g.cols == cols
                    &&& g.rows == rows
                    &&& g.initial_state()
                    &&& g.consistent()
                }
            }),
    {
        if tile_size == 0 {
            return Err(ConfigError::ZeroSize);
        }
        let cols = board_width / tile_size;
        let rows = board_height / tile_size;
        if cols == 0 || rows == 0 {
            return Err(ConfigError::ZeroSize);
        }
        if cols > usize::MAX / rows {
            proof {
                assert(rows * cols > usize::MAX) by (nonlinear_arith)
                    requires
                        rows >= 1,
                        cols > usize::MAX as int / rows as int,
                ;
            }
            return Err(ConfigError::BoardTooLarge);
        }
        proof {
            assert(rows * cols <= usize::MAX) by (nonlinear_arith)
                requires
                    rows >= 1,
                    cols <= usize::MAX as int / rows as int,
            ;
        }
        let board_size = rows * cols;
        if board_size < 2 {
            return Err(ConfigError::BoardTooSmall);
        }

        // Make starting tile the center tile
        let starting_col = cols / 2;
        let starting_row = rows / 2;
        let ghost start_pos = Pos { x: starting_col, y: starting_row };
        proof {
            lemma_cell_index_in_range(start_pos, cols as int, rows as int);
        }
        let starting_tile = starting_row * cols + starting_col;

        let snake = Snake {
            tiles: vec![Pos { x: starting_col, y: starting_row }],
            direction: Direction::Stationary,
        };

        let mut board: Vec<Tile> = filled_board(board_size);
        board.set(starting_tile, Tile::SnakeHead);

        proof {
            let other: int = if starting_tile == 0 {
                1
            } else {
                0
            };
            assert(board@[other] == Tile::Empty);
        }
        let food_location = Self::generate_new_food(&board);
        board.set(food_location, Tile::Food);

        let g = Game {
            board_size,
            board_width,
            board_height,
            board,
            tile_size,
            rows,
            cols,
            snake,
            food_location,
        };
        proof {
            assert(g.head() == start_pos);
            assert(g.snake.tiles@.len() == 1);
            assert forall|c: int|
                0 <= c < g.board@.len() && c != g.food_location && !g.snake_at(c) implies g.board@[c]
                == Tile::Empty by {}
            assert(g.initial_state());
            assert(g.consistent());
        }
        Ok(g)
    }
}

/// After a legal step — moving, no wall ahead, no standing self-collision
/// — the shifted segments and the rewritten board correspond exactly: the
/// new head cell is marked, every surviving body cell is marked, every
/// cell off the snake (and off the food, when the step does not eat) is
/// empty, and a step onto the food cannot land on the snake itself.
proof fn lemma_step_facts(g0: Game)
    requires
        g0.consistent(),
        g0.snake.direction != Direction::Stationary,
        !g0.hits_wall(),
        !g0.self_collision(),
    ensures
        g0.in_bounds(g0.next_head()),
        g0.moved_tiles().len() == g0.snake.tiles@.len(),
        g0.moved_tiles()[0] == g0.next_head(),
        forall|i: int|
            1 <= i < g0.moved_tiles().len() ==> #[trigger] g0.moved_tiles()[i]
                == g0.snake.tiles@[i - 1],
        forall|i: int|
            0 <= i < g0.moved_tiles().len() ==> g0.in_bounds(#[trigger] g0.moved_tiles()[i]),
        forall|i: int, j: int|
            1 <= i < j < g0.moved_tiles().len() ==> g0.moved_tiles()[i] != g0.moved_tiles()[j],
        g0.board_after_move().len() == g0.board@.len(),
        g0.board_after_move()[cell_index(g0.moved_tiles()[0], g0.cols as int)]
            == Tile::SnakeHead,
        forall|i: int|
            1 <= i < g0.moved_tiles().len() && #[trigger] g0.moved_tiles()[i]
                != g0.moved_tiles()[0] ==> g0.board_after_move()[cell_index(
                g0.moved_tiles()[i],
                g0.cols as int,
            )] == Tile::SnakeBody,
        forall|c: int|
            0 <= c < g0.board_after_move().len() && !occupies(g0.moved_tiles(), g0.cols as int, c)
                && c != g0.food_location ==> #[trigger] g0.board_after_move()[c] == Tile::Empty,
        !g0.eats() ==> g0.board_after_move()[g0.food_location as int] == Tile::Food,
        g0.eats() ==> forall|i: int|
            1 <= i < g0.moved_tiles().len() ==> #[trigger] g0.moved_tiles()[i]
                != g0.moved_tiles()[0],
{
    let tiles = g0.snake.tiles@;
    let l = tiles.len() as int;
    let cols = g0.cols as int;
    let rows = g0.rows as int;
    let h = g0.head();
    let nh = g0.next_head();
    let m = g0.moved_tiles();
    let b = g0.board_after_move();

    assert(g0.cols <= g0.rows * g0.cols) by (nonlinear_arith)
        requires
            g0.rows >= 1,
            g0.cols >= 0,
    ;
    assert(g0.rows <= g0.rows * g0.cols) by (nonlinear_arith)
        requires
            g0.cols >= 1,
            g0.rows >= 0,
    ;
    assert(g0.in_bounds(h));
    assert(g0.in_bounds(tiles[l - 1]));
    assert(g0.in_bounds(nh));

    let ti = cell_index(tiles[l - 1], cols);
    let hi = cell_index(tiles[0], cols);
    let ni = cell_index(nh, cols);
    lemma_cell_index_in_range(tiles[l - 1], cols, rows);
    lemma_cell_index_in_range(h, cols, rows);
    lemma_cell_index_in_range(nh, cols, rows);

    assert forall|i: int| 0 <= i < l implies g0.in_bounds(#[trigger] m[i]) by {
        if i >= 1 {
            assert(m[i] == tiles[i - 1]);
            assert(g0.in_bounds(tiles[i - 1]));
        }
    }

    assert(b[cell_index(m[0], cols)] == Tile::SnakeHead);

    assert forall|i: int|
        1 <= i < l && #[trigger] m[i] != m[0] implies b[cell_index(m[i], cols)]
        == Tile::SnakeBody by {
        let p = tiles[i - 1];
        let c = cell_index(p, cols);
        lemma_cell_index_in_range(p, cols, rows);
        if c == ni {
            lemma_cell_index_injective(p, nh, cols);
        }
        assert(c != ni);
        if i == 1 {
            assert(l > 1);
            assert(c == hi);
        } else {
            if c == hi {
                lemma_cell_index_injective(p, tiles[0], cols);
            }
            if c == ti {
                lemma_cell_index_injective(p, tiles[l - 1], cols);
            }
            assert(g0.board@[c] == Tile::SnakeBody);
        }
    }

    assert forall|c: int|
        0 <= c < b.len() && !occupies(m, cols, c) && c != g0.food_location implies #[trigger] b[c]
        == Tile::Empty by {
        assert(cell_index(m[0], cols) != c);
        if c == ti {
            if l > 1 && hi == c {
                lemma_cell_index_injective(tiles[0], tiles[l - 1], cols);
            }
        } else {
            assert(!g0.snake_at(c)) by {
                if g0.snake_at(c) {
                    let j = choose|j: int|
                        0 <= j < tiles.len() && cell_index(#[trigger] tiles[j], cols) == c;
                    if j == l - 1 {
                        assert(c == ti);
                    } else {
                        assert(m[j + 1] == tiles[j]);
                        assert(cell_index(m[j + 1], cols) == c);
                        assert(occupies(m, cols, c));
                    }
                }
            }
            assert(g0.board@[c] == Tile::Empty);
            if l > 1 && hi == c {
                assert(m[1] == tiles[0]);
                assert(cell_index(m[1], cols) == c);
                assert(occupies(m, cols, c));
            }
        }
    }

    if !g0.eats() {
        assert(g0.food_location != ni);
        assert(cell_index(tiles[l - 1], cols) != g0.food_location);
        assert(cell_index(tiles[0], cols) != g0.food_location);
        assert(b[g0.food_location as int] == Tile::Food);
    }

    if g0.eats() {
        assert forall|i: int| 1 <= i < l implies #[trigger] m[i] != m[0] by {
            assert(cell_index(tiles[i - 1], cols) != g0.food_location);
            assert(cell_index(m[0], cols) == g0.food_location);
        }
    }
}

/// A step that does not eat leaves the state well-formed; when the head
/// landed on a free cell the state is fully consistent, and otherwise it
/// is exactly the transient self-collision form that the next tick
/// reports as a loss.
proof fn lemma_step_no_eat(g0: Game, g1: Game)
    requires
        g0.consistent(),
        g0.snake.direction != Direction::Stationary,
        !g0.hits_wall(),
        !g0.self_collision(),
        !g0.eats(),
        g1.snake.tiles@ == g0.moved_tiles(),
        g1.board@ == g0.board_after_move(),
        g1.food_location == g0.food_location,
        g1.cols == g0.cols,
        g1.rows == g0.rows,
        g1.board_width == g0.board_width,
        g1.board_height == g0.board_height,
        g1.board_size == g0.board_size,
        g1.tile_size == g0.tile_size,
    ensures
        g1.wf(),
        g1.inv(),
        !g1.self_collision() ==> g1.consistent(),
{
    lemma_step_facts(g0);
    let m = g0.moved_tiles();
    let cols = g0.cols as int;
    assert forall|i: int|
        0 <= i < g1.snake.tiles@.len() implies g1.in_bounds(#[trigger] g1.snake.tiles@[i]) by {
        assert(g0.in_bounds(m[i]));
    }
    assert(g1.wf());
    if !g1.self_collision() {
        assert forall|i: int, j: int|
            0 <= i < j < g1.snake.tiles@.len() implies g1.snake.tiles@[i]
            != g1.snake.tiles@[j] by {
            if i == 0 && m[j] == m[0] {
                assert(g1.snake.tiles@[j] == g1.snake.tiles@[0]);
                assert(g1.self_collision());
            }
        }
        assert forall|i: int|
            0 <= i < g1.snake.tiles@.len() implies cell_index(
            #[trigger] g1.snake.tiles@[i],
            g1.cols as int,
        ) != g1.food_location by {
            if i >= 1 {
                assert(m[i] == g0.snake.tiles@[i - 1]);
                assert(cell_index(g0.snake.tiles@[i - 1], cols) != g0.food_location);
            }
        }
        assert(g1.board@[cell_index(g1.head(), g1.cols as int)] == Tile::SnakeHead);
        assert forall|i: int|
            1 <= i < g1.snake.tiles@.len() implies g1.board@[cell_index(
            #[trigger] g1.snake.tiles@[i],
            g1.cols as int,
        )] == Tile::SnakeBody by {
            assert(m[i] != m[0]);
        }
        assert(g1.board@[g1.food_location as int] == Tile::Food);
        assert forall|c: int|
            0 <= c < g1.board@.len() && c != g1.food_location && !g1.snake_at(c) implies g1.board@[c]
            == Tile::Empty by {
            assert(!occupies(m, cols, c));
        }
        assert(g1.consistent());
    }
}

/// A step that eats yields a fully consistent state again: the head took
/// the food cell, the grown segment (when one fits) took an empty cell,
/// and the new food cell was empty after both.
proof fn lemma_step_eat(g0: Game, g1: Game)
    requires
        g0.consistent(),
        g0.snake.direction != Direction::Stationary,
        !g0.hits_wall(),
        !g0.self_collision(),
        g0.eats(),
        g1.food_location < g0.cell_count(),
        g0.board_after_growth()[g1.food_location as int] == Tile::Empty,
        g1.snake.tiles@ == g0.grown_tiles(),
        g1.board@ == g0.board_after_growth().update(g1.food_location as int, Tile::Food),
        g1.cols == g0.cols,
        g1.rows == g0.rows,
        g1.board_width == g0.board_width,
        g1.board_height == g0.board_height,
        g1.board_size == g0.board_size,
        g1.tile_size == g0.tile_size,
    ensures
        g1.consistent(),
{
    lemma_step_facts(g0);
    let m = g0.moved_tiles();
    let cols = g0.cols as int;
    let rows = g0.rows as int;
    let b = g0.board_after_move();
    let bg = g0.board_after_growth();
    let gt = g0.grown_tiles();
    let fl = g1.food_location as int;
    let ni = cell_index(m[0], cols);

    assert forall|i: int|
        0 <= i < m.len() implies b[cell_index(#[trigger] m[i], cols)] != Tile::Empty by {
        if i >= 1 {
            assert(m[i] != m[0]);
        }
    }

    if g0.grow_fits() {
        let gp = Pos { x: g0.growth_x() as usize, y: g0.growth_y() as usize };
        let gi = cell_index(gp, cols);
        assert(gi == g0.growth_y() * cols + g0.growth_x());
        lemma_cell_index_in_range(gp, cols, rows);
        assert(b[gi] == Tile::Empty);
        assert forall|i: int| 0 <= i < m.len() implies #[trigger] m[i] != gp by {
            if m[i] == gp {
                assert(b[cell_index(m[i], cols)] != Tile::Empty);
            }
        }
        assert(gt == m.push(gp));
        assert(gt[gt.len() - 1] == gp);
        assert(bg == b.update(gi, Tile::SnakeBody));
        assert(ni != gi);
        // every cell of the grown snake is non-empty after growth
        assert forall|i: int|
            0 <= i < gt.len() implies bg[cell_index(#[trigger] gt[i], cols)] != Tile::Empty by {
            if i < m.len() {
                assert(gt[i] == m[i]);
                assert(g0.in_bounds(m[i]));
                lemma_cell_index_in_range(m[i], cols, rows);
                if cell_index(m[i], cols) == gi {
                    lemma_cell_index_injective(m[i], gp, cols);
                }
            } else {
                assert(gt[i] == gp);
            }
        }
    } else {
        assert(gt == m);
        assert(bg == b);
        assert forall|i: int|
            0 <= i < gt.len() implies bg[cell_index(#[trigger] gt[i], cols)] != Tile::Empty by {
            assert(gt[i] == m[i]);
        }
    }

    // well-formed
    assert forall|i: int|
        0 <= i < g1.snake.tiles@.len() implies g1.in_bounds(#[trigger] g1.snake.tiles@[i]) by {
        if i < m.len() {
            assert(gt[i] == m[i]);
            assert(g0.in_bounds(m[i]));
        } else {
            assert(g0.grow_fits());
        }
    }
    assert(g1.wf());

    // no two segments share a cell
    assert forall|i: int, j: int|
        0 <= i < j < g1.snake.tiles@.len() implies g1.snake.tiles@[i] != g1.snake.tiles@[j] by {
        if j < m.len() {
            if i >= 1 {
                assert(m[i] != m[j]);
            } else {
                assert(m[j] != m[0]);
            }
        }
    }

    // the new food cell is off the snake
    assert forall|i: int|
        0 <= i < g1.snake.tiles@.len() implies cell_index(
        #[trigger] g1.snake.tiles@[i],
        g1.cols as int,
    ) != g1.food_location by {
        assert(bg[cell_index(gt[i], cols)] != Tile::Empty);
        assert(bg[fl] == Tile::Empty);
    }

    // the board pictures the grown snake and the new food
    assert(bg[cell_index(gt[0], cols)] != Tile::Empty);
    assert(fl != ni);
    assert(g1.board@[cell_index(g1.head(), g1.cols as int)] == Tile::SnakeHead);
    assert forall|i: int|
        1 <= i < g1.snake.tiles@.len() implies g1.board@[cell_index(
        #[trigger] g1.snake.tiles@[i],
        g1.cols as int,
    )] == Tile::SnakeBody by {
        let c = cell_index(gt[i], cols);
        assert(bg[c] != Tile::Empty);
        assert(c != fl);
        if i < m.len() {
            assert(gt[i] == m[i]);
            assert(g0.in_bounds(m[i]));
            lemma_cell_index_in_range(m[i], cols, rows);
            assert(m[i] != m[0]);
            assert(b[c] == Tile::SnakeBody);
            if g0.grow_fits() {
                let gp = Pos { x: g0.growth_x() as usize, y: g0.growth_y() as usize };
                if c == cell_index(gp, cols) {
                    lemma_cell_index_injective(m[i], gp, cols);
                    assert(b[c] == Tile::Empty);
                }
            }
        } else {
            assert(g0.grow_fits());
            let gp = Pos { x: g0.growth_x() as usize, y: g0.growth_y() as usize };
            assert(gt[i] == gp);
            lemma_cell_index_in_range(gp, cols, rows);
            assert(bg[c] == Tile::SnakeBody);
        }
    }
    assert(g1.board@[g1.food_location as int] == Tile::Food);
    assert forall|c: int|
        0 <= c < g1.board@.len() && c != g1.food_location && !g1.snake_at(c) implies g1.board@[c]
        == Tile::Empty by {
        assert(!occupies(gt, cols, c));
        assert(cell_index(gt[0], cols) != c);
        assert(!occupies(m, cols, c)) by {
            if occupies(m, cols, c) {
                let i = choose|i: int| 0 <= i < m.len() && cell_index(#[trigger] m[i], cols) == c;
                assert(gt[i] == m[i]);
                assert(cell_index(gt[i], cols) == c);
                assert(occupies(gt, cols, c));
            }
        }
        assert(c != g0.food_location);
        assert(b[c] == Tile::Empty);
        if g0.grow_fits() {
            let gp = Pos { x: g0.growth_x() as usize, y: g0.growth_y() as usize };
            assert(cell_index(gt[gt.len() - 1], cols) != c);
            assert(cell_index(gp, cols) != c);
        }
        assert(bg[c] == Tile::Empty);
    }
    assert(g1.consistent());
}

/// A step moves, never stretches: the snake keeps its segment count, the
/// stepped-to cell is marked as the head, the vacated tail cell becomes
/// empty (unless the head stepped right into it), and the old head cell
/// is demoted to body whenever a body exists.
pub proof fn lemma_plain_move_board(g: Game)
    requires
        g.consistent(),
        g.snake.direction != Direction::Stationary,
        !g.hits_wall(),
        !g.self_collision(),
    ensures
        g.moved_tiles().len() == g.snake.tiles@.len(),
        g.board_after_move()[cell_index(g.next_head(), g.cols as int)] == Tile::SnakeHead,
        g.next_head() != g.snake.tiles@[g.snake.tiles@.len() - 1]
            ==> g.board_after_move()[cell_index(
            g.snake.tiles@[g.snake.tiles@.len() - 1],
            g.cols as int,
        )] == Tile::Empty,
        g.snake.tiles@.len() > 1 ==> g.board_after_move()[cell_index(g.head(), g.cols as int)]
            == Tile::SnakeBody,
{
    lemma_step_facts(g);
    let tiles = g.snake.tiles@;
    let l = tiles.len() as int;
    let cols = g.cols as int;
    let rows = g.rows as int;
    let nh = g.next_head();
    let tail = tiles[l - 1];
    lemma_cell_index_in_range(tail, cols, rows);
    lemma_cell_index_in_range(tiles[0], cols, rows);
    lemma_cell_index_in_range(nh, cols, rows);
    if nh != tail {
        if cell_index(tail, cols) == cell_index(nh, cols) {
            lemma_cell_index_injective(tail, nh, cols);
        }
        if l > 1 && cell_index(tiles[0], cols) == cell_index(tail, cols) {
            lemma_cell_index_injective(tiles[0], tail, cols);
        }
    }
    if l > 1 {
        assert(nh != tiles[0]) by {
            match g.snake.direction {
                Direction::Stationary => {},
                Direction::Right => assert(nh.x == tiles[0].x + 1),
                Direction::Left => assert(nh.x + 1 == tiles[0].x),
                Direction::Up => assert(nh.y == tiles[0].y + 1),
                Direction::Down => assert(nh.y + 1 == tiles[0].y),
            }
        }
        if cell_index(tiles[0], cols) == cell_index(nh, cols) {
            lemma_cell_index_injective(tiles[0], nh, cols);
        }
    }
}

/// An eating step with room to grow adds exactly one segment, and the new
/// head sits exactly on the cell the food occupied.
pub proof fn lemma_eat_grows(g: Game)
    requires
        g.consistent(),
        g.snake.direction != Direction::Stationary,
        !g.hits_wall(),
        !g.self_collision(),
        g.eats(),
        g.grow_fits(),
    ensures
        g.grown_tiles().len() == g.snake.tiles@.len() + 1,
        cell_index(g.grown_tiles()[0], g.cols as int) == g.food_location,
{
    lemma_step_facts(g);
    assert(g.grown_tiles()[0] == g.moved_tiles()[0]);
}

/// The structural predicates speak of board, snake segments, food and
/// geometry alone: two states that differ at most in the travel direction
/// satisfy exactly the same ones.
proof fn lemma_predicates_ignore_direction(a: Game, b: Game)
    requires
        b.board == a.board,
        b.snake.tiles == a.snake.tiles,
        b.food_location == a.food_location,
        b.cols == a.cols,
        b.rows == a.rows,
        b.board_width == a.board_width,
        b.board_height == a.board_height,
        b.board_size == a.board_size,
        b.tile_size == a.tile_size,
    ensures
        a.wf() ==> b.wf(),
        a.consistent() ==> b.consistent(),
        a.inv() ==> b.inv(),
{
    assert(b.snake.tiles@ == a.snake.tiles@);
    assert(b.board@ == a.board@);
    assert forall|c: int| #[trigger] b.snake_at(c) == a.snake_at(c) by {
        if a.snake_at(c) {
            let i = choose|i: int|
                0 <= i < a.snake.tiles@.len() && cell_index(a.snake.tiles@[i], a.cols as int)
                    == c;
            assert(cell_index(b.snake.tiles@[i], b.cols as int) == c);
            assert(b.snake_at(c));
        }
        if b.snake_at(c) {
            let i = choose|i: int|
                0 <= i < b.snake.tiles@.len() && cell_index(b.snake.tiles@[i], b.cols as int)
                    == c;
            assert(cell_index(a.snake.tiles@[i], a.cols as int) == c);
            assert(a.snake_at(c));
        }
    }
    if a.board_matches() {
        assert(b.board@[b.food_location as int] == Tile::Food);
        assert(b.board@[cell_index(b.head(), b.cols as int)] == Tile::SnakeHead);
        assert forall|i: int| 1 <= i < b.snake.tiles@.len() implies b.board@[cell_index(
            #[trigger] b.snake.tiles@[i],
            b.cols as int,
        )] == Tile::SnakeBody by {
            assert(b.snake.tiles@[i] == a.snake.tiles@[i]);
            assert(a.board@[cell_index(a.snake.tiles@[i], a.cols as int)] == Tile::SnakeBody);
        }
        assert forall|c: int|
            0 <= c < b.board@.len() && c != b.food_location && !b.snake_at(c) implies b.board@[c]
            == Tile::Empty by {
            assert(!a.snake_at(c));
        }
        assert(b.board_matches());
    }
}

impl Game {
    /// Set the snake's travel direction. With a single segment any
    /// direction is taken. With a longer snake the request is silently
    /// ignored exactly when one step in the new direction would land the
    /// head on the second segment's cell — the move that reverses into the
    /// snake's own neck. Nothing but the direction ever changes.
    pub fn change_direction(&mut self, new_direction: Direction)
        requires
            old(self).wf(),
            new_direction != Direction::Stationary,
        ensures
            final(self).snake.tiles == old(self).snake.tiles,
            final(self).board == old(self).board,
            final(self).food_location == old(self).food_location,
            final(self).cols == old(self).cols,
            final(self).rows == old(self).rows,
            final(self).board_width == old(self).board_width,
            final(self).board_height == old(self).board_height,
            final(self).board_size == old(self).board_size,
            final(self).tile_size == old(self).tile_size,
            old(self).snake.tiles@.len() == 1 ==> final(self).snake.direction == new_direction,
            old(self).snake.tiles@.len() > 1 && targets(
                old(self).head(),
                new_direction,
                old(self).snake.tiles@[1],
            ) ==> final(self).snake.direction == old(self).snake.direction,
            old(self).snake.tiles@.len() > 1 && !targets(
                old(self).head(),
                new_direction,
                old(self).snake.tiles@[1],
            ) ==> final(self).snake.direction == new_direction,
            final(self).wf(),
            old(self).consistent() ==> final(self).consistent(),
            old(self).inv() ==> final(self).inv(),
    {
        // If length is 1, we can move in any direction: no second segment
        // to reverse into.
        if self.snake.tiles.len() == 1 {
            self.snake.direction = new_direction;
        } else {
            // Can't move into itself
            let head = self.snake.tiles[0];
            let second = self.snake.tiles[1];
            let blocked = match new_direction {
                Direction::Right => head.x + 1 == second.x && head.y == second.y,
                Direction::Left => second.x + 1 == head.x && head.y == second.y,
                Direction::Up => head.y + 1 == second.y && head.x == second.x,
                Direction::Down => second.y + 1 == head.y && head.x == second.x,
                Direction::Stationary => false,
            };
            if !blocked {
                self.snake.direction = new_direction;
            }
        }
        proof {
            lemma_predicates_ignore_direction(*old(self), *self);
        }
    }

    /// Advance the game by one tick; `false` means game over. A tick is a
    /// no-op while the direction is still `Stationary`. Otherwise the game
    /// ends, with nothing changed, when the head stands at the wall it
    /// would step through, or when the head already shares a cell with
    /// another segment. Else the snake moves one cell: the tail cell is
    /// vacated, the head cell becomes body, the stepped-to cell becomes
    /// the head. Stepping onto the food grows the snake by one segment
    /// past the tail — skipped when that cell is off-board or taken — and
    /// then relocates the food uniformly among the now empty cells; if no
    /// empty cell remains the board is full, and the tick reports game
    /// over with the grown state kept.
    #[verifier::rlimit(100)]
    #[verifier::spinoff_prover]
    pub fn update(&mut self) -> (alive: bool)
        requires
            old(self).inv(),
        ensures
            final(self).cols == old(self).cols,
            final(self).rows == old(self).rows,
            final(self).board_width == old(self).board_width,
            final(self).board_height == old(self).board_height,
            final(self).board_size == old(self).board_size,
            final(self).tile_size == old(self).tile_size,
            final(self).snake.direction == old(self).snake.direction,
            alive == old(self).tick_survives(),
            old(self).snake.direction == Direction::Stationary ==> *final(self) == *old(self),
            old(self).snake.direction != Direction::Stationary && old(self).hits_wall()
                ==> *final(self) == *old(self),
            old(self).snake.direction != Direction::Stationary && !old(self).hits_wall()
                && old(self).self_collision() ==> *final(self) == *old(self),
            old(self).snake.direction != Direction::Stationary && !old(self).hits_wall() && !old(
                self,
            ).self_collision() ==> {
                let g0 = *old(self);
                let g1 = *final(self);
                &&& !g0.eats() ==> {
                    &&& g1.snake.tiles@ == g0.moved_tiles()
                    &&& g1.board@ == g0.board_after_move()
                    &&& g1.food_location == g0.food_location
                }
                &&& g0.eats() ==> g1.snake.tiles@ == g0.grown_tiles()
                &&& g0.eats() && !g0.food_trapped() ==> {
                    &&& g1.food_location < g0.cell_count()
                    &&& g0.board_after_growth()[g1.food_location as int] == Tile::Empty
                    &&& g1.food_location != g0.food_location
                    &&& g1.board@ == g0.board_after_growth().update(
                        g1.food_location as int,
                        Tile::Food,
                    )
                }
                &&& g0.eats() && g0.food_trapped() ==> {
                    &&& g1.board@ == g0.board_after_growth()
                    &&& g1.food_location == g0.food_location
                }
            },
            alive ==> final(self).wf(),
            alive ==> final(self).inv(),
            ({
                &&& old(self).snake.direction != Direction::Stationary
                &&& !old(self).hits_wall()
                &&& !old(self).self_collision()
                &&& !old(self).eats()
                &&& !final(self).self_collision()
            }) ==> final(self).consistent(),
            ({
                &&& old(self).snake.direction != Direction::Stationary
                &&& !old(self).hits_wall()
                &&& !old(self).self_collision()
                &&& old(self).eats()
                &&& !old(self).food_trapped()
            }) ==> final(self).consistent(),
    {
        let d = self.snake.direction;
        if matches!(d, Direction::Stationary) {
            proof {
                assert(old(self).wf());
            }
            return true;
        }

        let head = self.snake.tiles[0];
        // Collision detection with wall
        match d {
            Direction::Right => {
                if head.x == self.cols - 1 {
                    return false;
                }
            },
            Direction::Left => {
                if head.x == 0 {
                    return false;
                }
            },
            Direction::Up => {
                if head.y == self.rows - 1 {
                    return false;
                }
            },
            Direction::Down => {
                if head.y == 0 {
                    return false;
                }
            },
            Direction::Stationary => {},
        }

        // Collision with self, against the pre-move head
        if position_in(&self.snake.tiles, 1, head) {
            return false;
        }

        proof {
            assert(old(self).consistent());
            assert(self.cols <= self.rows * self.cols) by (nonlinear_arith)
                requires
                    self.rows >= 1,
                    self.cols >= 0,
            ;
            assert(self.rows <= self.rows * self.cols) by (nonlinear_arith)
                requires
                    self.cols >= 1,
                    self.rows >= 0,
            ;
        }

        let new_head = move_in_direction(head, d);
        // Defensive bounds check on the computed head; unreachable after
        // the wall check above, but kept as a safety net.
        if new_head.x >= self.cols || new_head.y >= self.rows {
            return false;
        }
        proof {
            assert(new_head == old(self).next_head());
        }

        // Move snake and update board
        let cols = self.cols;
        let rows = self.rows;
        let len = self.snake.tiles.len();
        let last = self.snake.tiles[len - 1];
        proof {
            lemma_cell_index_in_range(last, cols as int, rows as int);
            lemma_cell_index_in_range(head, cols as int, rows as int);
            lemma_cell_index_in_range(new_head, cols as int, rows as int);
        }
        let li = flat_index(last, cols, rows);
        self.board.set(li, Tile::Empty);
        if !(last.x == head.x && last.y == head.y) {
            let hi = flat_index(head, cols, rows);
            self.board.set(hi, Tile::SnakeBody);
        }
        shift_tiles(&mut self.snake.tiles, new_head);
        let ni = flat_index(new_head, cols, rows);
        self.board.set(ni, Tile::SnakeHead);

        proof {
            assert(old(self).snake.tiles@.len() > 1 ==> last != old(self).head());
            assert(self.snake.tiles@ =~= old(self).moved_tiles());
            assert(self.board@ =~= old(self).board_after_move());
        }

        // If the head reached the food: grow, then place new food
        if ni == self.food_location {
            proof {
                assert(forall|i: int|
                    0 <= i < self.snake.tiles@.len() ==> old(self).in_bounds(
                        #[trigger] self.snake.tiles@[i],
                    ));
            }
            // The growth cell: one step past the tail, away from the
            // segment before it; to the right for a single segment.
            match growth_cell(&self.snake.tiles, cols, rows) {
                Some(gp) => {
                    proof {
                        lemma_cell_index_in_range(gp, cols as int, rows as int);
                    }
                    let gi = flat_index(gp, cols, rows);
                    let t = self.board[gi];
                    if t == Tile::Empty {
                        self.snake.tiles.push(gp);
                        self.board.set(gi, Tile::SnakeBody);
                        proof {
                            assert(old(self).grow_fits());
                            assert(self.snake.tiles@ =~= old(self).grown_tiles());
                            assert(self.board@ =~= old(self).board_after_growth());
                        }
                    } else {
                        proof {
                            assert(!old(self).grow_fits());
                        }
                    }
                },
                None => {
                    proof {
                        assert(!old(self).grow_fits());
                    }
                },
            }
            proof {
                assert(self.snake.tiles@ =~= old(self).grown_tiles());
                assert(self.board@ =~= old(self).board_after_growth());
            }

            let cand = empty_cells(&self.board);
            if cand.len() == 0 {
                proof {
                    assert forall|c: int|
                        0 <= c < old(self).board_after_growth().len() implies old(
                        self,
                    ).board_after_growth()[c] != Tile::Empty by {
                        if self.board@[c] == Tile::Empty {
                            assert(cand@.contains(c as usize));
                        }
                    }
                }
                return false;
            }
            proof {
                assert(self.board@[cand@[0] as int] == Tile::Empty);
                assert(!old(self).food_trapped());
            }
            let k = pick_index(cand.len());
            let fl = cand[k];
            self.food_location = fl;
            self.board.set(fl, Tile::Food);
            proof {
                lemma_step_eat(*old(self), *self);
            }
        } else {
            proof {
                assert(!old(self).eats());
                lemma_step_no_eat(*old(self), *self);
            }
        }
        true
    }

    /// A read-only projection of the board for the renderer: one record
    /// per cell in row-major order, carrying the cell's column, row and
    /// color class. The host turns each record into a painted square.
    pub fn render_data(&self) -> (r: Vec<RenderCell>)
        requires
            self.wf(),
        ensures
            r@.len() == self.cell_count(),
            forall|k: int|
                0 <= k < r@.len() ==> {
                    &&& (#[trigger] r@[k]).col == k % (self.cols as int)
                    &&& r@[k].row == k / (self.cols as int)
                    &&& r@[k].coloridx == color_class(self.board@[k])
                },
    {
        let mut vertices: Vec<RenderCell> = Vec::new();
        let mut k: usize = 0;
        while k < self.board.len()
            invariant
                self.wf(),
                k <= self.board@.len(),
                vertices@.len() == k,
                forall|j: int|
                    0 <= j < k ==> {
                        &&& (#[trigger] vertices@[j]).col == j % (self.cols as int)
                        &&& vertices@[j].row == j / (self.cols as int)
                        &&& vertices@[j].coloridx == color_class(self.board@[j])
                    },
            decreases self.board@.len() - k,
        {
            let col = k % self.cols;
            let row = k / self.cols;
            let coloridx: u32 = match self.board[k] {
                // color classes as the renderer's palette orders them
                Tile::Empty => 1,
                Tile::SnakeBody => 0,
                Tile::SnakeHead => 0,
                Tile::Food => 2,
            };
            vertices.push(RenderCell { col, row, coloridx });
            k = k + 1;
        }
        vertices
    }

    /// Discard the state and rebuild the initial one for the stored
    /// geometry; only the food cell may come out different, being drawn at
    /// random again.
    pub fn reset(&mut self)
        requires
            old(self).geometry_wf(),
        ensures
            final(self).board_width == old(self).board_width,
            final(self).board_height == old(self).board_height,
            final(self).tile_size == old(self).tile_size,
            final(self).cols == old(self).cols,
            final(self).rows == old(self).rows,
            final(self).initial_state(),
            final(self).consistent(),
    {
        match Game::new(self.board_width, self.board_height, self.tile_size) {
            Ok(g) => {
                *self = g;
            },
            Err(_) => {
                proof {
                    assert(false);
                }
            },
        }
    }
}

/// Relies on `rand::Rng::gen_range` over the range `0..n`: it panics only
/// on an empty range, and otherwise returns a uniformly sampled value of
/// the range, so a value below `n`.
#[verifier::external_body]
fn pick_index(n: usize) -> (r: usize)
    requires
        n > 0,
    ensures
        r < n,
{
    rand::Rng::gen_range(&mut rand::thread_rng(), 0..n)
}

/// A board of `n` cells, all `Empty`.
fn filled_board(n: usize) -> (r: Vec<Tile>)
    ensures
        r@.len() == n,
        forall|c: int| 0 <= c < n ==> r@[c] == Tile::Empty,
{
    let mut board: Vec<Tile> = Vec::new();
    let mut i: usize = 0;
    while i < n
        invariant
            i <= n,
            board@.len() == i,
            forall|c: int| 0 <= c < i ==> board@[c] == Tile::Empty,
        decreases n - i,
    {
        board.push(Tile::Empty);
        i = i + 1;
    }
    board
}

/// Whether any segment from index `from` on sits on position `p`.
fn position_in(tiles: &Vec<Pos>, from: usize, p: Pos) -> (r: bool)
    ensures
        r == exists|j: int| from <= j < tiles@.len() && #[trigger] tiles@[j] == p,
{
    let mut j: usize = from;
    while j < tiles.len()
        invariant
            from <= j,
            forall|k: int| from <= k < j ==> #[trigger] tiles@[k] != p,
        decreases tiles@.len() - j,
    {
        let q = tiles[j];
        if q.x == p.x && q.y == p.y {
            return true;
        }
        j = j + 1;
    }
    false
}

/// Shift every segment one step toward the tail and put `new_head` in
/// front; the old tail position drops off.
fn shift_tiles(tiles: &mut Vec<Pos>, new_head: Pos)
    requires
        old(tiles)@.len() >= 1,
    ensures
        final(tiles)@ == seq![new_head] + old(tiles)@.take(old(tiles)@.len() - 1),
{
    let ghost orig = tiles@;
    let mut i: usize = tiles.len() - 1;
    while i > 0
        invariant
            tiles@.len() == orig.len(),
            i < orig.len(),
            forall|k: int| 0 <= k <= i ==> #[trigger] tiles@[k] == orig[k],
            forall|k: int| i < k < orig.len() ==> #[trigger] tiles@[k] == orig[k - 1],
        decreases i,
    {
        let p = tiles[i - 1];
        tiles.set(i, p);
        i = i - 1;
    }
    tiles.set(0, new_head);
    proof {
        assert(tiles@ =~= seq![new_head] + orig.take(orig.len() - 1));
    }
}

/// The cell a snake with these segments would grow into after eating, or
/// `None` when that cell lies off the board.
fn growth_cell(tiles: &Vec<Pos>, cols: usize, rows: usize) -> (r: Option<Pos>)
    requires
        tiles@.len() >= 1,
        forall|i: int|
            0 <= i < tiles@.len() ==> (#[trigger] tiles@[i]).x < cols && tiles@[i].y < rows,
        cols >= 1,
        rows >= 1,
    ensures
        r is Some <==> (0 <= growth_x_of(tiles@) < cols && 0 <= growth_y_of(tiles@) < rows),
        r matches Some(p) ==> p.x == growth_x_of(tiles@) && p.y == growth_y_of(tiles@),
{
    let len = tiles.len();
    let lt = tiles[len - 1];
    if len == 1 {
        if lt.x + 1 < cols {
            Some(Pos { x: lt.x + 1, y: lt.y })
        } else {
            None
        }
    } else {
        let prev = tiles[len - 2];
        let mut gx: usize = 0;
        let mut gy: usize = 0;
        let mut gx_in: bool = false;
        let mut gy_in: bool = false;
        if lt.x >= prev.x {
            let dx = lt.x - prev.x;
            if dx < cols - lt.x {
                gx = lt.x + dx;
                gx_in = true;
            }
        } else {
            let dx = prev.x - lt.x;
            if dx <= lt.x {
                gx = lt.x - dx;
                gx_in = true;
            }
        }
        if lt.y >= prev.y {
            let dy = lt.y - prev.y;
            if dy < rows - lt.y {
                gy = lt.y + dy;
                gy_in = true;
            }
        } else {
            let dy = prev.y - lt.y;
            if dy <= lt.y {
                gy = lt.y - dy;
                gy_in = true;
            }
        }
        if gx_in && gy_in {
            Some(Pos { x: gx, y: gy })
        } else {
            None
        }
    }
}

/// Row-major flat index of an on-board position.
fn flat_index(p: Pos, cols: usize, rows: usize) -> (r: usize)
    requires
        p.x < cols,
        p.y < rows,
        rows * cols <= usize::MAX,
    ensures
        r == cell_index(p, cols as int),
{
    proof {
        lemma_cell_index_in_range(p, cols as int, rows as int);
    }
    p.y * cols + p.x
}

/// The flat indices of all `Empty` cells of the board.
fn empty_cells(board: &Vec<Tile>) -> (r: Vec<usize>)
    ensures
        forall|k: int|
            0 <= k < r@.len() ==> (#[trigger] r@[k]) < board@.len() && board@[r@[k] as int]
                == Tile::Empty,
        forall|c: int|
            0 <= c < board@.len() && board@[c] == Tile::Empty ==> r@.contains(c as usize),
{
    let mut r: Vec<usize> = Vec::new();
    let mut i: usize = 0;
    while i < board.len()
        invariant
            i <= board@.len(),
            forall|k: int|
                0 <= k < r@.len() ==> (#[trigger] r@[k]) < i && board@[r@[k] as int]
                    == Tile::Empty,
            forall|c: int| 0 <= c < i && board@[c] == Tile::Empty ==> r@.contains(c as usize),
        decreases board@.len() - i,
    {
        let ghost prev = r@;
        let t = board[i];
        if t == Tile::Empty {
            r.push(i);
        }
        proof {
            assert forall|c: int| 0 <= c < i + 1 && board@[c] == Tile::Empty implies r@.contains(
                c as usize,
            ) by {
                if c < i {
                    let k = choose|k: int| 0 <= k < prev.len() && prev[k] == c as usize;
                    assert(r@[k] == c as usize);
                } else {
                    assert(r@[r@.len() - 1] == c as usize);
                }
            }
        }
        i = i + 1;
    }
    r
}

} // verus!

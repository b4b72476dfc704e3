//! Laws that relate several game operations, stated and proved over the
//! same spec functions the operations' contracts use.
use vstd::prelude::*;

use crate::game::cell_index;
use crate::game::lemma_cell_index_in_range;
use crate::game::lemma_cell_index_injective;
use crate::game::occupies;
use crate::game::targets;
use crate::game::Direction;
use crate::game::Game;
use crate::game::Pos;
use crate::game::Tile;

verus! {

/// The exact reverse of a travel direction.
pub open spec fn reverse(d: Direction) -> Direction {
    match d {
        Direction::Stationary => Direction::Stationary,
        Direction::Right => Direction::Left,
        Direction::Left => Direction::Right,
        Direction::Up => Direction::Down,
        Direction::Down => Direction::Up,
    }
}

/// Reversal is a no-op: whenever the snake is longer than one segment and
/// its second segment trails the head — as it does after every completed
/// step — a request to travel in the exact reverse of the current motion
/// targets precisely the second segment's cell, which is the one request
/// `change_direction` ignores; the direction then stays as it was.
pub proof fn lemma_reverse_rejected(g: Game)
    requires
        g.wf(),
        g.snake.tiles@.len() > 1,
        g.snake.direction != Direction::Stationary,
        targets(g.snake.tiles@[1], g.snake.direction, g.head()),
    ensures
        targets(g.head(), reverse(g.snake.direction), g.snake.tiles@[1]),
{
}

/// Which tiles mark a cell the snake occupies.
pub open spec fn is_snake_tile(t: Tile) -> bool {
    t == Tile::SnakeBody || t == Tile::SnakeHead
}

/// How many board cells are marked as snake cells.
pub open spec fn snake_cell_count(b: Seq<Tile>) -> int
    decreases b.len(),
{
    if b.len() == 0 {
        0
    } else {
        snake_cell_count(b.drop_last()) + if is_snake_tile(b.last()) {
            1int
        } else {
            0int
        }
    }
}

/// The set of flat indices marked as snake cells.
spec fn snake_cell_set(b: Seq<Tile>) -> Set<int> {
    Set::new(|c: int| 0 <= c < b.len() && is_snake_tile(b[c]))
}

/// The recursive count equals the cardinality of the set of marked cells.
proof fn lemma_count_is_set_len(b: Seq<Tile>)
    ensures
        snake_cell_set(b).finite(),
        snake_cell_count(b) == snake_cell_set(b).len(),
    decreases b.len(),
{
    if b.len() == 0 {
        assert(snake_cell_set(b) =~= Set::<int>::empty());
    } else {
        let pre = b.drop_last();
        lemma_count_is_set_len(pre);
        if is_snake_tile(b.last()) {
            assert(!snake_cell_set(pre).contains(b.len() - 1));
            assert(snake_cell_set(b) =~= snake_cell_set(pre).insert(b.len() - 1));
        } else {
            assert(snake_cell_set(b) =~= snake_cell_set(pre));
        }
    }
}

/// The board's tile counts balance: in every consistent state the number
/// of cells marked `SnakeBody` or `SnakeHead` equals the number of snake
/// segments. In particular, after an `update` that eats with room to
/// grow, both sides have just risen by one.
pub proof fn lemma_board_counts(g: Game)
    requires
        g.consistent(),
    ensures
        snake_cell_count(g.board@) == g.snake.tiles@.len(),
{
    let cols = g.cols as int;
    let rows = g.rows as int;
    let tiles = g.snake.tiles@;
    let ids = tiles.map_values(|p: Pos| cell_index(p, cols));
    assert(ids.len() == tiles.len());
    assert(ids.no_duplicates()) by {
        assert forall|i: int, j: int|
            0 <= i < ids.len() && 0 <= j < ids.len() && i != j implies ids[i] != ids[j] by {
            if ids[i] == ids[j] {
                lemma_cell_index_injective(tiles[i], tiles[j], cols);
            }
        }
    }
    ids.unique_seq_to_set();
    assert(snake_cell_set(g.board@) =~= ids.to_set()) by {
        assert forall|c: int| snake_cell_set(g.board@).contains(c) implies ids.to_set().contains(
            c,
        ) by {
            if c == g.food_location {
                assert(g.board@[c] == Tile::Food);
            } else if !occupies(tiles, cols, c) {
                assert(!g.snake_at(c));
                assert(g.board@[c] == Tile::Empty);
            } else {
                let i = choose|i: int|
                    0 <= i < tiles.len() && cell_index(#[trigger] tiles[i], cols) == c;
                assert(ids[i] == c);
                assert(ids.contains(c));
            }
        }
        assert forall|c: int| ids.to_set().contains(c) implies snake_cell_set(g.board@).contains(
            c,
        ) by {
            assert(ids.contains(c));
            let i = choose|i: int| 0 <= i < ids.len() && ids[i] == c;
            lemma_cell_index_in_range(tiles[i], cols, rows);
            if i == 0 {
                assert(g.board@[c] == Tile::SnakeHead);
            } else {
                assert(g.board@[c] == Tile::SnakeBody);
            }
        }
    }
    lemma_count_is_set_len(g.board@);
}

/// How many board cells are marked as food.
pub open spec fn food_cell_count(b: Seq<Tile>) -> int
    decreases b.len(),
{
    if b.len() == 0 {
        0
    } else {
        food_cell_count(b.drop_last()) + if b.last() == Tile::Food {
            1int
        } else {
            0int
        }
    }
}

/// A board without any food cell counts zero.
proof fn lemma_food_count_zero(b: Seq<Tile>)
    requires
        forall|c: int| 0 <= c < b.len() ==> b[c] != Tile::Food,
    ensures
        food_cell_count(b) == 0,
    decreases b.len(),
{
    if b.len() > 0 {
        lemma_food_count_zero(b.drop_last());
    }
}

/// A board whose only food cell is `fi` counts one.
proof fn lemma_food_count_unique(b: Seq<Tile>, fi: int)
    requires
        0 <= fi < b.len(),
        b[fi] == Tile::Food,
        forall|c: int| 0 <= c < b.len() && c != fi ==> b[c] != Tile::Food,
    ensures
        food_cell_count(b) == 1,
    decreases b.len(),
{
    if fi == b.len() - 1 {
        lemma_food_count_zero(b.drop_last());
    } else {
        lemma_food_count_unique(b.drop_last(), fi);
    }
}

/// There is never more than the one food: in every consistent state —
/// right after construction as well as after every surviving tick —
/// exactly one board cell holds `Food`, and it is off the snake.
pub proof fn lemma_single_food(g: Game)
    requires
        g.consistent(),
    ensures
        food_cell_count(g.board@) == 1,
        g.board@[g.food_location as int] == Tile::Food,
        !g.snake_at(g.food_location as int),
{
    let cols = g.cols as int;
    let tiles = g.snake.tiles@;
    assert forall|c: int|
        0 <= c < g.board@.len() && c != g.food_location implies g.board@[c] != Tile::Food by {
        if g.snake_at(c) {
            let i = choose|i: int| 0 <= i < tiles.len() && cell_index(#[trigger] tiles[i], cols) == c;
            if i == 0 {
                assert(g.board@[c] == Tile::SnakeHead);
            } else {
                assert(g.board@[c] == Tile::SnakeBody);
            }
        } else {
            assert(g.board@[c] == Tile::Empty);
        }
    }
    lemma_food_count_unique(g.board@, g.food_location as int);
}

} // verus!

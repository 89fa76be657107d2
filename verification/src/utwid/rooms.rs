//! Building the board of a level: walls split the floor into rooms, and one
//! tile leads on, down the stairs or, on the last level, out of the dungeon.

use vstd::prelude::*;
use rand::rngs::SmallRng;
use crate::utwid::types::{BOARD_SIDE, LAST_LEVEL, ROOM_SPLITS_MIN, ROOM_SPLITS_MAX};
use crate::utwid::board::{
    Board, Tile, floor_tile, wall_tile, stair_tile, win_tile, cell, draw_range, draw_coin, copy_rng,
    lemma_cell_in_range,
};

verus! {

/// Random draws for a free cell before the search falls back to the first
/// free cell in reading order.
pub const PLACEMENT_ATTEMPTS: usize = 10000;

/// The tile that leads on from a level.
pub open spec fn goal_tile(level: nat) -> Tile {
    if level < LAST_LEVEL { stair_tile() } else { win_tile() }
}

pub open spec fn is_goal(t: Tile) -> bool {
    t.traits.stairs || t.traits.win
}

/// Every tile of a freshly built level is floor, wall or the level's goal.
pub open spec fn built_tiles(geo: Seq<Tile>, level: nat) -> bool {
    forall|i: int| 0 <= i < geo.len() ==> {
        let t = #[trigger] geo[i];
        t == floor_tile() || t == wall_tile() || t == goal_tile(level)
    }
}

/// No two tiles lead on.
pub open spec fn at_most_one_goal(geo: Seq<Tile>) -> bool {
    forall|i: int, j: int| 0 <= i < geo.len() && 0 <= j < geo.len() && is_goal(#[trigger] geo[i]) && is_goal(#[trigger] geo[j]) ==> i == j
}

pub open spec fn floor_or_wall(geo: Seq<Tile>) -> bool {
    forall|i: int| 0 <= i < geo.len() ==> #[trigger] geo[i] == floor_tile() || geo[i] == wall_tile()
}

pub open spec fn some_walkable(geo: Seq<Tile>) -> bool {
    exists|i: int| 0 <= i < geo.len() && (#[trigger] geo[i]).traits.walkable
}

/// Whether `v` is within three of an earlier split on the same axis.
fn crowded(used: &Vec<usize>, v: usize) -> (r: bool)
    ensures
        r == exists|i: int| 0 <= i < used@.len() && -3 <= #[trigger] used@[i] - v <= 3,
{
    let mut i: usize = 0;
    while i < used.len()
        invariant
            i <= used@.len(),
            forall|j: int| 0 <= j < i ==> !(-3 <= #[trigger] used@[j] - v <= 3),
        decreases used@.len() - i,
    {
        let u = used[i];
        let diff = if u > v { u - v } else { v - u };
        if diff <= 3 {
            return true;
        }
        i += 1;
    }
    false
}

/// The row of index `i` on the board.
pub open spec fn row_of(i: int) -> int {
    i / (BOARD_SIDE as int)
}

/// The column of index `i` on the board.
pub open spec fn col_of(i: int) -> int {
    i % (BOARD_SIDE as int)
}

/// Every tile of column `x` from row `a` to row `b` is walkable.
pub open spec fn col_walkable(g: Seq<Tile>, x: int, a: int, b: int) -> bool {
    forall|k: int| a <= k <= b ==> (#[trigger] g[cell(x, k, BOARD_SIDE as int)]).traits.walkable
}

/// Every tile of row `y` from column `a` to column `b` is walkable.
pub open spec fn row_walkable(g: Seq<Tile>, y: int, a: int, b: int) -> bool {
    forall|k: int| a <= k <= b ==> (#[trigger] g[cell(k, y, BOARD_SIDE as int)]).traits.walkable
}

/// The run of walls up column `x` from row `from` covers index `i`: it lies
/// in that column at or above `from`, with floor all the way down to `from`.
pub open spec fn walled_up(g: Seq<Tile>, x: int, from: int, i: int) -> bool {
    col_of(i) == x && row_of(i) <= from && col_walkable(g, x, row_of(i), from)
}

/// The run of walls down column `x` from row `from` covers index `i`.
pub open spec fn walled_down(g: Seq<Tile>, x: int, from: int, i: int) -> bool {
    col_of(i) == x && from <= row_of(i) && col_walkable(g, x, from, row_of(i))
}

/// The run of walls left along row `y` from column `from` covers index `i`.
pub open spec fn walled_left(g: Seq<Tile>, y: int, from: int, i: int) -> bool {
    row_of(i) == y && col_of(i) <= from && row_walkable(g, y, col_of(i), from)
}

/// The run of walls right along row `y` from column `from` covers index `i`.
pub open spec fn walled_right(g: Seq<Tile>, y: int, from: int, i: int) -> bool {
    row_of(i) == y && from <= col_of(i) && row_walkable(g, y, from, col_of(i))
}

/// Index `i` of the board is the cell at its column and row.
proof fn lemma_index_cell(i: int)
    requires
        0 <= i < BOARD_SIDE * BOARD_SIDE,
    ensures
        i == cell(col_of(i), row_of(i), BOARD_SIDE as int),
        0 <= col_of(i) < BOARD_SIDE,
        0 <= row_of(i) < BOARD_SIDE,
{
    vstd::arithmetic::div_mod::lemma_fundamental_div_mod(i, BOARD_SIDE as int);
}

/// Walls over the floor of column `x`, from row `from` upwards while the
/// tiles are walkable.
fn wall_up(geo: &mut Vec<Tile>, x: usize, from: usize)
    requires
        old(geo)@.len() == BOARD_SIDE * BOARD_SIDE,
        x < BOARD_SIDE,
        from < BOARD_SIDE,
        floor_or_wall(old(geo)@),
    ensures
        final(geo)@.len() == BOARD_SIDE * BOARD_SIDE,
        floor_or_wall(final(geo)@),
        forall|i: int| 0 <= i < final(geo)@.len() ==> #[trigger] final(geo)@[i] == (if walled_up(old(geo)@, x as int, from as int, i) {
            wall_tile()
        } else {
            old(geo)@[i]
        }),
{
    let ghost g0 = geo@;
    let mut y: usize = from + 1;
    while y > 0
        invariant_except_break
            col_walkable(g0, x as int, y as int, from as int),
        invariant
            y <= from + 1,
            from < BOARD_SIDE,
            x < BOARD_SIDE,
            g0.len() == BOARD_SIDE * BOARD_SIDE,
            geo@.len() == BOARD_SIDE * BOARD_SIDE,
            floor_or_wall(geo@),
            forall|i: int| 0 <= i < geo@.len() ==> #[trigger] geo@[i] == (if walled_up(g0, x as int, from as int, i) && y <= row_of(i) {
                wall_tile()
            } else {
                g0[i]
            }),
        ensures
            geo@.len() == BOARD_SIDE * BOARD_SIDE,
            floor_or_wall(geo@),
            forall|i: int| 0 <= i < geo@.len() ==> #[trigger] geo@[i] == (if walled_up(g0, x as int, from as int, i) {
                wall_tile()
            } else {
                g0[i]
            }),
        decreases y,
    {
        y -= 1;
        proof { lemma_cell_in_range(x as int, y as int, BOARD_SIDE as int, BOARD_SIDE as int); }
        let idx = x + y * BOARD_SIDE;
        let ghost c = cell(x as int, y as int, BOARD_SIDE as int);
        assert(geo@[c] == g0[c]);
        if geo[idx].traits.walkable {
            let ghost before = geo@;
            geo.set(idx, Tile::wall());
            proof {
                assert(g0[c].traits.walkable);
                assert(col_walkable(g0, x as int, y as int, from as int));
                assert forall|i: int| 0 <= i < geo@.len() implies #[trigger] geo@[i] == (if walled_up(g0, x as int, from as int, i) && y <= row_of(i) {
                    wall_tile()
                } else {
                    g0[i]
                }) by {
                    lemma_index_cell(i);
                    if i != c {
                        assert(geo@[i] == before[i]);
                        if col_of(i) == x && row_of(i) == y {
                            assert(i == c);
                        }
                    }
                }
            }
        } else {
            proof {
                assert(!g0[c].traits.walkable);
                assert forall|i: int| 0 <= i < geo@.len() implies #[trigger] geo@[i] == (if walled_up(g0, x as int, from as int, i) {
                    wall_tile()
                } else {
                    g0[i]
                }) by {
                    lemma_index_cell(i);
                    if walled_up(g0, x as int, from as int, i) && row_of(i) < y {
                        assert(g0[cell(x as int, y as int, BOARD_SIDE as int)].traits.walkable);
                    }
                }
            }
            break;
        }
    }
}

/// Walls over the floor of column `x`, from row `from` downwards while the
/// tiles are walkable.
fn wall_down(geo: &mut Vec<Tile>, x: usize, from: usize)
    requires
        old(geo)@.len() == BOARD_SIDE * BOARD_SIDE,
        x < BOARD_SIDE,
        from <= BOARD_SIDE,
        floor_or_wall(old(geo)@),
    ensures
        final(geo)@.len() == BOARD_SIDE * BOARD_SIDE,
        floor_or_wall(final(geo)@),
        forall|i: int| 0 <= i < final(geo)@.len() ==> #[trigger] final(geo)@[i] == (if walled_down(old(geo)@, x as int, from as int, i) {
            wall_tile()
        } else {
            old(geo)@[i]
        }),
{
    let ghost g0 = geo@;
    let mut y: usize = from;
    while y < BOARD_SIDE
        invariant_except_break
            col_walkable(g0, x as int, from as int, y - 1),
        invariant
            from <= y <= BOARD_SIDE,
            x < BOARD_SIDE,
            g0.len() == BOARD_SIDE * BOARD_SIDE,
            geo@.len() == BOARD_SIDE * BOARD_SIDE,
            floor_or_wall(geo@),
            forall|i: int| 0 <= i < geo@.len() ==> #[trigger] geo@[i] == (if walled_down(g0, x as int, from as int, i) && row_of(i) < y {
                wall_tile()
            } else {
                g0[i]
            }),
        ensures
            geo@.len() == BOARD_SIDE * BOARD_SIDE,
            floor_or_wall(geo@),
            forall|i: int| 0 <= i < geo@.len() ==> #[trigger] geo@[i] == (if walled_down(g0, x as int, from as int, i) {
                wall_tile()
            } else {
                g0[i]
            }),
        decreases BOARD_SIDE - y,
    {
        proof { lemma_cell_in_range(x as int, y as int, BOARD_SIDE as int, BOARD_SIDE as int); }
        let idx = x + y * BOARD_SIDE;
        let ghost c = cell(x as int, y as int, BOARD_SIDE as int);
        assert(geo@[c] == g0[c]);
        if geo[idx].traits.walkable {
            let ghost before = geo@;
            geo.set(idx, Tile::wall());
            proof {
                assert(g0[c].traits.walkable);
                assert(col_walkable(g0, x as int, from as int, y as int));
                assert forall|i: int| 0 <= i < geo@.len() implies #[trigger] geo@[i] == (if walled_down(g0, x as int, from as int, i) && row_of(i) < y + 1 {
                    wall_tile()
                } else {
                    g0[i]
                }) by {
                    lemma_index_cell(i);
                    if i != c {
                        assert(geo@[i] == before[i]);
                        if col_of(i) == x && row_of(i) == y {
                            assert(i == c);
                        }
                    }
                }
            }
        } else {
            proof {
                assert(!g0[c].traits.walkable);
                assert forall|i: int| 0 <= i < geo@.len() implies #[trigger] geo@[i] == (if walled_down(g0, x as int, from as int, i) {
                    wall_tile()
                } else {
                    g0[i]
                }) by {
                    lemma_index_cell(i);
                    if walled_down(g0, x as int, from as int, i) && row_of(i) >= y {
                        assert(g0[cell(x as int, y as int, BOARD_SIDE as int)].traits.walkable);
                    }
                }
            }
            break;
        }
        y += 1;
    }
}

/// Walls over the floor of row `y`, from column `from` leftwards while the
/// tiles are walkable.
fn wall_left(geo: &mut Vec<Tile>, y: usize, from: usize)
    requires
        old(geo)@.len() == BOARD_SIDE * BOARD_SIDE,
        y < BOARD_SIDE,
        from < BOARD_SIDE,
        floor_or_wall(old(geo)@),
    ensures
        final(geo)@.len() == BOARD_SIDE * BOARD_SIDE,
        floor_or_wall(final(geo)@),
        forall|i: int| 0 <= i < final(geo)@.len() ==> #[trigger] final(geo)@[i] == (if walled_left(old(geo)@, y as int, from as int, i) {
            wall_tile()
        } else {
            old(geo)@[i]
        }),
{
    let ghost g0 = geo@;
    let mut x: usize = from + 1;
    while x > 0
        invariant_except_break
            row_walkable(g0, y as int, x as int, from as int),
        invariant
            x <= from + 1,
            from < BOARD_SIDE,
            y < BOARD_SIDE,
            g0.len() == BOARD_SIDE * BOARD_SIDE,
            geo@.len() == BOARD_SIDE * BOARD_SIDE,
            floor_or_wall(geo@),
            forall|i: int| 0 <= i < geo@.len() ==> #[trigger] geo@[i] == (if walled_left(g0, y as int, from as int, i) && x <= col_of(i) {
                wall_tile()
            } else {
                g0[i]
            }),
        ensures
            geo@.len() == BOARD_SIDE * BOARD_SIDE,
            floor_or_wall(geo@),
            forall|i: int| 0 <= i < geo@.len() ==> #[trigger] geo@[i] == (if walled_left(g0, y as int, from as int, i) {
                wall_tile()
            } else {
                g0[i]
            }),
        decreases x,
    {
        x -= 1;
        proof { lemma_cell_in_range(x as int, y as int, BOARD_SIDE as int, BOARD_SIDE as int); }
        let idx = x + y * BOARD_SIDE;
        let ghost c = cell(x as int, y as int, BOARD_SIDE as int);
        assert(geo@[c] == g0[c]);
        if geo[idx].traits.walkable {
            let ghost before = geo@;
            geo.set(idx, Tile::wall());
            proof {
                assert(g0[c].traits.walkable);
                assert(row_walkable(g0, y as int, x as int, from as int));
                assert forall|i: int| 0 <= i < geo@.len() implies #[trigger] geo@[i] == (if walled_left(g0, y as int, from as int, i) && x <= col_of(i) {
                    wall_tile()
                } else {
                    g0[i]
                }) by {
                    lemma_index_cell(i);
                    if i != c {
                        assert(geo@[i] == before[i]);
                        if col_of(i) == x && row_of(i) == y {
                            assert(i == c);
                        }
                    }
                }
            }
        } else {
            proof {
                assert(!g0[c].traits.walkable);
                assert forall|i: int| 0 <= i < geo@.len() implies #[trigger] geo@[i] == (if walled_left(g0, y as int, from as int, i) {
                    wall_tile()
                } else {
                    g0[i]
                }) by {
                    lemma_index_cell(i);
                    if walled_left(g0, y as int, from as int, i) && col_of(i) < x {
                        assert(g0[cell(x as int, y as int, BOARD_SIDE as int)].traits.walkable);
                    }
                }
            }
            break;
        }
    }
}

/// Walls over the floor of row `y`, from column `from` rightwards while the
/// tiles are walkable.
fn wall_right(geo: &mut Vec<Tile>, y: usize, from: usize)
    requires
        old(geo)@.len() == BOARD_SIDE * BOARD_SIDE,
        y < BOARD_SIDE,
        from <= BOARD_SIDE,
        floor_or_wall(old(geo)@),
    ensures
        final(geo)@.len() == BOARD_SIDE * BOARD_SIDE,
        floor_or_wall(final(geo)@),
        forall|i: int| 0 <= i < final(geo)@.len() ==> #[trigger] final(geo)@[i] == (if walled_right(old(geo)@, y as int, from as int, i) {
            wall_tile()
        } else {
            old(geo)@[i]
        }),
{
    let ghost g0 = geo@;
    let mut x: usize = from;
    while x < BOARD_SIDE
        invariant_except_break
            row_walkable(g0, y as int, from as int, x - 1),
        invariant
            from <= x <= BOARD_SIDE,
            y < BOARD_SIDE,
            g0.len() == BOARD_SIDE * BOARD_SIDE,
            geo@.len() == BOARD_SIDE * BOARD_SIDE,
            floor_or_wall(geo@),
            forall|i: int| 0 <= i < geo@.len() ==> #[trigger] geo@[i] == (if walled_right(g0, y as int, from as int, i) && col_of(i) < x {
                wall_tile()
            } else {
                g0[i]
            }),
        ensures
            geo@.len() == BOARD_SIDE * BOARD_SIDE,
            floor_or_wall(geo@),
            forall|i: int| 0 <= i < geo@.len() ==> #[trigger] geo@[i] == (if walled_right(g0, y as int, from as int, i) {
                wall_tile()
            } else {
                g0[i]
            }),
        decreases BOARD_SIDE - x,
    {
        proof { lemma_cell_in_range(x as int, y as int, BOARD_SIDE as int, BOARD_SIDE as int); }
        let idx = x + y * BOARD_SIDE;
        let ghost c = cell(x as int, y as int, BOARD_SIDE as int);
        assert(geo@[c] == g0[c]);
        if geo[idx].traits.walkable {
            let ghost before = geo@;
            geo.set(idx, Tile::wall());
            proof {
                assert(g0[c].traits.walkable);
                assert(row_walkable(g0, y as int, from as int, x as int));
                assert forall|i: int| 0 <= i < geo@.len() implies #[trigger] geo@[i] == (if walled_right(g0, y as int, from as int, i) && col_of(i) < x + 1 {
                    wall_tile()
                } else {
                    g0[i]
                }) by {
                    lemma_index_cell(i);
                    if i != c {
                        assert(geo@[i] == before[i]);
                        if col_of(i) == x && row_of(i) == y {
                            assert(i == c);
                        }
                    }
                }
            }
        } else {
            proof {
                assert(!g0[c].traits.walkable);
                assert forall|i: int| 0 <= i < geo@.len() implies #[trigger] geo@[i] == (if walled_right(g0, y as int, from as int, i) {
                    wall_tile()
                } else {
                    g0[i]
                }) by {
                    lemma_index_cell(i);
                    if walled_right(g0, y as int, from as int, i) && col_of(i) >= x {
                        assert(g0[cell(x as int, y as int, BOARD_SIDE as int)].traits.walkable);
                    }
                }
            }
            break;
        }
        x += 1;
    }
}

/// One drawn split: whether it runs along a column, and the cell it
/// starts from.
#[derive(Copy, Clone, Debug, PartialEq, Eq, Structural)]
pub struct SplitDraw {
    pub vertical: bool,
    pub x: usize,
    pub y: usize,
}

/// A split starts away from the edges of the board.
pub open spec fn draw_ok(d: SplitDraw) -> bool {
    1 <= d.x < BOARD_SIDE - 1 && 1 <= d.y < BOARD_SIDE - 1
}

/// A level in the making: its tiles, the columns and rows split so far, and
/// the cells the splits started from.
pub struct Sketch {
    pub geo: Seq<Tile>,
    pub used_x: Seq<usize>,
    pub used_y: Seq<usize>,
    pub splits: Seq<int>,
}

/// Whether `v` lies within three of a split already made on the same axis.
pub open spec fn near_used(used: Seq<usize>, v: int) -> bool {
    exists|i: int| 0 <= i < used.len() && -3 <= #[trigger] used[i] - v <= 3
}

/// The walls of split `d`: along its column up from its cell and down from
/// the cell below, or along its row left from its cell and right from the
/// cell beside it, each run stopping at the first tile that is not floor.
pub open spec fn with_walls(g: Seq<Tile>, d: SplitDraw) -> Seq<Tile> {
    Seq::new(g.len(), |i: int|
        if (d.vertical && (walled_up(g, d.x as int, d.y as int, i) || walled_down(g, d.x as int, d.y + 1, i)))
            || (!d.vertical && (walled_left(g, d.y as int, d.x as int, i) || walled_right(g, d.y as int, d.x + 1, i))) {
            wall_tile()
        } else {
            g[i]
        })
}

/// One drawn split: skipped where its axis is crowded or its cell is no
/// longer floor; else its walls go up and its own cell stays floor.
pub open spec fn split_step(s: Sketch, d: SplitDraw) -> Sketch {
    let idx = cell(d.x as int, d.y as int, BOARD_SIDE as int);
    let used = if d.vertical { s.used_x } else { s.used_y };
    let v = if d.vertical { d.x as int } else { d.y as int };
    if near_used(used, v) || !s.geo[idx].traits.walkable {
        s
    } else {
        Sketch {
            geo: with_walls(s.geo, d).update(idx, floor_tile()),
            used_x: if d.vertical { s.used_x.push(d.x) } else { s.used_x },
            used_y: if d.vertical { s.used_y } else { s.used_y.push(d.y) },
            splits: s.splits.push(idx),
        }
    }
}

/// An open board of floor.
pub open spec fn open_sketch() -> Sketch {
    Sketch {
        geo: Seq::new((BOARD_SIDE * BOARD_SIDE) as nat, |i: int| floor_tile()),
        used_x: Seq::empty(),
        used_y: Seq::empty(),
        splits: Seq::empty(),
    }
}

/// The level after the drawn splits, in order.
pub open spec fn sketch_of(draws: Seq<SplitDraw>) -> Sketch
    decreases draws.len(),
{
    if draws.len() == 0 {
        open_sketch()
    } else {
        split_step(sketch_of(draws.drop_last()), draws.last())
    }
}

/// The finished level: the goal on cell `g`, and every other cell a split
/// started from made floor again.
pub open spec fn finished(s: Sketch, g: int, level: nat) -> Seq<Tile> {
    Seq::new(s.geo.len(), |i: int|
        if i == g {
            goal_tile(level)
        } else if s.splits.contains(i) {
            floor_tile()
        } else {
            s.geo[i]
        })
}

/// `geo` is the level `level` built from the split draws `draws`, with the
/// goal on cell `g`, which was floor after the splits.
pub open spec fn built_from(geo: Seq<Tile>, level: nat, draws: Seq<SplitDraw>, g: int) -> bool {
    &&& ROOM_SPLITS_MIN + level <= draws.len() < ROOM_SPLITS_MAX + level
    &&& forall|i: int| 0 <= i < draws.len() ==> draw_ok(#[trigger] draws[i])
    &&& 0 <= g < BOARD_SIDE * BOARD_SIDE
    &&& sketch_of(draws).geo[g].traits.walkable
    &&& geo == finished(sketch_of(draws), g, level)
}

/// `geo` is level `level` as some draws of splits and of a goal cell build it.
pub open spec fn laid_out(geo: Seq<Tile>, level: nat) -> bool {
    exists|draws: Seq<SplitDraw>, g: int| built_from(geo, level, draws, g)
}

/// Exactly one tile leads on: the level's goal, which can be walked onto.
pub open spec fn one_walkable_goal(geo: Seq<Tile>, level: nat) -> bool {
    exists|g: int| #![trigger geo[g]]
        0 <= g < geo.len() && geo[g] == goal_tile(level) && geo[g].traits.walkable
        && forall|j: int| 0 <= j < geo.len() && j != g ==> !is_goal(#[trigger] geo[j])
}

/// A sketch is a board of floor and wall with a floor cell, whose split
/// cells lie on it.
pub open spec fn sketch_wf(s: Sketch) -> bool {
    &&& s.geo.len() == BOARD_SIDE * BOARD_SIDE
    &&& floor_or_wall(s.geo)
    &&& some_walkable(s.geo)
    &&& forall|i: int| 0 <= i < s.splits.len() ==> 0 <= #[trigger] s.splits[i] < BOARD_SIDE * BOARD_SIDE
}

proof fn lemma_step_wf(s: Sketch, d: SplitDraw)
    requires
        sketch_wf(s),
        draw_ok(d),
    ensures
        sketch_wf(split_step(s, d)),
{
    let idx = cell(d.x as int, d.y as int, BOARD_SIDE as int);
    lemma_cell_in_range(d.x as int, d.y as int, BOARD_SIDE as int, BOARD_SIDE as int);
    let r = split_step(s, d);
    if r != s {
        let w = with_walls(s.geo, d);
        assert forall|i: int| 0 <= i < r.geo.len() implies #[trigger] r.geo[i] == floor_tile() || r.geo[i] == wall_tile() by {
            if i != idx {
                assert(s.geo[i] == floor_tile() || s.geo[i] == wall_tile());
            }
        }
        assert(r.geo[idx].traits.walkable);
    }
}

/// Every sketch built from good draws is well formed.
proof fn lemma_sketch_wf(draws: Seq<SplitDraw>)
    requires
        forall|i: int| 0 <= i < draws.len() ==> draw_ok(#[trigger] draws[i]),
    ensures
        sketch_wf(sketch_of(draws)),
    decreases draws.len(),
{
    if draws.len() == 0 {
        let s = open_sketch();
        assert(s.geo[0].traits.walkable);
    } else {
        let front = draws.drop_last();
        assert forall|i: int| 0 <= i < front.len() implies draw_ok(#[trigger] front[i]) by {
            assert(front[i] == draws[i]);
        }
        lemma_sketch_wf(front);
        assert(draw_ok(draws[draws.len() - 1]));
        lemma_step_wf(sketch_of(front), draws.last());
    }
}

/// A finished level has floor, wall and one goal, which can be walked onto.
proof fn lemma_finished(s: Sketch, g: int, level: nat)
    requires
        sketch_wf(s),
        0 <= g < BOARD_SIDE * BOARD_SIDE,
    ensures
        built_tiles(finished(s, g, level), level),
        at_most_one_goal(finished(s, g, level)),
        one_walkable_goal(finished(s, g, level), level),
        finished(s, g, level).len() == BOARD_SIDE * BOARD_SIDE,
{
    let f = finished(s, g, level);
    assert forall|i: int| 0 <= i < f.len() && i != g implies (#[trigger] f[i] == floor_tile() || f[i] == wall_tile()) by {
        if !s.splits.contains(i) {
            assert(s.geo[i] == floor_tile() || s.geo[i] == wall_tile());
        }
    }
    assert(f[g] == goal_tile(level));
    assert forall|j: int| 0 <= j < f.len() && j != g implies !is_goal(#[trigger] f[j]) by {
        assert(f[j] == floor_tile() || f[j] == wall_tile());
    }
    assert(one_walkable_goal(f, level));
}

/// The runs down a column from below a cell see the tiles as they were
/// before the run up from that cell, so the two runs make the split's walls.
proof fn lemma_vertical_walls(g0: Seq<Tile>, g1: Seq<Tile>, g2: Seq<Tile>, d: SplitDraw)
    requires
        d.vertical,
        draw_ok(d),
        g0.len() == BOARD_SIDE * BOARD_SIDE,
        g1.len() == BOARD_SIDE * BOARD_SIDE,
        g2.len() == BOARD_SIDE * BOARD_SIDE,
        forall|i: int| 0 <= i < g1.len() ==> #[trigger] g1[i] == (if walled_up(g0, d.x as int, d.y as int, i) { wall_tile() } else { g0[i] }),
        forall|i: int| 0 <= i < g2.len() ==> #[trigger] g2[i] == (if walled_down(g1, d.x as int, d.y + 1, i) { wall_tile() } else { g1[i] }),
    ensures
        g2 == with_walls(g0, d),
{
    let x = d.x as int;
    let y = d.y as int;
    assert forall|i: int| 0 <= i < g2.len() implies #[trigger] walled_down(g1, x, y + 1, i) == walled_down(g0, x, y + 1, i) by {
        lemma_index_cell(i);
        if col_of(i) == x && y + 1 <= row_of(i) {
            assert forall|k: int| y + 1 <= k <= row_of(i) implies #[trigger] g1[cell(x, k, BOARD_SIDE as int)] == g0[cell(x, k, BOARD_SIDE as int)] by {
                lemma_cell_in_range(x, k, BOARD_SIDE as int, BOARD_SIDE as int);
                let c = cell(x, k, BOARD_SIDE as int);
                assert(row_of(c) == k);
                assert(!walled_up(g0, x, y, c));
            }
            if col_walkable(g0, x, y + 1, row_of(i)) {
                assert forall|k: int| y + 1 <= k <= row_of(i) implies (#[trigger] g1[cell(x, k, BOARD_SIDE as int)]).traits.walkable by {
                    assert(g0[cell(x, k, BOARD_SIDE as int)].traits.walkable);
                }
            }
            if col_walkable(g1, x, y + 1, row_of(i)) {
                assert forall|k: int| y + 1 <= k <= row_of(i) implies (#[trigger] g0[cell(x, k, BOARD_SIDE as int)]).traits.walkable by {
                    assert(g1[cell(x, k, BOARD_SIDE as int)].traits.walkable);
                }
            }
        }
    }
    assert(g2 =~= with_walls(g0, d));
}

/// The same for a row: the run right from beside a cell sees the tiles as
/// they were before the run left from it.
proof fn lemma_horizontal_walls(g0: Seq<Tile>, g1: Seq<Tile>, g2: Seq<Tile>, d: SplitDraw)
    requires
        !d.vertical,
        draw_ok(d),
        g0.len() == BOARD_SIDE * BOARD_SIDE,
        g1.len() == BOARD_SIDE * BOARD_SIDE,
        g2.len() == BOARD_SIDE * BOARD_SIDE,
        forall|i: int| 0 <= i < g1.len() ==> #[trigger] g1[i] == (if walled_left(g0, d.y as int, d.x as int, i) { wall_tile() } else { g0[i] }),
        forall|i: int| 0 <= i < g2.len() ==> #[trigger] g2[i] == (if walled_right(g1, d.y as int, d.x + 1, i) { wall_tile() } else { g1[i] }),
    ensures
        g2 == with_walls(g0, d),
{
    let x = d.x as int;
    let y = d.y as int;
    assert forall|i: int| 0 <= i < g2.len() implies #[trigger] walled_right(g1, y, x + 1, i) == walled_right(g0, y, x + 1, i) by {
        lemma_index_cell(i);
        if row_of(i) == y && x + 1 <= col_of(i) {
            assert forall|k: int| x + 1 <= k <= col_of(i) implies #[trigger] g1[cell(k, y, BOARD_SIDE as int)] == g0[cell(k, y, BOARD_SIDE as int)] by {
                lemma_cell_in_range(k, y, BOARD_SIDE as int, BOARD_SIDE as int);
                let c = cell(k, y, BOARD_SIDE as int);
                assert(col_of(c) == k);
                assert(!walled_left(g0, y, x, c));
            }
            if row_walkable(g0, y, x + 1, col_of(i)) {
                assert forall|k: int| x + 1 <= k <= col_of(i) implies (#[trigger] g1[cell(k, y, BOARD_SIDE as int)]).traits.walkable by {
                    assert(g0[cell(k, y, BOARD_SIDE as int)].traits.walkable);
                }
            }
            if row_walkable(g1, y, x + 1, col_of(i)) {
                assert forall|k: int| x + 1 <= k <= col_of(i) implies (#[trigger] g0[cell(k, y, BOARD_SIDE as int)]).traits.walkable by {
                    assert(g1[cell(k, y, BOARD_SIDE as int)].traits.walkable);
                }
            }
        }
    }
    assert(g2 =~= with_walls(g0, d));
}

/// The level after the drawn splits: its tiles, and the cells the splits
/// that were made started from.
pub fn lay_out_splits(draws: &Vec<SplitDraw>) -> (r: (Vec<Tile>, Vec<usize>))
    requires
        forall|i: int| 0 <= i < draws@.len() ==> draw_ok(#[trigger] draws@[i]),
    ensures
        r.0@ == sketch_of(draws@).geo,
        r.1@.len() == sketch_of(draws@).splits.len(),
        forall|i: int| 0 <= i < r.1@.len() ==> #[trigger] r.1@[i] as int == sketch_of(draws@).splits[i],
{
    let mut geography: Vec<Tile> = Vec::new();
    let mut k: usize = 0;
    while k < BOARD_SIDE * BOARD_SIDE
        invariant
            k <= BOARD_SIDE * BOARD_SIDE,
            geography@.len() == k,
            forall|i: int| 0 <= i < k ==> #[trigger] geography@[i] == floor_tile(),
        decreases BOARD_SIDE * BOARD_SIDE - k,
    {
        geography.push(Tile::floor());
        k += 1;
    }
    assert(geography@ =~= open_sketch().geo);
    assert(draws@.take(0) =~= Seq::<SplitDraw>::empty());
    let mut used_x: Vec<usize> = Vec::new();
    let mut used_y: Vec<usize> = Vec::new();
    let mut splits: Vec<usize> = Vec::new();
    let mut n: usize = 0;
    while n < draws.len()
        invariant
            n <= draws@.len(),
            forall|i: int| 0 <= i < draws@.len() ==> draw_ok(#[trigger] draws@[i]),
            geography@ == sketch_of(draws@.take(n as int)).geo,
            used_x@ == sketch_of(draws@.take(n as int)).used_x,
            used_y@ == sketch_of(draws@.take(n as int)).used_y,
            splits@.len() == sketch_of(draws@.take(n as int)).splits.len(),
            forall|i: int| 0 <= i < splits@.len() ==> #[trigger] splits@[i] as int == sketch_of(draws@.take(n as int)).splits[i],
        decreases draws@.len() - n,
    {
        let d = draws[n];
        let ghost st = sketch_of(draws@.take(n as int));
        proof {
            let front = draws@.take(n as int);
            assert forall|i: int| 0 <= i < front.len() implies draw_ok(#[trigger] front[i]) by {
                assert(front[i] == draws@[i]);
            }
            lemma_sketch_wf(front);
            assert(draws@.take(n + 1).drop_last() =~= front);
            assert(draws@.take(n + 1).last() == d);
            assert(draw_ok(draws@[n as int]));
            lemma_cell_in_range(d.x as int, d.y as int, BOARD_SIDE as int, BOARD_SIDE as int);
        }
        let idx = d.x + d.y * BOARD_SIDE;
        let used_near = if d.vertical { crowded(&used_x, d.x) } else { crowded(&used_y, d.y) };
        if !used_near && geography[idx].traits.walkable {
            let ghost g0 = geography@;
            if d.vertical {
                wall_up(&mut geography, d.x, d.y);
                let ghost g1 = geography@;
                wall_down(&mut geography, d.x, d.y + 1);
                proof { lemma_vertical_walls(g0, g1, geography@, d); }
                used_x.push(d.x);
            } else {
                wall_left(&mut geography, d.y, d.x);
                let ghost g1 = geography@;
                wall_right(&mut geography, d.y, d.x + 1);
                proof { lemma_horizontal_walls(g0, g1, geography@, d); }
                used_y.push(d.y);
            }
            geography.set(idx, Tile::floor());
            splits.push(idx);
        }
        n += 1;
        proof {
            let nx = sketch_of(draws@.take(n as int));
            assert(nx == split_step(st, d));
            assert(geography@ =~= nx.geo);
            assert(used_x@ =~= nx.used_x);
            assert(used_y@ =~= nx.used_y);
        }
    }
    assert(draws@.take(n as int) =~= draws@);
    (geography, splits)
}

/// A walkable cell for the goal: random draws first, then the first
/// walkable cell in reading order.
fn goal_cell(geo: &Vec<Tile>, rng: &mut SmallRng) -> (r: usize)
    requires
        geo@.len() == BOARD_SIDE * BOARD_SIDE,
        some_walkable(geo@),
    ensures
        r < geo@.len(),
        geo@[r as int].traits.walkable,
{
    let mut attempt: usize = 0;
    while attempt < PLACEMENT_ATTEMPTS
        invariant
            geo@.len() == BOARD_SIDE * BOARD_SIDE,
        decreases PLACEMENT_ATTEMPTS - attempt,
    {
        let x = draw_range(rng, 0, BOARD_SIDE);
        let y = draw_range(rng, 0, BOARD_SIDE);
        proof { lemma_cell_in_range(x as int, y as int, BOARD_SIDE as int, BOARD_SIDE as int); }
        let idx = x + y * BOARD_SIDE;
        if geo[idx].traits.walkable {
            return idx;
        }
        attempt += 1;
    }
    let mut i: usize = 0;
    while i < geo.len()
        invariant
            i <= geo@.len(),
            some_walkable(geo@),
            forall|j: int| 0 <= j < i ==> !(#[trigger] geo@[j]).traits.walkable,
        decreases geo@.len() - i,
    {
        if geo[i].traits.walkable {
            return i;
        }
        i += 1;
    }
    proof {
        let k = choose|k: int| 0 <= k < geo@.len() && (#[trigger] geo@[k]).traits.walkable;
        assert(!geo@[k].traits.walkable);
    }
    0
}

impl Board {
    /// The board of level `level`, built from a copy of `rng`, which keeps
    /// the copy; `rng` itself is left as it was.
    pub fn new(level: usize, rng: &mut SmallRng) -> (r: Board)
        requires
            level + ROOM_SPLITS_MAX <= usize::MAX,
        ensures
            *final(rng) == *old(rng),
            r.wf(),
            r.width == BOARD_SIDE,
            r.height == BOARD_SIDE,
            laid_out(r.geography@, level as nat),
            built_tiles(r.geography@, level as nat),
            at_most_one_goal(r.geography@),
            one_walkable_goal(r.geography@, level as nat),
    {
        let (geography, width, height, rng) = Board::rooms_builder(level, rng);
        Board { geography, width, height, rng }
    }

    /// Draws the splits of level `level` and its goal cell from a copy of
    /// `rng`, and builds the level from them.
    fn rooms_builder(level: usize, rng: &mut SmallRng) -> (r: (Vec<Tile>, usize, usize, SmallRng))
        requires
            level + ROOM_SPLITS_MAX <= usize::MAX,
        ensures
            *final(rng) == *old(rng),
            r.1 == BOARD_SIDE,
            r.2 == BOARD_SIDE,
            r.0@.len() == BOARD_SIDE * BOARD_SIDE,
            laid_out(r.0@, level as nat),
            built_tiles(r.0@, level as nat),
            at_most_one_goal(r.0@),
            one_walkable_goal(r.0@, level as nat),
    {
        let mut rng = copy_rng(rng);
        let attempts = draw_range(&mut rng, ROOM_SPLITS_MIN + level, ROOM_SPLITS_MAX + level);
        let mut draws: Vec<SplitDraw> = Vec::new();
        let mut n: usize = 0;
        while n < attempts
            invariant
                n <= attempts,
                draws@.len() == n,
                forall|i: int| 0 <= i < draws@.len() ==> draw_ok(#[trigger] draws@[i]),
            decreases attempts - n,
        {
            let vertical = draw_coin(&mut rng);
            let x = draw_range(&mut rng, 1, BOARD_SIDE - 1);
            let y = draw_range(&mut rng, 1, BOARD_SIDE - 1);
            draws.push(SplitDraw { vertical, x, y });
            n += 1;
        }
        let (mut geography, splits) = lay_out_splits(&draws);
        let ghost sk = sketch_of(draws@);
        proof { lemma_sketch_wf(draws@); }
        let goal_idx = goal_cell(&geography, &mut rng);
        let goal = if level < LAST_LEVEL { Tile::stair() } else { Tile::win() };
        geography.set(goal_idx, goal);
        let mut s: usize = 0;
        while s < splits.len()
            invariant
                s <= splits@.len(),
                splits@.len() == sk.splits.len(),
                forall|i: int| 0 <= i < splits@.len() ==> #[trigger] splits@[i] as int == sk.splits[i],
                sketch_wf(sk),
                goal_idx < BOARD_SIDE * BOARD_SIDE,
                geography@.len() == BOARD_SIDE * BOARD_SIDE,
                forall|i: int| 0 <= i < geography@.len() ==> #[trigger] geography@[i] == (if i == goal_idx {
                    goal_tile(level as nat)
                } else if sk.splits.take(s as int).contains(i) {
                    floor_tile()
                } else {
                    sk.geo[i]
                }),
            decreases splits@.len() - s,
        {
            let idx = splits[s];
            let ghost before = geography@;
            if idx != goal_idx {
                geography.set(idx, Tile::floor());
            }
            proof {
                assert(splits@[s as int] as int == sk.splits[s as int]);
                assert(sk.splits.take(s + 1)[s as int] == idx as int);
                assert(sk.splits.take(s + 1) =~= sk.splits.take(s as int).push(sk.splits[s as int]));
                assert forall|i: int| 0 <= i < geography@.len() implies #[trigger] geography@[i] == (if i == goal_idx {
                    goal_tile(level as nat)
                } else if sk.splits.take(s + 1).contains(i) {
                    floor_tile()
                } else {
                    sk.geo[i]
                }) by {
                    assert(before[i] == (if i == goal_idx {
                        goal_tile(level as nat)
                    } else if sk.splits.take(s as int).contains(i) {
                        floor_tile()
                    } else {
                        sk.geo[i]
                    }));
                    if i == idx as int {
                        assert(sk.splits.take(s + 1).contains(i));
                    } else {
                        assert(geography@[i] == before[i]);
                    }
                    if sk.splits.take(s + 1).contains(i) && !sk.splits.take(s as int).contains(i) {
                        let j = choose|j: int| 0 <= j < s + 1 && #[trigger] sk.splits.take(s + 1)[j] == i;
                        if j < s {
                            assert(sk.splits.take(s as int)[j] == i);
                        }
                    }
                    if sk.splits.take(s as int).contains(i) {
                        let j = choose|j: int| 0 <= j < s && #[trigger] sk.splits.take(s as int)[j] == i;
                        assert(sk.splits.take(s + 1)[j] == i);
                    }
                }
            }
            s += 1;
        }
        proof {
            assert(sk.splits.take(s as int) =~= sk.splits);
            let f = finished(sk, goal_idx as int, level as nat);
            assert(geography@ =~= f);
            lemma_finished(sk, goal_idx as int, level as nat);
            assert(built_from(geography@, level as nat, draws@, goal_idx as int));
        }
        (geography, BOARD_SIDE, BOARD_SIDE, rng)
    }
}

} // verus!

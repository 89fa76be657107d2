use vstd::prelude::*;

verus! {

/// Terrain of a hex of the board.
#[derive(Debug, Clone, Copy, PartialEq, Eq, Hash, PartialOrd, Ord, Structural)]
pub enum Terrain {
    Nothing,
    Plain,
    Forest,
    Mountain,
    Town,
    Port,
}

/// A board position `(x, y)`: `x` counts columns, `y` counts rows.
pub type Coordinate = (usize, usize);

pub const HEIGHT: usize = 13;
pub const WIDTH: usize = 14;

pub const TERRAIN: [[Terrain; WIDTH]; HEIGHT] = [
    [
        Terrain::Nothing,
        Terrain::Nothing,
        Terrain::Nothing,
        Terrain::Nothing,
        Terrain::Nothing,
        Terrain::Nothing,
        Terrain::Nothing,
        Terrain::Nothing,
        Terrain::Nothing,
        Terrain::Nothing,
        Terrain::Nothing,
        Terrain::Nothing,
        Terrain::Nothing,
        Terrain::Nothing,
    ],
    [
        Terrain::Nothing,
        Terrain::Plain,
        Terrain::Forest,
        Terrain::Plain,
        Terrain::Plain,
        Terrain::Nothing,
        Terrain::Nothing,
        Terrain::Nothing,
        Terrain::Nothing,
        Terrain::Nothing,
        Terrain::Nothing,
        Terrain::Nothing,
        Terrain::Plain,
        Terrain::Nothing,
    ],
    [
        Terrain::Nothing,
        Terrain::Forest,
        Terrain::Forest,
        Terrain::Forest,
        Terrain::Plain,
        Terrain::Port,
        Terrain::Town,
        Terrain::Nothing,
        Terrain::Plain,
        Terrain::Nothing,
        Terrain::Forest,
        Terrain::Forest,
        Terrain::Forest,
        Terrain::Mountain,
    ],
    [
        Terrain::Nothing,
        Terrain::Forest,
        Terrain::Forest,
        Terrain::Mountain,
        Terrain::Plain,
        Terrain::Plain,
        Terrain::Plain,
        Terrain::Port,
        Terrain::Plain,
        Terrain::Plain,
        Terrain::Plain,
        Terrain::Forest,
        Terrain::Forest,
        Terrain::Forest,
    ],
    [
        Terrain::Nothing,
        Terrain::Nothing,
        Terrain::Forest,
        Terrain::Mountain,
        Terrain::Mountain,
        Terrain::Forest,
        Terrain::Forest,
        Terrain::Plain,
        Terrain::Forest,
        Terrain::Port,
        Terrain::Plain,
        Terrain::Forest,
        Terrain::Forest,
        Terrain::Forest,
    ],
    [
        Terrain::Nothing,
        Terrain::Nothing,
        Terrain::Port,
        Terrain::Town,
        Terrain::Mountain,
        Terrain::Mountain,
        Terrain::Mountain,
        Terrain::Forest,
        Terrain::Plain,
        Terrain::Plain,
        Terrain::Plain,
        Terrain::Plain,
        Terrain::Forest,
        Terrain::Forest,
    ],
    [
        Terrain::Nothing,
        Terrain::Nothing,
        Terrain::Nothing,
        Terrain::Forest,
        Terrain::Mountain,
        Terrain::Mountain,
        Terrain::Mountain,
        Terrain::Forest,
        Terrain::Plain,
        Terrain::Plain,
        Terrain::Plain,
        Terrain::Plain,
        Terrain::Forest,
        Terrain::Forest,
    ],
    [
        Terrain::Nothing,
        Terrain::Nothing,
        Terrain::Nothing,
        Terrain::Mountain,
        Terrain::Mountain,
        Terrain::Mountain,
        Terrain::Mountain,
        Terrain::Forest,
        Terrain::Plain,
        Terrain::Plain,
        Terrain::Plain,
        Terrain::Plain,
        Terrain::Plain,
        Terrain::Nothing,
    ],
    [
        Terrain::Nothing,
        Terrain::Nothing,
        Terrain::Nothing,
        Terrain::Forest,
        Terrain::Forest,
        Terrain::Mountain,
        Terrain::Mountain,
        Terrain::Forest,
        Terrain::Plain,
        Terrain::Plain,
        Terrain::Plain,
        Terrain::Plain,
        Terrain::Plain,
        Terrain::Nothing,
    ],
    [
        Terrain::Nothing,
        Terrain::Nothing,
        Terrain::Nothing,
        Terrain::Nothing,
        Terrain::Forest,
        Terrain::Forest,
        Terrain::Mountain,
        Terrain::Forest,
        Terrain::Forest,
        Terrain::Town,
        Terrain::Port,
        Terrain::Plain,
        Terrain::Plain,
        Terrain::Nothing,
    ],
    [
        Terrain::Nothing,
        Terrain::Nothing,
        Terrain::Nothing,
        Terrain::Nothing,
        Terrain::Nothing,
        Terrain::Forest,
        Terrain::Mountain,
        Terrain::Forest,
        Terrain::Forest,
        Terrain::Forest,
        Terrain::Nothing,
        Terrain::Nothing,
        Terrain::Nothing,
        Terrain::Nothing,
    ],
    [
        Terrain::Nothing,
        Terrain::Nothing,
        Terrain::Nothing,
        Terrain::Nothing,
        Terrain::Nothing,
        Terrain::Forest,
        Terrain::Forest,
        Terrain::Forest,
        Terrain::Forest,
        Terrain::Forest,
        Terrain::Nothing,
        Terrain::Nothing,
        Terrain::Nothing,
        Terrain::Nothing,
    ],
    [
        Terrain::Nothing,
        Terrain::Nothing,
        Terrain::Nothing,
        Terrain::Nothing,
        Terrain::Nothing,
        Terrain::Nothing,
        Terrain::Nothing,
        Terrain::Forest,
        Terrain::Nothing,
        Terrain::Nothing,
        Terrain::Nothing,
        Terrain::Nothing,
        Terrain::Nothing,
        Terrain::Nothing,
    ],
];

impl Terrain {
    /// Position of the terrain in declaration order.
    pub open spec fn spec_index(self) -> int {
        match self {
            Terrain::Nothing => 0,
            Terrain::Plain => 1,
            Terrain::Forest => 2,
            Terrain::Mountain => 3,
            Terrain::Town => 4,
            Terrain::Port => 5,
        }
    }

    pub fn index(&self) -> (r: usize)
        ensures
            r == self.spec_index(),
            r < 6,
    {
        match self {
            Terrain::Nothing => 0,
            Terrain::Plain => 1,
            Terrain::Forest => 2,
            Terrain::Mountain => 3,
            Terrain::Town => 4,
            Terrain::Port => 5,
        }
    }
}

/// Whether two coordinates name the same hex.
pub fn same_coord(a: Coordinate, b: Coordinate) -> (r: bool)
    ensures
        r == (a == b),
{
    a.0 == b.0 && a.1 == b.1
}

/// Whether `c` lies on the board.
pub open spec fn on_board(c: Coordinate) -> bool {
    c.0 < WIDTH && c.1 < HEIGHT
}

/// Whether `c` lies on the board away from its top row and left column, so that
/// all its neighbours can be computed without going below zero.
pub open spec fn interior(c: Coordinate) -> bool {
    1 <= c.0 < WIDTH && 1 <= c.1 < HEIGHT
}

/// The terrain at `c`, `Nothing` off the board.
pub open spec fn spec_terrain(c: Coordinate) -> Terrain {
    if on_board(c) {
        TERRAIN@[c.1 as int]@[c.0 as int]
    } else {
        Terrain::Nothing
    }
}

pub fn terrain_at(c: Coordinate) -> (t: Terrain)
    requires
        on_board(c),
    ensures
        t == spec_terrain(c),
{
    let row = TERRAIN[c.1];
    row[c.0]
}

/// The six hex neighbours of `c`, for a map whose odd columns sit half a hex
/// higher than the even ones.
pub open spec fn spec_neighbors(c: Coordinate) -> Seq<Coordinate> {
    let x = c.0 as int;
    let y = c.1 as int;
    if x % 2 == 1 {
        seq![
            (x as usize, (y - 1) as usize),
            ((x + 1) as usize, (y - 1) as usize),
            ((x + 1) as usize, y as usize),
            (x as usize, (y + 1) as usize),
            ((x - 1) as usize, y as usize),
            ((x - 1) as usize, (y - 1) as usize),
        ]
    } else {
        seq![
            (x as usize, (y - 1) as usize),
            ((x + 1) as usize, y as usize),
            ((x + 1) as usize, (y + 1) as usize),
            (x as usize, (y + 1) as usize),
            ((x - 1) as usize, (y + 1) as usize),
            ((x - 1) as usize, y as usize),
        ]
    }
}

/// Whether `b` is one of the hex neighbours of `a`.
pub open spec fn adjacent(a: Coordinate, b: Coordinate) -> bool {
    spec_neighbors(a).contains(b)
}

/// Whether the neighbours of `c` can be computed without leaving the range of `usize`.
pub open spec fn neighbors_defined(c: Coordinate) -> bool {
    1 <= c.0 < usize::MAX && 1 <= c.1 < usize::MAX
}

pub fn get_neighbors(coord: Coordinate) -> (r: [Coordinate; 6])
    requires
        neighbors_defined(coord),
    ensures
        r@ == spec_neighbors(coord),
{
    let (x, y) = coord;
    if x % 2 == 1 {
        [(x, y - 1), (x + 1, y - 1), (x + 1, y), (x, y + 1), (x - 1, y), (x - 1, y - 1)]
    } else {
        [(x, y - 1), (x + 1, y), (x + 1, y + 1), (x, y + 1), (x - 1, y + 1), (x - 1, y)]
    }
}

/// Hex adjacency is symmetric, and no hex neighbours itself.
pub proof fn lemma_adjacent_symmetric(a: Coordinate, b: Coordinate)
    requires
        neighbors_defined(a),
        neighbors_defined(b),
    ensures
        adjacent(a, b) == adjacent(b, a),
        !adjacent(a, a),
{
    if adjacent(a, b) {
        let i = choose|i: int| 0 <= i < 6 && spec_neighbors(a)[i] == b;
        assert(spec_neighbors(b).contains(a)) by {
            if a.0 % 2 == 1 {
                if i == 0 { assert(spec_neighbors(b)[3] == a); }
                if i == 1 { assert(spec_neighbors(b)[4] == a); }
                if i == 2 { assert(spec_neighbors(b)[5] == a); }
                if i == 3 { assert(spec_neighbors(b)[0] == a); }
                if i == 4 { assert(spec_neighbors(b)[1] == a); }
                if i == 5 { assert(spec_neighbors(b)[2] == a); }
            } else {
                if i == 0 { assert(spec_neighbors(b)[3] == a); }
                if i == 1 { assert(spec_neighbors(b)[4] == a); }
                if i == 2 { assert(spec_neighbors(b)[5] == a); }
                if i == 3 { assert(spec_neighbors(b)[0] == a); }
                if i == 4 { assert(spec_neighbors(b)[1] == a); }
                if i == 5 { assert(spec_neighbors(b)[2] == a); }
            }
        }
    }
    if adjacent(b, a) {
        let i = choose|i: int| 0 <= i < 6 && spec_neighbors(b)[i] == a;
        assert(spec_neighbors(a).contains(b)) by {
            if i == 0 { assert(spec_neighbors(a)[3] == b); }
            if i == 1 { assert(spec_neighbors(a)[4] == b); }
            if i == 2 { assert(spec_neighbors(a)[5] == b); }
            if i == 3 { assert(spec_neighbors(a)[0] == b); }
            if i == 4 { assert(spec_neighbors(a)[1] == b); }
            if i == 5 { assert(spec_neighbors(a)[2] == b); }
        }
    }
    if adjacent(a, a) {
        let i = choose|i: int| 0 <= i < 6 && spec_neighbors(a)[i] == a;
        assert(spec_neighbors(a)[i] != a);
    }
}

/// Every hex with terrain other than `Nothing` is an interior hex.
pub proof fn lemma_terrain_interior(c: Coordinate)
    requires
        spec_terrain(c) != Terrain::Nothing,
    ensures
        interior(c),
{
    assert(forall|x: int| 0 <= x < 14 ==> #[trigger] TERRAIN@[0]@[x] == Terrain::Nothing);
    assert(forall|y: int| 0 <= y < 13 ==> #[trigger] TERRAIN@[y]@[0] == Terrain::Nothing);
}


} // verus!

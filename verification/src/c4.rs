//! Connect four: players drop counters into columns; four in a row, across,
//! down or diagonally, wins.

use vstd::prelude::*;
use crate::actor::Actor;

verus! {

/// The size of the board.
#[derive(Clone, Copy, Debug)]
pub struct C4Hyperparams {
    pub board_width: usize,
    pub board_height: usize,
}

impl Default for C4Hyperparams {
    fn default() -> (r: Self)
        ensures
            r.board_width == 7,
            r.board_height == 6,
    {
        C4Hyperparams { board_width: 7, board_height: 6 }
    }
}

#[derive(Copy, Clone, PartialEq, Eq, Hash, Debug, Structural)]
pub enum C4Action {
    Drop(u8),
}

#[derive(Copy, Clone, PartialEq, Eq, Debug, Structural)]
pub enum C4Cell {
    Empty,
    Filled(u8),
}

/// How a board stands: won by a player, full, or still open.
#[derive(Copy, Clone, PartialEq, Eq, Debug, Structural)]
pub enum CheckForWinResult {
    Winner(u8),
    Stalemate,
    Ongoing,
}

/// A position: `board[row * board_width + column]`, row 0 at the top.
#[derive(Debug)]
pub struct C4State {
    pub board: Vec<C4Cell>,
    pub next_player: u8,
    pub terminal: bool,
    pub outcome: CheckForWinResult,
    pub hyperparams: C4Hyperparams,
}

pub struct C4StateView {
    pub board: Seq<C4Cell>,
    pub next_player: u8,
    pub terminal: bool,
    pub outcome: CheckForWinResult,
    pub width: int,
    pub height: int,
}

impl View for C4State {
    type V = C4StateView;

    open spec fn view(&self) -> C4StateView {
        C4StateView {
            board: self.board@,
            next_player: self.next_player,
            terminal: self.terminal,
            outcome: self.outcome,
            width: self.hyperparams.board_width as int,
            height: self.hyperparams.board_height as int,
        }
    }
}

fn copy_board(v: &Vec<C4Cell>) -> (r: Vec<C4Cell>)
    ensures
        r@ == v@,
{
    let mut r: Vec<C4Cell> = Vec::new();
    let mut i: usize = 0;
    while i < v.len()
        invariant
            i <= v.len(),
            r@ == v@.take(i as int),
        decreases v.len() - i,
    {
        r.push(v[i]);
        i += 1;
        assert(r@ =~= v@.take(i as int));
    }
    assert(v@.take(v.len() as int) =~= v@);
    r
}

impl Clone for C4State {
    fn clone(&self) -> (r: Self)
        ensures
            r@ == self@,
    {
        C4State {
            board: copy_board(&self.board),
            next_player: self.next_player,
            terminal: self.terminal,
            outcome: self.outcome,
            hyperparams: self.hyperparams,
        }
    }
}

/// A board of `w` columns and `h` rows, each at least three.
pub open spec fn board_shape(b: Seq<C4Cell>, w: int, h: int) -> bool {
    &&& 3 <= w
    &&& 3 <= h
    &&& b.len() == w * h
}

/// A board of the given size holding counters of the two players only.
/// Each side is at least three, which the search for lines of four needs,
/// and at most 255: a guard that keeps the board's indices and its column
/// numbers (bytes) within their types.
pub open spec fn board_wf(b: Seq<C4Cell>, w: int, h: int) -> bool {
    &&& 3 <= w <= 255
    &&& 3 <= h <= 255
    &&& b.len() == w * h
    &&& forall|i: int| 0 <= i < b.len() ==> (#[trigger] b[i] matches C4Cell::Filled(p) ==> p < 2)
}

pub open spec fn c4_wf(v: C4StateView) -> bool {
    board_wf(v.board, v.width, v.height) && v.next_player < 2
}

pub open spec fn cell(b: Seq<C4Cell>, w: int, r: int, c: int) -> C4Cell {
    b[r * w + c]
}

/// The lines the win check looks for: across (0), down (1), down to the
/// right (2) and up to the right (3). Each is searched by an outer and an
/// inner loop; `line_pos` gives the row and column of the `k`-th cell of the
/// line at loop position `(o, i)`.
pub open spec fn line_pos(dir: int, o: int, i: int, k: int) -> (int, int) {
    if dir == 0 {
        (o, i + k)
    } else if dir == 1 {
        (i + k, o)
    } else if dir == 2 {
        (i + k, o + k)
    } else {
        (i + 3 - k, o + k)
    }
}

pub open spec fn outer_count(w: int, h: int, dir: int) -> int {
    if dir == 0 {
        h
    } else if dir == 1 {
        w
    } else {
        w - 3
    }
}

pub open spec fn inner_count(w: int, h: int, dir: int) -> int {
    if dir == 0 {
        w - 3
    } else {
        h - 3
    }
}

/// The `k`-th cell of the line at loop position `(o, i)`.
pub open spec fn line_cell(b: Seq<C4Cell>, w: int, dir: int, o: int, i: int, k: int) -> C4Cell {
    cell(b, w, line_pos(dir, o, i, k).0, line_pos(dir, o, i, k).1)
}

/// Four counters of one player in a line.
pub open spec fn line_at(b: Seq<C4Cell>, w: int, dir: int, o: int, i: int) -> bool {
    &&& line_cell(b, w, dir, o, i, 0) != C4Cell::Empty
    &&& line_cell(b, w, dir, o, i, 0) == line_cell(b, w, dir, o, i, 1)
    &&& line_cell(b, w, dir, o, i, 0) == line_cell(b, w, dir, o, i, 2)
    &&& line_cell(b, w, dir, o, i, 0) == line_cell(b, w, dir, o, i, 3)
}

pub open spec fn in_loops(w: int, h: int, dir: int, o: int, i: int) -> bool {
    0 <= o < outer_count(w, h, dir) && 0 <= i < inner_count(w, h, dir)
}

/// The line at `(o, i)` is the first one of direction `dir` the search meets.
pub open spec fn first_line(b: Seq<C4Cell>, w: int, h: int, dir: int, o: int, i: int) -> bool {
    &&& in_loops(w, h, dir, o, i)
    &&& line_at(b, w, dir, o, i)
    &&& forall|o2: int, i2: int|
        in_loops(w, h, dir, o2, i2) && (o2 < o || (o2 == o && i2 < i)) ==> !#[trigger] line_at(b, w, dir, o2, i2)
}

pub open spec fn has_line(b: Seq<C4Cell>, w: int, h: int, dir: int) -> bool {
    exists|o: int, i: int| in_loops(w, h, dir, o, i) && #[trigger] line_at(b, w, dir, o, i)
}

pub open spec fn owner(c: C4Cell) -> u8 {
    match c {
        C4Cell::Filled(p) => p,
        C4Cell::Empty => 0,
    }
}

/// The owner of the first line of direction `dir`.
pub open spec fn first_line_owner(b: Seq<C4Cell>, w: int, h: int, dir: int) -> u8 {
    let (o, i) = choose|o: int, i: int| first_line(b, w, h, dir, o, i);
    owner(line_cell(b, w, dir, o, i, 0))
}

pub open spec fn board_full(b: Seq<C4Cell>) -> bool {
    forall|i: int| 0 <= i < b.len() ==> #[trigger] b[i] != C4Cell::Empty
}

/// How the board stands: full boards first, then the first line found
/// across, down, down to the right and up to the right, in that order.
pub open spec fn spec_check_for_win(b: Seq<C4Cell>, w: int, h: int) -> CheckForWinResult {
    if board_full(b) {
        CheckForWinResult::Stalemate
    } else if has_line(b, w, h, 0) {
        CheckForWinResult::Winner(first_line_owner(b, w, h, 0))
    } else if has_line(b, w, h, 1) {
        CheckForWinResult::Winner(first_line_owner(b, w, h, 1))
    } else if has_line(b, w, h, 2) {
        CheckForWinResult::Winner(first_line_owner(b, w, h, 2))
    } else if has_line(b, w, h, 3) {
        CheckForWinResult::Winner(first_line_owner(b, w, h, 3))
    } else {
        CheckForWinResult::Ongoing
    }
}

proof fn lemma_first_line_unique(b: Seq<C4Cell>, w: int, h: int, dir: int, o: int, i: int, o2: int, i2: int)
    requires
        first_line(b, w, h, dir, o, i),
        first_line(b, w, h, dir, o2, i2),
    ensures
        o == o2 && i == i2,
{
    if o2 < o || (o2 == o && i2 < i) {
        assert(!line_at(b, w, dir, o2, i2));
    } else if o < o2 || (o == o2 && i < i2) {
        assert(!line_at(b, w, dir, o, i));
    }
}

/// The cells of every line in the loops lie on the board.
proof fn lemma_line_cell_index(w: int, h: int, dir: int, o: int, i: int, k: int)
    requires
        3 <= w,
        3 <= h,
        0 <= dir < 4,
        in_loops(w, h, dir, o, i),
        0 <= k < 4,
    ensures
        0 <= line_pos(dir, o, i, k).0 < h,
        0 <= line_pos(dir, o, i, k).1 < w,
        0 <= line_pos(dir, o, i, k).0 * w + line_pos(dir, o, i, k).1 < w * h,
{
    let (rr, cc) = line_pos(dir, o, i, k);
    assert(0 <= rr * w + cc < w * h) by (nonlinear_arith)
        requires
            0 <= rr < h,
            0 <= cc < w,
    ;
}

/// The first line of direction `dir` on the board, if any: its owner.
fn find_line(board: &Vec<C4Cell>, w: usize, h: usize, dir: usize) -> (r: Option<u8>)
    requires
        board_shape(board@, w as int, h as int),
        dir < 4,
    ensures
        has_line(board@, w as int, h as int, dir as int) ==> r == Some(
            first_line_owner(board@, w as int, h as int, dir as int),
        ),
        !has_line(board@, w as int, h as int, dir as int) ==> r is None,
{
    let ghost b = board@;
    let ghost wi = w as int;
    let ghost hi = h as int;
    let ghost d = dir as int;
    let outer: usize = if dir == 0 { h } else if dir == 1 { w } else { w - 3 };
    let inner: usize = if dir == 0 { w - 3 } else { h - 3 };
    let mut o: usize = 0;
    while o < outer
        invariant
            board_shape(b, wi, hi),
            b == board@,
            wi == w,
            hi == h,
            d == dir,
            dir < 4,
            outer == outer_count(wi, hi, d),
            inner == inner_count(wi, hi, d),
            o <= outer,
            forall|o2: int, i2: int| in_loops(wi, hi, d, o2, i2) && o2 < o ==> !#[trigger] line_at(b, wi, d, o2, i2),
        decreases outer - o,
    {
        let mut i: usize = 0;
        while i < inner
            invariant
                board_shape(b, wi, hi),
                b == board@,
                wi == w,
                hi == h,
                d == dir,
                dir < 4,
                outer == outer_count(wi, hi, d),
                inner == inner_count(wi, hi, d),
                    o < outer,
                i <= inner,
                forall|o2: int, i2: int|
                    in_loops(wi, hi, d, o2, i2) && (o2 < o || (o2 == o && i2 < i)) ==> !#[trigger] line_at(
                        b,
                        wi,
                        d,
                        o2,
                        i2,
                    ),
            decreases inner - i,
        {
            let mut cells: [C4Cell; 4] = [C4Cell::Empty, C4Cell::Empty, C4Cell::Empty, C4Cell::Empty];
            let mut k: usize = 0;
            while k < 4
                invariant
                    board_shape(b, wi, hi),
                    b == board@,
                    wi == w,
                    d == dir,
                    in_loops(wi, hi, d, o as int, i as int),
                            k <= 4,
                    hi == h,
                    dir < 4,
                    forall|j: int| 0 <= j < k ==> #[trigger] cells@[j] == line_cell(b, wi, d, o as int, i as int, j),
                decreases 4 - k,
            {
                proof { lemma_line_cell_index(wi, hi, d, o as int, i as int, k as int); }
                let (rr, cc): (usize, usize) = if dir == 0 {
                    (o, i + k)
                } else if dir == 1 {
                    (i + k, o)
                } else if dir == 2 {
                    (i + k, o + k)
                } else {
                    (i + 3 - k, o + k)
                };
                assert((rr as int, cc as int) == line_pos(d, o as int, i as int, k as int));
                assert(rr * w + cc < board.len()) by (nonlinear_arith)
                    requires
                        0 <= rr < h,
                        0 <= cc < w,
                        board.len() == w * h,
                ;
                let idx = rr * w + cc;
                cells[k] = board[idx];
                k += 1;
            }
            if cells[0] != C4Cell::Empty && cells[0] == cells[1] && cells[0] == cells[2] && cells[0] == cells[3] {
                proof {
                    assert(line_at(b, wi, d, o as int, i as int));
                    assert(first_line(b, wi, hi, d, o as int, i as int));
                    let (fo, fi) = choose|fo: int, fi: int| first_line(b, wi, hi, d, fo, fi);
                    lemma_first_line_unique(b, wi, hi, d, o as int, i as int, fo, fi);
                    assert(has_line(b, wi, hi, d));
                    lemma_line_cell_index(wi, hi, d, o as int, i as int, 0);
                }
                return match cells[0] {
                    C4Cell::Filled(p) => Some(p),
                    C4Cell::Empty => Some(0),
                };
            }
            i += 1;
        }
        o += 1;
    }
    proof {
        if has_line(b, wi, hi, d) {
            let (fo, fi) = choose|fo: int, fi: int| in_loops(wi, hi, d, fo, fi) && #[trigger] line_at(b, wi, d, fo, fi);
            assert(!line_at(b, wi, d, fo, fi));
        }
    }
    None
}

/// How the board stands (see `spec_check_for_win`).
pub fn check_for_win(board: &Vec<C4Cell>, w: usize, h: usize) -> (r: CheckForWinResult)
    requires
        board_shape(board@, w as int, h as int),
    ensures
        r == spec_check_for_win(board@, w as int, h as int),
{
    let mut full = true;
    let mut i: usize = 0;
    while i < board.len()
        invariant
            i <= board.len(),
            full == forall|j: int| 0 <= j < i ==> #[trigger] board@[j] != C4Cell::Empty,
        decreases board.len() - i,
    {
        if board[i] == C4Cell::Empty {
            full = false;
        }
        i += 1;
    }
    if full {
        return CheckForWinResult::Stalemate;
    }
    let mut dir: usize = 0;
    while dir < 4
        invariant
            board_shape(board@, w as int, h as int),
            !board_full(board@),
            dir <= 4,
            forall|d: int| 0 <= d < dir ==> !has_line(board@, w as int, h as int, d),
        decreases 4 - dir,
    {
        match find_line(board, w, h, dir) {
            Some(p) => return CheckForWinResult::Winner(p),
            None => {},
        }
        dir += 1;
    }
    CheckForWinResult::Ongoing
}

/// The lowest empty cell of column `col` among the top `k` rows.
pub open spec fn lowest_empty(b: Seq<C4Cell>, w: int, col: int, k: int) -> Option<int>
    decreases k,
{
    if k <= 0 {
        None
    } else if cell(b, w, k - 1, col) == C4Cell::Empty {
        Some(k - 1)
    } else {
        lowest_empty(b, w, col, k - 1)
    }
}

/// The board after `p` drops a counter into column `col`: it lands on the
/// lowest empty cell; a full column is left as it is.
pub open spec fn spec_drop(b: Seq<C4Cell>, w: int, h: int, col: int, p: u8) -> Seq<C4Cell> {
    match lowest_empty(b, w, col, h) {
        Some(y) => b.update(y * w + col, C4Cell::Filled(p)),
        None => b,
    }
}

/// The position after `a`: the counter dropped, the board checked, the
/// other player to move, and the board size back to the standard one.
pub open spec fn spec_c4_execute(v: C4StateView, a: C4Action) -> C4StateView {
    match a {
        C4Action::Drop(x) => {
            let b = spec_drop(v.board, v.width, v.height, x as int, v.next_player);
            let result = spec_check_for_win(b, v.width, v.height);
            C4StateView {
                board: b,
                next_player: ((v.next_player + 1) % 2) as u8,
                terminal: result != CheckForWinResult::Ongoing,
                outcome: result,
                width: 7,
                height: 6,
            }
        },
    }
}

/// The columns among the first `k` whose top cell is free, as drops.
pub open spec fn open_columns(b: Seq<C4Cell>, k: int) -> Seq<C4Action>
    decreases k,
{
    if k <= 0 {
        Seq::empty()
    } else {
        open_columns(b, k - 1) + if b[k - 1] == C4Cell::Empty {
            seq![C4Action::Drop((k - 1) as u8)]
        } else {
            Seq::empty()
        }
    }
}

proof fn lemma_lowest_empty(b: Seq<C4Cell>, w: int, col: int, k: int)
    ensures
        lowest_empty(b, w, col, k) matches Some(y) ==> 0 <= y < k && cell(b, w, y, col) == C4Cell::Empty,
    decreases k,
{
    if k > 0 {
        lemma_lowest_empty(b, w, col, k - 1);
    }
}

impl C4Action {
    /// The position after this action.
    pub fn execute(&self, state: &C4State) -> (r: C4State)
        requires
            c4_wf(state@),
            self->0 < state@.width,
        ensures
            r@ == spec_c4_execute(state@, *self),
    {
        let w = state.hyperparams.board_width;
        let h = state.hyperparams.board_height;
        let column = match self {
            C4Action::Drop(x) => *x as usize,
        };
        let mut board = copy_board(&state.board);
        let ghost b = state.board@;
        let mut y: usize = h;
        let mut done = false;
        while y > 0 && !done
            invariant
                y <= h,
                board_wf(b, w as int, h as int),
                column < w,
                !done ==> board@ == b,
                !done ==> lowest_empty(b, w as int, column as int, h as int) == lowest_empty(b, w as int, column as int, y as int),
                done ==> (lowest_empty(b, w as int, column as int, h as int) matches Some(t) && board@ == b.update(
                    t * w + column,
                    C4Cell::Filled(state.next_player),
                )),
            decreases y + if done { 0int } else { 1int },
        {
            let row = y - 1;
            assert(board.len() == b.len());
            assert(row * w + column < board.len()) by (nonlinear_arith)
                requires
                    0 <= row < h,
                    0 <= column < w,
                    board.len() == w * h,
            ;
            if board[row * w + column] == C4Cell::Empty {
                board.set(row * w + column, C4Cell::Filled(state.next_player));
                done = true;
            } else {
                y = row;
            }
        }
        let ghost nb = board@;
        proof {
            lemma_lowest_empty(b, w as int, column as int, h as int);
            match lowest_empty(b, w as int, column as int, h as int) {
                Some(t) => {
                    assert(t * w + column < b.len()) by (nonlinear_arith)
                        requires
                            0 <= t < h,
                            column < w,
                            b.len() == w * h,
                    ;
                },
                None => {},
            }
            assert(nb == spec_drop(b, w as int, h as int, column as int, state.next_player));
            assert forall|i: int| 0 <= i < nb.len() implies (#[trigger] nb[i] matches C4Cell::Filled(p) ==> p < 2) by {
                if nb[i] != b[i] {
                    assert(nb[i] == C4Cell::Filled(state.next_player));
                }
            }
        }
        let result = check_for_win(&board, w, h);
        C4State {
            board,
            next_player: (state.next_player + 1) % 2,
            terminal: result != CheckForWinResult::Ongoing,
            outcome: result,
            hyperparams: C4Hyperparams::default(),
        }
    }
}

impl C4State {
    /// The columns with room for another counter.
    pub fn permitted_actions(&self) -> (r: Vec<C4Action>)
        requires
            c4_wf(self@),
        ensures
            r@ == open_columns(self@.board, self@.width),
    {
        let w = self.hyperparams.board_width;
        let mut r: Vec<C4Action> = Vec::new();
        let mut i: usize = 0;
        while i < w
            invariant
                i <= w,
                w == self@.width,
                c4_wf(self@),
                r@ == open_columns(self@.board, i as int),
            decreases w - i,
        {
            assert(i < self.board.len()) by (nonlinear_arith)
                requires
                    i < w,
                    3 <= self@.height,
                    self.board.len() == w * self@.height,
            ;
            if self.board[i] == C4Cell::Empty {
                r.push(C4Action::Drop(i as u8));
            }
            i += 1;
        }
        r
    }

    pub fn next_actor(&self) -> (r: Actor<C4Action>)
        ensures
            r == Actor::<C4Action>::Player(self.next_player),
    {
        Actor::Player(self.next_player)
    }

    pub fn terminal(&self) -> (r: bool)
        ensures
            r == self.terminal,
    {
        self.terminal
    }

    /// Whether the game is over with a line of the first player.
    pub fn first_player_won(&self) -> (r: bool)
        requires
            c4_wf(self@),
        ensures
            r == (self.terminal && spec_check_for_win(self@.board, self@.width, self@.height)
                == CheckForWinResult::Winner(0)),
    {
        if !self.terminal {
            return false;
        }
        let result = check_for_win(&self.board, self.hyperparams.board_width, self.hyperparams.board_height);
        result == CheckForWinResult::Winner(0)
    }
}

/// The game.
pub struct C4;

impl C4 {
    /// An empty board of the given size, the first player to move.
    pub fn init_game(&self, hyperparams: &C4Hyperparams) -> (r: C4State)
        requires
            hyperparams.board_width * hyperparams.board_height <= usize::MAX,
        ensures
            r@.board == Seq::new((hyperparams.board_width * hyperparams.board_height) as nat, |i: int| C4Cell::Empty),
            r@.next_player == 0,
            !r@.terminal,
            r@.outcome == CheckForWinResult::Ongoing,
            r@.width == hyperparams.board_width,
            r@.height == hyperparams.board_height,
            3 <= hyperparams.board_width <= 255 && 3 <= hyperparams.board_height <= 255 ==> c4_wf(r@),
    {
        let n = hyperparams.board_width * hyperparams.board_height;
        let mut board: Vec<C4Cell> = Vec::new();
        let mut i: usize = 0;
        while i < n
            invariant
                i <= n,
                board.len() == i,
                forall|j: int| 0 <= j < i ==> #[trigger] board@[j] == C4Cell::Empty,
            decreases n - i,
        {
            board.push(C4Cell::Empty);
            i += 1;
        }
        let r = C4State {
            board,
            next_player: 0,
            terminal: false,
            outcome: CheckForWinResult::Ongoing,
            hyperparams: *hyperparams,
        };
        assert(r@.board =~= Seq::new(n as nat, |i: int| C4Cell::Empty));
        r
    }
}

proof fn lemma_lowest_empty_found(b: Seq<C4Cell>, w: int, col: int, k: int)
    requires
        k >= 1,
        cell(b, w, 0, col) == C4Cell::Empty,
    ensures
        lowest_empty(b, w, col, k) is Some,
    decreases k,
{
    if k > 1 && cell(b, w, k - 1, col) != C4Cell::Empty {
        lemma_lowest_empty_found(b, w, col, k - 1);
    }
}

/// Dropping into a column with room fills exactly one cell of that column,
/// which was empty, with the mover's counter; every other cell stays.
pub proof fn lemma_drop_fills_one(b: Seq<C4Cell>, w: int, h: int, col: int, p: u8)
    requires
        board_wf(b, w, h),
        0 <= col < w,
        b[col] == C4Cell::Empty,
    ensures
        exists|y: int|
            0 <= y < h && cell(b, w, y, col) == C4Cell::Empty && spec_drop(b, w, h, col, p) == b.update(
                y * w + col,
                C4Cell::Filled(p),
            ),
{
    assert(cell(b, w, 0, col) == b[col]);
    lemma_lowest_empty_found(b, w, col, h);
    lemma_lowest_empty(b, w, col, h);
    let y = lowest_empty(b, w, col, h).unwrap();
    assert(0 <= y < h && cell(b, w, y, col) == C4Cell::Empty);
}

} // verus!

verus! {

/// Whether the cell at row `r`, column `c` lies on a board of `w` columns and
/// `h` rows and holds a counter of player `p`.
pub open spec fn holds(b: Seq<C4Cell>, w: int, h: int, r: int, c: int, p: u8) -> bool {
    0 <= r < h && 0 <= c < w && b[r * w + c] == C4Cell::Filled(p)
}

/// Four counters of player `p` in a straight line from row `r`, column `c`,
/// stepping `dr` rows and `dc` columns at a time.
pub open spec fn four_from(b: Seq<C4Cell>, w: int, h: int, r: int, c: int, dr: int, dc: int, p: u8) -> bool {
    &&& holds(b, w, h, r, c, p)
    &&& holds(b, w, h, r + dr, c + dc, p)
    &&& holds(b, w, h, r + 2 * dr, c + 2 * dc, p)
    &&& holds(b, w, h, r + 3 * dr, c + 3 * dc, p)
}

/// The four ways a line runs: across, down, and along both diagonals.
pub open spec fn line_step(dr: int, dc: int) -> bool {
    (dr == 0 && dc == 1) || (dr == 1 && dc == 0) || (dr == 1 && dc == 1) || (dr == -1 && dc == 1)
}

/// Player `p` has four in a row somewhere on the board.
pub open spec fn four_in_a_row(b: Seq<C4Cell>, w: int, h: int, p: u8) -> bool {
    exists|r: int, c: int, dr: int, dc: int| line_step(dr, dc) && #[trigger] four_from(b, w, h, r, c, dr, dc, p)
}

/// Where the search's line `(o, i)` of direction `d` starts, and how it steps.
spec fn line_start(d: int, o: int, i: int) -> (int, int) {
    if d == 0 { (o, i) } else if d == 1 { (i, o) } else if d == 2 { (i, o) } else { (i + 3, o) }
}

spec fn line_dir(d: int) -> (int, int) {
    if d == 0 { (0, 1) } else if d == 1 { (1, 0) } else if d == 2 { (1, 1) } else { (-1, 1) }
}

/// The lines the search looks at are exactly the lines on the board.
proof fn lemma_line_is_four(b: Seq<C4Cell>, w: int, h: int, d: int, o: int, i: int)
    requires
        board_shape(b, w, h),
        0 <= d < 4,
        in_loops(w, h, d, o, i),
        line_at(b, w, d, o, i),
    ensures
        line_cell(b, w, d, o, i, 0) == C4Cell::Filled(owner(line_cell(b, w, d, o, i, 0))),
        four_from(
            b,
            w,
            h,
            line_start(d, o, i).0,
            line_start(d, o, i).1,
            line_dir(d).0,
            line_dir(d).1,
            owner(line_cell(b, w, d, o, i, 0)),
        ),
{
}

proof fn lemma_four_is_line(b: Seq<C4Cell>, w: int, h: int, r: int, c: int, dr: int, dc: int, p: u8)
    requires
        board_shape(b, w, h),
        line_step(dr, dc),
        four_from(b, w, h, r, c, dr, dc, p),
    ensures
        exists|d: int, o: int, i: int| 0 <= d < 4 && in_loops(w, h, d, o, i) && #[trigger] line_at(b, w, d, o, i),
{
    if dr == 0 {
        assert(in_loops(w, h, 0, r, c) && line_at(b, w, 0, r, c));
    } else if dc == 0 {
        assert(in_loops(w, h, 1, c, r) && line_at(b, w, 1, c, r));
    } else if dr == 1 {
        assert(in_loops(w, h, 2, c, r) && line_at(b, w, 2, c, r));
    } else {
        assert(in_loops(w, h, 3, c, r - 3) && line_at(b, w, 3, c, r - 3));
    }
}

/// The search finds a first line wherever it finds a line.
proof fn lemma_first_line_exists(b: Seq<C4Cell>, w: int, h: int, d: int, o: int, i: int)
    requires
        in_loops(w, h, d, o, i),
        line_at(b, w, d, o, i),
    ensures
        exists|o1: int, i1: int| first_line(b, w, h, d, o1, i1),
    decreases o, i,
{
    if !first_line(b, w, h, d, o, i) {
        let (o2, i2) = choose|o2: int, i2: int|
            in_loops(w, h, d, o2, i2) && (o2 < o || (o2 == o && i2 < i)) && #[trigger] line_at(b, w, d, o2, i2);
        lemma_first_line_exists(b, w, h, d, o2, i2);
    }
}

/// The owner of the first line of a direction holds four in a row.
proof fn lemma_first_owner_wins(b: Seq<C4Cell>, w: int, h: int, d: int)
    requires
        board_shape(b, w, h),
        0 <= d < 4,
        has_line(b, w, h, d),
    ensures
        four_in_a_row(b, w, h, first_line_owner(b, w, h, d)),
{
    let (o, i) = choose|o: int, i: int| in_loops(w, h, d, o, i) && #[trigger] line_at(b, w, d, o, i);
    lemma_first_line_exists(b, w, h, d, o, i);
    let (fo, fi) = choose|fo: int, fi: int| first_line(b, w, h, d, fo, fi);
    lemma_line_is_four(b, w, h, d, fo, fi);
    let (r, c) = line_start(d, fo, fi);
    let (dr, dc) = line_dir(d);
    assert(line_step(dr, dc));
    assert(four_from(b, w, h, r, c, dr, dc, first_line_owner(b, w, h, d)));
}

/// What a Connect Four board's outcome means, in terms of its cells: a full
/// board is a stalemate; otherwise the game is won exactly when some player
/// has four counters in a row across, down or along either diagonal,
/// starting anywhere on the board, and the winner is a player with such a
/// line; a board with room left and no such line is still being played.
pub proof fn lemma_check_for_win_outcome(b: Seq<C4Cell>, w: int, h: int)
    requires
        board_shape(b, w, h),
    ensures
        (spec_check_for_win(b, w, h) == CheckForWinResult::Stalemate) == (forall|i: int|
            0 <= i < b.len() ==> #[trigger] b[i] != C4Cell::Empty),
        spec_check_for_win(b, w, h) matches CheckForWinResult::Winner(q) ==> four_in_a_row(b, w, h, q),
        (spec_check_for_win(b, w, h) == CheckForWinResult::Ongoing) == (!(forall|i: int|
            0 <= i < b.len() ==> #[trigger] b[i] != C4Cell::Empty) && forall|p: u8| !four_in_a_row(b, w, h, p)),
{
    let full = forall|i: int| 0 <= i < b.len() ==> #[trigger] b[i] != C4Cell::Empty;
    assert(full == board_full(b));
    if has_line(b, w, h, 0) {
        lemma_first_owner_wins(b, w, h, 0);
    }
    if has_line(b, w, h, 1) {
        lemma_first_owner_wins(b, w, h, 1);
    }
    if has_line(b, w, h, 2) {
        lemma_first_owner_wins(b, w, h, 2);
    }
    if has_line(b, w, h, 3) {
        lemma_first_owner_wins(b, w, h, 3);
    }
    assert forall|p: u8| four_in_a_row(b, w, h, p) implies (exists|e: int| 0 <= e < 4 && #[trigger] has_line(b, w, h, e)) by {
        let (r, c, dr, dc) = choose|r: int, c: int, dr: int, dc: int| line_step(dr, dc) && #[trigger] four_from(b, w, h, r, c, dr, dc, p);
        lemma_four_is_line(b, w, h, r, c, dr, dc, p);
        let (e, o, i) = choose|e: int, o: int, i: int| 0 <= e < 4 && in_loops(w, h, e, o, i) && #[trigger] line_at(b, w, e, o, i);
        assert(has_line(b, w, h, e));
    }
    assert(has_line(b, w, h, 0) ==> four_in_a_row(b, w, h, first_line_owner(b, w, h, 0)));
    assert(has_line(b, w, h, 1) ==> four_in_a_row(b, w, h, first_line_owner(b, w, h, 1)));
    assert(has_line(b, w, h, 2) ==> four_in_a_row(b, w, h, first_line_owner(b, w, h, 2)));
    assert(has_line(b, w, h, 3) ==> four_in_a_row(b, w, h, first_line_owner(b, w, h, 3)));
}

} // verus!

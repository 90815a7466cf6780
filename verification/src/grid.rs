use vstd::prelude::*;

verus! {

/// World geometry is held in fixed point: one world unit is `WORLD_SCALE` ticks.
/// The board spans `[0, 1]` world units on its longer side, so a cell side is
/// `WORLD_SCALE / max(width, length)` ticks.
pub const WORLD_SCALE: i64 = 1_000_000;

/// Largest accepted board dimension; keeps every cell at least one tick wide
/// and all board arithmetic far from overflow.
pub const MAX_DIM: u32 = 4096;

/// A point in world space, in ticks of `WORLD_SCALE` per world unit.
#[derive(Clone, Copy, Debug, PartialEq, Eq, Structural)]
pub struct WorldPoint {
    pub x: i64,
    pub y: i64,
}

/// The state shared by every mine marker: whether it has been set off, and its
/// ordinal index among the mines of the round (1-based).
#[derive(Clone, Copy, Debug, PartialEq, Eq)]
pub struct CommonMineState {
    pub active: bool,
    pub mine_index: u16,
}

/// A mine marker held by a mine-bearing cell.
#[derive(Clone, Copy, Debug, PartialEq, Eq)]
pub enum Mines {
    Default(CommonMineState),
}

impl Mines {
    /// Whether the mine has been set off.
    pub open spec fn spec_is_active(self) -> bool {
        match self {
            Mines::Default(s) => s.active,
        }
    }

    /// The 1-based ordinal of the mine within its round.
    pub open spec fn spec_index(self) -> u16 {
        match self {
            Mines::Default(s) => s.mine_index,
        }
    }

    /// Sets the mine off; its ordinal is kept.
    pub fn activate(&mut self)
        ensures
            final(self).spec_is_active(),
            final(self).spec_index() == old(self).spec_index(),
    {
        match self {
            Mines::Default(state) => state.active = true,
        }
    }

    pub fn is_active(&self) -> (r: bool)
        ensures
            r == self.spec_is_active(),
    {
        match self {
            Mines::Default(state) => state.active,
        }
    }

    pub fn get_index(&self) -> (r: u16)
        ensures
            r == self.spec_index(),
    {
        match self {
            Mines::Default(state) => state.mine_index,
        }
    }
}

/// One board cell: its grid coordinate, its world-space origin corner and side
/// length, its optional mine marker, and the revealed / flagged flags.
#[derive(Clone, Copy, Debug, PartialEq, Eq)]
pub struct Tiles {
    pub board_col: u32,
    pub board_row: u32,
    pub position: WorldPoint,
    pub size: i64,
    pub mine: Option<Mines>,
    pub clicked: bool,
    pub flagged: bool,
}

impl Tiles {
    pub open spec fn spec_has_mine(self) -> bool {
        self.mine is Some
    }

    /// The new cell starts covered and unflagged.
    pub fn new(board_col: u32, board_row: u32, position: WorldPoint, mine: Option<Mines>, size: i64) -> (t: Tiles)
        ensures
            t == (Tiles {
                board_col,
                board_row,
                position,
                size,
                mine,
                clicked: false,
                flagged: false,
            }),
    {
        Tiles { board_col, board_row, position, size, mine, clicked: false, flagged: false }
    }

    /// Whether `mouse_pos` lies inside this cell: a half-open square with the
    /// stored origin as its low corner, `pos <= p < pos + size` on both axes.
    pub open spec fn spec_contains(self, mouse_pos: WorldPoint) -> bool {
        &&& self.position.x <= mouse_pos.x < self.position.x + self.size
        &&& self.position.y <= mouse_pos.y < self.position.y + self.size
    }

    /// The hit test a cursor click uses.
    pub fn is_clicked(&self, mouse_pos: WorldPoint) -> (r: bool)
        ensures
            r == self.spec_contains(mouse_pos),
    {
        self.position.x <= mouse_pos.x
            && (self.position.x as i128) > (mouse_pos.x as i128) - (self.size as i128)
            && self.position.y <= mouse_pos.y
            && (self.position.y as i128) > (mouse_pos.y as i128) - (self.size as i128)
    }

    pub fn has_mine(&self) -> (r: bool)
        ensures
            r == self.spec_has_mine(),
    {
        self.mine.is_some()
    }

    pub fn set_mine(&mut self, mine: Option<Mines>)
        ensures
            *final(self) == (Tiles { mine, ..*old(self) }),
    {
        self.mine = mine;
    }

    pub fn get_mine_index(&self) -> (r: Option<u16>)
        ensures
            r matches Some(i) ==> self.mine matches Some(m) && i == m.spec_index(),
            r is None <==> self.mine is None,
    {
        match &self.mine {
            Some(mine) => Some(mine.get_index()),
            None => None,
        }
    }
}

/// The minefield: `width * length` cells in row-major order
/// (index = col + row * width). An empty board stands between rounds.
#[derive(Debug)]
pub struct GameState {
    pub width: u32,
    pub length: u32,
    pub board: Vec<Tiles>,
}

impl GameState {
    /// Well-formed boards have valid dimensions, one cell per grid coordinate
    /// in row-major order.
    pub open spec fn well_formed(self) -> bool {
        &&& 1 <= self.width <= MAX_DIM
        &&& 1 <= self.length <= MAX_DIM
        &&& self.board@.len() == self.width * self.length
        &&& forall|i: int|
            0 <= i < self.board@.len() ==> {
                &&& (#[trigger] self.board@[i]).board_col == i % (self.width as int)
                &&& self.board@[i].board_row == i / (self.width as int)
            }
    }

    pub fn new(width: u32, length: u32, board: Vec<Tiles>) -> (s: GameState)
        ensures
            s.width == width,
            s.length == length,
            s.board == board,
    {
        GameState { width, length, board }
    }
}

/// `(r, c)` is one of the up-to-eight grid neighbors of `(row, col)` that lie
/// on a `width x length` board.
pub open spec fn is_adjacent(width: int, length: int, row: int, col: int, r: int, c: int) -> bool {
    &&& 0 <= r < length
    &&& 0 <= c < width
    &&& row - 1 <= r <= row + 1
    &&& col - 1 <= c <= col + 1
    &&& !(r == row && c == col)
}

/// The first row (or column) of the neighborhood of `x`, clipped at the board edge.
pub open spec fn clip_lo(x: int) -> int {
    if x >= 1 {
        x - 1
    } else {
        0
    }
}

/// The last row (or column) of the neighborhood of `x`, clipped at dimension `n`.
pub open spec fn clip_hi(x: int, n: int) -> int {
    if x + 1 <= n - 1 {
        x + 1
    } else {
        n - 1
    }
}

/// The board indices of all grid neighbors of `(row, col)`, in increasing
/// order: the neighborhood rectangle `[row-1, row+1] x [col-1, col+1]` clipped
/// to the board, without the center.
#[verifier::loop_isolation(false)]
#[verifier::rlimit(60)]
pub fn neighbors(width: u32, length: u32, row: u32, col: u32) -> (result: Vec<usize>)
    requires
        1 <= width <= MAX_DIM,
        1 <= length <= MAX_DIM,
        row < length,
        col < width,
    ensures
        forall|k1: int, k2: int|
            0 <= k1 < k2 < result@.len() ==> (#[trigger] result@[k1]) < (#[trigger] result@[k2]),
        forall|k: int|
            0 <= k < result@.len() ==> {
                &&& (#[trigger] result@[k]) < width * length
                &&& is_adjacent(
                    width as int,
                    length as int,
                    row as int,
                    col as int,
                    result@[k] as int / width as int,
                    result@[k] as int % width as int,
                )
            },
        forall|r: int, c: int|
            is_adjacent(width as int, length as int, row as int, col as int, r, c)
                ==> exists|k: int|
                0 <= k < result@.len() && (#[trigger] result@[k]) as int == r * width + c,
        result@.len() == (clip_hi(row as int, length as int) - clip_lo(row as int) + 1) * (
        clip_hi(col as int, width as int) - clip_lo(col as int) + 1) - 1,
{
    let row_lo: u32 = if row == 0 {
        0
    } else {
        row - 1
    };
    let row_hi: u32 = if row + 1 <= length - 1 {
        row + 1
    } else {
        length - 1
    };
    let col_lo: u32 = if col == 0 {
        0
    } else {
        col - 1
    };
    let col_hi: u32 = if col + 1 <= width - 1 {
        col + 1
    } else {
        width - 1
    };
    let mut result: Vec<usize> = Vec::new();
    proof {
        assert forall|rr: int, cc: int|
            is_adjacent(width as int, length as int, row as int, col as int, rr, cc) implies rr
            * width + cc >= row_lo * width + col_lo by {
            assert(rr >= row_lo && cc >= col_lo);
            assert(rr * width >= row_lo * width) by (nonlinear_arith)
                requires
                    rr >= row_lo,
                    width >= 1,
            ;
        }
    }
    let mut r: u32 = row_lo;
    while r <= row_hi
        invariant
            row_lo <= r <= row_hi + 1,
            forall|k1: int, k2: int|
                0 <= k1 < k2 < result@.len() ==> (#[trigger] result@[k1]) < (#[trigger] result@[k2]),
            forall|k: int|
                0 <= k < result@.len() ==> {
                    &&& (#[trigger] result@[k]) < width * length
                    &&& (result@[k] as int) < r * width + col_lo
                    &&& is_adjacent(
                        width as int,
                        length as int,
                        row as int,
                        col as int,
                        result@[k] as int / width as int,
                        result@[k] as int % width as int,
                    )
                },
            forall|rr: int, cc: int|
                is_adjacent(width as int, length as int, row as int, col as int, rr, cc) && rr * width
                    + cc < r * width + col_lo ==> exists|k: int|
                    0 <= k < result@.len() && (#[trigger] result@[k]) as int == rr * width + cc,
            result@.len() == (r - row_lo) * (col_hi - col_lo + 1) - (if r > row {
                1int
            } else {
                0int
            }),
        decreases row_hi + 1 - r,
    {
        let mut c: u32 = col_lo;
        while c <= col_hi
            invariant
                col_lo <= c <= col_hi + 1,
                row_lo <= r <= row_hi,
                forall|k1: int, k2: int|
                    0 <= k1 < k2 < result@.len() ==> (#[trigger] result@[k1]) < (#[trigger] result@[k2]),
                forall|k: int|
                    0 <= k < result@.len() ==> {
                        &&& (#[trigger] result@[k]) < width * length
                        &&& (result@[k] as int) < r * width + c
                        &&& is_adjacent(
                            width as int,
                            length as int,
                            row as int,
                            col as int,
                            result@[k] as int / width as int,
                            result@[k] as int % width as int,
                        )
                    },
                forall|rr: int, cc: int|
                    is_adjacent(width as int, length as int, row as int, col as int, rr, cc) && rr
                        * width + cc < r * width + c ==> exists|k: int|
                        0 <= k < result@.len() && (#[trigger] result@[k]) as int == rr * width + cc,
                result@.len() == (r - row_lo) * (col_hi - col_lo + 1) + (c - col_lo) - (if r > row
                    || (r == row && c > col) {
                    1int
                } else {
                    0int
                }),
            decreases col_hi + 1 - c,
        {
            let ghost pre = result@;
            if !(r == row && c == col) {
                proof {
                    assert((r as int) * (width as int) <= 4095 * 4096) by (nonlinear_arith)
                        requires
                            0 <= r <= 4095,
                            0 <= width <= 4096,
                    ;
                }
                let idx: usize = (c as usize) + (r as usize) * (width as usize);
                proof {
                    vstd::arithmetic::div_mod::lemma_fundamental_div_mod_converse(
                        idx as int,
                        width as int,
                        r as int,
                        c as int,
                    );
                    assert((idx as int) < width * length) by (nonlinear_arith)
                        requires
                            idx == c + r * width,
                            r < length,
                            c < width,
                            width >= 1,
                    ;
                }
                result.push(idx);
            }
            proof {
                assert forall|rr: int, cc: int|
                    is_adjacent(width as int, length as int, row as int, col as int, rr, cc) && rr
                        * width + cc < r * width + (c + 1) implies exists|k: int|
                    0 <= k < result@.len() && (#[trigger] result@[k]) as int == rr * width
                        + cc by {
                    if rr * width + cc >= r * width + c {
                        assert(rr == r && cc == c) by (nonlinear_arith)
                            requires
                                r * width + c <= rr * width + cc < r * width + c + 1,
                                0 <= cc < width,
                                0 <= c < width,
                        ;
                        assert(!(r == row && c == col));
                        assert((result@[result@.len() - 1] as int) == rr * width + cc);
                    } else {
                        let k0 = choose|k: int|
                            0 <= k < pre.len() && (#[trigger] pre[k]) as int == rr * width + cc;
                        assert(result@[k0] == pre[k0]);
                    }
                }
            }
            c = c + 1;
        }
        proof {
            assert((r + 1) * width + col_lo >= r * width + col_hi + 1) by (nonlinear_arith)
                requires
                    col_hi < width,
                    col_lo >= 0,
            ;
            assert forall|rr: int, cc: int|
                is_adjacent(width as int, length as int, row as int, col as int, rr, cc) && rr
                    * width + cc < (r + 1) * width + col_lo implies rr * width + cc < r * width
                + col_hi + 1 by {
                if rr * width + cc >= r * width + col_hi + 1 {
                    assert(col_lo <= cc <= col_hi);
                    assert(rr > r) by (nonlinear_arith)
                        requires
                            rr * width + cc >= r * width + col_hi + 1,
                            cc <= col_hi,
                            width >= 1,
                    ;
                    assert(rr * width >= (r + 1) * width) by (nonlinear_arith)
                        requires
                            rr >= r + 1,
                            width >= 1,
                    ;
                    assert(false);
                }
            }
            assert((r + 1 - row_lo) * (col_hi - col_lo + 1) == (r - row_lo) * (col_hi - col_lo
                + 1) + (col_hi - col_lo + 1)) by (nonlinear_arith);
        }
        r = r + 1;
    }
    proof {
        assert forall|rr: int, cc: int|
            is_adjacent(width as int, length as int, row as int, col as int, rr, cc) implies rr
            * width + cc < (row_hi + 1) * width + col_lo by {
            assert(rr <= row_hi && cc <= col_hi);
            assert(rr * width <= row_hi * width) by (nonlinear_arith)
                requires
                    rr <= row_hi,
                    width >= 1,
            ;
            assert((row_hi + 1) * width == row_hi * width + width) by (nonlinear_arith);
        }
    }
    result
}

/// How many neighbors a cell has, on boards at least 3 x 3: a corner has 3, a
/// non-corner edge cell has 5, an interior cell has 8. The counts are stated
/// over the clipped-span product that `neighbors` returns as its length.
pub proof fn lemma_neighbor_counts(width: int, length: int, row: int, col: int)
    requires
        3 <= width,
        3 <= length,
        0 <= row < length,
        0 <= col < width,
    ensures
        ((row == 0 || row == length - 1) && (col == 0 || col == width - 1)) ==> (clip_hi(
            row,
            length,
        ) - clip_lo(row) + 1) * (clip_hi(col, width) - clip_lo(col) + 1) - 1 == 3,
        ((row == 0 || row == length - 1) != (col == 0 || col == width - 1)) ==> (clip_hi(
            row,
            length,
        ) - clip_lo(row) + 1) * (clip_hi(col, width) - clip_lo(col) + 1) - 1 == 5,
        (0 < row < length - 1 && 0 < col < width - 1) ==> (clip_hi(row, length) - clip_lo(row) + 1)
            * (clip_hi(col, width) - clip_lo(col) + 1) - 1 == 8,
{
    let sr = clip_hi(row, length) - clip_lo(row) + 1;
    let sc = clip_hi(col, width) - clip_lo(col) + 1;
    assert(sr == if row == 0 || row == length - 1 {
        2int
    } else {
        3int
    });
    assert(sc == if col == 0 || col == width - 1 {
        2int
    } else {
        3int
    });
    assert(sr == 2 && sc == 2 ==> sr * sc == 4) by (nonlinear_arith);
    assert(sr == 2 && sc == 3 ==> sr * sc == 6) by (nonlinear_arith);
    assert(sr == 3 && sc == 2 ==> sr * sc == 6) by (nonlinear_arith);
    assert(sr == 3 && sc == 3 ==> sr * sc == 9) by (nonlinear_arith);
}

/// 1 if a cell exists at grid coordinate `(r, c)` and holds a mine, else 0.
pub open spec fn mine_at(s: GameState, r: int, c: int) -> int {
    if 0 <= r < s.length && 0 <= c < s.width && s.board@[r * s.width + c].spec_has_mine() {
        1
    } else {
        0
    }
}

/// The number of mines among the grid neighbors of `(row, col)`: the sum over
/// the eight surrounding coordinates, cells off the board counting zero.
pub open spec fn adjacent_mine_count(s: GameState, row: int, col: int) -> int {
    mine_at(s, row - 1, col - 1) + mine_at(s, row - 1, col) + mine_at(s, row - 1, col + 1)
        + mine_at(s, row, col - 1) + mine_at(s, row, col + 1) + mine_at(s, row + 1, col - 1)
        + mine_at(s, row + 1, col) + mine_at(s, row + 1, col + 1)
}

/// Whether the cell at grid coordinate `(r, c)` holds a mine; coordinates off
/// the board count as mine-free.
fn has_mine_at(s: &GameState, r: i64, c: i64) -> (b: bool)
    requires
        s.well_formed(),
    ensures
        (if b {
            1int
        } else {
            0int
        }) == mine_at(*s, r as int, c as int),
{
    if 0 <= r && r < s.length as i64 && 0 <= c && c < s.width as i64 {
        proof {
            assert(0 <= (r as int) * (s.width as int) + c < s.width * s.length && s.width
                * s.length <= 4096 * 4096) by (nonlinear_arith)
                requires
                    0 <= r < s.length,
                    0 <= c < s.width,
                    1 <= s.width <= 4096,
                    1 <= s.length <= 4096,
            ;
        }
        let idx: usize = (c as usize) + (r as usize) * (s.width as usize);
        s.board[idx].has_mine()
    } else {
        false
    }
}

/// Sums the mine markers among the neighbors of `(row, col)`.
pub fn count_adjacent_mines(s: &GameState, row: u32, col: u32) -> (count: u8)
    requires
        s.well_formed(),
        row < s.length,
        col < s.width,
    ensures
        count as int == adjacent_mine_count(*s, row as int, col as int),
        count <= 8,
{
    let r = row as i64;
    let c = col as i64;
    let mut count: u8 = 0;
    if has_mine_at(s, r - 1, c - 1) {
        count = count + 1;
    }
    if has_mine_at(s, r - 1, c) {
        count = count + 1;
    }
    if has_mine_at(s, r - 1, c + 1) {
        count = count + 1;
    }
    if has_mine_at(s, r, c - 1) {
        count = count + 1;
    }
    if has_mine_at(s, r, c + 1) {
        count = count + 1;
    }
    if has_mine_at(s, r + 1, c - 1) {
        count = count + 1;
    }
    if has_mine_at(s, r + 1, c) {
        count = count + 1;
    }
    if has_mine_at(s, r + 1, c + 1) {
        count = count + 1;
    }
    count
}

/// What revealing one cell signals.
#[derive(Clone, Copy, Debug, PartialEq, Eq, Structural)]
pub enum RevealOutcome {
    /// The revealed cell held a mine; its marker is now active.
    MineHit,
    /// The revealed cell was mine-free; the payload is its neighbor mine count.
    Revealed(u8),
}

/// Two boards of the same shape with the same mine placement agree on every
/// neighbor mine count; revealed and flagged flags do not matter.
pub proof fn lemma_same_mines_same_count(s1: GameState, s2: GameState, row: int, col: int)
    requires
        s1.width == s2.width,
        s1.length == s2.length,
        s1.board@.len() == s2.board@.len(),
        s1.board@.len() == s1.width * s1.length,
        forall|i: int|
            0 <= i < s1.board@.len() ==> (#[trigger] s1.board@[i]).spec_has_mine()
                == s2.board@[i].spec_has_mine(),
    ensures
        adjacent_mine_count(s1, row, col) == adjacent_mine_count(s2, row, col),
{
    assert forall|r: int, c: int| #[trigger] mine_at(s1, r, c) == mine_at(s2, r, c) by {
        if 0 <= r < s1.length && 0 <= c < s1.width {
            assert(0 <= r * s1.width + c < s1.width * s1.length) by (nonlinear_arith)
                requires
                    0 <= r < s1.length,
                    0 <= c < s1.width,
                    1 <= s1.width,
            ;
        }
    }
}

/// Reveals the cell at `index`: marks it clicked. A mine-bearing cell sets its
/// marker off and signals `MineHit`; otherwise the cell's neighbor mine count
/// is signalled. Everything else on the board is kept.
pub fn reveal_cell(s: &mut GameState, index: usize) -> (r: RevealOutcome)
    requires
        old(s).well_formed(),
        index < old(s).board@.len(),
    ensures
        final(s).well_formed(),
        final(s).width == old(s).width,
        final(s).length == old(s).length,
        final(s).board@.len() == old(s).board@.len(),
        forall|i: int|
            0 <= i < old(s).board@.len() && i != index ==> final(s).board@[i] == old(s).board@[i],
        final(s).board@[index as int] == (Tiles {
            clicked: true,
            mine: final(s).board@[index as int].mine,
            ..old(s).board@[index as int]
        }),
        final(s).board@[index as int].spec_has_mine() == old(s).board@[index as int].spec_has_mine(),
        r is MineHit <==> old(s).board@[index as int].spec_has_mine(),
        r is MineHit ==> final(s).board@[index as int].mine is Some,
        r is MineHit ==> final(s).board@[index as int].mine->Some_0.spec_is_active(),
        r is MineHit ==> final(s).board@[index as int].mine->Some_0.spec_index() == old(s).board@[index as int].mine->Some_0.spec_index(),
        !(r is MineHit) ==> final(s).board@[index as int].mine == old(s).board@[index as int].mine,
        r matches RevealOutcome::Revealed(n) ==> n as int == adjacent_mine_count(
            *old(s),
            index as int / old(s).width as int,
            index as int % old(s).width as int,
        ),
{
    let width = s.width;
    let rq: usize = index / (width as usize);
    let cq: usize = index % (width as usize);
    proof {
        vstd::arithmetic::div_mod::lemma_fundamental_div_mod(index as int, width as int);
        vstd::arithmetic::div_mod::lemma_multiply_divide_lt(
            index as int,
            width as int,
            s.length as int,
        );
    }
    let row: u32 = rq as u32;
    let col: u32 = cq as u32;
    s.board[index].clicked = true;
    if s.board[index].has_mine() {
        let tile = &mut s.board[index];
        match &mut tile.mine {
            Some(m) => m.activate(),
            None => (),
        }
        RevealOutcome::MineHit
    } else {
        let count = count_adjacent_mines(s, row, col);
        proof {
            lemma_same_mines_same_count(*s, *old(s), row as int, col as int);
        }
        RevealOutcome::Revealed(count)
    }
}

/// Flips the flag of the cell at `index`, unless the cell is already revealed:
/// revealed cells cannot be flagged. Returns the cell's new flag state.
pub fn toggle_flag(s: &mut GameState, index: usize) -> (flagged: bool)
    requires
        old(s).well_formed(),
        index < old(s).board@.len(),
    ensures
        final(s).well_formed(),
        final(s).width == old(s).width,
        final(s).length == old(s).length,
        forall|i: int|
            0 <= i < old(s).board@.len() && i != index ==> final(s).board@[i] == old(s).board@[i],
        old(s).board@[index as int].clicked ==> final(s).board@ == old(s).board@,
        !old(s).board@[index as int].clicked ==> final(s).board@[index as int] == (Tiles {
            flagged: !old(s).board@[index as int].flagged,
            ..old(s).board@[index as int]
        }),
        flagged == final(s).board@[index as int].flagged,
{
    if !s.board[index].clicked {
        let now = !s.board[index].flagged;
        s.board[index].flagged = now;
        proof {
            assert(final(s).board@ =~= old(s).board@.update(
                index as int,
                final(s).board@[index as int],
            ));
        }
        now
    } else {
        proof {
            assert(final(s).board@ =~= old(s).board@);
        }
        s.board[index].flagged
    }
}

} // verus!

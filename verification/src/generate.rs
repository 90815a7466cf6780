use vstd::prelude::*;

use crate::aggregator::SpriteInstance;
use crate::grid::{CommonMineState, GameState, Mines, Tiles, WorldPoint, MAX_DIM, WORLD_SCALE};
use crate::sprites::{table_lookup, SpriteTable, TexRect};
use crate::GameError;

verus! {

/// The z key of the board tiles, in world ticks.
pub const Z_BOARD: i64 = 10_000;

/// The z key of everything drawn over a tile, in world ticks.
pub const Z_MINE: i64 = 20_000;

/// The most mines a round can hold: marker ordinals are 16-bit.
pub const MAX_MINES: u32 = 65_535;

/// How often a round may be regenerated for first-click safety before the
/// attempt is given up.
pub const REGENERATION_LIMIT: u32 = 1_000;

/// Relies on rand::random_range: returns a uniformly random value of the
/// given range, here `[0, n)`; the call panics on an empty range, so `n`
/// must be positive.
#[verifier::external_body]
fn random_below(n: u32) -> (r: u32)
    requires
        n >= 1,
    ensures
        r < n,
{
    rand::random_range(0..n)
}

/// How many of the first `n` cells hold a mine.
pub open spec fn mines_in_prefix(b: Seq<Tiles>, n: int) -> int
    decreases n,
{
    if n <= 0 {
        0
    } else {
        mines_in_prefix(b, n - 1) + if b[n - 1].spec_has_mine() {
            1int
        } else {
            0int
        }
    }
}

/// How many mines the board holds.
pub open spec fn mine_count_on(b: Seq<Tiles>) -> int {
    mines_in_prefix(b, b.len() as int)
}

/// A prefix cannot hold more mines than cells.
proof fn lemma_mines_prefix_bounds(b: Seq<Tiles>, n: int)
    ensures
        0 <= mines_in_prefix(b, n) <= (if n >= 0 {
            n
        } else {
            0
        }),
    decreases n,
{
    if n > 0 {
        lemma_mines_prefix_bounds(b, n - 1);
    }
}

/// How one changed cell moves a prefix's mine count.
proof fn lemma_mines_prefix_update(b: Seq<Tiles>, i: int, t: Tiles, n: int)
    requires
        0 <= i < b.len(),
        n <= b.len(),
    ensures
        mines_in_prefix(b.update(i, t), n) == mines_in_prefix(b, n) + (if i < n {
            (if t.spec_has_mine() {
                1int
            } else {
                0int
            }) - (if b[i].spec_has_mine() {
                1int
            } else {
                0int
            })
        } else {
            0int
        }),
    decreases n,
{
    if n > 0 {
        lemma_mines_prefix_update(b, i, t, n - 1);
    }
}

/// A board with no mines in a prefix has no mine at any of its cells.
proof fn lemma_zero_mines_all_free(b: Seq<Tiles>, n: int)
    requires
        mines_in_prefix(b, n) == 0,
    ensures
        forall|i: int| 0 <= i < n ==> !(#[trigger] b[i]).spec_has_mine(),
    decreases n,
{
    if n > 0 {
        lemma_mines_prefix_bounds(b, n - 1);
        lemma_zero_mines_all_free(b, n - 1);
    }
}

/// Two boards with the same mine placement hold the same number of mines in
/// every prefix.
pub proof fn lemma_mines_prefix_pointwise(a: Seq<Tiles>, b: Seq<Tiles>, n: int)
    requires
        n <= a.len(),
        a.len() == b.len(),
        forall|i: int|
            0 <= i < a.len() ==> (#[trigger] a[i]).spec_has_mine() == b[i].spec_has_mine(),
    ensures
        mines_in_prefix(a, n) == mines_in_prefix(b, n),
    decreases n,
{
    if n > 0 {
        lemma_mines_prefix_pointwise(a, b, n - 1);
    }
}

/// The side length of a cell, in world ticks: the board spans one world unit
/// along its longer dimension.
pub open spec fn cell_size(width: int, length: int) -> int {
    WORLD_SCALE as int / (if width > length {
        width
    } else {
        length
    })
}

/// The tile sprite drawn under the cell at `(col, row)`: centered on the
/// cell, one cell wide, at the board's z layer.
pub open spec fn tile_instance(col: int, row: int, size: int, tex: TexRect) -> SpriteInstance {
    SpriteInstance {
        x: (col * size + size / 2) as i64,
        y: (row * size + size / 2) as i64,
        scale_x: size as i64,
        scale_y: size as i64,
        z_index: Z_BOARD,
        tex,
        texture_index: 0,
    }
}

/// What a freshly generated board guarantees: a well-formed covered board of
/// the asked-for shape whose cells sit on the unit grid, holding exactly
/// `mine_count` mines whose markers are inactive and bear distinct ordinals
/// drawn from `1..=mine_count`.
pub open spec fn generated_board(s: GameState, width: u32, length: u32, mine_count: u32) -> bool {
    &&& s.well_formed()
    &&& s.width == width
    &&& s.length == length
    &&& mine_count_on(s.board@) == mine_count
    &&& forall|i: int|
        0 <= i < s.board@.len() ==> {
            let t = #[trigger] s.board@[i];
            &&& !t.clicked
            &&& !t.flagged
            &&& t.size == cell_size(width as int, length as int)
            &&& t.position.x == (i % (width as int)) * cell_size(width as int, length as int)
            &&& t.position.y == (i / (width as int)) * cell_size(width as int, length as int)
            &&& (t.mine matches Some(m) ==> !m.spec_is_active() && 1 <= m.spec_index()
                <= mine_count)
        }
    &&& forall|i: int, j: int|
        0 <= i < j < s.board@.len() && (#[trigger] s.board@[i]).spec_has_mine() && (
        #[trigger] s.board@[j]).spec_has_mine() ==> s.board@[i].mine->Some_0.spec_index()
            != s.board@[j].mine->Some_0.spec_index()
}

/// Generates a fresh round: the covered board with `mine_count` mines placed
/// uniformly at random without replacement (each mine picks one of the cells
/// still free, all equally likely), and one tile sprite per cell. Fails with
/// `ConfigurationError` when the mines do not fit the board or a dimension or
/// the mine count is out of range, and with `MissingSprite` when the atlas
/// table has no tile sprite.
#[verifier::loop_isolation(false)]
#[verifier::rlimit(100)]
pub fn create_minefield(width: u32, length: u32, mine_count: u32, sprites: &SpriteTable) -> (r:
    Result<(Vec<SpriteInstance>, GameState), GameError>)
    ensures
        r is Ok <==> (1 <= width <= MAX_DIM && 1 <= length <= MAX_DIM && mine_count < width
            * length && mine_count <= MAX_MINES && table_lookup(sprites.entries@, "Tiles"@)
            is Some),
        r is Err ==> (r == Err::<(Vec<SpriteInstance>, GameState), GameError>(
            GameError::ConfigurationError,
        ) || r == Err::<(Vec<SpriteInstance>, GameState), GameError>(GameError::MissingSprite)),
        r == Err::<(Vec<SpriteInstance>, GameState), GameError>(GameError::MissingSprite) ==> (1
            <= width <= MAX_DIM && 1 <= length <= MAX_DIM && mine_count < width * length
            && mine_count <= MAX_MINES && table_lookup(sprites.entries@, "Tiles"@) is None),
        r matches Ok((instances, state)) ==> {
            &&& generated_board(state, width, length, mine_count)
            &&& instances@.len() == width * length
            &&& forall|k: int|
                0 <= k < instances@.len() ==> #[trigger] instances@[k] == tile_instance(
                    k % (width as int),
                    k / (width as int),
                    cell_size(width as int, length as int),
                    table_lookup(sprites.entries@, "Tiles"@)->Some_0,
                )
        },
{
    if width < 1 || width > MAX_DIM || length < 1 || length > MAX_DIM {
        return Err(GameError::ConfigurationError);
    }
    proof {
        assert(width * length <= 4096 * 4096) by (nonlinear_arith)
            requires
                width <= 4096,
                length <= 4096,
        ;
        assert(width * length >= 1) by (nonlinear_arith)
            requires
                width >= 1,
                length >= 1,
        ;
    }
    let total: u32 = width * length;
    if mine_count >= total || mine_count > MAX_MINES {
        return Err(GameError::ConfigurationError);
    }
    let tex = match sprites.lookup("Tiles") {
        Ok(t) => t,
        Err(_) => {
            return Err(GameError::MissingSprite);
        },
    };
    let longer: u32 = if width > length {
        width
    } else {
        length
    };
    let size: i64 = WORLD_SCALE / (longer as i64);
    proof {
        assert(size == cell_size(width as int, length as int));
        assert(size >= 1 && size <= WORLD_SCALE) by {
            vstd::arithmetic::div_mod::lemma_multiply_divide_lt(
                WORLD_SCALE as int,
                longer as int,
                WORLD_SCALE as int + 1,
            );
            assert(longer * (WORLD_SCALE as int + 1) > WORLD_SCALE as int) by (nonlinear_arith)
                requires
                    longer >= 1,
            ;
            vstd::arithmetic::div_mod::lemma_div_pos_is_pos(WORLD_SCALE as int, longer as int);
            assert((WORLD_SCALE as int) / (longer as int) >= 1) by (nonlinear_arith)
                requires
                    1 <= longer <= 4096,
            ;
        }
    }
    // the covered cells and their tile sprites, in row-major order
    let mut board: Vec<Tiles> = Vec::new();
    let mut objects: Vec<SpriteInstance> = Vec::new();
    let total_us = total as usize;
    let mut i: usize = 0;
    while i < total_us
        invariant
            0 <= i <= total_us,
            total_us == width * length,
            1 <= width <= MAX_DIM,
            1 <= length <= MAX_DIM,
            1 <= size <= WORLD_SCALE,
            size == cell_size(width as int, length as int),
            board@.len() == i,
            objects@.len() == i,
            forall|k: int|
                0 <= k < i ==> {
                    let t = #[trigger] board@[k];
                    &&& t.board_col == k % (width as int)
                    &&& t.board_row == k / (width as int)
                    &&& t.position.x == (k % (width as int)) * size
                    &&& t.position.y == (k / (width as int)) * size
                    &&& t.size == size
                    &&& t.mine is None
                    &&& !t.clicked
                    &&& !t.flagged
                },
            forall|k: int|
                0 <= k < i ==> #[trigger] objects@[k] == tile_instance(
                    k % (width as int),
                    k / (width as int),
                    size as int,
                    tex,
                ),
        decreases total_us - i,
    {
        let col: u32 = (i % (width as usize)) as u32;
        let row: u32 = (i / (width as usize)) as u32;
        proof {
            vstd::arithmetic::div_mod::lemma_fundamental_div_mod(i as int, width as int);
            vstd::arithmetic::div_mod::lemma_multiply_divide_lt(
                i as int,
                width as int,
                length as int,
            );
            assert((col as int) * (size as int) <= 4095 * 1_000_000 && (row as int) * (size as int)
                <= 4095 * 1_000_000 && (col as int) * (size as int) >= 0 && (row as int) * (
            size as int) >= 0) by (nonlinear_arith)
                requires
                    0 <= col <= 4095,
                    0 <= row <= 4095,
                    1 <= size <= 1_000_000,
            ;
        }
        let px: i64 = (col as i64) * size;
        let py: i64 = (row as i64) * size;
        objects.push(
            SpriteInstance {
                x: px + size / 2,
                y: py + size / 2,
                scale_x: size,
                scale_y: size,
                z_index: Z_BOARD,
                tex,
                texture_index: 0,
            },
        );
        board.push(Tiles::new(col, row, WorldPoint { x: px, y: py }, None, size));
        i = i + 1;
    }
    let mut state = GameState { width, length, board };
    proof {
        assert(mines_in_prefix(state.board@, total as int) == 0) by {
            lemma_mines_all_free(state.board@, total as int);
        }
    }
    // mine placement: each mine picks one of the still-free cells uniformly
    let mut placed: u32 = 0;
    while placed < mine_count
        invariant
            0 <= placed <= mine_count,
            mine_count < total,
            mine_count <= MAX_MINES,
            total_us == total,
            total == width * length,
            state.width == width,
            state.length == length,
            1 <= width <= MAX_DIM,
            1 <= length <= MAX_DIM,
            state.board@.len() == total,
            state.well_formed(),
            mines_in_prefix(state.board@, total as int) == placed,
            forall|k: int|
                0 <= k < total ==> {
                    let t = #[trigger] state.board@[k];
                    &&& !t.clicked
                    &&& !t.flagged
                    &&& t.size == cell_size(width as int, length as int)
                    &&& t.position.x == (k % (width as int)) * cell_size(
                        width as int,
                        length as int,
                    )
                    &&& t.position.y == (k / (width as int)) * cell_size(
                        width as int,
                        length as int,
                    )
                    &&& (t.mine matches Some(m) ==> !m.spec_is_active() && 1 <= m.spec_index()
                        <= placed)
                },
            forall|a: int, b: int|
                0 <= a < b < total && (#[trigger] state.board@[a]).spec_has_mine() && (
                #[trigger] state.board@[b]).spec_has_mine() ==> state.board@[a].mine
                    ->Some_0.spec_index() != state.board@[b].mine->Some_0.spec_index(),
        decreases mine_count - placed,
    {
        let free: u32 = total - placed;
        let k = random_below(free);
        // walk to the (k+1)-th still-free cell; it exists because k < free
        let mut j: usize = 0;
        let mut seen: u32 = 0;
        let mut target: usize = 0;
        let mut found = false;
        while j < total_us && !found
            invariant
                0 <= j <= total_us,
                !found ==> seen == j - mines_in_prefix(state.board@, j as int),
                !found ==> seen <= k,
                found ==> target < total_us && !state.board@[target as int].spec_has_mine(),
            decreases total_us - j, (if found {
                0int
            } else {
                1int
            }),
        {
            proof {
                lemma_mines_prefix_bounds(state.board@, j as int);
            }
            if !state.board[j].has_mine() {
                if seen == k {
                    target = j;
                    found = true;
                } else {
                    seen = seen + 1;
                    j = j + 1;
                }
            } else {
                j = j + 1;
            }
        }
        proof {
            if !found {
                lemma_mines_prefix_bounds(state.board@, total as int);
                assert(seen == total - placed);
                assert(false);
            }
        }
        let ghost pre = state.board@;
        let marker = Mines::Default(
            CommonMineState { active: false, mine_index: (placed + 1) as u16 },
        );
        state.board[target].set_mine(Some(marker));
        placed = placed + 1;
        proof {
            assert(state.board@ =~= pre.update(target as int, state.board@[target as int]));
            lemma_mines_prefix_update(
                pre,
                target as int,
                state.board@[target as int],
                total as int,
            );
        }
    }
    Ok((objects, state))
}

/// A board built of mine-free cells holds no mine in any prefix.
proof fn lemma_mines_all_free(b: Seq<Tiles>, n: int)
    requires
        n <= b.len(),
        forall|k: int| 0 <= k < b.len() ==> !(#[trigger] b[k]).spec_has_mine(),
    ensures
        mines_in_prefix(b, n) == 0,
    decreases n,
{
    if n > 0 {
        lemma_mines_all_free(b, n - 1);
    }
}

/// Generates rounds until the board holds no mine at `start`, so that the
/// round's first reveal cannot hit a mine; the number of attempts is bounded,
/// and running out of them is the `RegenerationExhausted` failure.
pub fn regenerate_until_safe(
    width: u32,
    length: u32,
    mine_count: u32,
    sprites: &SpriteTable,
    start: usize,
) -> (r: Result<(Vec<SpriteInstance>, GameState), GameError>)
    requires
        start < width * length,
    ensures
        r matches Ok((instances, state)) ==> {
            &&& generated_board(state, width, length, mine_count)
            &&& !state.board@[start as int].spec_has_mine()
            &&& instances@.len() == width * length
            &&& forall|k: int|
                0 <= k < instances@.len() ==> #[trigger] instances@[k] == tile_instance(
                    k % (width as int),
                    k / (width as int),
                    cell_size(width as int, length as int),
                    table_lookup(sprites.entries@, "Tiles"@)->Some_0,
                )
        },
        r is Err ==> (r == Err::<(Vec<SpriteInstance>, GameState), GameError>(
            GameError::ConfigurationError,
        ) || r == Err::<(Vec<SpriteInstance>, GameState), GameError>(GameError::MissingSprite) || r
            == Err::<(Vec<SpriteInstance>, GameState), GameError>(
            GameError::RegenerationExhausted,
        )),
        !(1 <= width <= MAX_DIM && 1 <= length <= MAX_DIM && mine_count < width * length
            && mine_count <= MAX_MINES && table_lookup(sprites.entries@, "Tiles"@) is Some) ==> r
            is Err,
        (1 <= width <= MAX_DIM && 1 <= length <= MAX_DIM && mine_count < width * length
            && mine_count <= MAX_MINES && table_lookup(sprites.entries@, "Tiles"@) is Some) ==> (r
            is Ok || r == Err::<(Vec<SpriteInstance>, GameState), GameError>(
            GameError::RegenerationExhausted,
        )),
        // with no mines at all, nothing is random: success is owed
        (1 <= width <= MAX_DIM && 1 <= length <= MAX_DIM && mine_count == 0 && table_lookup(
            sprites.entries@,
            "Tiles"@,
        ) is Some) ==> r is Ok,
{
    let mut attempts: u32 = 0;
    while attempts < REGENERATION_LIMIT
        invariant
            attempts <= REGENERATION_LIMIT,
            start < width * length,
            // only a board that can hold a mine is ever retried
            attempts >= 1 ==> !(1 <= width <= MAX_DIM && 1 <= length <= MAX_DIM && mine_count
                == 0 && table_lookup(sprites.entries@, "Tiles"@) is Some),
        decreases REGENERATION_LIMIT - attempts,
    {
        match create_minefield(width, length, mine_count, sprites) {
            Ok((instances, state)) => {
                if !state.board[start].has_mine() {
                    return Ok((instances, state));
                }
                proof {
                    // a mine was found, so the round cannot be mine-free
                    if mine_count == 0 {
                        lemma_zero_mines_all_free(state.board@, state.board@.len() as int);
                        assert(false);
                    }
                }
            },
            Err(e) => {
                return Err(e);
            },
        }
        attempts = attempts + 1;
    }
    Err(GameError::RegenerationExhausted)
}

} // verus!

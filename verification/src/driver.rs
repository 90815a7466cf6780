use vstd::prelude::*;

use crate::aggregator::{find_group, find_item, Group, InstanceTable, SpriteInstance};
use crate::flood::{cell_reveal_frame, reveal_with_propagation};
use crate::generate::{
    create_minefield, generated_board, mine_count_on, regenerate_until_safe, Z_MINE,
};
use crate::generate::lemma_mines_prefix_pointwise;
use crate::grid::{neighbors, toggle_flag, GameState, RevealOutcome, Tiles, WorldPoint, MAX_DIM,
    WORLD_SCALE};
use crate::sprites::{digit_name, digit_seq, table_lookup, SpriteTable, TexRect};
use crate::GameError;

verus! {

/// The atlas table holds every sprite the session draws.
pub open spec fn sprites_ok(t: SpriteTable) -> bool {
    &&& table_lookup(t.entries@, "Tiles"@) is Some
    &&& table_lookup(t.entries@, "Mines"@) is Some
    &&& table_lookup(t.entries@, "Flags"@) is Some
    &&& table_lookup(t.entries@, "0"@) is Some
    &&& table_lookup(t.entries@, "1"@) is Some
    &&& table_lookup(t.entries@, "2"@) is Some
    &&& table_lookup(t.entries@, "3"@) is Some
    &&& table_lookup(t.entries@, "4"@) is Some
    &&& table_lookup(t.entries@, "5"@) is Some
    &&& table_lookup(t.entries@, "6"@) is Some
    &&& table_lookup(t.entries@, "7"@) is Some
    &&& table_lookup(t.entries@, "8"@) is Some
}

/// The sprite drawn over a revealed cell (a number or a mine): slightly
/// inset, at the overlay z layer. The inset and shrink factors are part of
/// the game's look; the divisions round toward zero on nonnegative sizes.
pub open spec fn reveal_instance(t: Tiles, tex: TexRect) -> SpriteInstance {
    SpriteInstance {
        x: (t.position.x + (t.size * 505) / 1000) as i64,
        y: (t.position.y + (t.size * 505) / 1000) as i64,
        scale_x: ((t.size * 95) / 100) as i64,
        scale_y: ((t.size * 95) / 100) as i64,
        z_index: Z_MINE,
        tex,
        texture_index: 0,
    }
}

/// The flag sprite over a flagged cell: full cell size, offset past the cell
/// center, at the overlay z layer.
pub open spec fn flag_instance(t: Tiles, tex: TexRect) -> SpriteInstance {
    SpriteInstance {
        x: (t.position.x + (t.size * 55) / 100) as i64,
        y: (t.position.y + (t.size * 55) / 100) as i64,
        scale_x: t.size,
        scale_y: t.size,
        z_index: Z_MINE,
        tex,
        texture_index: 0,
    }
}

/// The mine sprites that the first `k` reveal events add: one `reveal_instance`
/// per mine hit, in event order.
pub open spec fn mines_upto(
    events: Seq<(usize, RevealOutcome)>,
    b: Seq<Tiles>,
    tex: TexRect,
    k: int,
) -> Seq<SpriteInstance>
    decreases k,
{
    if k <= 0 {
        Seq::empty()
    } else {
        mines_upto(events, b, tex, k - 1) + (if events[k - 1].1 is MineHit {
            seq![reveal_instance(b[events[k - 1].0 as int], tex)]
        } else {
            Seq::empty()
        })
    }
}

/// The number sprites that the first `k` reveal events add: one
/// `reveal_instance` with the digit sprite of the reported count per
/// mine-free reveal, in event order.
pub open spec fn numbers_upto(
    events: Seq<(usize, RevealOutcome)>,
    b: Seq<Tiles>,
    entries: Seq<(String, TexRect)>,
    k: int,
) -> Seq<SpriteInstance>
    decreases k,
{
    if k <= 0 {
        Seq::empty()
    } else {
        numbers_upto(events, b, entries, k - 1) + (match events[k - 1].1 {
            RevealOutcome::MineHit => Seq::empty(),
            RevealOutcome::Revealed(n) => seq![
                reveal_instance(
                    b[events[k - 1].0 as int],
                    table_lookup(entries, digit_seq(n as int))->Some_0,
                ),
            ],
        })
    }
}

/// `after` is `before` with `items` appended to the group called `name`: to
/// the first group of that name, or to a new group at the end if there is
/// none; every other group is kept. An empty `items` changes nothing.
pub open spec fn appended_items(
    before: Seq<Group>,
    after: Seq<Group>,
    name: Seq<char>,
    items: Seq<SpriteInstance>,
) -> bool {
    if items.len() == 0 {
        after == before
    } else {
        let g = find_group(before, name);
        if g == -1 {
            &&& after.len() == before.len() + 1
            &&& after.last().name@ == name
            &&& after.last().items@ == items
            &&& forall|j: int| 0 <= j < before.len() ==> after[j] == before[j]
        } else {
            &&& after.len() == before.len()
            &&& after[g].name@ == before[g].name@
            &&& after[g].items@ == before[g].items@ + items
            &&& forall|j: int| 0 <= j < before.len() && j != g ==> after[j] == before[j]
        }
    }
}

/// The first board position whose cell contains `cursor`, or -1.
pub open spec fn first_hit_from(b: Seq<Tiles>, i: int, cursor: WorldPoint) -> int
    decreases b.len() - i,
{
    if i < 0 || i >= b.len() {
        -1
    } else if b[i].spec_contains(cursor) {
        i
    } else {
        first_hit_from(b, i + 1, cursor)
    }
}

/// The first board position whose cell contains `cursor`, or -1.
pub open spec fn first_hit(b: Seq<Tiles>, cursor: WorldPoint) -> int {
    first_hit_from(b, 0, cursor)
}

/// The game-side frame driver: the board of the running round (empty between
/// rounds), the instance table the renderer draws from, the atlas table, and
/// the round configuration. It turns cursor clicks into reveals, flags and
/// draw instances; the window, GPU and clock stay outside.
#[derive(Debug)]
pub struct GameSession {
    pub sprites: SpriteTable,
    pub table: InstanceTable,
    pub game: GameState,
    pub width: u32,
    pub length: u32,
    pub mine_count: u32,
}

impl GameSession {
    /// The session invariant: the instance table's flattening is current, all
    /// sprites are present, and a running round's board is well-formed, of
    /// the configured shape, with exactly the configured number of mines and
    /// with its cells on the world grid.
    pub open spec fn wf(self) -> bool {
        &&& self.table.wf()
        &&& sprites_ok(self.sprites)
        &&& self.game.board@.len() == 0 || (
        {
            &&& self.game.well_formed()
            &&& self.game.width == self.width
            &&& self.game.length == self.length
            &&& self.mine_count < self.width * self.length
            &&& self.mine_count <= crate::generate::MAX_MINES
            &&& mine_count_on(self.game.board@) == self.mine_count
            &&& forall|i: int|
                0 <= i < self.game.board@.len() ==> {
                    let t = #[trigger] self.game.board@[i];
                    &&& 1 <= t.size <= WORLD_SCALE
                    &&& 0 <= t.position.x <= (MAX_DIM as int) * (WORLD_SCALE as int)
                    &&& 0 <= t.position.y <= (MAX_DIM as int) * (WORLD_SCALE as int)
                    // a marker goes off only when its cell is revealed
                    &&& (t.mine matches Some(m) && m.spec_is_active() ==> t.clicked)
                }
        })
    }

    /// Starts a session with a fresh round. Fails exactly when the
    /// configuration does: the mines must fit the board, the dimensions and
    /// the mine count their ranges.
    pub fn new(width: u32, length: u32, mine_count: u32) -> (r: Result<GameSession, GameError>)
        ensures
            r is Ok <==> (1 <= width <= MAX_DIM && 1 <= length <= MAX_DIM && mine_count < width
                * length && mine_count <= crate::generate::MAX_MINES),
            r is Err ==> r == Err::<GameSession, GameError>(GameError::ConfigurationError),
            r matches Ok(s) ==> {
                &&& s.wf()
                &&& s.width == width
                &&& s.length == length
                &&& s.mine_count == mine_count
                &&& generated_board(s.game, width, length, mine_count)
            },
    {
        let sprites = crate::sprites::create_hashmap();
        match create_minefield(width, length, mine_count, &sprites) {
            Ok((tiles, game)) => {
                let mut table = InstanceTable::new();
                table.upsert("Tiles", tiles);
                proof {
                    lemma_generated_cell_bounds(game, width, length, mine_count);
                }
                Ok(GameSession { sprites, table, game, width, length, mine_count })
            },
            Err(_) => Err(GameError::ConfigurationError),
        }
    }

    /// The first cell under the cursor, by the half-open hit test.
    fn find_hit(&self, cursor: WorldPoint) -> (r: Option<usize>)
        ensures
            r matches Some(i) ==> i < self.game.board@.len() && first_hit(
                self.game.board@,
                cursor,
            ) == i as int,
            r is None <==> first_hit(self.game.board@, cursor) == -1,
    {
        let n = self.game.board.len();
        let mut i: usize = 0;
        while i < n
            invariant
                0 <= i <= n,
                n == self.game.board@.len(),
                first_hit_from(self.game.board@, i as int, cursor) == first_hit(
                    self.game.board@,
                    cursor,
                ),
            decreases n - i,
        {
            if self.game.board[i].is_clicked(cursor) {
                return Some(i);
            }
            i = i + 1;
        }
        None
    }

    /// Whether any cell of the round has been revealed yet.
    fn any_clicked(&self) -> (r: bool)
        ensures
            r == exists|i: int| 0 <= i < self.game.board@.len() && (#[trigger] self.game.board@[i]).clicked,
    {
        let n = self.game.board.len();
        let mut i: usize = 0;
        while i < n
            invariant
                0 <= i <= n,
                n == self.game.board@.len(),
                forall|j: int| 0 <= j < i ==> !(#[trigger] self.game.board@[j]).clicked,
            decreases n - i,
        {
            if self.game.board[i].clicked {
                return true;
            }
            i = i + 1;
        }
        false
    }

    /// Reveals the cell at `idx` with propagation and adds one overlay
    /// instance per revealed cell: the mine sprite for a mine hit, else the
    /// number sprite of the cell's neighbor mine count. Returns the reveal
    /// events; it always succeeds, reveals each cell at most once, and only
    /// flips cells to revealed.
    #[verifier::rlimit(100)]
    pub fn reveal_and_draw(&mut self, idx: usize) -> (r: Result<
        Vec<(usize, RevealOutcome)>,
        GameError,
    >)
        requires
            old(self).wf(),
            old(self).game.board@.len() > 0,
            idx < old(self).game.board@.len(),
        ensures
            r is Ok,
            final(self).wf(),
            final(self).width == old(self).width,
            final(self).length == old(self).length,
            final(self).mine_count == old(self).mine_count,
            final(self).sprites == old(self).sprites,
            final(self).game.board@.len() == old(self).game.board@.len(),
            forall|i: int|
                0 <= i < old(self).game.board@.len() ==> cell_reveal_frame(
                    old(self).game.board@[i],
                    final(self).game.board@[i],
                ),
            r matches Ok(events) ==> {
                // the events are one propagation walk from `idx`
                &&& (forall|k1: int, k2: int|
                    0 <= k1 < k2 < events@.len() ==> (#[trigger] events@[k1]).0 != (
                    #[trigger] events@[k2]).0)
                &&& (forall|k: int|
                    0 <= k < events@.len() ==> (#[trigger] events@[k]).0 < old(self).game.board@.len() && !old(self).game.board@[events@[k].0 as int].clicked
                        && final(self).game.board@[events@[k].0 as int].clicked)
                &&& (forall|i: int|
                    0 <= i < old(self).game.board@.len() ==> (final(self).game.board@[i].clicked <==> (old(self).game.board@[i].clicked
                        || crate::flood::has_event_for(events@, i))))
                &&& (forall|i: int|
                    0 <= i < old(self).game.board@.len() && !crate::flood::has_event_for(
                        events@,
                        i,
                    ) ==> final(self).game.board@[i] == old(self).game.board@[i])
                &&& (old(self).game.board@[idx as int].clicked ==> events@.len() == 0)
                &&& (!old(self).game.board@[idx as int].clicked ==> events@.len() >= 1
                    && events@[0].0 == idx)
                &&& (forall|k: int| 1 <= k < events@.len() ==> (#[trigger] events@[k]).1
                    is Revealed)
                &&& (forall|k: int|
                    0 <= k < events@.len() ==> ((#[trigger] events@[k]).1 matches
                        RevealOutcome::Revealed(n) ==> n as int
                        == crate::grid::adjacent_mine_count(
                        final(self).game,
                        events@[k].0 as int / old(self).game.width as int,
                        events@[k].0 as int % old(self).game.width as int,
                    )))
                // an event hits a mine exactly when its cell holds one, so a
                // mine-free cell always signals its count
                &&& (forall|k: int|
                    0 <= k < events@.len() ==> ((#[trigger] events@[k]).1 is MineHit <==> old(self).game.board@[events@[k].0 as int].spec_has_mine()))
                // a directly hit mine's marker is now active, its ordinal kept
                &&& ((events@.len() >= 1 && events@[0].1 is MineHit) ==> (final(self).game.board@[idx as int].mine is Some && final(self).game.board@[idx as int].mine->Some_0.spec_is_active() && old(self).game.board@[idx as int].mine is Some && final(self).game.board@[idx as int].mine->Some_0.spec_index() == old(self).game.board@[idx as int].mine->Some_0.spec_index()))
                // mine markers are untouched everywhere but at a hit mine
                &&& (forall|i: int|
                    0 <= i < old(self).game.board@.len() && i != idx ==> final(self).game.board@[i].mine == old(self).game.board@[i].mine)
                &&& (!old(self).game.board@[idx as int].spec_has_mine() ==> final(self).game.board@[idx as int].mine == old(self).game.board@[idx as int].mine)
                // a cell revealed with zero neighbor mines has every neighbor revealed
                &&& (forall|k: int, r: int, c: int|
                    0 <= k < events@.len() && (#[trigger] events@[k]).1
                        == RevealOutcome::Revealed(0u8) && #[trigger] crate::grid::is_adjacent(
                        old(self).game.width as int,
                        old(self).game.length as int,
                        events@[k].0 as int / old(self).game.width as int,
                        events@[k].0 as int % old(self).game.width as int,
                        r,
                        c,
                    ) ==> final(self).game.board@[r * old(self).game.width + c].clicked)
                // the overlay groups grow by exactly the events' sprites
                &&& exists|mid: Seq<Group>|
                    #[trigger] appended_items(
                        old(self).table.groups@,
                        mid,
                        "Mines"@,
                        mines_upto(
                            events@,
                            final(self).game.board@,
                            table_lookup(old(self).sprites.entries@, "Mines"@)->Some_0,
                            events@.len() as int,
                        ),
                    ) && appended_items(
                        mid,
                        final(self).table.groups@,
                        "Numbers"@,
                        numbers_upto(
                            events@,
                            final(self).game.board@,
                            old(self).sprites.entries@,
                            events@.len() as int,
                        ),
                    )
            },
    {
        let ghost pre = self.game.board@;
        let events = reveal_with_propagation(&mut self.game, idx);
        proof {
            lemma_mines_prefix_pointwise(pre, self.game.board@, pre.len() as int);
            assert forall|e: int|
                0 <= e < events@.len() implies ((#[trigger] events@[e]).1 matches
                RevealOutcome::Revealed(m) ==> m <= 8) by {
                if events@[e].1 is Revealed {
                    assert(events@[e].1->Revealed_0 as int == crate::grid::adjacent_mine_count(
                        self.game,
                        events@[e].0 as int / old(self).game.width as int,
                        events@[e].0 as int % old(self).game.width as int,
                    ));
                }
            }
        }
        let ghost game_after = self.game;
        let mine_tex = match self.sprites.lookup("Mines") {
            Ok(tex) => tex,
            Err(e) => {
                proof {
                    // unreachable: the invariant says the atlas holds "Mines"
                    assert(false);
                }
                return Err(e);
            },
        };
        let mut mine_overlays: Vec<SpriteInstance> = Vec::new();
        let mut number_overlays: Vec<SpriteInstance> = Vec::new();
        let mut k: usize = 0;
        while k < events.len()
            invariant
                0 <= k <= events@.len(),
                self.wf(),
                *self == (GameSession { game: game_after, ..*old(self) }),
                self.game.board@.len() == pre.len(),
                forall|i: int|
                    0 <= i < pre.len() ==> cell_reveal_frame(pre[i], self.game.board@[i]),
                forall|e: int|
                    0 <= e < events@.len() ==> (#[trigger] events@[e]).0 < pre.len(),
                forall|e: int|
                    0 <= e < events@.len() ==> ((#[trigger] events@[e]).1 matches
                        RevealOutcome::Revealed(m) ==> m <= 8),
                table_lookup(self.sprites.entries@, "Mines"@) == Some(mine_tex),
                mine_overlays@ == mines_upto(events@, game_after.board@, mine_tex, k as int),
                number_overlays@ == numbers_upto(
                    events@,
                    game_after.board@,
                    self.sprites.entries@,
                    k as int,
                ),
            decreases events@.len() - k,
        {
            let (i, outcome) = events[k];
            let t = self.game.board[i];
            proof {
                assert(1 <= t.size <= WORLD_SCALE);
                assert(0 <= t.position.x <= (MAX_DIM as int) * (WORLD_SCALE as int));
                assert(0 <= t.position.y <= (MAX_DIM as int) * (WORLD_SCALE as int));
            }
            match outcome {
                RevealOutcome::MineHit => {
                    let inst = SpriteInstance {
                        x: t.position.x + (t.size * 505) / 1000,
                        y: t.position.y + (t.size * 505) / 1000,
                        scale_x: (t.size * 95) / 100,
                        scale_y: (t.size * 95) / 100,
                        z_index: Z_MINE,
                        tex: mine_tex,
                        texture_index: 0,
                    };
                    let ghost m_pre = mine_overlays@;
                    mine_overlays.push(inst);
                    proof {
                        assert(inst == reveal_instance(game_after.board@[i as int], mine_tex));
                        assert(mine_overlays@ =~= m_pre + seq![inst]);
                        assert(number_overlays@ =~= numbers_upto(
                            events@,
                            game_after.board@,
                            self.sprites.entries@,
                            k as int,
                        ) + Seq::<SpriteInstance>::empty());
                    }
                },
                RevealOutcome::Revealed(n) => {
                    let count = if n > 8 {
                        proof {
                            // unreachable: a cell has at most eight neighbors
                            assert(false);
                        }
                        8
                    } else {
                        n
                    };
                    let name = digit_name(count);
                    let tex = match self.sprites.lookup(name) {
                        Ok(tex) => tex,
                        Err(e) => {
                            proof {
                                // unreachable: the atlas holds every digit
                                assert(false);
                            }
                            return Err(e);
                        },
                    };
                    let inst = SpriteInstance {
                        x: t.position.x + (t.size * 505) / 1000,
                        y: t.position.y + (t.size * 505) / 1000,
                        scale_x: (t.size * 95) / 100,
                        scale_y: (t.size * 95) / 100,
                        z_index: Z_MINE,
                        tex,
                        texture_index: 0,
                    };
                    let ghost n_pre = number_overlays@;
                    number_overlays.push(inst);
                    proof {
                        assert(table_lookup(self.sprites.entries@, digit_seq(n as int)) == Some(
                            tex,
                        ));
                        assert(inst == reveal_instance(
                            game_after.board@[i as int],
                            table_lookup(self.sprites.entries@, digit_seq(n as int))->Some_0,
                        ));
                        assert(number_overlays@ =~= n_pre + seq![inst]);
                        assert(mine_overlays@ =~= mines_upto(
                            events@,
                            game_after.board@,
                            mine_tex,
                            k as int,
                        ) + Seq::<SpriteInstance>::empty());
                    }
                },
            }
            k = k + 1;
        }
        let ghost before_groups = self.table.groups@;
        let ghost mines_items = mine_overlays@;
        let mines_empty = mine_overlays.len() == 0;
        if !mines_empty {
            self.table.upsert("Mines", mine_overlays);
        }
        let ghost mid_groups = self.table.groups@;
        let ghost numbers_items = number_overlays@;
        let numbers_empty = number_overlays.len() == 0;
        if !numbers_empty {
            self.table.upsert("Numbers", number_overlays);
        }
        proof {
            crate::aggregator::lemma_find_group_props(before_groups, "Mines"@);
            crate::aggregator::lemma_find_group_props(mid_groups, "Numbers"@);
            if mines_empty {
                assert(mines_items.len() == 0);
                assert(mid_groups == before_groups);
            }
            assert(appended_items(before_groups, mid_groups, "Mines"@, mines_items));
            if numbers_empty {
                assert(numbers_items.len() == 0);
                assert(self.table.groups@ == mid_groups);
            }
            assert(appended_items(mid_groups, self.table.groups@, "Numbers"@, numbers_items));
            assert(mines_items == mines_upto(
                events@,
                game_after.board@,
                mine_tex,
                events@.len() as int,
            ));
            assert(numbers_items == numbers_upto(
                events@,
                game_after.board@,
                self.sprites.entries@,
                events@.len() as int,
            ));
            assert(mine_tex == table_lookup(old(self).sprites.entries@, "Mines"@)->Some_0);
            assert(appended_items(
                old(self).table.groups@,
                mid_groups,
                "Mines"@,
                mines_upto(
                    events@,
                    self.game.board@,
                    table_lookup(old(self).sprites.entries@, "Mines"@)->Some_0,
                    events@.len() as int,
                ),
            ));
            assert(appended_items(
                mid_groups,
                self.table.groups@,
                "Numbers"@,
                numbers_upto(
                    events@,
                    self.game.board@,
                    old(self).sprites.entries@,
                    events@.len() as int,
                ),
            ));
        }
        Ok(events)
    }

    /// A left click at `cursor`: reveals the covered, unflagged cell under
    /// the cursor with propagation. A click on an already-revealed cell
    /// reveals all its covered, unflagged neighbors instead. The round's very
    /// first reveal is made safe: a board whose clicked cell holds a mine is
    /// regenerated, within the retry bound, until that cell is mine-free.
    /// With no running round, no cell under the cursor, or a flagged cell
    /// there, nothing changes.
    pub fn handle_left_click(&mut self, cursor: WorldPoint) -> (r: Result<(), GameError>)
        requires
            old(self).wf(),
        ensures
            final(self).wf(),
            final(self).width == old(self).width,
            final(self).length == old(self).length,
            final(self).mine_count == old(self).mine_count,
            r is Err ==> r == Err::<(), GameError>(GameError::RegenerationExhausted),
            old(self).game.board@.len() == 0 ==> *final(self) == *old(self) && r is Ok,
            first_hit(old(self).game.board@, cursor) == -1 ==> *final(self) == *old(self) && r
                is Ok,
            // a click on a covered, unflagged cell reveals it
            ({
                let h = first_hit(old(self).game.board@, cursor);
                (r is Ok && old(self).game.board@.len() > 0 && h >= 0 && !old(self).game.board@[h].clicked && !old(self).game.board@[h].flagged) ==> final(self).game.board@[h].clicked
            }),
            // the round's very first reveal never lands on a mine and sets no
            // marker off
            ({
                let h = first_hit(old(self).game.board@, cursor);
                (r is Ok && old(self).game.board@.len() > 0 && h >= 0 && !old(self).game.board@[h].flagged && (forall|i: int|
                    0 <= i < old(self).game.board@.len() ==> !(#[trigger] old(self).game.board@[i]).clicked)) ==> (final(self).game.board@[h].clicked && !final(self).game.board@[h].spec_has_mine() && (forall|i: int|
                    0 <= i < final(self).game.board@.len() ==> ((#[trigger] final(self).game.board@[i]).mine matches Some(m) ==> !m.spec_is_active())))
            }),
            // a click on a revealed cell opens its covered, unflagged neighbors
            ({
                let h = first_hit(old(self).game.board@, cursor);
                (old(self).game.board@.len() > 0 && h >= 0 && old(self).game.board@[h].clicked)
                    ==> (r is Ok && (forall|rr: int, cc: int|
                    #[trigger] crate::grid::is_adjacent(
                        old(self).game.width as int,
                        old(self).game.length as int,
                        h / old(self).game.width as int,
                        h % old(self).game.width as int,
                        rr,
                        cc,
                    ) && !old(self).game.board@[rr * old(self).game.width + cc].flagged ==> final(self).game.board@[rr * old(self).game.width + cc].clicked))
            }),
            // failure has a single source: only the round's first reveal of a
            // mine-bearing cell regenerates, and only its retry bound can run out
            r is Err ==> ({
                let h = first_hit(old(self).game.board@, cursor);
                &&& old(self).game.board@.len() > 0
                &&& h >= 0
                &&& !old(self).game.board@[h].clicked
                &&& !old(self).game.board@[h].flagged
                &&& old(self).game.board@[h].spec_has_mine()
                &&& forall|i: int|
                    0 <= i < old(self).game.board@.len() ==> !(#[trigger] old(self).game.board@[i]).clicked
            }),
    {
        if self.game.board.len() == 0 {
            return Ok(());
        }
        let hit = match self.find_hit(cursor) {
            Some(i) => i,
            None => {
                return Ok(());
            },
        };
        let t = self.game.board[hit];
        if t.clicked {
            // a click on a revealed cell opens its covered, unflagged neighbors
            proof {
                vstd::arithmetic::div_mod::lemma_mod_bound(hit as int, self.game.width as int);
                vstd::arithmetic::div_mod::lemma_multiply_divide_lt(
                    hit as int,
                    self.game.width as int,
                    self.game.length as int,
                );
            }
            let nbrs = neighbors(self.game.width, self.game.length, t.board_row, t.board_col);
            let mut k: usize = 0;
            while k < nbrs.len()
                invariant
                    0 <= k <= nbrs@.len(),
                    self.wf(),
                    self.game.board@.len() == old(self).game.board@.len(),
                    self.game.board@.len() > 0,
                    self.width == old(self).width,
                    self.length == old(self).length,
                    self.mine_count == old(self).mine_count,
                    forall|e: int|
                        0 <= e < nbrs@.len() ==> (#[trigger] nbrs@[e]) < self.game.board@.len(),
                    forall|i: int|
                        0 <= i < self.game.board@.len() ==> (#[trigger] self.game.board@[i]).flagged
                            == old(self).game.board@[i].flagged,
                    forall|i: int|
                        0 <= i < self.game.board@.len() && old(self).game.board@[i].clicked ==> (
                        #[trigger] self.game.board@[i]).clicked,
                    forall|e: int|
                        0 <= e < k && !old(self).game.board@[(#[trigger] nbrs@[e]) as int].flagged
                            ==> self.game.board@[nbrs@[e] as int].clicked,
                decreases nbrs@.len() - k,
            {
                let j = nbrs[k];
                if !self.game.board[j].flagged && !self.game.board[j].clicked {
                    match self.reveal_and_draw(j) {
                        Ok(_) => (),
                        Err(e) => {
                            return Err(e);
                        },
                    }
                    proof {
                        assert(self.game.board@[j as int].clicked);
                    }
                }
                k = k + 1;
            }
            proof {
                assert forall|rr: int, cc: int|
                    #[trigger] crate::grid::is_adjacent(
                        old(self).game.width as int,
                        old(self).game.length as int,
                        hit as int / old(self).game.width as int,
                        hit as int % old(self).game.width as int,
                        rr,
                        cc,
                    ) && !old(self).game.board@[rr * old(self).game.width + cc].flagged implies self.game.board@[rr * old(self).game.width + cc].clicked by {
                    let e0 = choose|e: int|
                        0 <= e < nbrs@.len() && (#[trigger] nbrs@[e]) as int == rr * old(self).game.width + cc;
                    assert(!old(self).game.board@[nbrs@[e0] as int].flagged);
                    assert(self.game.board@[nbrs@[e0] as int].clicked);
                }
            }
            return Ok(());
        }
        if t.flagged {
            return Ok(());
        }
        if !self.any_clicked() {
            // first reveal of the round: keep it mine-free
            if self.game.board[hit].has_mine() {
                match regenerate_until_safe(
                    self.width,
                    self.length,
                    self.mine_count,
                    &self.sprites,
                    hit,
                ) {
                    Ok((tiles, st)) => {
                        proof {
                            lemma_generated_cell_bounds(
                                st,
                                self.width,
                                self.length,
                                self.mine_count,
                            );
                        }
                        self.game = st;
                        self.table.upsert("Tiles", tiles);
                    },
                    Err(e) => {
                        proof {
                            // the configuration is valid, so only the retry
                            // bound can fail here
                            assert(e == GameError::RegenerationExhausted);
                        }
                        return Err(e);
                    },
                }
            }
        }
        match self.reveal_and_draw(hit) {
            Ok(_) => Ok(()),
            Err(e) => Err(e),
        }
    }

    /// A right click at `cursor`: toggles the flag of the covered cell under
    /// the cursor. A fresh flag puts the cell's flag sprite into the "Flags"
    /// group; removing one takes exactly that sprite out again. Unflagging
    /// while no "Flags" group exists signals `StateInconsistency`: the
    /// caller's instance tracking has gone wrong.
    pub fn handle_right_click(&mut self, cursor: WorldPoint) -> (r: Result<(), GameError>)
        requires
            old(self).wf(),
        ensures
            final(self).wf(),
            final(self).width == old(self).width,
            final(self).length == old(self).length,
            final(self).mine_count == old(self).mine_count,
            r is Err ==> r == Err::<(), GameError>(GameError::StateInconsistency),
            // failure has a single source: un-flagging while no "Flags" group exists
            r is Err <==> ({
                let h = first_hit(old(self).game.board@, cursor);
                &&& old(self).game.board@.len() > 0
                &&& h >= 0
                &&& !old(self).game.board@[h].clicked
                &&& old(self).game.board@[h].flagged
                &&& find_group(old(self).table.groups@, "Flags"@) == -1
            }),
            // on failure no instance group is touched
            r is Err ==> final(self).table == old(self).table,
            old(self).game.board@.len() == 0 ==> *final(self) == *old(self) && r is Ok,
            ({
                let h = first_hit(old(self).game.board@, cursor);
                &&& (h == -1 ==> *final(self) == *old(self) && r is Ok)
                &&& (h >= 0 && old(self).game.board@[h].clicked ==> *final(self) == *old(self)
                    && r is Ok)
                &&& (h >= 0 && !old(self).game.board@[h].clicked ==> final(self).game.board@
                    == old(self).game.board@.update(
                    h,
                    Tiles { flagged: !old(self).game.board@[h].flagged, ..old(self).game.board@[h] },
                ))
                // a fresh flag adds exactly the cell's flag sprite to "Flags"
                &&& (h >= 0 && !old(self).game.board@[h].clicked && !old(self).game.board@[h].flagged ==> r is Ok && appended_items(
                    old(self).table.groups@,
                    final(self).table.groups@,
                    "Flags"@,
                    seq![
                        flag_instance(
                            old(self).game.board@[h],
                            table_lookup(old(self).sprites.entries@, "Flags"@)->Some_0,
                        ),
                    ],
                ))
                // unflagging removes exactly that sprite's first occurrence
                &&& ((h >= 0 && !old(self).game.board@[h].clicked && old(self).game.board@[h].flagged && r is Ok) ==> ({
                    let g = find_group(old(self).table.groups@, "Flags"@);
                    let x = flag_instance(
                        old(self).game.board@[h],
                        table_lookup(old(self).sprites.entries@, "Flags"@)->Some_0,
                    );
                    let j = find_item(old(self).table.groups@[g].items@, x);
                    &&& g >= 0
                    &&& final(self).table.groups@.len() == old(self).table.groups@.len()
                    &&& (forall|q: int|
                        0 <= q < old(self).table.groups@.len() && q != g ==> final(self).table.groups@[q] == old(self).table.groups@[q])
                    &&& (j == -1 ==> final(self).table.groups@[g].items@ == old(self).table.groups@[g].items@)
                    &&& (j != -1 ==> final(self).table.groups@[g].items@ == old(self).table.groups@[g].items@.remove(j))
                }))
            }),
    {
        if self.game.board.len() == 0 {
            return Ok(());
        }
        let hit = match self.find_hit(cursor) {
            Some(i) => i,
            None => {
                return Ok(());
            },
        };
        if self.game.board[hit].clicked {
            return Ok(());
        }
        let ghost pre = self.game.board@;
        let now_flagged = toggle_flag(&mut self.game, hit);
        proof {
            lemma_mines_prefix_pointwise(pre, self.game.board@, pre.len() as int);
            assert(self.game.board@ =~= pre.update(
                hit as int,
                Tiles { flagged: !pre[hit as int].flagged, ..pre[hit as int] },
            ));
        }
        let t = self.game.board[hit];
        let tex = match self.sprites.lookup("Flags") {
            Ok(tex) => tex,
            Err(_) => {
                proof {
                    // unreachable: the invariant says the atlas holds "Flags"
                    assert(false);
                }
                return Err(GameError::MissingSprite);
            },
        };
        proof {
            assert(1 <= t.size <= WORLD_SCALE);
            assert(0 <= t.position.x <= (MAX_DIM as int) * (WORLD_SCALE as int));
        }
        let inst = SpriteInstance {
            x: t.position.x + (t.size * 55) / 100,
            y: t.position.y + (t.size * 55) / 100,
            scale_x: t.size,
            scale_y: t.size,
            z_index: Z_MINE,
            tex,
            texture_index: 0,
        };
        proof {
            assert(inst == flag_instance(
                pre[hit as int],
                table_lookup(old(self).sprites.entries@, "Flags"@)->Some_0,
            ));
            crate::aggregator::lemma_find_group_props(self.table.groups@, "Flags"@);
        }
        if now_flagged {
            let mut flags: Vec<SpriteInstance> = Vec::new();
            flags.push(inst);
            proof {
                assert(flags@ =~= seq![inst]);
            }
            self.table.upsert("Flags", flags);
            Ok(())
        } else {
            match self.table.remove_by_value("Flags", &inst) {
                Ok(()) => Ok(()),
                Err(e) => Err(e),
            }
        }
    }

    /// Tears the round down (the Tab command): the board is dropped and the
    /// instance table reset to the placeholder alone.
    pub fn reset_instances(&mut self)
        requires
            old(self).wf(),
        ensures
            final(self).wf(),
            final(self).game.board@.len() == 0,
            final(self).table.groups@.len() == 0,
            final(self).width == old(self).width,
            final(self).length == old(self).length,
            final(self).mine_count == old(self).mine_count,
            final(self).sprites == old(self).sprites,
    {
        self.table.clear_all();
        self.game = GameState { width: self.width, length: self.length, board: Vec::new() };
    }

    /// Starts a new round (the Space command) if none is running; with a
    /// round already on the board nothing changes.
    pub fn new_round(&mut self) -> (r: Result<(), GameError>)
        requires
            old(self).wf(),
            1 <= old(self).width <= MAX_DIM,
            1 <= old(self).length <= MAX_DIM,
            old(self).mine_count < old(self).width * old(self).length,
            old(self).mine_count <= crate::generate::MAX_MINES,
        ensures
            r is Ok,
            final(self).wf(),
            old(self).game.board@.len() > 0 ==> *final(self) == *old(self),
            old(self).game.board@.len() == 0 ==> generated_board(
                final(self).game,
                old(self).width,
                old(self).length,
                old(self).mine_count,
            ),
            final(self).width == old(self).width,
            final(self).length == old(self).length,
            final(self).mine_count == old(self).mine_count,
    {
        if self.game.board.len() > 0 {
            return Ok(());
        }
        match create_minefield(self.width, self.length, self.mine_count, &self.sprites) {
            Ok((tiles, game)) => {
                proof {
                    lemma_generated_cell_bounds(game, self.width, self.length, self.mine_count);
                }
                self.game = game;
                self.table.upsert("Tiles", tiles);
                Ok(())
            },
            Err(_) => {
                proof {
                    // unreachable: the session's configuration was validated
                    assert(false);
                }
                Err(GameError::ConfigurationError)
            },
        }
    }
}

/// The cells of a generated board lie on the world grid within bounds.
proof fn lemma_generated_cell_bounds(s: GameState, width: u32, length: u32, mine_count: u32)
    requires
        generated_board(s, width, length, mine_count),
    ensures
        forall|i: int|
            0 <= i < s.board@.len() ==> {
                let t = #[trigger] s.board@[i];
                &&& 1 <= t.size <= WORLD_SCALE
                &&& 0 <= t.position.x <= (MAX_DIM as int) * (WORLD_SCALE as int)
                &&& 0 <= t.position.y <= (MAX_DIM as int) * (WORLD_SCALE as int)
            },
{
    let size = crate::generate::cell_size(width as int, length as int);
    assert(1 <= size <= WORLD_SCALE) by {
        let longer = if width > length {
            width as int
        } else {
            length as int
        };
        vstd::arithmetic::div_mod::lemma_div_pos_is_pos(WORLD_SCALE as int, longer);
        assert((WORLD_SCALE as int) / longer >= 1 && (WORLD_SCALE as int) / longer
            <= WORLD_SCALE) by (nonlinear_arith)
            requires
                1 <= longer <= 4096,
        ;
    }
    assert forall|i: int| 0 <= i < s.board@.len() implies {
        let t = #[trigger] s.board@[i];
        &&& 1 <= t.size <= WORLD_SCALE
        &&& 0 <= t.position.x <= (MAX_DIM as int) * (WORLD_SCALE as int)
        &&& 0 <= t.position.y <= (MAX_DIM as int) * (WORLD_SCALE as int)
    } by {
        let col = i % (width as int);
        let row = i / (width as int);
        vstd::arithmetic::div_mod::lemma_fundamental_div_mod(i, width as int);
        vstd::arithmetic::div_mod::lemma_multiply_divide_lt(i, width as int, length as int);
        assert(0 <= col * size <= 4096 * 1_000_000 && 0 <= row * size <= 4096 * 1_000_000)
            by (nonlinear_arith)
            requires
                0 <= col <= 4095,
                0 <= row <= 4095,
                1 <= size <= 1_000_000,
        ;
    }
}

} // verus!

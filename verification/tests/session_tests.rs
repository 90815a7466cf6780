use minesweeper::aggregator::{InstanceTable, SpriteInstance};
use minesweeper::driver::GameSession;
use minesweeper::grid::{CommonMineState, GameState, Mines, Tiles, WorldPoint};
use minesweeper::sprites::create_hashmap;
use minesweeper::GameError;

/// A 3 x 3 session whose board has mines exactly at the given indices.
fn session3(mine_idxs: &[usize]) -> GameSession {
    let size = 1_000_000 / 3;
    let mut cells = Vec::new();
    for i in 0..9usize {
        let mine = if mine_idxs.contains(&i) {
            Some(Mines::Default(CommonMineState {
                active: false,
                mine_index: 1 + mine_idxs.iter().position(|m| *m == i).unwrap() as u16,
            }))
        } else {
            None
        };
        cells.push(Tiles::new(
            (i % 3) as u32,
            (i / 3) as u32,
            WorldPoint {
                x: (i % 3) as i64 * size,
                y: (i / 3) as i64 * size,
            },
            mine,
            size,
        ));
    }
    GameSession {
        sprites: create_hashmap(),
        table: InstanceTable::new(),
        game: GameState::new(3, 3, cells),
        width: 3,
        length: 3,
        mine_count: mine_idxs.len() as u32,
    }
}

/// A world point inside the cell at `(col, row)` of a 3 x 3 round.
fn cursor3(col: i64, row: i64) -> WorldPoint {
    let size = 1_000_000 / 3;
    WorldPoint { x: col * size + size / 2, y: row * size + size / 2 }
}

#[test]
fn session_rejects_a_board_full_of_mines() {
    assert_eq!(
        GameSession::new(3, 3, 9).unwrap_err(),
        GameError::ConfigurationError
    );
    assert!(GameSession::new(3, 3, 8).is_ok());
}

#[test]
fn fresh_session_draws_one_tile_per_cell_behind_the_placeholder() {
    let s = GameSession::new(3, 3, 1).unwrap();
    let flat = s.table.flatten_ordered();
    assert_eq!(flat.len(), 1 + 9);
    assert_eq!(flat[0], SpriteInstance::blank());
}

#[test]
fn first_click_never_hits_a_mine() {
    // 8 mines on 9 cells: without regeneration the first click would almost
    // always explode
    for _ in 0..10 {
        let mut s = GameSession::new(3, 3, 8).unwrap();
        s.handle_left_click(cursor3(1, 1)).unwrap();
        assert!(s.game.board[4].clicked);
        assert!(!s.game.board[4].has_mine());
    }
}

#[test]
fn first_click_leaves_every_marker_inactive() {
    for _ in 0..10 {
        let mut s = GameSession::new(3, 3, 8).unwrap();
        s.handle_left_click(cursor3(1, 1)).unwrap();
        for t in &s.game.board {
            if let Some(m) = &t.mine {
                assert!(!m.is_active());
            }
        }
    }
}

#[test]
fn revealing_a_mine_activates_its_marker_and_draws_it() {
    // mine at the far corner; the first reveal floods the rest open
    let mut s = session3(&[0]);
    s.handle_left_click(cursor3(2, 2)).unwrap();
    assert!(!s.game.board[0].clicked);
    // the covered mine is no longer the round's first reveal
    s.handle_left_click(cursor3(0, 0)).unwrap();
    assert!(s.game.board[0].clicked);
    match &s.game.board[0].mine {
        Some(m) => assert!(m.is_active()),
        None => panic!("the mine vanished"),
    }
    let mines = s.table.groups.iter().find(|g| g.name == "Mines").unwrap();
    assert_eq!(mines.items.len(), 1);
    assert_eq!(mines.items[0].z_index, 20_000);
}

#[test]
fn chord_click_skips_flagged_neighbors() {
    // mine at a corner; reveal the center, flag the mine, then chord
    let mut s = session3(&[0]);
    s.handle_left_click(cursor3(1, 1)).unwrap();
    assert!(s.game.board[4].clicked);
    s.handle_right_click(cursor3(0, 0)).unwrap();
    assert!(s.game.board[0].flagged);
    s.handle_left_click(cursor3(1, 1)).unwrap();
    for i in 1..9 {
        assert!(s.game.board[i].clicked, "cell {} should be open", i);
    }
    assert!(!s.game.board[0].clicked);
}

#[test]
fn left_click_reveals_and_draws_an_overlay() {
    let mut s = GameSession::new(3, 3, 1).unwrap();
    s.handle_left_click(cursor3(0, 0)).unwrap();
    assert!(s.game.board[0].clicked);
    // the reveal put its sprites into an overlay group and refreshed the buffer
    let names: Vec<&str> = s.table.groups.iter().map(|g| g.name.as_str()).collect();
    assert!(names.contains(&"Numbers") || names.contains(&"Mines"));
    assert!(s.table.flatten_ordered().len() >= 1 + 9 + 1);
}

#[test]
fn left_click_outside_the_board_changes_nothing() {
    let mut s = GameSession::new(3, 3, 1).unwrap();
    let before: Vec<bool> = s.game.board.iter().map(|t| t.clicked).collect();
    s.handle_left_click(WorldPoint { x: -5_000_000, y: 0 }).unwrap();
    let after: Vec<bool> = s.game.board.iter().map(|t| t.clicked).collect();
    assert_eq!(before, after);
}

#[test]
fn right_click_flags_and_unflags_a_cell() {
    let mut s = GameSession::new(3, 3, 1).unwrap();
    s.handle_right_click(cursor3(2, 2)).unwrap();
    assert!(s.game.board[8].flagged);
    let flags = s
        .table
        .groups
        .iter()
        .find(|g| g.name == "Flags")
        .expect("flag group");
    assert_eq!(flags.items.len(), 1);
    // a second right click removes exactly the flag sprite again
    s.handle_right_click(cursor3(2, 2)).unwrap();
    assert!(!s.game.board[8].flagged);
    let flags = s.table.groups.iter().find(|g| g.name == "Flags").unwrap();
    assert_eq!(flags.items.len(), 0);
}

#[test]
fn flagged_cells_are_not_revealed_by_clicks() {
    let mut s = GameSession::new(3, 3, 1).unwrap();
    s.handle_right_click(cursor3(1, 1)).unwrap();
    s.handle_left_click(cursor3(1, 1)).unwrap();
    assert!(!s.game.board[4].clicked);
}

#[test]
fn reset_drops_the_round_and_new_round_rebuilds_it() {
    let mut s = GameSession::new(3, 3, 2).unwrap();
    s.reset_instances();
    assert_eq!(s.game.board.len(), 0);
    assert_eq!(s.table.flatten_ordered().len(), 1);
    // clicks on an empty board are no-ops
    s.handle_left_click(cursor3(1, 1)).unwrap();
    s.new_round().unwrap();
    assert_eq!(s.game.board.len(), 9);
    let mut mines = 0;
    for t in &s.game.board {
        if t.has_mine() {
            mines += 1;
        }
    }
    assert_eq!(mines, 2);
}

#[test]
fn chord_click_opens_unflagged_neighbors() {
    // no mines at all, so every reveal is safe
    let mut s = GameSession::new(3, 3, 0).unwrap();
    s.handle_left_click(cursor3(0, 0)).unwrap();
    // zero mines: the whole board floods open already on the first click
    for t in &s.game.board {
        assert!(t.clicked);
    }
    // clicking a revealed cell is still fine
    s.handle_left_click(cursor3(0, 0)).unwrap();
}

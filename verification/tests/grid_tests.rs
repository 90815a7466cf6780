use minesweeper::flood::reveal_with_propagation;
use minesweeper::generate::{create_minefield, regenerate_until_safe};
use minesweeper::grid::{
    count_adjacent_mines, neighbors, reveal_cell, toggle_flag, CommonMineState, GameState, Mines,
    RevealOutcome, Tiles, WorldPoint,
};
use minesweeper::sprites::create_hashmap;
use minesweeper::GameError;

fn cell(col: u32, row: u32, mine: bool) -> Tiles {
    let mine = if mine {
        Some(Mines::Default(CommonMineState { active: false, mine_index: 1 }))
    } else {
        None
    };
    Tiles::new(
        col,
        row,
        WorldPoint { x: col as i64 * 100, y: row as i64 * 100 },
        mine,
        100,
    )
}

/// A 3 x 3 board with mines at the given indices.
fn board3(mines: &[usize]) -> GameState {
    let mut cells = Vec::new();
    for i in 0..9usize {
        cells.push(cell((i % 3) as u32, (i / 3) as u32, mines.contains(&i)));
    }
    GameState::new(3, 3, cells)
}

#[test]
fn neighbors_corner_has_three() {
    for &(row, col) in &[(0u32, 0u32), (0, 4), (3, 0), (3, 4)] {
        assert_eq!(neighbors(5, 4, row, col).len(), 3);
    }
}

#[test]
fn neighbors_edge_has_five() {
    for &(row, col) in &[(0u32, 2u32), (3, 1), (1, 0), (2, 4)] {
        assert_eq!(neighbors(5, 4, row, col).len(), 5);
    }
}

#[test]
fn neighbors_interior_has_eight() {
    assert_eq!(neighbors(5, 4, 1, 1).len(), 8);
    assert_eq!(neighbors(15, 15, 7, 7).len(), 8);
}

#[test]
fn neighbors_exact_sets() {
    // 3 x 3 board, row-major indices 0..9
    assert_eq!(neighbors(3, 3, 0, 0), vec![1, 3, 4]);
    assert_eq!(neighbors(3, 3, 1, 1), vec![0, 1, 2, 3, 5, 6, 7, 8]);
    assert_eq!(neighbors(3, 3, 2, 1), vec![3, 4, 5, 6, 8]);
}

#[test]
fn hit_test_is_half_open() {
    let t = cell(1, 1, false);
    // origin (100, 100), side 100: [100, 200) on both axes
    assert!(t.is_clicked(WorldPoint { x: 100, y: 100 }));
    assert!(t.is_clicked(WorldPoint { x: 199, y: 199 }));
    assert!(!t.is_clicked(WorldPoint { x: 200, y: 150 }));
    assert!(!t.is_clicked(WorldPoint { x: 99, y: 150 }));
    assert!(!t.is_clicked(WorldPoint { x: 150, y: 200 }));
}

#[test]
fn count_adjacent_mines_sums_markers() {
    let s = board3(&[4]);
    assert_eq!(count_adjacent_mines(&s, 0, 0), 1);
    assert_eq!(count_adjacent_mines(&s, 1, 1), 0);
    let s2 = board3(&[0, 2, 6, 8]);
    assert_eq!(count_adjacent_mines(&s2, 1, 1), 4);
    assert_eq!(count_adjacent_mines(&s2, 0, 1), 2);
}

#[test]
fn reveal_mine_hit_activates_marker() {
    let mut s = board3(&[4]);
    let out = reveal_cell(&mut s, 4);
    assert_eq!(out, RevealOutcome::MineHit);
    assert!(s.board[4].clicked);
    match &s.board[4].mine {
        Some(m) => {
            assert!(m.is_active());
            assert_eq!(m.get_index(), 1);
        }
        None => panic!("marker lost"),
    }
}

#[test]
fn reveal_free_cell_reports_count() {
    let mut s = board3(&[4]);
    let out = reveal_cell(&mut s, 0);
    assert_eq!(out, RevealOutcome::Revealed(1));
    assert!(s.board[0].clicked);
    assert!(!s.board[4].clicked);
}

#[test]
fn toggle_flag_flips_only_covered_cells() {
    let mut s = board3(&[]);
    assert!(toggle_flag(&mut s, 0));
    assert!(s.board[0].flagged);
    assert!(!toggle_flag(&mut s, 0));
    assert!(!s.board[0].flagged);
    reveal_cell(&mut s, 1);
    let was = s.board[1].flagged;
    assert_eq!(toggle_flag(&mut s, 1), was);
    assert!(!s.board[1].flagged);
}

#[test]
fn flood_fill_opens_whole_mine_free_board() {
    let mut s = board3(&[]);
    let events = reveal_with_propagation(&mut s, 0);
    assert_eq!(events.len(), 9);
    for t in &s.board {
        assert!(t.clicked);
    }
    // each cell is visited at most once
    let mut seen = vec![false; 9];
    for (i, _) in &events {
        assert!(!seen[*i]);
        seen[*i] = true;
    }
}

#[test]
fn flood_fill_stops_at_numbered_border() {
    // mine in one corner: revealing the far corner opens everything but the mine
    let mut s = board3(&[0]);
    let events = reveal_with_propagation(&mut s, 8);
    assert!(events.len() <= 9);
    assert!(!s.board[0].clicked);
    for i in 1..9 {
        assert!(s.board[i].clicked, "cell {} should be open", i);
    }
    // the cells around the mine carry its count
    assert!(events.contains(&(4, RevealOutcome::Revealed(1))));
    assert!(events.contains(&(8, RevealOutcome::Revealed(0))));
}

#[test]
fn flood_fill_on_revealed_cell_is_noop() {
    let mut s = board3(&[]);
    reveal_cell(&mut s, 0);
    let before: Vec<bool> = s.board.iter().map(|t| t.clicked).collect();
    let events = reveal_with_propagation(&mut s, 0);
    assert!(events.is_empty());
    let after: Vec<bool> = s.board.iter().map(|t| t.clicked).collect();
    assert_eq!(before, after);
}

#[test]
fn generated_board_has_exactly_the_asked_mines() {
    let sprites = create_hashmap();
    let (instances, state) = create_minefield(15, 15, 30, &sprites).unwrap();
    assert_eq!(state.board.len(), 225);
    assert_eq!(instances.len(), 225);
    let mut mines = 0;
    let mut ordinals = Vec::new();
    for t in &state.board {
        assert!(!t.clicked);
        assert!(!t.flagged);
        if t.has_mine() {
            mines += 1;
            ordinals.push(t.get_mine_index().unwrap());
        }
    }
    assert_eq!(mines, 30);
    // no two markers share an ordinal
    ordinals.sort();
    ordinals.dedup();
    assert_eq!(ordinals.len(), 30);
}

#[test]
fn generated_geometry_is_on_the_unit_grid() {
    let sprites = create_hashmap();
    let (instances, state) = create_minefield(15, 15, 30, &sprites).unwrap();
    let size = 1_000_000 / 15;
    assert_eq!(state.board[0].position, WorldPoint { x: 0, y: 0 });
    assert_eq!(state.board[0].size, size);
    assert_eq!(
        state.board[16].position,
        WorldPoint { x: size, y: size }
    );
    // the tile sprite of a cell is centered on it
    assert_eq!(instances[0].x, size / 2);
    assert_eq!(instances[0].y, size / 2);
    assert_eq!(instances[0].scale_x, size);
    assert_eq!(instances[0].z_index, 10_000);
}

#[test]
fn generation_rejects_too_many_mines() {
    let sprites = create_hashmap();
    assert_eq!(
        create_minefield(3, 3, 9, &sprites).unwrap_err(),
        GameError::ConfigurationError
    );
    assert_eq!(
        create_minefield(0, 3, 1, &sprites).unwrap_err(),
        GameError::ConfigurationError
    );
    assert_eq!(
        create_minefield(5000, 3, 1, &sprites).unwrap_err(),
        GameError::ConfigurationError
    );
    assert!(create_minefield(3, 3, 8, &sprites).is_ok());
}

#[test]
fn first_click_safety_regenerates_to_a_free_cell() {
    let sprites = create_hashmap();
    // 8 mines on 9 cells: a fresh board nearly always has a mine at the start
    for _ in 0..20 {
        let (_, state) = regenerate_until_safe(3, 3, 8, &sprites, 4).unwrap();
        assert!(!state.board[4].has_mine());
        let mut mines = 0;
        for t in &state.board {
            if t.has_mine() {
                mines += 1;
            }
        }
        assert_eq!(mines, 8);
    }
}

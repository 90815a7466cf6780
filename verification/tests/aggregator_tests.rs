use minesweeper::aggregator::{InstanceTable, SpriteInstance};
use minesweeper::sprites::{create_hashmap, digit_name, tex_from_coords, TexRect};
use minesweeper::GameError;

fn inst(x: i64, z: i64) -> SpriteInstance {
    SpriteInstance {
        x,
        y: 0,
        scale_x: 10,
        scale_y: 10,
        z_index: z,
        tex: TexRect { x0: 0, y0: 0, x1: 1, y1: 1 },
        texture_index: 0,
    }
}

#[test]
fn fresh_table_holds_only_the_placeholder() {
    let t = InstanceTable::new();
    let flat = t.flatten_ordered();
    assert_eq!(flat.len(), 1);
    assert_eq!(flat[0], SpriteInstance::blank());
}

#[test]
fn flatten_orders_groups_by_z_with_placeholder_first() {
    // the flatten-determinism scenario: "A" at z 0.02, "B" at z 0.01
    let mut t = InstanceTable::new();
    t.upsert("A", vec![inst(1, 20_000)]);
    t.upsert("B", vec![inst(2, 10_000)]);
    let flat = t.flatten_ordered();
    assert_eq!(flat.len(), 3);
    assert_eq!(flat[0], SpriteInstance::blank());
    assert_eq!(flat[1], inst(2, 10_000));
    assert_eq!(flat[2], inst(1, 20_000));
}

#[test]
fn flatten_breaks_ties_by_prior_order() {
    let mut t = InstanceTable::new();
    t.upsert("First", vec![inst(1, 5), inst(2, 5)]);
    t.upsert("Second", vec![inst(3, 5)]);
    t.upsert("Earlier", vec![inst(4, 1)]);
    let flat = t.flatten_ordered();
    assert_eq!(flat.len(), 5);
    assert_eq!(flat[1], inst(4, 1));
    assert_eq!(flat[2], inst(1, 5));
    assert_eq!(flat[3], inst(2, 5));
    assert_eq!(flat[4], inst(3, 5));
}

#[test]
fn empty_groups_sort_last() {
    let mut t = InstanceTable::new();
    t.upsert("Empty", vec![]);
    t.upsert("Full", vec![inst(1, 7)]);
    let flat = t.flatten_ordered();
    assert_eq!(flat.len(), 2);
    assert_eq!(flat[1], inst(1, 7));
}

#[test]
fn upsert_appends_to_an_existing_group() {
    let mut t = InstanceTable::new();
    t.upsert("Tiles", vec![inst(1, 3)]);
    t.upsert("Tiles", vec![inst(2, 3)]);
    assert_eq!(t.groups.len(), 1);
    assert_eq!(t.groups[0].items.len(), 2);
    let flat = t.flatten_ordered();
    assert_eq!(flat[1], inst(1, 3));
    assert_eq!(flat[2], inst(2, 3));
}

#[test]
fn remove_by_value_takes_exactly_one_match() {
    // the flag-removal scenario on a "Flags" group
    let mut t = InstanceTable::new();
    t.upsert("Flags", vec![inst(1, 9), inst(2, 9), inst(1, 9)]);
    t.remove_by_value("Flags", &inst(1, 9)).unwrap();
    assert_eq!(t.groups[0].items, vec![inst(2, 9), inst(1, 9)]);
    // an absent value is a quiet no-op
    t.remove_by_value("Flags", &inst(77, 9)).unwrap();
    assert_eq!(t.groups[0].items.len(), 2);
}

#[test]
fn remove_from_missing_group_signals_state_inconsistency() {
    let mut t = InstanceTable::new();
    assert_eq!(
        t.remove_by_value("Flags", &inst(1, 9)).unwrap_err(),
        GameError::StateInconsistency
    );
}

#[test]
fn clear_all_resets_to_the_placeholder() {
    let mut t = InstanceTable::new();
    t.upsert("Tiles", vec![inst(1, 3)]);
    t.clear_all();
    assert_eq!(t.groups.len(), 0);
    let flat = t.flatten_ordered();
    assert_eq!(flat.len(), 1);
    assert_eq!(flat[0], SpriteInstance::blank());
}

#[test]
fn atlas_table_holds_the_named_regions() {
    let s = create_hashmap();
    assert_eq!(
        s.lookup("Tiles").unwrap(),
        TexRect { x0: 0, y0: 2, x1: 1, y1: 3 }
    );
    assert_eq!(
        s.lookup("Mines").unwrap(),
        TexRect { x0: 0, y0: 1, x1: 1, y1: 2 }
    );
    assert_eq!(
        s.lookup("Flags").unwrap(),
        TexRect { x0: 2, y0: 1, x1: 3, y1: 2 }
    );
    assert_eq!(
        s.lookup("8").unwrap(),
        TexRect { x0: 9, y0: 0, x1: 10, y1: 1 }
    );
    assert_eq!(
        s.lookup("Teto").unwrap(),
        TexRect { x0: 28, y0: 0, x1: 32, y1: 4 }
    );
}

#[test]
fn atlas_table_has_exactly_fifteen_entries() {
    assert_eq!(create_hashmap().entries.len(), 15);
}

#[test]
fn unknown_sprite_name_is_missing_sprite() {
    let s = create_hashmap();
    assert_eq!(s.lookup("Ghost").unwrap_err(), GameError::MissingSprite);
}

#[test]
fn tex_from_coords_keeps_the_corners() {
    let t = tex_from_coords(3, 0, 4, 1);
    assert_eq!(t, TexRect { x0: 3, y0: 0, x1: 4, y1: 1 });
}

#[test]
fn digit_names_cover_all_counts() {
    let names: Vec<&str> = (0u8..=8).map(digit_name).collect();
    assert_eq!(names, vec!["0", "1", "2", "3", "4", "5", "6", "7", "8"]);
}

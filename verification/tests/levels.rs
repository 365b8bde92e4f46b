use tile_maze::level::{LevelError, LevelTemplate};
use tile_maze::tile::{Connections, TileVariant};

fn wall() -> TileVariant {
    TileVariant::Wall(Connections { up: false, down: false, left: true, right: true })
}

#[test]
fn level_needs_one_tile_for_each_cell() {
    let tiles = vec![TileVariant::Start, TileVariant::Path, TileVariant::Path];
    assert_eq!(
        LevelTemplate::new(String::from("a"), 2, 2, tiles.clone()),
        Err(LevelError::DimensionMismatch)
    );
    let level = LevelTemplate::new(String::from("a"), 3, 1, tiles.clone()).unwrap();
    assert_eq!(level.name(), "a");
    assert_eq!(level.width(), 3);
    assert_eq!(level.height(), 1);
    assert_eq!(level.tiles(), &tiles);
}

#[test]
fn empty_level_is_a_level() {
    let level = LevelTemplate::new(String::new(), 0, 5, Vec::new()).unwrap();
    assert_eq!(level.tiles().len(), 0);
    assert_eq!(level.tile_at(0, 0), None);
    assert_eq!(level.start_cell(), None);
    assert_eq!(
        LevelTemplate::new(String::new(), 0, 0, vec![TileVariant::Path]),
        Err(LevelError::DimensionMismatch)
    );
}

#[test]
fn cells_are_kept_row_by_row() {
    let tiles = vec![
        TileVariant::Path,
        wall(),
        TileVariant::Goal { active: true },
        TileVariant::Path,
        TileVariant::Start,
        TileVariant::Start,
    ];
    let level = LevelTemplate::new(String::from("grid"), 3, 2, tiles).unwrap();
    assert_eq!(level.tile_at(0, 0), Some(TileVariant::Path));
    assert_eq!(level.tile_at(1, 0), Some(wall()));
    assert_eq!(level.tile_at(2, 0), Some(TileVariant::Goal { active: true }));
    assert_eq!(level.tile_at(0, 1), Some(TileVariant::Path));
    assert_eq!(level.tile_at(1, 1), Some(TileVariant::Start));
    assert_eq!(level.tile_at(3, 0), None);
    assert_eq!(level.tile_at(0, 2), None);
    assert_eq!(level.start_cell(), Some((1, 1)));
}

#[test]
fn duplicate_is_equal() {
    let tiles = vec![TileVariant::Start, wall()];
    let level = LevelTemplate::new(String::from("d"), 1, 2, tiles).unwrap();
    assert_eq!(level.duplicate(), level);
}

use tile_maze::assets::{asset_keys, AssetTable};
use tile_maze::enumerable::Enumerable;
use tile_maze::tile::{Connections, TileVariant};

#[test]
fn asset_keys_are_name_and_flags() {
    assert_eq!(TileVariant::Goal { active: true }.resolve(), "goal_1");
    assert_eq!(TileVariant::Goal { active: false }.resolve(), "goal_0");
    assert_eq!(TileVariant::Start.resolve(), "start");
    assert_eq!(TileVariant::Path.resolve(), "path");
    let c = Connections { up: true, down: false, left: true, right: false };
    assert_eq!(TileVariant::Wall(c).resolve(), "wall_1_0_1_0");
    let d = Connections { up: false, down: true, left: true, right: true };
    assert_eq!(TileVariant::Wall(d).resolve(), "wall_0_1_1_1");
}

#[test]
fn asset_keys_differ_for_different_tiles() {
    let all = TileVariant::enumerate_all();
    for a in all.iter() {
        for b in all.iter() {
            assert_eq!(a.resolve() == b.resolve(), a == b);
        }
    }
}

#[test]
fn asset_keys_are_deterministic() {
    for tile in TileVariant::enumerate_all() {
        assert_eq!(tile.resolve(), tile.resolve());
    }
}

#[test]
fn every_tile_is_listed_with_its_key() {
    let keys = asset_keys();
    let all = TileVariant::enumerate_all();
    assert_eq!(keys.len(), 20);
    for (i, (tile, key)) in keys.iter().enumerate() {
        assert_eq!(*tile, all[i]);
        assert_eq!(*key, tile.resolve());
    }
    assert_eq!(keys[2].1, "start");
    assert_eq!(keys[19].1, "wall_1_1_1_1");
}

#[test]
fn table_omits_what_could_not_be_loaded() {
    let mut table = AssetTable::new();
    assert_eq!(table.lookup(TileVariant::Start), None);
    table.record(TileVariant::Start, Some(7));
    table.record(TileVariant::Path, None);
    table.record(TileVariant::Goal { active: true }, Some(3));
    assert_eq!(table.lookup(TileVariant::Start), Some(7));
    assert_eq!(table.lookup(TileVariant::Path), None);
    assert_eq!(table.lookup(TileVariant::Goal { active: true }), Some(3));
    assert_eq!(table.lookup(TileVariant::Goal { active: false }), None);
}

#[test]
fn later_entry_replaces_earlier_one() {
    let mut table = AssetTable::new();
    table.record(TileVariant::Start, Some(1));
    table.record(TileVariant::Path, Some(2));
    table.record(TileVariant::Start, Some(5));
    table.record(TileVariant::Start, None);
    assert_eq!(table.lookup(TileVariant::Start), Some(5));
    assert_eq!(table.lookup(TileVariant::Path), Some(2));
}

use tile_maze::bounded::{walk, Bounded};
use tile_maze::enumerable::Enumerable;
use tile_maze::game::Action;
use tile_maze::product::{count_tuples, enumerate_tuples, FieldBound, ShapeError};
use tile_maze::tile::{Connections, TileVariant};

fn connections(up: bool, down: bool, left: bool, right: bool) -> Connections {
    Connections { up, down, left, right }
}

#[test]
fn bool_walk_is_false_then_true() {
    assert_eq!(walk::<bool>(), vec![false, true]);
    assert_eq!(<bool as Bounded>::min(), false);
    assert_eq!(<bool as Bounded>::max(), true);
    assert_eq!(false.next(), Some(true));
    assert_eq!(true.next(), None);
}

#[test]
fn connections_walk_has_sixteen_values_in_binary_order() {
    let all = walk::<Connections>();
    assert_eq!(all.len(), 16);
    assert_eq!(all[0], connections(false, false, false, false));
    assert_eq!(all[1], connections(false, false, false, true));
    assert_eq!(all[2], connections(false, false, true, false));
    assert_eq!(all[5], connections(false, true, false, true));
    assert_eq!(all[8], connections(true, false, false, false));
    assert_eq!(all[15], connections(true, true, true, true));
    for (i, c) in all.iter().enumerate() {
        assert_eq!(c.ordinal() as usize, i);
        assert_eq!(Connections::from_ordinal(i as u32), Some(*c));
    }
    for i in 0..16 {
        for j in 0..16 {
            assert_eq!(all[i] == all[j], i == j);
        }
    }
}

#[test]
fn connections_next_is_binary_increment() {
    assert_eq!(
        connections(false, false, true, true).next(),
        Some(connections(false, true, false, false))
    );
    assert_eq!(
        connections(false, true, true, true).next(),
        Some(connections(true, false, false, false))
    );
    assert_eq!(connections(true, true, true, true).next(), None);
    assert_eq!(Connections::min(), connections(false, false, false, false));
    assert_eq!(Connections::max(), connections(true, true, true, true));
    assert_eq!(Connections::from_ordinal(16), None);
}

#[test]
fn action_is_bounded_in_declaration_order() {
    assert_eq!(
        walk::<Action>(),
        vec![Action::UP, Action::DOWN, Action::LEFT, Action::RIGHT]
    );
    assert_eq!(Action::LEFT.ordinal(), 2);
    assert_eq!(Action::from_ordinal(3), Some(Action::RIGHT));
    assert_eq!(Action::from_ordinal(4), None);
    assert_eq!(Action::RIGHT.next(), None);
}

#[test]
fn tuples_are_the_product_with_the_last_field_fastest() {
    let fields = vec![FieldBound { min: 0, max: 1 }, FieldBound { min: 5, max: 7 }];
    assert_eq!(count_tuples(&fields), Ok(6));
    assert_eq!(
        enumerate_tuples(&fields),
        Ok(vec![
            vec![0, 5],
            vec![0, 6],
            vec![0, 7],
            vec![1, 5],
            vec![1, 6],
            vec![1, 7],
        ])
    );
}

#[test]
fn skipped_field_contributes_factor_one() {
    let fields = vec![
        FieldBound { min: 1, max: 2 },
        FieldBound::skipped(9),
        FieldBound::of::<bool>(),
    ];
    assert_eq!(FieldBound::skipped(9), FieldBound { min: 9, max: 9 });
    assert_eq!(FieldBound::of::<bool>(), FieldBound { min: 0, max: 1 });
    assert_eq!(FieldBound::of::<Connections>(), FieldBound { min: 0, max: 15 });
    assert_eq!(count_tuples(&fields), Ok(4));
    assert_eq!(
        enumerate_tuples(&fields),
        Ok(vec![vec![1, 9, 0], vec![1, 9, 1], vec![2, 9, 0], vec![2, 9, 1]])
    );
}

#[test]
fn no_fields_give_the_one_empty_tuple() {
    let fields: Vec<FieldBound> = Vec::new();
    assert_eq!(count_tuples(&fields), Ok(1));
    assert_eq!(enumerate_tuples(&fields), Ok(vec![Vec::<u32>::new()]));
}

#[test]
fn empty_range_is_rejected_without_a_partial_list() {
    let fields = vec![FieldBound { min: 0, max: 1 }, FieldBound { min: 3, max: 2 }];
    assert_eq!(count_tuples(&fields), Err(ShapeError::IllFormed));
    assert_eq!(enumerate_tuples(&fields), Err(ShapeError::IllFormed));
}

#[test]
fn too_many_tuples_are_rejected() {
    let full = FieldBound { min: 0, max: u32::MAX };
    let fields = vec![full, full, full];
    assert_eq!(count_tuples(&fields), Err(ShapeError::TooLarge));
    assert_eq!(enumerate_tuples(&fields), Err(ShapeError::TooLarge));
    let ill = vec![full, full, full, FieldBound { min: 1, max: 0 }];
    assert_eq!(count_tuples(&ill), Err(ShapeError::IllFormed));
}

#[test]
fn full_range_field_counts_two_to_the_thirty_two() {
    let fields = vec![FieldBound { min: 0, max: u32::MAX }];
    if usize::BITS >= 64 {
        assert_eq!(count_tuples(&fields), Ok(1usize << 32));
    }
}

#[test]
fn tile_enumeration_lists_all_twenty_tiles_once() {
    let all = TileVariant::enumerate_all();
    assert_eq!(all.len(), 2 + 1 + 1 + 16);
    assert_eq!(all[0], TileVariant::Goal { active: false });
    assert_eq!(all[1], TileVariant::Goal { active: true });
    assert_eq!(all[2], TileVariant::Start);
    assert_eq!(all[3], TileVariant::Path);
    for i in 0..16u32 {
        let c = Connections::from_ordinal(i).unwrap();
        assert_eq!(all[4 + i as usize], TileVariant::Wall(c));
    }
    for i in 0..all.len() {
        for j in 0..all.len() {
            assert_eq!(all[i] == all[j], i == j);
        }
    }
    assert!(all.contains(&TileVariant::Wall(connections(true, false, true, false))));
}

#[test]
fn tile_enumeration_is_stable() {
    assert_eq!(TileVariant::enumerate_all(), TileVariant::enumerate_all());
}

#[test]
fn tile_shape_and_decoding() {
    assert_eq!(TileVariant::variant_count(), 4);
    assert_eq!(TileVariant::variant_fields(0), vec![FieldBound { min: 0, max: 1 }]);
    assert_eq!(TileVariant::variant_fields(1), Vec::<FieldBound>::new());
    assert_eq!(TileVariant::variant_fields(3), vec![FieldBound { min: 0, max: 15 }]);
    assert_eq!(TileVariant::decode(0, &vec![1]), TileVariant::Goal { active: true });
    assert_eq!(TileVariant::decode(2, &vec![]), TileVariant::Path);
    assert_eq!(
        TileVariant::decode(3, &vec![9]),
        TileVariant::Wall(connections(true, false, false, true))
    );
}

#[test]
fn unit_variants_enumerate_once_each() {
    assert_eq!(
        Action::enumerate_all(),
        vec![Action::UP, Action::DOWN, Action::LEFT, Action::RIGHT]
    );
    assert_eq!(Action::variant_count(), 4);
    assert_eq!(Action::variant_fields(2), Vec::<FieldBound>::new());
    assert_eq!(Action::decode(1, &vec![]), Action::DOWN);
}

#[test]
fn only_skipped_fields_give_one_tuple() {
    let fields = vec![FieldBound::skipped(4), FieldBound::skipped(0), FieldBound::skipped(4)];
    assert_eq!(count_tuples(&fields), Ok(1));
    assert_eq!(enumerate_tuples(&fields), Ok(vec![vec![4, 0, 4]]));
}

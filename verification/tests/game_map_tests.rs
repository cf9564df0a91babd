use mmo_engine::game_map::{GameMap, TileType, WalkResult};
use mmo_engine::vector2::Vector2;

fn text_of(map: &GameMap) -> String {
    map.string_map.iter().collect()
}

#[test]
fn characters_are_classified() {
    assert_eq!(TileType::from_char('#'), TileType::Wall('#'));
    assert_eq!(TileType::from_char('.'), TileType::Walkable('.'));
    assert_eq!(TileType::from_char('@'), TileType::SpawnPosition('@'));
    assert_eq!(TileType::from_char(' '), TileType::OutOfBounds(' '));
    assert_eq!(TileType::from_char('x'), TileType::OutOfBounds('x'));
}

#[test]
fn walls_and_the_outside_block() {
    assert!(TileType::Wall('#').is_blocking());
    assert!(TileType::OutOfBounds('0').is_blocking());
    assert!(!TileType::Walkable('.').is_blocking());
    assert!(!TileType::SpawnPosition('@').is_blocking());
}

#[test]
fn lookup_finds_the_cells_of_the_layout() {
    let map = GameMap::from_layout("...#...", 7);
    assert_eq!(*map.on_position(&Vector2(0, 0)), TileType::Walkable('.'));
    assert_eq!(*map.on_position(&Vector2(3, 0)), TileType::Wall('#'));
    assert_eq!(*map.on_position(&Vector2(6, 0)), TileType::Walkable('.'));
}

#[test]
fn lookup_outside_the_layout_is_out_of_bounds() {
    let map = GameMap::from_layout("...#...", 7);
    assert_eq!(*map.on_position(&Vector2(7, 0)), TileType::OutOfBounds('0'));
    assert_eq!(*map.on_position(&Vector2(0, 1)), TileType::OutOfBounds('0'));
    assert_eq!(*map.on_position(&Vector2(-1, 0)), TileType::OutOfBounds('0'));
    assert_eq!(*map.on_position(&Vector2(0, -1)), TileType::OutOfBounds('0'));
    assert_eq!(
        *map.on_position(&Vector2(i32::MAX, i32::MAX)),
        TileType::OutOfBounds('0')
    );
}

#[test]
fn rows_end_at_line_feeds() {
    let map = GameMap::from_layout("#.\n.@\n", 2);
    assert_eq!(*map.on_position(&Vector2(0, 0)), TileType::Wall('#'));
    assert_eq!(*map.on_position(&Vector2(1, 0)), TileType::Walkable('.'));
    assert_eq!(*map.on_position(&Vector2(2, 0)), TileType::OutOfBounds('0'));
    assert_eq!(*map.on_position(&Vector2(0, 1)), TileType::Walkable('.'));
    assert_eq!(*map.on_position(&Vector2(1, 1)), TileType::SpawnPosition('@'));
    assert_eq!(*map.on_position(&Vector2(0, 2)), TileType::OutOfBounds('0'));
}

#[test]
fn carriage_return_before_line_feed_is_no_cell() {
    let map = GameMap::from_layout("ab\r\n.\r", 2);
    assert_eq!(*map.on_position(&Vector2(0, 0)), TileType::OutOfBounds('a'));
    assert_eq!(*map.on_position(&Vector2(1, 0)), TileType::OutOfBounds('b'));
    assert_eq!(*map.on_position(&Vector2(2, 0)), TileType::OutOfBounds('0'));
    assert_eq!(*map.on_position(&Vector2(0, 1)), TileType::Walkable('.'));
    assert_eq!(*map.on_position(&Vector2(1, 1)), TileType::OutOfBounds('\r'));
}

#[test]
fn rows_may_differ_in_length_and_be_empty() {
    let map = GameMap::from_layout("..\n\n#", 2);
    assert_eq!(*map.on_position(&Vector2(1, 0)), TileType::Walkable('.'));
    assert_eq!(*map.on_position(&Vector2(0, 1)), TileType::OutOfBounds('0'));
    assert_eq!(*map.on_position(&Vector2(0, 2)), TileType::Wall('#'));
    assert_eq!(*map.on_position(&Vector2(1, 2)), TileType::OutOfBounds('0'));
}

#[test]
fn empty_layout_has_no_cell() {
    let map = GameMap::from_layout("", 0);
    assert_eq!(*map.on_position(&Vector2(0, 0)), TileType::OutOfBounds('0'));
    assert_eq!(map.spawn_position(), None);
    assert!(map.string_map.is_empty());
}

#[test]
fn layout_text_is_kept() {
    let map = GameMap::from_layout("#.\r\n.@\n", 2);
    assert_eq!(text_of(&map), "#.\r\n.@\n");
}

#[test]
fn spawn_is_the_first_in_reading_order() {
    let map = GameMap::from_layout("...\n.@@\n@..\n", 3);
    assert_eq!(map.spawn_position(), Some(Vector2(1, 1)));
}

#[test]
fn map_without_spawn_has_none() {
    let map = GameMap::from_layout("...\n.#.\n", 3);
    assert_eq!(map.spawn_position(), None);
}

#[test]
fn cast_towards_a_wall_stops_in_front_of_it() {
    let map = GameMap::from_layout("...#...", 7);
    let result = map.cast(&Vector2(0, 0), &Vector2(6, 0));
    assert_eq!(
        result,
        WalkResult::Unfinished { hit: Vector2(3, 0), safe: Vector2(2, 0) }
    );
    assert!(!map.on_position(&Vector2(2, 0)).is_blocking());
}

#[test]
fn cast_over_open_cells_reaches_the_target() {
    let map = GameMap::from_layout(".......", 7);
    assert_eq!(
        map.cast(&Vector2(0, 0), &Vector2(6, 0)),
        WalkResult::Finished(Vector2(6, 0))
    );
    assert_eq!(
        map.cast(&Vector2(6, 0), &Vector2(1, 0)),
        WalkResult::Finished(Vector2(1, 0))
    );
}

#[test]
fn cast_over_the_spawn_cell_goes_on() {
    let map = GameMap::from_layout(".@.", 3);
    assert_eq!(
        map.cast(&Vector2(0, 0), &Vector2(2, 0)),
        WalkResult::Finished(Vector2(2, 0))
    );
}

#[test]
fn cast_leaving_the_map_stops_at_the_edge() {
    let map = GameMap::from_layout("...\n...\n", 3);
    assert_eq!(
        map.cast(&Vector2(1, 1), &Vector2(5, 1)),
        WalkResult::Unfinished { hit: Vector2(3, 1), safe: Vector2(2, 1) }
    );
}

#[test]
fn cast_next_to_a_wall_keeps_the_origin_safe() {
    let map = GameMap::from_layout(".#.", 3);
    assert_eq!(
        map.cast(&Vector2(0, 0), &Vector2(2, 0)),
        WalkResult::Unfinished { hit: Vector2(1, 0), safe: Vector2(0, 0) }
    );
}

#[test]
fn cast_from_a_blocked_cell_hits_it_at_once() {
    let map = GameMap::from_layout(".#.", 3);
    assert_eq!(
        map.cast(&Vector2(1, 0), &Vector2(2, 0)),
        WalkResult::Unfinished { hit: Vector2(1, 0), safe: Vector2(1, 0) }
    );
}

#[test]
fn cast_to_the_own_cell() {
    let map = GameMap::from_layout(".#.", 3);
    assert_eq!(
        map.cast(&Vector2(0, 0), &Vector2(0, 0)),
        WalkResult::Finished(Vector2(0, 0))
    );
}

#[test]
fn diagonal_cast_stops_at_the_wall_on_the_line() {
    let map = GameMap::from_layout("....\n....\n..#.\n....\n", 4);
    assert_eq!(
        map.cast(&Vector2(0, 0), &Vector2(3, 3)),
        WalkResult::Unfinished { hit: Vector2(2, 2), safe: Vector2(1, 1) }
    );
}

#[test]
fn char_index_counts_one_terminator_per_row() {
    let map = GameMap::from_layout("...\n...\n", 3);
    assert_eq!(map.char_index(&Vector2(0, 0)), Some(0));
    assert_eq!(map.char_index(&Vector2(2, 0)), Some(2));
    assert_eq!(map.char_index(&Vector2(0, 1)), Some(4));
    assert_eq!(map.char_index(&Vector2(3, 1)), Some(7));
    assert_eq!(map.char_index(&Vector2(0, 2)), None);
    assert_eq!(map.char_index(&Vector2(-1, 0)), None);
    assert_eq!(map.char_index(&Vector2(0, -1)), None);
    assert_eq!(map.char_index(&Vector2(i32::MAX, i32::MAX)), None);
    assert_eq!(map.char_index(&Vector2(i32::MIN, i32::MIN)), None);
}

#[test]
fn set_char_writes_one_character() {
    let mut map = GameMap::from_layout("...\n...\n", 3);
    map.set_char(&Vector2(1, 1), 'x');
    assert_eq!(text_of(&map), "...\n.x.\n");
    map.set_char(&Vector2(0, 0), '\u{00e9}');
    assert_eq!(text_of(&map), "\u{00e9}..\n.x.\n");
}

#[test]
fn plot_writes_every_cell_of_the_line() {
    let mut map = GameMap::from_layout("...\n...\n...\n", 3);
    map.plot(&Vector2(0, 0), &Vector2(2, 2), '#');
    assert_eq!(text_of(&map), "#..\n.#.\n..#\n");
    map.plot(&Vector2(2, 0), &Vector2(0, 0), '=');
    assert_eq!(text_of(&map), "===\n.#.\n..#\n");
}

#[test]
fn painting_does_not_change_what_a_cell_is() {
    let mut map = GameMap::from_layout(".....", 5);
    map.plot(&Vector2(2, 0), &Vector2(2, 0), '#');
    assert_eq!(text_of(&map), "..#..");
    assert_eq!(*map.on_position(&Vector2(2, 0)), TileType::Walkable('.'));
    assert_eq!(
        map.cast(&Vector2(0, 0), &Vector2(4, 0)),
        WalkResult::Finished(Vector2(4, 0))
    );
}

#[test]
fn cells_are_the_characters_of_the_lines() {
    let layouts = [
        "",
        "\n",
        "\r\n",
        "\r",
        "a\r",
        "a\r\r\n.",
        "#.@\n.#\n\n@",
        "#.@\r\n.#\r\n\r\n@\r\n",
        "..\n..\n",
        "\n\n..",
        "x\ny\n\n",
        "\u{00e9}#\n.\u{4e2d}@",
    ];
    for layout in layouts {
        let map = GameMap::from_layout(layout, 3);
        let lines: Vec<Vec<char>> = layout.lines().map(|line| line.chars().collect()).collect();
        for y in -1..6 {
            for x in -1..6 {
                let expected = if y >= 0 && x >= 0 {
                    lines
                        .get(y as usize)
                        .and_then(|line| line.get(x as usize))
                        .map(|c| TileType::from_char(*c))
                        .unwrap_or(TileType::OutOfBounds('0'))
                } else {
                    TileType::OutOfBounds('0')
                };
                assert_eq!(*map.on_position(&Vector2(x, y)), expected);
            }
        }
    }
}

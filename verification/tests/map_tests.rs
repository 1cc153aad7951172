use sokoban::entity_store::EntityStore;
use sokoban::map::MapError;
use sokoban::map::load_map;

fn load(text: &str) -> EntityStore {
    load_map(text.as_bytes()).expect("map should load")
}

#[test]
fn single_row_tokens_seed_the_grid() {
    let store = load("P B S");
    assert_eq!(store.width, 3);
    assert_eq!(store.height, 1);
    let p = store.player_position().expect("player exists");
    assert_eq!((p.x, p.y, p.z), (0, 0, 0));
    assert!(store.has_box_at(1, 0));
    assert!(store.has_spot_at(2, 0));
    assert!(!store.has_box_at(2, 0));
    assert!(!store.has_immoveable_at(0, 0));
    assert!(store.moveable_entity_at(0, 0).is_some());
    assert!(store.moveable_entity_at(1, 0).is_some());
    assert!(store.moveable_entity_at(2, 0).is_none());
}

#[test]
fn walls_are_immoveable_and_voids_are_empty() {
    let store = load("W N .");
    assert_eq!(store.width, 3);
    assert_eq!(store.height, 1);
    assert!(store.has_immoveable_at(0, 0));
    assert!(!store.has_immoveable_at(1, 0));
    assert!(!store.has_immoveable_at(2, 0));
    assert!(store.moveable_entity_at(0, 0).is_none());
    // the wall cell also gets a floor tile entity, the void cell gets none
    let mut at_wall_cell: usize = 0;
    let mut at_void_cell: usize = 0;
    for e in 0..store.len() {
        if let Some(p) = store.get(e).position {
            if (p.x, p.y) == (0, 0) {
                at_wall_cell += 1;
            }
            if (p.x, p.y) == (1, 0) {
                at_void_cell += 1;
            }
        }
    }
    assert_eq!(at_wall_cell, 2);
    assert_eq!(at_void_cell, 0);
}

#[test]
fn whitespace_is_trimmed_before_tokenizing() {
    let store = load("\n   W . W\n   W P W   \n");
    assert_eq!(store.height, 2);
    assert_eq!(store.width, 3);
    assert!(store.has_immoveable_at(0, 0));
    assert!(store.has_immoveable_at(2, 1));
    let p = store.player_position().expect("player exists");
    assert_eq!((p.x, p.y), (1, 1));
}

#[test]
fn ragged_rows_take_the_longest_width() {
    let store = load("W W W W\nW P");
    assert_eq!(store.width, 4);
    assert_eq!(store.height, 2);
}

#[test]
fn unknown_token_is_a_fatal_error_with_location() {
    let err: MapError = load_map(b"W . W\nW X P").unwrap_err();
    assert_eq!(err.row, 1);
    assert_eq!(err.col, 1);
    assert_eq!(err.token, b"X".to_vec());
}

#[test]
fn multi_byte_token_is_a_fatal_error() {
    let err: MapError = load_map(b"W WW P").unwrap_err();
    assert_eq!(err.row, 0);
    assert_eq!(err.col, 1);
    assert_eq!(err.token, b"WW".to_vec());
}

#[test]
fn doubled_space_makes_an_empty_token_error() {
    let err: MapError = load_map(b"W  P").unwrap_err();
    assert_eq!(err.row, 0);
    assert_eq!(err.col, 1);
    assert_eq!(err.token, Vec::<u8>::new());
}

#[test]
fn first_bad_token_in_scan_order_is_reported() {
    let err: MapError = load_map(b"W ? W\nW ! W").unwrap_err();
    assert_eq!(err.row, 0);
    assert_eq!(err.col, 1);
    assert_eq!(err.token, b"?".to_vec());
}

#[test]
fn carriage_returns_and_tabs_are_row_whitespace() {
    let store = load("\tW P\r\n\tW .\r\n");
    assert_eq!(store.width, 2);
    assert_eq!(store.height, 2);
    assert!(store.has_immoveable_at(0, 0));
    assert!(store.has_immoveable_at(0, 1));
    let p = store.player_position().expect("player exists");
    assert_eq!((p.x, p.y), (1, 0));
}

#[test]
fn default_level_text_loads() {
    let map = "
    N N W W W W W W
    W W W . . . . W
    W . . . B . . W
    W . . . . . . W
    W . P . . . . W
    W . . S . . . W
    W . . . . . . W
    W W W W W W W W
    ";
    let store = load(map);
    assert_eq!(store.width, 8);
    assert_eq!(store.height, 8);
    let p = store.player_position().expect("player exists");
    assert_eq!((p.x, p.y), (2, 4));
    assert!(store.has_box_at(4, 2));
    assert!(store.has_spot_at(3, 5));
    assert!(!store.has_immoveable_at(0, 0));
    assert!(store.has_immoveable_at(2, 0));
}

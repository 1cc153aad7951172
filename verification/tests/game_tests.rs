use sokoban::components::Position;
use sokoban::entity_store::EntityStore;
use sokoban::game::Game;
use sokoban::map::load_map;
use sokoban::resources::Direction;
use sokoban::resources::Gameplay;
use sokoban::resources::GameplayState;
use sokoban::resources::InputQueue;
use sokoban::resources::Key;

fn game_from(text: &str) -> Game {
    Game::new(load_map(text.as_bytes()).expect("map should load"))
}

fn press(g: &mut Game, d: Direction) -> Option<u32> {
    g.enqueue_input(Key::Directional(d));
    g.advance_tick()
}

#[test]
fn pushing_the_box_onto_the_only_spot_wins_once() {
    // player at (3,2), box at (4,2), the only spot at (5,2)
    let map = "\
W W W W W W W W W
W . . . . . . . W
W . . P B S . . W
W . . . . . . . W
W W W W W W W W W";
    let mut g = game_from(map);
    assert_eq!(g.gameplay.state, GameplayState::Playing);
    let note = press(&mut g, Direction::Right);
    assert_eq!(g.gameplay.state, GameplayState::Won);
    assert_eq!(note, Some(1));
    assert!(g.store.has_box_at(5, 2));
    assert!(g.store.has_spot_at(5, 2));
    // the notification fires exactly once: later ticks return None
    let again = press(&mut g, Direction::Left);
    assert_eq!(again, None);
    assert_eq!(g.gameplay.state, GameplayState::Won);
}

#[test]
fn won_state_is_terminal_under_further_moves() {
    let mut g = game_from("P B S .");
    let note = press(&mut g, Direction::Right);
    assert_eq!(note, Some(1));
    assert_eq!(g.gameplay.state, GameplayState::Won);
    for d in [Direction::Right, Direction::Left, Direction::Up, Direction::Down] {
        let n = press(&mut g, d);
        assert_eq!(n, None);
        assert_eq!(g.gameplay.state, GameplayState::Won);
    }
}

#[test]
fn uncovered_spot_keeps_the_game_playing() {
    let mut g = game_from("P B S S");
    press(&mut g, Direction::Right);
    // one spot covered, one not: no win
    assert!(g.store.has_box_at(2, 0));
    assert_eq!(g.gameplay.state, GameplayState::Playing);
}

#[test]
fn map_with_no_spots_wins_on_the_first_tick() {
    // every box spot (there is none) coincides with a box: the
    // evaluator flips to won at the first tick, with the move count of
    // that tick
    let mut g = game_from("P . .");
    let note = g.advance_tick();
    assert_eq!(g.gameplay.state, GameplayState::Won);
    assert_eq!(note, Some(0));
}

#[test]
fn box_already_on_spot_counts_as_covered() {
    // a box pushed onto the spot, then pushed off again: the win is
    // detected at the covering tick and is never reverted
    let mut g = game_from("P B S .");
    assert_eq!(g.gameplay.state, GameplayState::Playing);
    let note = press(&mut g, Direction::Right);
    assert_eq!(note, Some(1));
    let after = press(&mut g, Direction::Right);
    assert!(g.store.has_box_at(3, 0));
    assert!(!g.store.has_box_at(2, 0));
    assert_eq!(after, None);
    assert_eq!(g.gameplay.state, GameplayState::Won);
}

#[test]
fn move_counter_counts_only_ticks_that_moved_something() {
    let mut g = game_from("W P . W");
    press(&mut g, Direction::Left); // blocked by the wall
    assert_eq!(g.gameplay.moves_count, 0);
    press(&mut g, Direction::Right); // free step
    assert_eq!(g.gameplay.moves_count, 1);
    press(&mut g, Direction::Right); // blocked by the wall
    assert_eq!(g.gameplay.moves_count, 1);
}

#[test]
fn gameplay_defaults_and_labels() {
    let gp = Gameplay::default();
    assert_eq!(gp.state, GameplayState::Playing);
    assert_eq!(gp.moves_count, 0);
    assert_eq!(GameplayState::default(), GameplayState::Playing);
    assert_eq!(GameplayState::Playing.label(), "Playing");
    assert_eq!(GameplayState::Won.label(), "Won!");
    let q = InputQueue::default();
    assert_eq!(q.keys_pressed.len(), 0);
}

#[test]
fn enqueue_only_appends_to_the_queue() {
    let mut g = game_from("P .");
    g.enqueue_input(Key::Other);
    g.enqueue_input(Key::Directional(Direction::Up));
    assert_eq!(g.input_queue.keys_pressed.len(), 2);
    assert_eq!(g.input_queue.keys_pressed[0], Key::Other);
    assert_eq!(g.input_queue.keys_pressed[1], Key::Directional(Direction::Up));
    let p = g.store.player_position().expect("player exists");
    assert_eq!((p.x, p.y), (0, 0));
    assert_eq!(g.gameplay.moves_count, 0);
}

#[test]
fn store_create_attach_and_get() {
    let mut store = EntityStore::new(4, 3);
    assert_eq!(store.len(), 0);
    let e = store.create_entity();
    assert_eq!(e, 0);
    let rec = store.get(e);
    assert!(rec.position.is_none());
    assert!(rec.wall.is_none());
    store.attach_position(e, Position { x: 2, y: 1, z: 0 });
    store.attach_wall(e);
    store.attach_immoveable(e);
    let rec = store.get(e);
    assert_eq!(rec.position, Some(Position { x: 2, y: 1, z: 0 }));
    assert!(rec.wall.is_some());
    assert!(rec.immoveable.is_some());
    assert!(store.has_immoveable_at(2, 1));
    assert!(store.get_renderable(e).is_none());
    let f = store.create_entity();
    assert_eq!(f, 1);
    store.attach_position(f, Position { x: 0, y: 0, z: 0 });
    store.attach_player(f);
    store.attach_moveable(f);
    assert_eq!(store.moveable_entity_at(0, 0), Some(f));
    let b = store.create_entity();
    store.attach_position(b, Position { x: 1, y: 0, z: 0 });
    store.attach_box(b);
    store.attach_moveable(b);
    assert!(store.has_box_at(1, 0));
    let s = store.create_entity();
    store.attach_position(s, Position { x: 3, y: 0, z: 0 });
    store.attach_box_spot(s);
    assert!(store.has_spot_at(3, 0));
}

#[test]
fn renderables_can_be_attached_for_the_presentation_layer() {
    let mut store = EntityStore::new(2, 1);
    let e = store.create_entity();
    store.attach_position(e, Position { x: 0, y: 0, z: 0 });
    store.attach_renderable(e, sokoban::components::Renderable {
        path: String::from("images/floor.png"),
    });
    let r = store.get_renderable(e).as_ref().expect("renderable attached");
    assert_eq!(r.path, "images/floor.png");
}

use sokoban::game::Game;
use sokoban::map::load_map;
use sokoban::resources::Direction;
use sokoban::resources::GameplayState;
use sokoban::resources::Key;

fn game_from(text: &str) -> Game {
    Game::new(load_map(text.as_bytes()).expect("map should load"))
}

fn player_cell(g: &Game) -> (u8, u8) {
    let p = g.store.player_position().expect("player exists");
    (p.x, p.y)
}

fn press(g: &mut Game, d: Direction) -> Option<u32> {
    g.enqueue_input(Key::Directional(d));
    g.advance_tick()
}

/// A 9 x 8 all-floor grid with extra tokens placed on it.
fn open_grid(cells: &[(u8, u8, u8)]) -> String {
    let mut rows: Vec<Vec<u8>> = vec![vec![b'.'; 9]; 8];
    for &(x, y, c) in cells {
        rows[y as usize][x as usize] = c;
    }
    let mut text = String::new();
    for row in rows {
        for (i, c) in row.iter().enumerate() {
            if i > 0 {
                text.push(' ');
            }
            text.push(*c as char);
        }
        text.push('\n');
    }
    text
}

#[test]
fn wall_blocks_player_twice() {
    // a row `W P W`: the wall immediately blocks, on both ticks
    let mut g = game_from("W P W");
    assert_eq!(player_cell(&g), (1, 0));
    press(&mut g, Direction::Right);
    assert_eq!(player_cell(&g), (1, 0));
    press(&mut g, Direction::Right);
    assert_eq!(player_cell(&g), (1, 0));
    assert_eq!(g.gameplay.moves_count, 0);
    assert!(g.store.has_immoveable_at(0, 0));
    assert!(g.store.has_immoveable_at(2, 0));
}

#[test]
fn free_step_moves_only_the_player() {
    // player at (2,4), floor at (3,4)
    let mut g = game_from(&open_grid(&[(2, 4, b'P')]));
    assert_eq!(player_cell(&g), (2, 4));
    press(&mut g, Direction::Right);
    assert_eq!(player_cell(&g), (3, 4));
    // one tick on which something moved: the counter grew once
    assert_eq!(g.gameplay.moves_count, 1);
}

#[test]
fn chain_push_moves_player_and_box() {
    // player at (3,2), box at (4,2), gap at (5,2)
    let mut g = game_from(&open_grid(&[(3, 2, b'P'), (4, 2, b'B')]));
    press(&mut g, Direction::Right);
    assert_eq!(player_cell(&g), (4, 2));
    assert!(g.store.has_box_at(5, 2));
    assert!(!g.store.has_box_at(4, 2));
}

#[test]
fn wall_behind_box_blocks_the_whole_chain() {
    // same shape, but a wall at (5,2)
    let mut g = game_from(&open_grid(&[(3, 2, b'P'), (4, 2, b'B'), (5, 2, b'W')]));
    press(&mut g, Direction::Right);
    assert_eq!(player_cell(&g), (3, 2));
    assert!(g.store.has_box_at(4, 2));
    assert_eq!(g.gameplay.moves_count, 0);
}

#[test]
fn two_box_chain_pushes_as_a_unit() {
    let mut g = game_from(&open_grid(&[(3, 2, b'P'), (4, 2, b'B'), (5, 2, b'B')]));
    press(&mut g, Direction::Right);
    assert_eq!(player_cell(&g), (4, 2));
    assert!(g.store.has_box_at(5, 2));
    assert!(g.store.has_box_at(6, 2));
    assert!(!g.store.has_box_at(4, 2));
}

#[test]
fn all_four_directions_step() {
    let mut g = game_from(&open_grid(&[(4, 4, b'P')]));
    press(&mut g, Direction::Up);
    assert_eq!(player_cell(&g), (4, 3));
    press(&mut g, Direction::Left);
    assert_eq!(player_cell(&g), (3, 3));
    press(&mut g, Direction::Down);
    assert_eq!(player_cell(&g), (3, 4));
    press(&mut g, Direction::Right);
    assert_eq!(player_cell(&g), (4, 4));
    assert_eq!(g.gameplay.moves_count, 4);
}

#[test]
fn unwalled_grid_edge_rejects_the_move() {
    // player on the boundary of a map with no walls: the move is
    // rejected so the position cannot leave the grid
    let mut g = game_from("P .");
    assert_eq!(player_cell(&g), (0, 0));
    press(&mut g, Direction::Left);
    assert_eq!(player_cell(&g), (0, 0));
    press(&mut g, Direction::Up);
    assert_eq!(player_cell(&g), (0, 0));
    assert_eq!(g.gameplay.moves_count, 0);
    press(&mut g, Direction::Right);
    assert_eq!(player_cell(&g), (1, 0));
    press(&mut g, Direction::Right);
    assert_eq!(player_cell(&g), (1, 0));
}

#[test]
fn chain_filling_the_row_to_the_edge_is_rejected() {
    let mut g = game_from("P B B");
    press(&mut g, Direction::Right);
    assert_eq!(player_cell(&g), (0, 0));
    assert!(g.store.has_box_at(1, 0));
    assert!(g.store.has_box_at(2, 0));
}

#[test]
fn newest_key_wins_and_older_pending_keys_are_discarded() {
    let mut g = game_from(&open_grid(&[(4, 4, b'P')]));
    g.enqueue_input(Key::Directional(Direction::Right));
    g.enqueue_input(Key::Directional(Direction::Up));
    g.advance_tick();
    // only the newest press (Up) was applied, the older one is gone
    assert_eq!(player_cell(&g), (4, 3));
    assert_eq!(g.input_queue.keys_pressed.len(), 0);
    g.advance_tick();
    assert_eq!(player_cell(&g), (4, 3));
    assert_eq!(g.gameplay.moves_count, 1);
}

#[test]
fn non_directional_key_is_consumed_without_effect() {
    // the uncovered spot keeps the game in the `Playing` state
    let mut g = game_from(&open_grid(&[(4, 4, b'P'), (7, 7, b'S')]));
    g.enqueue_input(Key::Other);
    g.advance_tick();
    assert_eq!(player_cell(&g), (4, 4));
    assert_eq!(g.gameplay.moves_count, 0);
    assert_eq!(g.input_queue.keys_pressed.len(), 0);
    assert_eq!(g.gameplay.state, GameplayState::Playing);
}

#[test]
fn tick_without_input_changes_nothing() {
    let mut g = game_from(&open_grid(&[(4, 4, b'P')]));
    g.advance_tick();
    assert_eq!(player_cell(&g), (4, 4));
    assert_eq!(g.gameplay.moves_count, 0);
}

#[test]
fn vertical_chain_push_moves_down() {
    let mut g = game_from(&open_grid(&[(4, 2, b'P'), (4, 3, b'B'), (7, 7, b'S')]));
    press(&mut g, Direction::Down);
    assert_eq!(player_cell(&g), (4, 3));
    assert!(g.store.has_box_at(4, 4));
    assert!(!g.store.has_box_at(4, 3));
    assert_eq!(g.gameplay.moves_count, 1);
}

#[test]
fn walls_never_move_over_many_ticks() {
    let mut g = game_from("W P B .");
    for d in [Direction::Right, Direction::Right, Direction::Left, Direction::Up, Direction::Down]
    {
        press(&mut g, d);
        assert!(g.store.has_immoveable_at(0, 0));
        let mut walls: usize = 0;
        for e in 0..g.store.len() {
            let rec = g.store.get(e);
            if rec.wall.is_some() {
                walls += 1;
                let p = rec.position.expect("walls are positioned");
                assert_eq!((p.x, p.y), (0, 0));
            }
        }
        assert_eq!(walls, 1);
    }
}

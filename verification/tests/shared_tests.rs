use mazeio::cell::{cell_from_code, CellType};
use mazeio::direction::{direction_from_index, random_direction, Direction};
use mazeio::maze::Maze;
use mazeio::movement::{move_in_dir, Position};
use mazeio::player::Player;

#[test]
fn it_works() {
    let result = 2 + 2;
    assert_eq!(result, 4);
}

#[test]
fn flip_maps_each_direction() {
    assert_eq!(Direction::Left.flip(), Direction::Right);
    assert_eq!(Direction::Right.flip(), Direction::Left);
    assert_eq!(Direction::Up.flip(), Direction::Down);
    assert_eq!(Direction::Down.flip(), Direction::Up);
}

#[test]
fn flip_is_an_involution() {
    let dirs = vec![Direction::Left, Direction::Right, Direction::Up, Direction::Down];
    for d in dirs {
        assert_eq!(d.flip().flip(), d);
    }
}

#[test]
fn direction_from_index_covers_all_four() {
    assert_eq!(direction_from_index(0), Direction::Left);
    assert_eq!(direction_from_index(1), Direction::Right);
    assert_eq!(direction_from_index(2), Direction::Up);
    assert_eq!(direction_from_index(3), Direction::Down);
}

#[test]
fn random_direction_is_one_of_four() {
    let d = random_direction();
    assert!(matches!(
        d,
        Direction::Left | Direction::Right | Direction::Up | Direction::Down
    ));
}

#[test]
fn cell_to_char_draws_block_and_blank() {
    assert_eq!(CellType::Wall.to_char(), '\u{2588}');
    assert_eq!(CellType::Open.to_char(), ' ');
}

#[test]
fn cell_codes_round_trip() {
    assert_eq!(CellType::Open.to_code(), 0);
    assert_eq!(CellType::Wall.to_code(), 1);
    assert_eq!(cell_from_code(0), CellType::Open);
    assert_eq!(cell_from_code(1), CellType::Wall);
    assert_eq!(cell_from_code(CellType::Open.to_code()), CellType::Open);
    assert_eq!(cell_from_code(CellType::Wall.to_code()), CellType::Wall);
}

#[test]
fn unknown_cell_codes_decode_to_wall() {
    assert_eq!(cell_from_code(42), CellType::Wall);
    assert_eq!(cell_from_code(-1), CellType::Wall);
}

#[test]
fn move_in_dir_steps_each_axis() {
    let mut x: usize = 5;
    let mut y: usize = 5;
    move_in_dir(&mut x, &mut y, 0, 0, 10, 10, &Direction::Left, 2);
    assert_eq!((x, y), (3, 5));
    move_in_dir(&mut x, &mut y, 0, 0, 10, 10, &Direction::Right, 4);
    assert_eq!((x, y), (7, 5));
    move_in_dir(&mut x, &mut y, 0, 0, 10, 10, &Direction::Up, 1);
    assert_eq!((x, y), (7, 4));
    move_in_dir(&mut x, &mut y, 0, 0, 10, 10, &Direction::Down, 3);
    assert_eq!((x, y), (7, 7));
}

#[test]
fn move_in_dir_clamps_at_the_box() {
    let mut x: usize = 9;
    let mut y: usize = 2;
    move_in_dir(&mut x, &mut y, 0, 0, 10, 10, &Direction::Right, 5);
    assert_eq!(x, 10);
    move_in_dir(&mut x, &mut y, 0, 0, 10, 10, &Direction::Up, 9);
    assert_eq!(y, 0);
    let mut x2: usize = 1;
    let mut y2: usize = 1;
    move_in_dir(&mut x2, &mut y2, 2, 2, 8, 8, &Direction::Left, 4);
    assert_eq!(x2, 2);
    move_in_dir(&mut x2, &mut y2, 2, 2, 8, 8, &Direction::Down, 100);
    assert_eq!(y2, 8);
    // Moving away from an upper bound needs no headroom, even at the top
    // of the coordinate range.
    let mut x3: usize = usize::MAX;
    let mut y3: usize = usize::MAX;
    move_in_dir(&mut x3, &mut y3, 0, 0, usize::MAX, usize::MAX, &Direction::Left, 2);
    assert_eq!(x3, usize::MAX - 2);
    move_in_dir(&mut x3, &mut y3, 0, 0, usize::MAX, usize::MAX, &Direction::Up, 1);
    assert_eq!(y3, usize::MAX - 1);
}

#[test]
fn position_move_matches_grid_rule() {
    let mut p = Position::new(3, 3);
    p.move_in_dir(0, 0, 6, 6, Direction::Right, 2);
    assert_eq!(p, Position::new(5, 3));
    p.move_in_dir(0, 0, 6, 6, Direction::Right, 2);
    assert_eq!(p, Position::new(6, 3));
    p.move_in_dir(0, 0, 6, 6, Direction::Up, 5);
    assert_eq!(p, Position::new(6, 0));
}

#[test]
fn new_player_starts_alive_at_start_room() {
    let p = Player::new("Alice".to_string());
    assert_eq!(p.name, "Alice");
    assert_eq!(p.pos, Position::new(1, 1));
    assert!(p.alive);
    assert_eq!(p.id.len(), 36);
}

#[test]
fn player_ids_are_distinct() {
    let p1 = Player::new("a".to_string());
    let p2 = Player::new("b".to_string());
    assert_ne!(p1.id, p2.id);
}

fn corridor_maze() -> Maze {
    // A 5x3 board: only (1,1) and (2,1) are open.
    let mut m = Maze { width: 5, height: 3, cells: vec![CellType::Wall; 15] };
    m.set(1, 1, CellType::Open);
    m.set(2, 1, CellType::Open);
    m
}

#[test]
fn move_into_wall_is_rejected() {
    let m = corridor_maze();
    let mut p = Player::new("a".to_string());
    let moved = p.move_if_valid(&m, Direction::Up);
    assert!(!moved);
    assert_eq!(p.pos, Position::new(1, 1));
    let moved_down = p.move_if_valid(&m, Direction::Down);
    assert!(!moved_down);
    assert_eq!(p.pos, Position::new(1, 1));
}

#[test]
fn move_into_open_cell_commits() {
    let m = corridor_maze();
    let mut p = Player::new("a".to_string());
    assert!(p.move_if_valid(&m, Direction::Right));
    assert_eq!(p.pos, Position::new(2, 1));
    // (3, 1) is a wall: the second step is refused, nothing changes.
    assert!(!p.move_if_valid(&m, Direction::Right));
    assert_eq!(p.pos, Position::new(2, 1));
}

#[test]
fn move_saturates_at_the_outer_border() {
    // A fully open 3x3 board: walking off the edge clamps to the border
    // cell, which here is open, so the (unchanged) move still succeeds.
    let mut m = Maze { width: 3, height: 3, cells: vec![CellType::Wall; 9] };
    for y in 0..3 {
        for x in 0..3 {
            m.set(x, y, CellType::Open);
        }
    }
    let mut p = Player::new("a".to_string());
    assert!(p.move_if_valid(&m, Direction::Left));
    assert_eq!(p.pos, Position::new(0, 1));
    assert!(p.move_if_valid(&m, Direction::Left));
    assert_eq!(p.pos, Position::new(0, 1));
}

#[test]
fn maze_get_out_of_range_reads_wall() {
    let m = corridor_maze();
    assert_eq!(m.get(5, 0), CellType::Wall);
    assert_eq!(m.get(0, 3), CellType::Wall);
    assert_eq!(m.get(100, 100), CellType::Wall);
    assert_eq!(m.get(1, 1), CellType::Open);
}

#[test]
fn maze_set_writes_exactly_one_cell() {
    let mut m = corridor_maze();
    m.set(3, 1, CellType::Open);
    assert_eq!(m.get(3, 1), CellType::Open);
    assert_eq!(m.get(3, 0), CellType::Wall);
    assert_eq!(m.get(3, 2), CellType::Wall);
    assert_eq!(m.get(4, 1), CellType::Wall);
    assert_eq!(m.get(1, 1), CellType::Open);
}

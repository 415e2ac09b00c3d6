use mazeio::cell::CellType;
use mazeio::maze::Maze;
use mazeio::proto::ProtoMaze;

/// Flood-fills from (1, 1) over open cells and checks that every open
/// cell was reached.
fn assert_all_open_reachable(m: &Maze) {
    let w = m.width;
    let h = m.height;
    let mut seen = vec![false; w * h];
    assert_eq!(m.get(1, 1), CellType::Open);
    seen[w + 1] = true;
    let mut stack = vec![(1usize, 1usize)];
    while let Some((x, y)) = stack.pop() {
        let mut neighbors: Vec<(usize, usize)> = Vec::new();
        if x > 0 {
            neighbors.push((x - 1, y));
        }
        if x + 1 < w {
            neighbors.push((x + 1, y));
        }
        if y > 0 {
            neighbors.push((x, y - 1));
        }
        if y + 1 < h {
            neighbors.push((x, y + 1));
        }
        for (nx, ny) in neighbors {
            if m.get(nx, ny) == CellType::Open && !seen[ny * w + nx] {
                seen[ny * w + nx] = true;
                stack.push((nx, ny));
            }
        }
    }
    for y in 0..h {
        for x in 0..w {
            if m.get(x, y) == CellType::Open {
                assert!(seen[y * w + x], "open cell ({}, {}) unreachable from (1, 1)", x, y);
            }
        }
    }
}

fn count_open_cells(m: &Maze) -> usize {
    let mut open = 0;
    for y in 0..m.height {
        for x in 0..m.width {
            if m.get(x, y) == CellType::Open {
                open += 1;
            }
        }
    }
    open
}

fn assert_border_is_wall(m: &Maze) {
    for x in 0..m.width {
        assert_eq!(m.get(x, 0), CellType::Wall);
        assert_eq!(m.get(x, m.height - 1), CellType::Wall);
    }
    for y in 0..m.height {
        assert_eq!(m.get(0, y), CellType::Wall);
        assert_eq!(m.get(m.width - 1, y), CellType::Wall);
    }
}

fn count_open_rooms(m: &Maze) -> usize {
    let mut rooms = 0;
    let mut y = 1;
    while y + 1 < m.height {
        let mut x = 1;
        while x + 1 < m.width {
            if m.get(x, y) == CellType::Open {
                rooms += 1;
            }
            x += 2;
        }
        y += 2;
    }
    rooms
}

#[test]
fn generate_two_by_two_scenario() {
    let m = Maze::new(2, 2);
    assert_eq!(m.width, 5);
    assert_eq!(m.height, 5);
    assert_eq!(count_open_rooms(&m), 4);
    // The 4 rooms plus exactly 3 connecting corridor cells are open.
    assert_eq!(count_open_cells(&m), 7);
    assert_all_open_reachable(&m);
}

#[test]
fn generated_dimensions_are_odd() {
    for (ox, oy) in [(1usize, 1usize), (2, 2), (3, 5), (8, 4), (16, 32)] {
        let m = Maze::new(ox, oy);
        assert_eq!(m.width, 2 * ox + 1);
        assert_eq!(m.height, 2 * oy + 1);
        assert_eq!(m.width % 2, 1);
        assert_eq!(m.height % 2, 1);
        assert_eq!(m.cells.len(), m.width * m.height);
    }
}

#[test]
fn generated_maze_is_connected() {
    for (ox, oy) in [(1usize, 1usize), (2, 3), (5, 4), (10, 7)] {
        let m = Maze::new(ox, oy);
        assert_eq!(m.get(1, 1), CellType::Open);
        assert_eq!(count_open_rooms(&m), ox * oy);
        assert_eq!(count_open_cells(&m), 2 * ox * oy - 1);
        assert_all_open_reachable(&m);
    }
}

#[test]
fn generated_border_is_all_wall() {
    for (ox, oy) in [(1usize, 1usize), (2, 2), (4, 3), (9, 6)] {
        let m = Maze::new(ox, oy);
        assert_border_is_wall(&m);
    }
}

#[test]
fn generated_corridors_join_two_open_rooms() {
    let m = Maze::new(6, 5);
    for y in 0..m.height {
        for x in 0..m.width {
            if m.get(x, y) == CellType::Open {
                if x % 2 == 0 {
                    assert_eq!(m.get(x - 1, y), CellType::Open);
                    assert_eq!(m.get(x + 1, y), CellType::Open);
                }
                if y % 2 == 0 {
                    assert_eq!(m.get(x, y - 1), CellType::Open);
                    assert_eq!(m.get(x, y + 1), CellType::Open);
                }
            }
        }
    }
}

#[test]
fn generated_open_cells_avoid_the_even_lattice() {
    let m = Maze::new(4, 3);
    for y in 0..m.height {
        for x in 0..m.width {
            if m.get(x, y) == CellType::Open {
                assert!(x % 2 == 1 || y % 2 == 1);
            }
        }
    }
}

#[test]
fn render_draws_rows_with_newlines() {
    let mut m = Maze { width: 3, height: 3, cells: vec![CellType::Wall; 9] };
    m.set(1, 1, CellType::Open);
    let s = m.render();
    assert_eq!(s, "\u{2588}\u{2588}\u{2588}\n\u{2588} \u{2588}\n\u{2588}\u{2588}\u{2588}\n");
}

#[test]
fn proto_round_trip_preserves_cells() {
    let m = Maze::new(3, 2);
    let p = m.to_proto();
    assert_eq!(p.width as usize, m.width);
    assert_eq!(p.height as usize, m.height);
    let back = p.to_maze();
    assert_eq!(back.width, m.width);
    assert_eq!(back.height, m.height);
    assert_eq!(back.cells, m.cells);
}

#[test]
fn proto_get_decodes_and_defaults_to_wall() {
    let p = ProtoMaze { width: 2, height: 1, cells: vec![0, 42] };
    assert_eq!(p.get(0, 0), CellType::Open);
    assert_eq!(p.get(1, 0), CellType::Wall);
    assert_eq!(p.get(5, 0), CellType::Wall);
    assert_eq!(p.get(0, 9), CellType::Wall);
}

#[test]
fn proto_set_encodes_cells() {
    let mut p = ProtoMaze { width: 2, height: 1, cells: vec![1, 1] };
    p.set(0, 0, CellType::Open);
    assert_eq!(p.cells[0], 0);
    assert_eq!(p.cells[1], 1);
    assert_eq!(p.get(0, 0), CellType::Open);
}

#[test]
fn proto_new_generates_a_connected_board() {
    let p = ProtoMaze::new(2, 2);
    assert_eq!(p.width, 5);
    assert_eq!(p.height, 5);
    let m = p.to_maze();
    assert_eq!(count_open_rooms(&m), 4);
    assert_eq!(count_open_cells(&m), 7);
    assert_border_is_wall(&m);
    assert_all_open_reachable(&m);
}

use maze_game::maze::generate::shuffle_dirs;
use maze_game::maze::layout::is_perimeter;
use maze_game::maze::{
    bfs_distances, center_cell, exit_farthest_on_perimeter, is_fully_connected, is_reachable,
    shortest_path_len, Maze, Walls,
};

/// A 3 × 1 corridor: (0,0) open to the east, (1,0) open both ways, (2,0) open to the west.
fn corridor() -> Maze {
    Maze::new(3, 1, vec![13, 5, 7])
}

#[test]
fn generated_maze_fully_connected() {
    for make in [Maze::generate, Maze::generate_depth_first] {
        for w in [1usize, 2, 5, 15, 31] {
            for h in [1usize, 2, 5, 12, 21] {
                let m = make(w, h);
                assert!(is_fully_connected(&m), "{}×{}", w, h);
            }
        }
    }
}

#[test]
fn start_to_exit_reachable() {
    let m = Maze::generate(21, 15);
    let s = center_cell(21, 15);
    let e = exit_farthest_on_perimeter(&m, s);
    assert!(is_reachable(&m, s, e));
}

#[test]
fn new_maze_keeps_its_cells() {
    let m = corridor();
    assert_eq!(m.width(), 3);
    assert_eq!(m.height(), 1);
    assert_eq!(m.cells(), &[13u8, 5, 7][..]);
    assert_eq!(m.walls(1, 0), Walls(5));
    assert_eq!(m.walls(2, 0).0 & Walls::WEST, 0);
    assert_ne!(m.walls(2, 0).0 & Walls::EAST, 0);
}

#[test]
fn corridor_distances() {
    let m = corridor();
    assert_eq!(bfs_distances(&m, (0, 0)), vec![0, 1, 2]);
    assert_eq!(bfs_distances(&m, (1, 0)), vec![1, 0, 1]);
    assert_eq!(shortest_path_len(&m, (0, 0), (2, 0)), Some(2));
    assert_eq!(shortest_path_len(&m, (2, 0), (2, 0)), Some(0));
    assert!(is_reachable(&m, (2, 0), (0, 0)));
}

#[test]
fn walled_cells_are_unreachable() {
    let m = Maze::new(2, 1, vec![Walls::ALL, Walls::ALL]);
    assert_eq!(bfs_distances(&m, (0, 0)), vec![0, usize::MAX]);
    assert_eq!(shortest_path_len(&m, (0, 0), (1, 0)), None);
    assert!(!is_reachable(&m, (0, 0), (1, 0)));
    assert!(!is_fully_connected(&m));
}

#[test]
fn out_of_grid_start_reaches_nothing() {
    let m = corridor();
    assert_eq!(shortest_path_len(&m, (5, 0), (0, 0)), None);
    assert_eq!(bfs_distances(&m, (3, 0)), vec![usize::MAX; 3]);
}

#[test]
fn bfs_agrees_with_shortest_path_on_generated_maze() {
    let m = Maze::generate_depth_first(9, 7);
    let d = bfs_distances(&m, (4, 3));
    for y in 0..7usize {
        for x in 0..9usize {
            assert_eq!(shortest_path_len(&m, (4, 3), (x, y)), Some(d[y * 9 + x]));
        }
    }
}

#[test]
fn centre_cells() {
    assert_eq!(center_cell(21, 15), (10, 7));
    assert_eq!(center_cell(31, 21), (15, 10));
    assert_eq!(center_cell(4, 4), (1, 1));
    assert_eq!(center_cell(1, 1), (0, 0));
    assert_eq!(center_cell(0, 0), (0, 0));
}

#[test]
fn perimeter_cells() {
    assert!(is_perimeter(5, 4, 0, 2));
    assert!(is_perimeter(5, 4, 4, 2));
    assert!(is_perimeter(5, 4, 2, 3));
    assert!(!is_perimeter(5, 4, 2, 2));
}

#[test]
fn exit_is_farthest_perimeter_cell() {
    let m = corridor();
    assert_eq!(exit_farthest_on_perimeter(&m, (0, 0)), (2, 0));
    assert_eq!(exit_farthest_on_perimeter(&m, (2, 0)), (0, 0));
    // Equally far cells: the first in row-major order wins.
    assert_eq!(exit_farthest_on_perimeter(&m, (1, 0)), (0, 0));
}

#[test]
fn exit_of_single_cell_maze_is_the_cell() {
    let m = Maze::generate(1, 1);
    assert_eq!(exit_farthest_on_perimeter(&m, (0, 0)), (0, 0));
}

#[test]
fn exit_when_nothing_else_is_reachable() {
    let m = Maze::new(3, 2, vec![Walls::ALL; 6]);
    assert_eq!(exit_farthest_on_perimeter(&m, (1, 0)), (0, 0));
    assert_eq!(exit_farthest_on_perimeter(&m, (0, 0)), (2, 1));
    let two = Maze::new(2, 1, vec![15, 15]);
    assert_eq!(exit_farthest_on_perimeter(&two, (1, 0)), (0, 0));
    assert_eq!(exit_farthest_on_perimeter(&two, (0, 0)), (1, 0));
}

#[test]
fn shortest_paths_are_symmetric() {
    let m = Maze::generate(8, 6);
    for (a, b) in [((0, 0), (7, 5)), ((3, 2), (0, 5)), ((7, 0), (7, 0))] {
        assert_eq!(shortest_path_len(&m, a, b), shortest_path_len(&m, b, a));
    }
}

#[test]
fn rebuilding_from_cells_gives_the_same_maze() {
    let m = Maze::generate_depth_first(7, 4);
    let r = Maze::new(m.width(), m.height(), m.cells().to_vec());
    assert_eq!(r.cells(), m.cells());
    for y in 0..4usize {
        for x in 0..7usize {
            assert_eq!(r.walls(x, y), m.walls(x, y));
        }
    }
}

#[test]
fn generated_mazes_have_closed_borders_and_two_way_passages() {
    let m = Maze::generate(6, 5);
    for y in 0..5usize {
        for x in 0..6usize {
            let b = m.walls(x, y).0;
            assert!(b <= Walls::ALL);
            if y == 0 {
                assert_ne!(b & Walls::NORTH, 0);
            }
            if x == 5 {
                assert_ne!(b & Walls::EAST, 0);
            } else {
                let open_e = b & Walls::EAST == 0;
                let open_w = m.walls(x + 1, y).0 & Walls::WEST == 0;
                assert_eq!(open_e, open_w);
            }
            if y == 4 {
                assert_ne!(b & Walls::SOUTH, 0);
            }
            if x == 0 {
                assert_ne!(b & Walls::WEST, 0);
            }
        }
    }
}

#[test]
fn shuffled_directions_are_a_permutation() {
    for _ in 0..20 {
        let mut d = shuffle_dirs();
        d.sort();
        assert_eq!(d, [0, 1, 2, 3]);
    }
}

#[test]
fn far_exit_on_generated_maze_is_reachable_and_far() {
    let m = Maze::generate(15, 11);
    let s = center_cell(15, 11);
    let e = exit_farthest_on_perimeter(&m, s);
    assert!(is_perimeter(15, 11, e.0, e.1));
    assert_ne!(e, s);
    let d = bfs_distances(&m, s);
    let de = d[e.1 * 15 + e.0];
    for y in 0..11usize {
        for x in 0..15usize {
            if is_perimeter(15, 11, x, y) && (x, y) != s {
                assert!(d[y * 15 + x] <= de);
            }
        }
    }
}

/// Open passages, each counted once at its west or north end.
fn passages(m: &Maze) -> usize {
    let mut n = 0;
    for y in 0..m.height() {
        for x in 0..m.width() {
            let b = m.walls(x, y).0;
            if x + 1 < m.width() && b & Walls::EAST == 0 {
                n += 1;
            }
            if y + 1 < m.height() && b & Walls::SOUTH == 0 {
                n += 1;
            }
        }
    }
    n
}

#[test]
fn generated_mazes_are_spanning_trees() {
    for make in [Maze::generate, Maze::generate_depth_first] {
        for (w, h) in [(1usize, 1usize), (1, 7), (6, 1), (5, 4), (31, 21)] {
            let m = make(w, h);
            assert_eq!(passages(&m) + 1, w * h, "{}×{}", w, h);
        }
    }
}

use edgebot::grid::Grid;
use edgebot::task::{
    astar_search, heuristic, yolo_output_layout, yolo_value_index, AStar, PathfindingQuery, TaskError, YoloLayout,
};

fn open_grid(width: usize, height: usize) -> Grid {
    Grid { width, height, cells: vec![vec![true; width]; height] }
}

fn is_walk(grid: &Grid, path: &[(usize, usize)]) -> bool {
    path.iter().all(|&(r, c)| grid.cells[r][c])
        && path.windows(2).all(|w| {
            let (a, b) = (w[0], w[1]);
            a.0.abs_diff(b.0) + a.1.abs_diff(b.1) == 1
        })
}

#[test]
fn test_astar_simple_path() {
    let grid = Grid {
        width: 3,
        height: 3,
        cells: vec![vec![true, true, true], vec![true, true, true], vec![true, true, true]],
    };
    let query = PathfindingQuery { grid, start: (0, 0), goal: (2, 2) };
    let astar = AStar::new();
    let result = astar.run(query).unwrap();

    assert_eq!(result.path.len(), 5);
    assert_eq!(result.path[0], (0, 0));
    assert_eq!(result.path[4], (2, 2));
    assert_eq!(result.cost, 4);
}

#[test]
fn test_astar_with_obstacle() {
    let grid = Grid {
        width: 3,
        height: 3,
        cells: vec![vec![true, false, true], vec![true, true, true], vec![true, false, true]],
    };
    let query = PathfindingQuery { grid, start: (0, 0), goal: (0, 2) };
    let astar = AStar::new();
    let result = astar.run(query).unwrap();

    assert!(result.path.len() > 0);
    assert_eq!(result.path[0], (0, 0));
    assert_eq!(result.path[result.path.len() - 1], (0, 2));
}

#[test]
fn test_astar_unreachable() {
    let grid = Grid {
        width: 3,
        height: 3,
        cells: vec![vec![true, false, false], vec![false, false, false], vec![false, false, true]],
    };
    let query = PathfindingQuery { grid, start: (0, 0), goal: (2, 2) };
    let astar = AStar::new();
    let result = astar.run(query);
    assert!(matches!(result, Err(TaskError::Pathfinding(_))));
}

#[test]
fn test_astar_invalid_start_goal() {
    let grid = Grid { width: 2, height: 2, cells: vec![vec![true, true], vec![true, true]] };
    let query = PathfindingQuery { grid, start: (2, 0), goal: (0, 0) };
    let astar = AStar::new();
    let result = astar.run(query);
    assert!(matches!(result, Err(TaskError::InvalidInput(_))));

    let grid = Grid { width: 2, height: 2, cells: vec![vec![true, true], vec![true, true]] };
    let query2 = PathfindingQuery { grid, start: (0, 0), goal: (0, 0) };
    let result2 = astar.run(query2);
    assert!(result2.is_ok());
    assert_eq!(result2.unwrap().path.len(), 1);
}

#[test]
fn astar_detour_has_shortest_cost() {
    let grid = Grid {
        width: 3,
        height: 3,
        cells: vec![vec![true, false, true], vec![true, true, true], vec![true, false, true]],
    };
    let cells = grid.cells.clone();
    let result = AStar::new().run(PathfindingQuery { grid, start: (0, 0), goal: (0, 2) }).unwrap();
    assert_eq!(result.cost, 4);
    assert_eq!(result.path.len(), 5);
    let check = Grid { width: 3, height: 3, cells };
    assert!(is_walk(&check, &result.path));
}

#[test]
fn astar_maze_shortest_path() {
    // A corridor that winds around two walls.
    let rows = ["..#....", ".##.##.", "....#..", "##.##.#", "......."];
    let cells: Vec<Vec<bool>> = rows.iter().map(|r| r.chars().map(|c| c == '.').collect()).collect();
    let grid = Grid { width: 7, height: 5, cells: cells.clone() };
    let path = astar_search(&PathfindingQuery { grid, start: (0, 0), goal: (0, 6) }).unwrap();
    let check = Grid { width: 7, height: 5, cells };
    assert!(is_walk(&check, &path));
    assert_eq!(path[0], (0, 0));
    assert_eq!(*path.last().unwrap(), (0, 6));
    assert_eq!(path.len() - 1, 10);
}

#[test]
fn astar_run_rejects_blocked_endpoints() {
    let mut grid = open_grid(2, 2);
    grid.cells[0][0] = false;
    match AStar::new().run(PathfindingQuery { grid, start: (0, 0), goal: (1, 1) }) {
        Err(TaskError::InvalidInput(m)) => assert_eq!(m, "Start cell is not walkable"),
        _ => panic!("expected InvalidInput"),
    }
    let mut grid = open_grid(2, 2);
    grid.cells[1][1] = false;
    match AStar::new().run(PathfindingQuery { grid, start: (0, 0), goal: (1, 1) }) {
        Err(TaskError::InvalidInput(m)) => assert_eq!(m, "Goal cell is not walkable"),
        _ => panic!("expected InvalidInput"),
    }
    let grid = open_grid(2, 2);
    assert!(matches!(
        AStar::new().run(PathfindingQuery { grid, start: (0, 0), goal: (0, 5) }),
        Err(TaskError::InvalidInput(_))
    ));
}

#[test]
fn heuristic_is_manhattan() {
    assert_eq!(heuristic((0, 0), (2, 3)), 5);
    assert_eq!(heuristic((4, 1), (1, 6)), 8);
    assert_eq!(heuristic((3, 3), (3, 3)), 0);
}

#[test]
fn astar_batch_size() {
    let mut a = AStar::default();
    assert_eq!(a.batch_size(), 1);
    a.set_batch_size(8);
    assert_eq!(a.batch_size(), 8);
    a.set_batch_size(0);
    assert_eq!(a.batch_size(), 1);
}

#[test]
fn yolo_layout_checks_dimensions() {
    match yolo_output_layout(&[1, 6], 2) {
        Err(TaskError::InvalidInput(m)) => assert_eq!(m, "Expected 3D tensor, got 2D"),
        _ => panic!("expected InvalidInput"),
    }
    match yolo_output_layout(&[1, 7, 3], 2) {
        Err(TaskError::InvalidInput(m)) => assert_eq!(m, "Expected feature dimension 6 (4+num_classes), got 7"),
        _ => panic!("expected InvalidInput"),
    }
    let l = yolo_output_layout(&[2, 84, 8400], 80).unwrap();
    assert_eq!((l.batch, l.features, l.boxes), (2, 84, 8400));
}

#[test]
fn yolo_index_is_row_major() {
    let l = YoloLayout { batch: 2, features: 6, boxes: 3 };
    assert_eq!(yolo_value_index(&l, 0, 0, 0), 0);
    assert_eq!(yolo_value_index(&l, 0, 4, 2), 14);
    assert_eq!(yolo_value_index(&l, 1, 5, 2), 35);
}

#[test]
fn astar_out_of_bounds_messages() {
    match AStar::new().run(PathfindingQuery { grid: open_grid(3, 2), start: (2, 0), goal: (0, 0) }) {
        Err(TaskError::InvalidInput(m)) => assert_eq!(m, "Start position (2, 0) out of bounds (2x3)"),
        _ => panic!("expected InvalidInput"),
    }
    match AStar::new().run(PathfindingQuery { grid: open_grid(3, 2), start: (0, 0), goal: (1, 17) }) {
        Err(TaskError::InvalidInput(m)) => assert_eq!(m, "Goal position (1, 17) out of bounds (2x3)"),
        _ => panic!("expected InvalidInput"),
    }
}

use colony_sim::navmesh::components::{Navmesh, PathfindRequest};
use colony_sim::navmesh::systems::{
    floor_sqrt, get_pathing, heuristic, is_admissible, is_destination, successors,
};
use colony_sim::{EntityRef, GridCoord};

fn open_grid(size: usize) -> Navmesh {
    let mut navmesh = Navmesh::new(size);
    for x in 0..size {
        for y in 0..size {
            navmesh.set_walkable(x, y, true);
        }
    }
    navmesh
}

fn request(start: (usize, usize), end: (usize, usize)) -> PathfindRequest {
    PathfindRequest {
        start: GridCoord::new(start.0, start.1),
        end: GridCoord::new(end.0, end.1),
        entity: EntityRef(1),
    }
}

fn assert_walk(navmesh: &Navmesh, path: &[GridCoord]) {
    for pair in path.windows(2) {
        let dx = pair[0].x.abs_diff(pair[1].x);
        let dy = pair[0].y.abs_diff(pair[1].y);
        assert_eq!(dx + dy, 1);
    }
    for (i, tile) in path.iter().enumerate() {
        if i > 0 && i + 1 < path.len() {
            assert!(navmesh.is_walkable(tile.x, tile.y));
        }
        for other in &path[i + 1..] {
            assert_ne!(tile, other);
        }
    }
}

#[test]
fn open_ten_by_ten_grid_is_crossed_corner_to_corner() {
    let navmesh = open_grid(10);
    let path = get_pathing(request((0, 0), (9, 9)), &navmesh).expect("a path exists");
    assert!(!path.is_empty());
    assert!(path.len() >= 18);
    assert!(path.len() >= 19);
    assert_eq!(path[0], GridCoord::new(0, 0));
    assert_eq!(path[path.len() - 1], GridCoord::new(9, 9));
    assert_walk(&navmesh, &path);
}

#[test]
fn path_leads_around_a_wall() {
    let mut navmesh = open_grid(5);
    for y in 0..4 {
        navmesh.set_walkable(2, y, false);
    }
    let path = get_pathing(request((0, 0), (4, 0)), &navmesh).expect("a path exists");
    assert_eq!(path[0], GridCoord::new(0, 0));
    assert_eq!(path[path.len() - 1], GridCoord::new(4, 0));
    assert!(path.contains(&GridCoord::new(2, 4)));
    assert!(path.len() >= 13);
    assert_walk(&navmesh, &path);
}

#[test]
fn enclosed_destination_is_unreachable() {
    let mut navmesh = open_grid(7);
    navmesh.set_walkable(3, 4, false);
    navmesh.set_walkable(3, 2, false);
    navmesh.set_walkable(2, 3, false);
    navmesh.set_walkable(4, 3, false);
    assert_eq!(get_pathing(request((0, 0), (3, 3)), &navmesh), None);
}

#[test]
fn enclosed_corner_is_unreachable() {
    let mut navmesh = open_grid(4);
    navmesh.set_walkable(0, 1, false);
    navmesh.set_walkable(1, 0, false);
    assert_eq!(get_pathing(request((3, 3), (0, 0)), &navmesh), None);
}

#[test]
fn enclosed_destination_is_reached_from_a_blocked_neighbour() {
    let mut navmesh = open_grid(7);
    navmesh.set_walkable(3, 4, false);
    navmesh.set_walkable(3, 2, false);
    navmesh.set_walkable(2, 3, false);
    navmesh.set_walkable(4, 3, false);
    let path = get_pathing(request((2, 3), (3, 3)), &navmesh).expect("a path exists");
    assert_eq!(path, vec![GridCoord::new(2, 3), GridCoord::new(3, 3)]);
}

#[test]
fn blocked_destination_is_entered_from_an_open_neighbour() {
    let mut navmesh = open_grid(5);
    navmesh.set_walkable(4, 4, false);
    let path = get_pathing(request((0, 0), (4, 4)), &navmesh).expect("a path exists");
    assert_eq!(path.len(), 9);
    assert_eq!(path[8], GridCoord::new(4, 4));
    assert_walk(&navmesh, &path);
}

#[test]
fn path_leads_out_of_a_blocked_start() {
    let mut navmesh = open_grid(5);
    navmesh.set_walkable(0, 0, false);
    let path = get_pathing(request((0, 0), (2, 0)), &navmesh).expect("a path exists");
    assert_eq!(
        path,
        vec![GridCoord::new(0, 0), GridCoord::new(1, 0), GridCoord::new(2, 0)]
    );
}

#[test]
fn start_that_is_the_destination_is_the_whole_path() {
    let navmesh = open_grid(3);
    assert_eq!(
        get_pathing(request((1, 1), (1, 1)), &navmesh),
        Some(vec![GridCoord::new(1, 1)])
    );
    let blocked = Navmesh::new(3);
    assert_eq!(
        get_pathing(request((2, 0), (2, 0)), &blocked),
        Some(vec![GridCoord::new(2, 0)])
    );
}

#[test]
fn destination_outside_the_grid_is_unreachable() {
    let navmesh = open_grid(3);
    assert_eq!(get_pathing(request((0, 0), (3, 0)), &navmesh), None);
    assert_eq!(get_pathing(request((0, 0), (0, 7)), &navmesh), None);
}

#[test]
fn start_outside_the_grid_steps_onto_it() {
    let navmesh = open_grid(3);
    let path = get_pathing(request((3, 1), (0, 1)), &navmesh).expect("a path exists");
    assert_eq!(path.len(), 4);
    assert_eq!(path[1], GridCoord::new(2, 1));
}

#[test]
fn wholly_blocked_grid_has_no_paths() {
    let navmesh = Navmesh::new(4);
    assert_eq!(get_pathing(request((0, 0), (3, 3)), &navmesh), None);
    assert_eq!(
        get_pathing(request((0, 0), (0, 1)), &navmesh),
        Some(vec![GridCoord::new(0, 0), GridCoord::new(0, 1)])
    );
}

#[test]
fn search_leaves_the_grid_as_it_was() {
    let mut navmesh = open_grid(4);
    navmesh.set_walkable(1, 1, false);
    navmesh.add_occupant(1, 1, EntityRef(9));
    let _ = get_pathing(request((0, 0), (3, 3)), &navmesh);
    for x in 0..4 {
        for y in 0..4 {
            assert_eq!(navmesh.is_walkable(x, y), !(x == 1 && y == 1));
        }
    }
    assert!(navmesh.has_occupant(1, 1, EntityRef(9)));
}

#[test]
fn successors_come_in_the_order_up_down_left_right() {
    let navmesh = open_grid(3);
    let start = GridCoord::new(0, 0);
    let end = GridCoord::new(2, 2);
    assert_eq!(
        successors(&navmesh, start, end, GridCoord::new(1, 1)),
        vec![
            (GridCoord::new(1, 2), 0),
            (GridCoord::new(1, 0), 0),
            (GridCoord::new(0, 1), 0),
            (GridCoord::new(2, 1), 0)
        ]
    );
}

#[test]
fn successors_at_the_corner_hold_the_corner_itself() {
    let navmesh = open_grid(3);
    let start = GridCoord::new(1, 1);
    let end = GridCoord::new(2, 2);
    assert_eq!(
        successors(&navmesh, start, end, GridCoord::new(0, 0)),
        vec![
            (GridCoord::new(0, 1), 0),
            (GridCoord::new(0, 0), 0),
            (GridCoord::new(0, 0), 0),
            (GridCoord::new(1, 0), 0)
        ]
    );
    assert_eq!(
        successors(&navmesh, start, end, GridCoord::new(2, 2)),
        vec![(GridCoord::new(2, 1), 0), (GridCoord::new(1, 2), 0)]
    );
}

#[test]
fn successors_leave_out_blocked_tiles_but_for_start_and_end() {
    let navmesh = Navmesh::new(3);
    let start = GridCoord::new(1, 0);
    let end = GridCoord::new(1, 2);
    assert_eq!(
        successors(&navmesh, start, end, GridCoord::new(1, 1)),
        vec![(GridCoord::new(1, 2), 0), (GridCoord::new(1, 0), 0)]
    );
    assert!(is_admissible(&navmesh, start, end, start));
    assert!(is_admissible(&navmesh, start, end, end));
    assert!(!is_admissible(&navmesh, start, end, GridCoord::new(0, 0)));
    assert!(!is_admissible(&navmesh, start, GridCoord::new(3, 3), GridCoord::new(3, 3)));
}

#[test]
fn heuristic_is_the_distance_rounded_down() {
    let end = GridCoord::new(0, 0);
    assert_eq!(heuristic(GridCoord::new(0, 0), end), 0);
    assert_eq!(heuristic(GridCoord::new(3, 4), end), 5);
    assert_eq!(heuristic(GridCoord::new(1, 1), end), 1);
    assert_eq!(heuristic(GridCoord::new(2, 2), end), 2);
    assert_eq!(heuristic(GridCoord::new(9, 9), end), 12);
    assert_eq!(heuristic(end, GridCoord::new(127, 127)), 179);
    assert_eq!(heuristic(GridCoord::new(usize::MAX, 0), end), i32::MAX);
    assert_eq!(heuristic(GridCoord::new(0x7fff_ffff, 0x7fff_ffff), end), i32::MAX);
    assert_eq!(heuristic(GridCoord::new(0x7fff_fffe, 0), end), 0x7fff_fffe);
}

#[test]
fn floor_sqrt_of_squares_and_their_neighbours() {
    assert_eq!(floor_sqrt(0), 0);
    assert_eq!(floor_sqrt(1), 1);
    assert_eq!(floor_sqrt(3), 1);
    assert_eq!(floor_sqrt(4), 2);
    assert_eq!(floor_sqrt(24), 4);
    assert_eq!(floor_sqrt(25), 5);
    assert_eq!(floor_sqrt(u64::MAX), 0xffff_ffff);
}

#[test]
fn destination_is_the_end_alone() {
    assert!(is_destination(GridCoord::new(2, 3), GridCoord::new(2, 3)));
    assert!(!is_destination(GridCoord::new(3, 2), GridCoord::new(2, 3)));
}

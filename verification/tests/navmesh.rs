use colony_sim::navmesh::components::Navmesh;
use colony_sim::{EntityRef, GridCoord, SIZE};

#[test]
fn new_grid_is_blocked_and_empty() {
    let navmesh = Navmesh::new(6);
    assert_eq!(navmesh.size(), 6);
    for x in 0..6 {
        for y in 0..6 {
            assert!(!navmesh.is_walkable(x, y));
            assert!(!navmesh.has_occupant(x, y, EntityRef(0)));
            assert_eq!(navmesh.tiles[x][y].weight, 0);
        }
    }
}

#[test]
fn default_grid_has_the_standard_size() {
    let navmesh = Navmesh::default();
    assert_eq!(SIZE, 128);
    assert_eq!(navmesh.size(), 128);
    assert!(navmesh.in_bounds(127, 127));
    assert!(!navmesh.in_bounds(128, 0));
    assert!(!navmesh.in_bounds(0, 128));
}

#[test]
fn walkable_flag_is_set_and_cleared_for_one_tile() {
    let mut navmesh = Navmesh::new(3);
    navmesh.set_walkable(1, 2, true);
    assert!(navmesh.is_walkable(1, 2));
    assert!(!navmesh.is_walkable(2, 1));
    navmesh.set_walkable(1, 2, false);
    assert!(!navmesh.is_walkable(1, 2));
}

#[test]
fn outside_the_grid_nothing_is_walkable() {
    let mut navmesh = Navmesh::new(2);
    navmesh.set_walkable(1, 1, true);
    assert!(!navmesh.is_walkable(2, 1));
    assert!(!navmesh.is_walkable(1, 2));
    assert!(!navmesh.is_walkable(usize::MAX, usize::MAX));
}

#[test]
fn weight_is_kept_per_tile() {
    let mut navmesh = Navmesh::new(3);
    navmesh.set_weight(0, 1, 2);
    navmesh.set_weight(2, 2, 1);
    assert_eq!(navmesh.tiles[0][1].weight, 2);
    assert_eq!(navmesh.tiles[2][2].weight, 1);
    assert_eq!(navmesh.tiles[1][0].weight, 0);
    assert!(!navmesh.is_walkable(0, 1));
}

#[test]
fn occupants_are_added_and_removed_in_pairs() {
    let mut navmesh = Navmesh::new(3);
    navmesh.add_occupant(1, 1, EntityRef(7));
    navmesh.add_occupant(1, 1, EntityRef(8));
    navmesh.add_occupant(1, 1, EntityRef(7));
    assert!(navmesh.has_occupant(1, 1, EntityRef(7)));
    assert!(navmesh.has_occupant(1, 1, EntityRef(8)));
    assert!(!navmesh.has_occupant(1, 2, EntityRef(7)));
    navmesh.remove_occupant(1, 1, EntityRef(7));
    assert!(!navmesh.has_occupant(1, 1, EntityRef(7)));
    assert!(navmesh.has_occupant(1, 1, EntityRef(8)));
    navmesh.remove_occupant(1, 1, EntityRef(7));
    navmesh.remove_occupant(1, 1, EntityRef(8));
    assert!(!navmesh.has_occupant(1, 1, EntityRef(8)));
}

#[test]
fn occupants_do_not_change_walkability() {
    let mut navmesh = Navmesh::new(2);
    navmesh.set_walkable(0, 0, true);
    navmesh.add_occupant(0, 0, EntityRef(3));
    assert!(navmesh.is_walkable(0, 0));
}

#[test]
fn range_check_is_by_straight_line_distance() {
    let origin = GridCoord::new(10, 10);
    assert!(origin.within_range(GridCoord::new(10, 12), 2));
    assert!(origin.within_range(GridCoord::new(8, 10), 2));
    assert!(!origin.within_range(GridCoord::new(11, 12), 2));
    assert!(origin.within_range(GridCoord::new(16, 18), 10));
    assert!(!origin.within_range(GridCoord::new(17, 18), 10));
    assert!(origin.within_range(origin, 0));
    assert!(!GridCoord::new(0, 0).within_range(GridCoord::new(usize::MAX, usize::MAX), usize::MAX));
    assert!(GridCoord::new(0, 0).within_range(GridCoord::new(usize::MAX, 0), usize::MAX));
}

#[test]
fn squared_distance_is_given_within_range_only() {
    let origin = GridCoord::new(5, 5);
    assert_eq!(origin.distance_squared_within(GridCoord::new(8, 9), 10), Some(25));
    assert_eq!(origin.distance_squared_within(GridCoord::new(5, 5), 10), Some(0));
    assert_eq!(origin.distance_squared_within(GridCoord::new(11, 13), 10), Some(100));
    assert_eq!(origin.distance_squared_within(GridCoord::new(12, 13), 10), None);
    assert_eq!(origin.distance_squared_within(GridCoord::new(16, 5), 10), None);
}

use colony_sim::stone::{
    get_neighbor_stone_kind, update_stone_sprite, Stone, StoneKind, StoneSize, MAX_STONE_PER_TILE,
};

#[test]
fn new_deposit_is_full() {
    assert_eq!(MAX_STONE_PER_TILE, 1000);
    assert_eq!(Stone::new().remaining_resources, 1000);
}

#[test]
fn mining_takes_the_rate() {
    let mut stone = Stone { remaining_resources: 10 };
    assert_eq!(stone.apply_mining(3), 7);
    assert_eq!(stone.remaining_resources, 7);
    assert_eq!(stone.apply_mining(7), 0);
    assert!(stone.is_depleted());
}

#[test]
fn mining_never_goes_below_zero() {
    let mut stone = Stone { remaining_resources: 5 };
    assert_eq!(stone.apply_mining(9), 0);
    assert_eq!(stone.apply_mining(1), 0);
    assert_eq!(stone.apply_mining(usize::MAX), 0);
    let mut other = Stone { remaining_resources: usize::MAX };
    assert_eq!(other.apply_mining(usize::MAX), 0);
}

#[test]
fn mining_at_rate_zero_changes_nothing() {
    let mut stone = Stone { remaining_resources: 4 };
    assert_eq!(stone.apply_mining(0), 4);
    assert!(!stone.is_depleted());
}

#[test]
fn repeated_mining_stops_at_zero() {
    let mut stone = Stone { remaining_resources: 10 };
    for round in 1..=6 {
        let left = stone.apply_mining(3);
        assert_eq!(left, 10usize.saturating_sub(3 * round));
    }
    assert_eq!(stone.remaining_resources, 0);
}

#[test]
fn size_follows_the_thresholds() {
    let size = |remaining_resources| update_stone_sprite(&Stone { remaining_resources });
    assert_eq!(size(0), StoneSize::Small);
    assert_eq!(size(249), StoneSize::Small);
    assert_eq!(size(250), StoneSize::MediumSmall);
    assert_eq!(size(349), StoneSize::MediumSmall);
    assert_eq!(size(350), StoneSize::Medium);
    assert_eq!(size(499), StoneSize::Medium);
    assert_eq!(size(500), StoneSize::MediumLarge);
    assert_eq!(size(749), StoneSize::MediumLarge);
    assert_eq!(size(750), StoneSize::Large);
    assert_eq!(size(1000), StoneSize::Large);
}

fn empty_kinds(size: usize) -> Vec<Vec<Option<StoneKind>>> {
    vec![vec![None; size]; size]
}

#[test]
fn lone_tile_has_no_neighbour_kind() {
    let grid = empty_kinds(3);
    assert_eq!(get_neighbor_stone_kind(&grid, 1, 1), None);
    assert_eq!(get_neighbor_stone_kind(&grid, 0, 0), None);
    assert_eq!(get_neighbor_stone_kind(&grid, 2, 2), None);
}

#[test]
fn neighbour_kind_prefers_edges_over_corners() {
    let mut grid = empty_kinds(3);
    grid[0][0] = Some(StoneKind::Tan);
    assert_eq!(get_neighbor_stone_kind(&grid, 1, 1), Some(StoneKind::Tan));
    grid[2][1] = Some(StoneKind::Red);
    assert_eq!(get_neighbor_stone_kind(&grid, 1, 1), Some(StoneKind::Red));
    grid[0][1] = Some(StoneKind::Salt);
    assert_eq!(get_neighbor_stone_kind(&grid, 1, 1), Some(StoneKind::Salt));
    grid[1][0] = Some(StoneKind::Capped);
    assert_eq!(get_neighbor_stone_kind(&grid, 1, 1), Some(StoneKind::Capped));
    grid[1][2] = Some(StoneKind::Stone);
    assert_eq!(get_neighbor_stone_kind(&grid, 1, 1), Some(StoneKind::Stone));
}

#[test]
fn neighbour_kind_orders_the_corners() {
    let mut grid = empty_kinds(3);
    grid[2][0] = Some(StoneKind::Tan);
    assert_eq!(get_neighbor_stone_kind(&grid, 1, 1), Some(StoneKind::Tan));
    grid[0][0] = Some(StoneKind::Red);
    assert_eq!(get_neighbor_stone_kind(&grid, 1, 1), Some(StoneKind::Red));
    grid[2][2] = Some(StoneKind::Salt);
    assert_eq!(get_neighbor_stone_kind(&grid, 1, 1), Some(StoneKind::Salt));
    grid[0][2] = Some(StoneKind::Capped);
    assert_eq!(get_neighbor_stone_kind(&grid, 1, 1), Some(StoneKind::Capped));
}

#[test]
fn neighbour_kind_ignores_the_tile_itself_and_far_tiles() {
    let mut grid = empty_kinds(5);
    grid[2][2] = Some(StoneKind::Red);
    grid[4][4] = Some(StoneKind::Tan);
    grid[0][2] = Some(StoneKind::Salt);
    assert_eq!(get_neighbor_stone_kind(&grid, 2, 2), None);
}

#[test]
fn neighbour_kind_at_the_edges_of_the_grid() {
    let mut grid = empty_kinds(2);
    grid[1][1] = Some(StoneKind::Stone);
    assert_eq!(get_neighbor_stone_kind(&grid, 0, 0), Some(StoneKind::Stone));
    assert_eq!(get_neighbor_stone_kind(&grid, 1, 0), Some(StoneKind::Stone));
    assert_eq!(get_neighbor_stone_kind(&grid, 0, 1), Some(StoneKind::Stone));
    assert_eq!(get_neighbor_stone_kind(&grid, 5, 5), None);
    assert_eq!(get_neighbor_stone_kind(&grid, usize::MAX, usize::MAX), None);
    assert_eq!(get_neighbor_stone_kind(&grid, 2, 1), Some(StoneKind::Stone));
}

use colony_sim::pawn::components::{CharacterFacing, HealthBand, Pawn};
use colony_sim::pawn::systems::{update_health_ui, update_pawn_animation};
use colony_sim::terrain::{get_dirt_texture_facing_grass, DirtTile, TileType};

fn pawn_with_health(health: usize) -> Pawn {
    let mut pawn = Pawn::new();
    pawn.health = health;
    pawn
}

#[test]
fn health_band_follows_the_thresholds() {
    assert_eq!(update_health_ui(&pawn_with_health(100)), HealthBand::Whole);
    assert_eq!(update_health_ui(&pawn_with_health(99)), HealthBand::Good);
    assert_eq!(update_health_ui(&pawn_with_health(76)), HealthBand::Good);
    assert_eq!(update_health_ui(&pawn_with_health(75)), HealthBand::Fair);
    assert_eq!(update_health_ui(&pawn_with_health(51)), HealthBand::Fair);
    assert_eq!(update_health_ui(&pawn_with_health(50)), HealthBand::Poor);
    assert_eq!(update_health_ui(&pawn_with_health(26)), HealthBand::Poor);
    assert_eq!(update_health_ui(&pawn_with_health(25)), HealthBand::Critical);
    assert_eq!(update_health_ui(&pawn_with_health(0)), HealthBand::Critical);
    let mut frail = pawn_with_health(20);
    frail.max_health = 20;
    assert_eq!(update_health_ui(&frail), HealthBand::Whole);
}

#[test]
fn facing_names_its_column_of_the_sheet() {
    assert_eq!(CharacterFacing::Forward.index(), 0);
    assert_eq!(CharacterFacing::Right.index(), 1);
    assert_eq!(CharacterFacing::Backward.index(), 2);
    assert_eq!(CharacterFacing::Left.index(), 3);
}

#[test]
fn pawn_at_rest_shows_the_first_frame_of_its_direction() {
    let pawn = Pawn::new();
    assert_eq!(update_pawn_animation(&pawn, 9, CharacterFacing::Right), 1);
    assert_eq!(update_pawn_animation(&pawn, 0, CharacterFacing::Left), 3);
}

#[test]
fn moving_pawn_steps_through_its_frames_when_the_timer_runs_out() {
    let mut pawn = Pawn::new();
    pawn.moving = true;
    assert_eq!(update_pawn_animation(&pawn, 5, CharacterFacing::Right), 5);
    pawn.animation_timer.tick(125_000_000);
    assert_eq!(update_pawn_animation(&pawn, 1, CharacterFacing::Right), 5);
    assert_eq!(update_pawn_animation(&pawn, 5, CharacterFacing::Right), 9);
    assert_eq!(update_pawn_animation(&pawn, 9, CharacterFacing::Right), 13);
    assert_eq!(update_pawn_animation(&pawn, 13, CharacterFacing::Right), 1);
    assert_eq!(update_pawn_animation(&pawn, 8, CharacterFacing::Forward), 12);
    assert_eq!(update_pawn_animation(&pawn, 12, CharacterFacing::Forward), 0);
    assert_eq!(update_pawn_animation(&pawn, 11, CharacterFacing::Left), 3);
    assert_eq!(update_pawn_animation(&pawn, usize::MAX, CharacterFacing::Left), 3);
}

#[test]
fn dirt_pieces_have_their_places_on_the_sheet() {
    assert_eq!(DirtTile::TopLeft.index(), 0);
    assert_eq!(DirtTile::TopMiddle.index(), 1);
    assert_eq!(DirtTile::TopRight.index(), 2);
    assert_eq!(DirtTile::OutsideTopLeft.index(), 3);
    assert_eq!(DirtTile::OutsideTopRight.index(), 4);
    assert_eq!(DirtTile::MiddleLeft.index(), 5);
    assert_eq!(DirtTile::MiddleMiddle.index(), 6);
    assert_eq!(DirtTile::MiddleRight.index(), 7);
    assert_eq!(DirtTile::OutsideBottomLeft.index(), 8);
    assert_eq!(DirtTile::OutsideBottomRight.index(), 9);
    assert_eq!(DirtTile::BottomLeft.index(), 10);
    assert_eq!(DirtTile::BottomMiddle.index(), 11);
    assert_eq!(DirtTile::BottomRight.index(), 12);
    assert_eq!(DirtTile::default(), DirtTile::MiddleMiddle);
}

fn dirt_with_grass(grass: &[(usize, usize)]) -> Vec<Vec<Option<TileType>>> {
    let mut terrain = vec![vec![Some(TileType::Dirt); 3]; 3];
    for &(x, y) in grass {
        terrain[x][y] = Some(TileType::Grass);
    }
    terrain
}

fn piece(grass: &[(usize, usize)]) -> DirtTile {
    get_dirt_texture_facing_grass(&dirt_with_grass(grass), 1, 1)
}

#[test]
fn dirt_without_grass_around_it_is_plain() {
    assert_eq!(piece(&[]), DirtTile::MiddleMiddle);
    assert_eq!(piece(&[(1, 1)]), DirtTile::MiddleMiddle);
}

#[test]
fn grass_on_one_side_makes_an_edge() {
    assert_eq!(piece(&[(1, 0)]), DirtTile::BottomMiddle);
    assert_eq!(piece(&[(1, 2)]), DirtTile::TopMiddle);
    assert_eq!(piece(&[(0, 1)]), DirtTile::MiddleLeft);
    assert_eq!(piece(&[(2, 1)]), DirtTile::MiddleRight);
    assert_eq!(piece(&[(1, 0), (1, 2)]), DirtTile::TopMiddle);
    assert_eq!(piece(&[(0, 1), (2, 1)]), DirtTile::MiddleRight);
}

#[test]
fn grass_on_two_sides_that_meet_makes_a_corner() {
    assert_eq!(piece(&[(0, 1), (1, 0)]), DirtTile::BottomLeft);
    assert_eq!(piece(&[(2, 1), (1, 0)]), DirtTile::BottomRight);
    assert_eq!(piece(&[(0, 1), (1, 2)]), DirtTile::TopLeft);
    assert_eq!(piece(&[(2, 1), (1, 2)]), DirtTile::TopRight);
    assert_eq!(piece(&[(0, 1), (2, 1), (1, 0), (1, 2)]), DirtTile::TopRight);
    assert_eq!(piece(&[(0, 1), (2, 1), (1, 0)]), DirtTile::BottomRight);
    assert_eq!(piece(&[(0, 1), (1, 0), (1, 2)]), DirtTile::TopLeft);
}

#[test]
fn grass_across_a_corner_makes_an_outside_corner() {
    assert_eq!(piece(&[(0, 2)]), DirtTile::OutsideTopLeft);
    assert_eq!(piece(&[(2, 2)]), DirtTile::OutsideTopRight);
    assert_eq!(piece(&[(0, 0)]), DirtTile::OutsideBottomLeft);
    assert_eq!(piece(&[(2, 0)]), DirtTile::OutsideBottomRight);
    assert_eq!(piece(&[(0, 2), (2, 2)]), DirtTile::OutsideTopRight);
    assert_eq!(piece(&[(0, 2), (2, 2), (0, 0)]), DirtTile::OutsideBottomLeft);
    assert_eq!(piece(&[(0, 2), (2, 2), (0, 0), (2, 0)]), DirtTile::OutsideBottomRight);
    assert_eq!(piece(&[(0, 0), (1, 0)]), DirtTile::BottomMiddle);
}

#[test]
fn dirt_at_the_edge_of_the_world_sees_no_grass_beyond() {
    let terrain = dirt_with_grass(&[(1, 1)]);
    assert_eq!(get_dirt_texture_facing_grass(&terrain, 0, 0), DirtTile::OutsideTopRight);
    assert_eq!(get_dirt_texture_facing_grass(&terrain, 2, 2), DirtTile::OutsideBottomLeft);
    assert_eq!(get_dirt_texture_facing_grass(&terrain, 0, 1), DirtTile::MiddleRight);
    assert_eq!(get_dirt_texture_facing_grass(&terrain, 1, 2), DirtTile::BottomMiddle);
    assert_eq!(get_dirt_texture_facing_grass(&terrain, 3, 3), DirtTile::MiddleMiddle);
    assert_eq!(
        get_dirt_texture_facing_grass(&terrain, usize::MAX, usize::MAX),
        DirtTile::MiddleMiddle
    );
    let empty: Vec<Vec<Option<TileType>>> = Vec::new();
    assert_eq!(get_dirt_texture_facing_grass(&empty, 0, 0), DirtTile::MiddleMiddle);
}

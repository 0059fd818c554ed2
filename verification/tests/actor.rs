use ascii_bros::actor::{
    cell_of_pos, Actor, ActorActions, ActorBehavior, ActorProps, MushroomActions,
};
use ascii_bros::actor::sprite::Sprite;
use ascii_bros::game::Game;
use ascii_bros::EntityType;

fn raster(rows: &[&[u8]]) -> Vec<Vec<u8>> {
    rows.iter().map(|r| r.to_vec()).collect()
}

fn some_sprite() -> Sprite {
    let mut game = Game::new();
    let rows = raster(&[&[b's', b's'], &[b's', b's']]);
    Sprite::new(&mut game, &rows, 9).expect("2x2 raster must validate")
}

#[test]
fn cell_rounding_half_away_from_zero() {
    assert_eq!(cell_of_pos(0), 0);
    assert_eq!(cell_of_pos(4), 0);
    assert_eq!(cell_of_pos(5), 1);
    assert_eq!(cell_of_pos(14), 1);
    assert_eq!(cell_of_pos(15), 2);
    assert_eq!(cell_of_pos(-4), 0);
    assert_eq!(cell_of_pos(-5), -1);
    assert_eq!(cell_of_pos(-15), -2);
    assert_eq!(cell_of_pos(80), 8);
}

#[test]
fn actor_props_and_actor_keep_fields() {
    let sprite = some_sprite();
    let props = ActorProps::new(50, 150, sprite);
    assert_eq!(props.x_pos, 50);
    assert_eq!(props.y_pos, 150);
    assert_eq!(props.sprite.z_order, 9);
    let actor = Actor::new(props, ActorBehavior::Mushroom);
    assert_eq!(actor.actions, ActorBehavior::Mushroom);
    assert_eq!(actor.props.x_pos, 50);
}

#[test]
fn mushroom_drifts_one_subcell_right() {
    let sprite = some_sprite();
    let mut props = ActorProps::new(0, 0, sprite);
    let delta: u128 = 16;
    MushroomActions.update_pos(&mut props, &delta);
    assert_eq!(props.x_pos, 1);
    assert_eq!(props.y_pos, 0);
    ActorBehavior::Mushroom.update_pos(&mut props, &delta);
    assert_eq!(props.x_pos, 2);
}

#[test]
fn mushroom_stops_at_numeric_limit() {
    let sprite = some_sprite();
    let mut props = ActorProps::new(i32::MAX, 0, sprite);
    let delta: u128 = 16;
    MushroomActions.update_pos(&mut props, &delta);
    assert_eq!(props.x_pos, i32::MAX);
}

#[test]
fn spawned_actor_carries_entity_type() {
    let mut game = Game::new();
    let rows = raster(&[&[b'g', b'g'], &[b'g', b'g']]);
    game.spawn_actor(EntityType::Goomba, &rows, 4, 30, 20).unwrap();
    let actor = &game.actor_list[0];
    assert_eq!(actor.props.sprite.entity_type, EntityType::Goomba);
    assert_eq!(actor.props.sprite.z_order, 4);
    assert_eq!(actor.props.x_pos, 30);
    assert_eq!(actor.props.y_pos, 20);
    assert_eq!(actor.actions, ActorBehavior::Mushroom);
}

use ascii_bros::actor::sprite::{decode_asset_row, Sprite, ValidationError};
use ascii_bros::game::Game;

fn raster(rows: &[&[u8]]) -> Vec<Vec<u8>> {
    rows.iter().map(|r| r.to_vec()).collect()
}

#[test]
fn width_five_fails_width_four_succeeds() {
    // With a stride of 2, a raster 5 glyphs wide is rejected with a
    // width error; 4 glyphs wide is accepted.
    let mut game = Game::new();
    let bad = raster(&[
        &[b'a', b'a', b'b', b'b', b'c'],
        &[b'a', b'a', b'b', b'b', b'c'],
    ]);
    let atlas_before = game.tile_atlas.len();
    match Sprite::new(&mut game, &bad, 0) {
        Err(ValidationError::InvalidWidth(w)) => assert_eq!(w, 5),
        other => panic!("expected a width error, got {:?}", other),
    }
    // A rejected asset must not have touched the atlas.
    assert_eq!(game.tile_atlas.len(), atlas_before);

    let good = raster(&[
        &[b'a', b'a', b'b', b'b'],
        &[b'a', b'a', b'b', b'b'],
    ]);
    let sprite = Sprite::new(&mut game, &good, 7).expect("width 4 must validate");
    assert_eq!(sprite.width, 4);
    assert_eq!(sprite.height, 2);
    assert_eq!(sprite.z_order, 7);
    assert_eq!(sprite.tile_ids.len(), 2);
}

#[test]
fn odd_height_fails() {
    let mut game = Game::new();
    let rows = raster(&[
        &[b'a', b'a'],
        &[b'a', b'a'],
        &[b'a', b'a'],
    ]);
    match Sprite::new(&mut game, &rows, 0) {
        Err(ValidationError::InvalidHeight(h)) => assert_eq!(h, 3),
        other => panic!("expected a height error, got {:?}", other),
    }
}

#[test]
fn empty_raster_fails_height() {
    let mut game = Game::new();
    let rows: Vec<Vec<u8>> = Vec::new();
    match Sprite::new(&mut game, &rows, 0) {
        Err(ValidationError::InvalidHeight(h)) => assert_eq!(h, 0),
        other => panic!("expected a height error, got {:?}", other),
    }
}

#[test]
fn ragged_rows_fail() {
    let mut game = Game::new();
    let rows = raster(&[
        &[b'a', b'a', b'b', b'b'],
        &[b'a', b'a'],
    ]);
    match Sprite::new(&mut game, &rows, 0) {
        Err(ValidationError::MalformedRaster) => {},
        other => panic!("expected a malformed-raster error, got {:?}", other),
    }
}

#[test]
fn validate_reports_offending_dimension() {
    let mut game = Game::new();
    let good = raster(&[&[b'a', b'a'], &[b'a', b'a']]);
    let mut sprite = Sprite::new(&mut game, &good, 0).expect("2x2 must validate");
    assert!(sprite.validate().is_ok());
    sprite.width = 3;
    match sprite.validate() {
        Err(ValidationError::InvalidWidth(w)) => assert_eq!(w, 3),
        other => panic!("expected a width error, got {:?}", other),
    }
    sprite.width = 2;
    sprite.height = 0;
    match sprite.validate() {
        Err(ValidationError::InvalidHeight(h)) => assert_eq!(h, 0),
        other => panic!("expected a height error, got {:?}", other),
    }
}

#[test]
fn error_descriptions_name_the_fault() {
    assert!(ValidationError::InvalidWidth(5).describe().contains("width"));
    assert!(ValidationError::InvalidHeight(3).describe().contains("height"));
    assert!(ValidationError::MalformedRaster.describe().contains("rows"));
}

#[test]
fn placeholder_decodes_to_space() {
    let row = vec![b'@', b'x', b'@', b'y'];
    assert_eq!(decode_asset_row(&row), vec![b' ', b'x', b' ', b'y']);
    let empty: Vec<u8> = Vec::new();
    assert_eq!(decode_asset_row(&empty), empty);
}

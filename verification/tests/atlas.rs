use ascii_bros::actor::sprite::Sprite;
use ascii_bros::actor::sprite::tile::{PixBuf, Tile, TILE_AREA};
use ascii_bros::game::Game;
use ascii_bros::{Color, Ident};

fn raster(rows: &[&[u8]]) -> Vec<Vec<u8>> {
    rows.iter().map(|r| r.to_vec()).collect()
}

#[test]
fn dedup_one_sprite_repeated_block() {
    // Block (0,0) and block (1,1) have identical contents; they must
    // resolve to the same tile id and the atlas must store it once.
    let mut game = Game::new();
    let rows = raster(&[
        &[b'a', b'a', b'b', b'b'],
        &[b'a', b'a', b'b', b'b'],
        &[b'c', b'c', b'a', b'a'],
        &[b'c', b'c', b'a', b'a'],
    ]);
    let ids = Sprite::as_tile_ids(&mut game, &rows, 4, 4);
    assert_eq!(ids.len(), 4);
    assert_eq!(ids[0], ids[3]);
    assert_ne!(ids[0], ids[1]);
    assert_ne!(ids[0], ids[2]);
    assert_ne!(ids[1], ids[2]);
    assert_eq!(game.tile_atlas.len(), 3);
    // No two atlas entries share contents.
    for i in 0..game.tile_atlas.len() {
        for j in 0..game.tile_atlas.len() {
            if i != j {
                assert!(game.tile_atlas[i].pix_buf != game.tile_atlas[j].pix_buf);
            }
        }
    }
}

#[test]
fn dedup_across_sprites() {
    // A second sprite whose blocks repeat contents of the first reuses
    // the existing ids instead of inserting new tiles.
    let mut game = Game::new();
    let first = raster(&[&[b'x', b'x'], &[b'x', b'x']]);
    let second = raster(&[&[b'x', b'x'], &[b'x', b'x']]);
    let ids_first = Sprite::as_tile_ids(&mut game, &first, 2, 2);
    let atlas_len_after_first = game.tile_atlas.len();
    let ids_second = Sprite::as_tile_ids(&mut game, &second, 2, 2);
    assert_eq!(ids_first, ids_second);
    assert_eq!(game.tile_atlas.len(), atlas_len_after_first);
}

#[test]
fn determinism_fixed_state_fixed_input() {
    // Two runs from equal starting states on the same raster give the
    // same tile id sequence.
    let rows = raster(&[
        &[b'1', b'2', b'3', b'4'],
        &[b'5', b'6', b'7', b'8'],
    ]);
    let mut game_a = Game::new();
    let mut game_b = Game::new();
    let ids_a = Sprite::as_tile_ids(&mut game_a, &rows, 4, 2);
    let ids_b = Sprite::as_tile_ids(&mut game_b, &rows, 4, 2);
    assert_eq!(ids_a, ids_b);
    assert_eq!(game_a.tile_atlas.len(), game_b.tile_atlas.len());
}

#[test]
fn ids_are_dense_and_sequential() {
    let mut game = Game::new();
    let rows = raster(&[
        &[b'p', b'p', b'q', b'q'],
        &[b'p', b'p', b'q', b'q'],
    ]);
    let ids = Sprite::as_tile_ids(&mut game, &rows, 4, 2);
    assert_eq!(ids, vec![0u16, 1u16]);
    assert_eq!(game.next_tile_id, 2);
    for (n, tile) in game.tile_atlas.iter().enumerate() {
        assert_eq!(tile.id as usize, n);
    }
}

#[test]
fn find_and_contains_and_insert() {
    let mut game = Game::new();
    let known = PixBuf::new([b'k', b'k', b'k', b'k']);
    let unknown = PixBuf::new([b'u', b'u', b'u', b'u']);
    assert!(!game.tile_atlas_contains(&known));
    assert_eq!(game.find_tile_id(&known), None);
    let id = game.insert_tile([Color(32); TILE_AREA], known);
    assert_eq!(id, 0);
    assert!(game.tile_atlas_contains(&known));
    assert_eq!(game.find_tile_id(&known), Some(0));
    assert!(!game.tile_atlas_contains(&unknown));
    assert_eq!(game.find_tile_id(&unknown), None);
    let tile = game.get_tile(0);
    assert!(tile.pix_buf == known);
    assert_eq!(tile.id, 0);
}

#[test]
fn pix_buf_iter_and_eq() {
    let buf = PixBuf::new([1, 2, 3, 4]);
    assert_eq!(buf.iter(), vec![1, 2, 3, 4]);
    assert_eq!(buf.get(0), 1);
    assert_eq!(buf.get(3), 4);
    assert!(buf == PixBuf::new([1, 2, 3, 4]));
    assert!(buf != PixBuf::new([1, 2, 3, 5]));
}

#[test]
fn tile_new_keeps_fields() {
    let pix = PixBuf::new([9, 8, 7, 6]);
    let colors = [Color(32); TILE_AREA];
    let tile = Tile::new(5 as Ident, colors, pix);
    assert_eq!(tile.id, 5);
    assert!(tile.pix_buf == pix);
    assert_eq!(tile.color_buf[0].0, 32);
}

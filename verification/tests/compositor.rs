use ascii_bros::actor::POS_SCALE;
use ascii_bros::game::Game;
use ascii_bros::window::{Window, BLANK_GLYPH};
use ascii_bros::EntityType;

fn raster(rows: &[&[u8]]) -> Vec<Vec<u8>> {
    rows.iter().map(|r| r.to_vec()).collect()
}

fn cells(x: i32) -> i32 {
    x * POS_SCALE
}

fn glyph_at(win: &Window, x: u16, y: u16) -> u8 {
    win.glyph_buf()[y as usize * win.width() as usize + x as usize]
}

#[test]
fn round_trip_reproduces_raster() {
    // Decomposing a sprite and compositing it alone at the origin of a
    // display of exactly its size gives back the raster, cell for cell.
    let rows = raster(&[
        &[b'a', b'b', b'c', b'd'],
        &[b'e', b'f', b'g', b'h'],
        &[b'i', b'j', b'k', b'l'],
        &[b'm', b'n', b'o', b'p'],
    ]);
    let mut game = Game::new();
    game.spawn_actor(EntityType::Mario, &rows, 0, 0, 0)
        .expect("4x4 raster must validate");
    let mut win = Window::new(4, 4);
    win.render_frame(&game);
    for y in 0..4u16 {
        for x in 0..4u16 {
            assert_eq!(glyph_at(&win, x, y), rows[y as usize][x as usize]);
        }
    }
}

#[test]
fn z_order_tie_break_later_entry_wins() {
    // Two actors with equal z at the same position: the later list entry
    // is drawn last and overwrites the earlier one.
    let mut game = Game::new();
    let below = raster(&[&[b'-', b'-'], &[b'-', b'-']]);
    let above = raster(&[&[b'+', b'+'], &[b'+', b'+']]);
    game.spawn_actor(EntityType::Goomba, &below, 5, 0, 0).unwrap();
    game.spawn_actor(EntityType::Koopa, &above, 5, 0, 0).unwrap();
    let mut win = Window::new(4, 4);
    win.render_frame(&game);
    assert_eq!(glyph_at(&win, 0, 0), b'+');
    assert_eq!(glyph_at(&win, 1, 1), b'+');
}

#[test]
fn z_order_higher_is_drawn_on_top() {
    let mut game = Game::new();
    let front = raster(&[&[b'F', b'F'], &[b'F', b'F']]);
    let back = raster(&[&[b'B', b'B'], &[b'B', b'B']]);
    // The high-z actor is spawned first; the sort must still put it on top.
    game.spawn_actor(EntityType::Mario, &front, 200, 0, 0).unwrap();
    game.spawn_actor(EntityType::Goomba, &back, 3, 0, 0).unwrap();
    let mut win = Window::new(2, 2);
    win.render_frame(&game);
    assert_eq!(glyph_at(&win, 0, 0), b'F');
}

#[test]
fn culling_excludes_boundary_includes_inside() {
    // An actor whose cell position is exactly the display width is
    // dropped; at width - 1 it is drawn.
    let width: u16 = 8;
    let height: u16 = 4;
    let sprite = raster(&[&[b'#', b'#'], &[b'#', b'#']]);

    let mut outside = Game::new();
    outside
        .spawn_actor(EntityType::Mushroom, &sprite, 0, cells(width as i32), 0)
        .unwrap();
    let mut win = Window::new(width, height);
    win.render_frame(&outside);
    for y in 0..height {
        for x in 0..width {
            assert_eq!(glyph_at(&win, x, y), BLANK_GLYPH);
        }
    }

    let mut inside = Game::new();
    inside
        .spawn_actor(EntityType::Mushroom, &sprite, 0, cells(width as i32 - 1), 0)
        .unwrap();
    win.render_frame(&inside);
    // The sprite's first column lands on the last display column; its
    // second column falls off the edge and is clipped.
    assert_eq!(glyph_at(&win, width - 1, 0), b'#');
    assert_eq!(glyph_at(&win, width - 1, 1), b'#');
    assert_eq!(glyph_at(&win, width - 2, 0), BLANK_GLYPH);
}

#[test]
fn negative_position_is_culled() {
    let mut game = Game::new();
    let sprite = raster(&[&[b'#', b'#'], &[b'#', b'#']]);
    game.spawn_actor(EntityType::Mushroom, &sprite, 0, cells(-1), 0).unwrap();
    let mut win = Window::new(4, 4);
    win.render_frame(&game);
    for y in 0..4u16 {
        for x in 0..4u16 {
            assert_eq!(glyph_at(&win, x, y), BLANK_GLYPH);
        }
    }
}

#[test]
fn on_update_moves_actor_and_renders() {
    let mut game = Game::new();
    let sprite = raster(&[&[b'm', b'm'], &[b'm', b'm']]);
    game.spawn_actor(EntityType::Mushroom, &sprite, 0, 0, 0).unwrap();
    let mut win = Window::new(4, 4);
    let delta: u128 = 16;
    game.on_update(&mut win, &delta);
    // One update step drifts the mushroom one sub-cell to the right;
    // that still rounds to cell 0.
    assert_eq!(game.actor_list[0].props.x_pos, 1);
    assert_eq!(glyph_at(&win, 0, 0), b'm');
    // Five steps in total round to the next cell.
    for _ in 0..4 {
        game.on_update(&mut win, &delta);
    }
    assert_eq!(game.actor_list[0].props.x_pos, 5);
    win.render_frame(&game);
    assert_eq!(glyph_at(&win, 0, 0), BLANK_GLYPH);
    assert_eq!(glyph_at(&win, 1, 0), b'm');
}

#[test]
fn clear_and_resize_blank_the_buffers() {
    let mut game = Game::new();
    let sprite = raster(&[&[b'z', b'z'], &[b'z', b'z']]);
    game.spawn_actor(EntityType::Lakitu, &sprite, 0, 0, 0).unwrap();
    let mut win = Window::new(4, 2);
    win.render_frame(&game);
    assert_eq!(glyph_at(&win, 0, 0), b'z');
    win.clear();
    assert_eq!(glyph_at(&win, 0, 0), BLANK_GLYPH);
    win.resize(6, 3);
    assert_eq!(win.width(), 6);
    assert_eq!(win.height(), 3);
    assert_eq!(win.glyph_buf().len(), 18);
    assert_eq!(win.color_buf().len(), 18);
    assert!(win.glyph_buf().iter().all(|&g| g == BLANK_GLYPH));
}

#[test]
fn partial_offscreen_sprite_is_clipped_not_dropped() {
    // The origin is on screen, so the actor is drawn; cells past the
    // right edge simply do not exist.
    let mut game = Game::new();
    let sprite = raster(&[
        &[b'1', b'2', b'3', b'4'],
        &[b'5', b'6', b'7', b'8'],
    ]);
    game.spawn_actor(EntityType::Bowser, &sprite, 0, cells(2), 0).unwrap();
    let mut win = Window::new(4, 2);
    win.render_frame(&game);
    assert_eq!(glyph_at(&win, 2, 0), b'1');
    assert_eq!(glyph_at(&win, 3, 0), b'2');
    assert_eq!(glyph_at(&win, 2, 1), b'5');
    assert_eq!(glyph_at(&win, 3, 1), b'6');
    assert_eq!(glyph_at(&win, 0, 0), BLANK_GLYPH);
}

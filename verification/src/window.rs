use vstd::prelude::*;

verus! {

use crate::ascii_bros::Color;
use crate::actor::{cell_of, cell_of_pos, Actor, ActorProps};
use crate::actor::sprite::{
    block_content,
    blocks_of,
    raster_check,
    register_blocks,
    lemma_register_blocks,
    sprite_decodes,
    Sprite,
    ValidationError,
};
use crate::actor::sprite::tile::{Tile, STRIDE};
use crate::game::{atlas_contents, dedup_ok, sprite_wf, Game};
use vstd::arithmetic::div_mod::{lemma_fundamental_div_mod, lemma_fundamental_div_mod_converse};

/// The glyph a cleared cell shows: a blank space.
pub const BLANK_GLYPH: u8 = 32;

/// The color attribute a cleared cell carries.
pub open spec fn blank_color() -> Color {
    Color(0)
}

/// A buffer of `n` blank glyphs.
pub open spec fn blank_glyphs(n: nat) -> Seq<u8> {
    Seq::new(n, |i: int| BLANK_GLYPH)
}

/// A buffer of `n` blank color attributes.
pub open spec fn blank_colors(n: nat) -> Seq<Color> {
    Seq::new(n, |i: int| blank_color())
}

/// Whether an actor's rounded cell position lies on a `width × height`
/// display; actors whose origin falls outside are culled for the frame.
pub open spec fn in_view(props: ActorProps, width: int, height: int) -> bool {
    &&& 0 <= cell_of(props.x_pos as int) < width
    &&& 0 <= cell_of(props.y_pos as int) < height
}

/// The glyph sprite `s` shows at its local cell `(u, v)`: cell coordinates
/// select the stride-square block, and the row-major position within the
/// block selects the byte of that block's tile.
pub open spec fn sprite_glyph(s: Sprite, atlas: Seq<Tile>, u: int, v: int) -> u8 {
    atlas[s.tile_ids@[(v / 2) * (s.width as int / 2) + u / 2] as int].pix_buf@[(v % 2) * 2 + u % 2]
}

/// The color sprite `s` carries at its local cell `(u, v)`, parallel to
/// [`sprite_glyph`].
pub open spec fn sprite_color(s: Sprite, atlas: Seq<Tile>, u: int, v: int) -> Color {
    atlas[s.tile_ids@[(v / 2) * (s.width as int / 2) + u / 2] as int].color_buf@[(v % 2) * 2 + u
        % 2]
}

/// One actor blitted over a frame: every display cell its sprite covers
/// takes the sprite's glyph and color, all other cells keep their prior
/// contents. Cells the sprite would cover beyond the display edge do not
/// exist on screen and are simply not drawn.
pub open spec fn blit_actor_model(
    bufs: (Seq<u8>, Seq<Color>),
    a: Actor,
    atlas: Seq<Tile>,
    width: int,
) -> (Seq<u8>, Seq<Color>) {
    let ox = cell_of(a.props.x_pos as int);
    let oy = cell_of(a.props.y_pos as int);
    let s = a.props.sprite;
    (
        Seq::new(
            bufs.0.len(),
            |idx: int|
                {
                    let x = idx % width;
                    let y = idx / width;
                    if ox <= x < ox + s.width && oy <= y < oy + s.height {
                        sprite_glyph(s, atlas, x - ox, y - oy)
                    } else {
                        bufs.0[idx]
                    }
                },
        ),
        Seq::new(
            bufs.1.len(),
            |idx: int|
                {
                    let x = idx % width;
                    let y = idx / width;
                    if ox <= x < ox + s.width && oy <= y < oy + s.height {
                        sprite_color(s, atlas, x - ox, y - oy)
                    } else {
                        bufs.1[idx]
                    }
                },
        ),
    )
}

/// Painter's algorithm over an ordered actor sequence: earlier actors are
/// drawn first, later ones overwrite them cell by cell.
pub open spec fn paint_actors(
    bufs: (Seq<u8>, Seq<Color>),
    actors: Seq<Actor>,
    atlas: Seq<Tile>,
    width: int,
) -> (Seq<u8>, Seq<Color>)
    decreases actors.len(),
{
    if actors.len() == 0 {
        bufs
    } else {
        blit_actor_model(
            paint_actors(bufs, actors.drop_last(), atlas, width),
            actors.last(),
            atlas,
            width,
        )
    }
}

/// The actors that survive culling, in source order.
pub open spec fn culled(actors: Seq<Actor>, width: int, height: int) -> Seq<Actor> {
    actors.filter(|a: Actor| in_view(a.props, width, height))
}

/// The position of the first actor in `s` whose z priority exceeds `z`,
/// or `s.len()` if there is none.
pub open spec fn first_above(s: Seq<Actor>, z: int) -> int
    decreases s.len(),
{
    if s.len() == 0 {
        0
    } else if s[0].props.sprite.z_order > z {
        0
    } else {
        1 + first_above(s.drop_first(), z)
    }
}

/// What [`first_above`] returns: everything before it has z at most `z`,
/// and the entry at it (if any) has z strictly above `z`.
pub proof fn lemma_first_above(s: Seq<Actor>, z: int)
    ensures
        0 <= first_above(s, z) <= s.len(),
        forall|k: int| 0 <= k < first_above(s, z) ==> (#[trigger] s[k]).props.sprite.z_order <= z,
        first_above(s, z) < s.len() ==> s[first_above(s, z)].props.sprite.z_order > z,
    decreases s.len(),
{
    if s.len() == 0 {
    } else if s[0].props.sprite.z_order > z {
    } else {
        lemma_first_above(s.drop_first(), z);
        assert(forall|k: int| 1 <= k < s.len() ==> s[k] == s.drop_first()[k - 1]);
    }
}

/// The drawing order really is ordered: z priorities ascend along
/// [`sort_by_z`]'s output, so higher-z actors are always drawn later.
pub proof fn lemma_sort_by_z_sorted(s: Seq<Actor>)
    ensures
        sort_by_z(s).len() == s.len(),
        forall|i: int, j: int|
            0 <= i <= j < s.len() ==> (#[trigger] sort_by_z(s)[i]).props.sprite.z_order <= (
            #[trigger] sort_by_z(s)[j]).props.sprite.z_order,
    decreases s.len(),
{
    if s.len() == 0 {
    } else {
        lemma_sort_by_z_sorted(s.drop_last());
        let sorted = sort_by_z(s.drop_last());
        let a = s.last();
        let z = a.props.sprite.z_order as int;
        lemma_first_above(sorted, z);
        let p = first_above(sorted, z);
        let result = insert_by_z(sorted, a);
        assert forall|i: int, j: int| 0 <= i <= j < result.len() implies (
        #[trigger] result[i]).props.sprite.z_order <= (
        #[trigger] result[j]).props.sprite.z_order by {
            if i < p {
                assert(result[i] == sorted[i]);
            }
            if j < p {
                assert(result[j] == sorted[j]);
            }
            if i > p {
                assert(result[i] == sorted[i - 1]);
            }
            if j > p {
                assert(result[j] == sorted[j - 1]);
                if i <= p {
                    assert(sorted[p].props.sprite.z_order <= sorted[j - 1].props.sprite.z_order);
                }
            }
        }
    }
}

/// The drawing order is a permutation of the culled actors: sorting
/// loses none and invents none.
pub proof fn lemma_sort_by_z_permutes(s: Seq<Actor>)
    ensures
        sort_by_z(s).to_multiset() == s.to_multiset(),
    decreases s.len(),
{
    broadcast use vstd::seq_lib::to_multiset_build;
    broadcast use vstd::seq_lib::to_multiset_insert;

    if s.len() == 0 {
    } else {
        lemma_sort_by_z_permutes(s.drop_last());
        let sorted = sort_by_z(s.drop_last());
        let a = s.last();
        let z = a.props.sprite.z_order as int;
        lemma_first_above(sorted, z);
        let p = first_above(sorted, z);
        assert(insert_by_z(sorted, a) =~= sorted.insert(p, a));
        assert(sorted.insert(p, a).to_multiset() == sorted.to_multiset().insert(a));
        assert(s.drop_last().push(a) =~= s);
        assert(s.drop_last().push(a).to_multiset() == s.drop_last().to_multiset().insert(a));
    }
}

/// Stable insertion by z: the new actor goes after every actor whose z is
/// at most its own, and before the first strictly higher one.
pub open spec fn insert_by_z(s: Seq<Actor>, a: Actor) -> Seq<Actor> {
    let p = first_above(s, a.props.sprite.z_order as int);
    s.take(p) + seq![a] + s.skip(p)
}

/// Stable sort by ascending z: actors are inserted in source order, each
/// after all its z peers, so actors of equal z keep their relative order.
pub open spec fn sort_by_z(s: Seq<Actor>) -> Seq<Actor>
    decreases s.len(),
{
    if s.len() == 0 {
        s
    } else {
        insert_by_z(sort_by_z(s.drop_last()), s.last())
    }
}

/// The actor sequence a borrowed draw list stands for.
pub open spec fn actors_of(s: Seq<&Actor>) -> Seq<Actor> {
    s.map_values(|r: &Actor| *r)
}

/// The frame a game state produces on a `width × height` display: a blank
/// background, over which the culled actors are painted in stable
/// ascending z order.
pub open spec fn frame_model(game: crate::game::Game, width: int, height: int) -> (
    Seq<u8>,
    Seq<Color>,
) {
    paint_actors(
        (blank_glyphs((width * height) as nat), blank_colors((width * height) as nat)),
        sort_by_z(culled(game.actor_list@, width, height)),
        game.tile_atlas@,
        width,
    )
}

/// A display never has more cells than a `usize` can count: both sides
/// are at most `u16::MAX`, so the product fits even a 32-bit address
/// space.
proof fn lemma_display_cells_fit(width: int, height: int)
    requires
        0 <= width <= 0xFFFF,
        0 <= height <= 0xFFFF,
    ensures
        width * height <= 0xFFFF * 0xFFFF,
        width * height == height * width,
{
    assert(width * height <= 0xFFFF * 0xFFFF && width * height == height * width)
        by (nonlinear_arith)
        requires
            0 <= width <= 0xFFFF,
            0 <= height <= 0xFFFF,
    ;
}

/// Whether an actor can be handed to the blit stage: its origin lies on
/// the display and its sprite is consistent with the atlas.
spec fn drawable(a: Actor, atlas_len: int, width: int, height: int) -> bool {
    &&& in_view(a.props, width, height)
    &&& sprite_wf(a.props.sprite, atlas_len)
}

/// Which display cells a partial blit of one actor has already written:
/// those the sprite covers whose local row lies before `v`, or on row `v`
/// before column `u`.
spec fn cell_drawn(
    idx: int,
    width: int,
    ox: int,
    oy: int,
    sw: int,
    sh: int,
    v: int,
    u: int,
) -> bool {
    let x = idx % width;
    let y = idx / width;
    &&& ox <= x < ox + sw
    &&& oy <= y < oy + sh
    &&& (y - oy < v || (y - oy == v && x - ox < u))
}

pub struct Window {
    /// The height of the window being rendered (not necessarily the height
    /// of the terminal).
    height: u16,
    /// The width of the window being rendered (not necessarily the width
    /// of the terminal).
    width: u16,
    /// Color data for each cell of `fg_frame_buf`.
    color_buf: Vec<Color>,
    /// The glyphs to print when rendering the foreground.
    fg_frame_buf: Vec<u8>,
    /// The glyphs of the constant blank background the foreground is
    /// cleared from.
    bg_frame_buf: Vec<u8>,
}

impl Window {
    /// The window's buffers always span exactly `width × height` cells,
    /// and the background layer is all blanks.
    pub closed spec fn wf(self) -> bool {
        &&& self.fg_frame_buf@.len() == self.width as int * self.height as int
        &&& self.color_buf@.len() == self.width as int * self.height as int
        &&& self.bg_frame_buf@ == blank_glyphs((self.width as int * self.height as int) as nat)
    }

    pub closed spec fn spec_width(self) -> u16 {
        self.width
    }

    pub closed spec fn spec_height(self) -> u16 {
        self.height
    }

    /// The composited glyph of each cell, row-major.
    pub closed spec fn glyphs(self) -> Seq<u8> {
        self.fg_frame_buf@
    }

    /// The composited color of each cell, row-major.
    pub closed spec fn colors(self) -> Seq<Color> {
        self.color_buf@
    }

    /// A window of the given dimensions with cleared buffers.
    pub fn new(width: u16, height: u16) -> (win: Self)
        ensures
            win.wf(),
            win.spec_width() == width,
            win.spec_height() == height,
            win.glyphs() == blank_glyphs((width as int * height as int) as nat),
            win.colors() == blank_colors((width as int * height as int) as nat),
    {
        proof {
            lemma_display_cells_fit(width as int, height as int);
        }
        let cells: usize = (width as usize) * (height as usize);
        let win = Window {
            height,
            width,
            color_buf: fill_colors(cells, Color(0)),
            fg_frame_buf: fill_bytes(cells, BLANK_GLYPH),
            bg_frame_buf: fill_bytes(cells, BLANK_GLYPH),
        };
        proof {
            assert(win.fg_frame_buf@ =~= blank_glyphs((width as int * height as int) as nat));
            assert(win.bg_frame_buf@ =~= blank_glyphs((width as int * height as int) as nat));
            assert(win.color_buf@ =~= blank_colors((width as int * height as int) as nat));
        }
        win
    }

    pub fn width(&self) -> (w: u16)
        ensures
            w == self.spec_width(),
    {
        self.width
    }

    pub fn height(&self) -> (h: u16)
        ensures
            h == self.spec_height(),
    {
        self.height
    }

    /// The composited glyph buffer, for the display collaborator to print.
    pub fn glyph_buf(&self) -> (buf: &Vec<u8>)
        ensures
            buf@ == self.glyphs(),
    {
        &self.fg_frame_buf
    }

    /// The composited color buffer, parallel to [`Window::glyph_buf`].
    pub fn color_buf(&self) -> (buf: &Vec<Color>)
        ensures
            buf@ == self.colors(),
    {
        &self.color_buf
    }

    /// Resets the foreground to the blank background and the colors to the
    /// blank attribute.
    pub fn clear(&mut self)
        requires
            old(self).wf(),
        ensures
            final(self).wf(),
            final(self).spec_width() == old(self).spec_width(),
            final(self).spec_height() == old(self).spec_height(),
            final(self).glyphs() == blank_glyphs(old(self).glyphs().len()),
            final(self).colors() == blank_colors(old(self).colors().len()),
    {
        let glyph_cells: usize = self.fg_frame_buf.len();
        let color_cells: usize = self.color_buf.len();
        self.fg_frame_buf = fill_bytes(glyph_cells, BLANK_GLYPH);
        self.color_buf = fill_colors(color_cells, Color(0));
        proof {
            assert(self.fg_frame_buf@ =~= blank_glyphs(old(self).fg_frame_buf@.len()));
            assert(self.color_buf@ =~= blank_colors(old(self).color_buf@.len()));
        }
    }

    /// Adopts new display dimensions (after a terminal resize event) and
    /// clears the buffers to match.
    pub fn resize(&mut self, width: u16, height: u16)
        ensures
            final(self).wf(),
            final(self).spec_width() == width,
            final(self).spec_height() == height,
            final(self).glyphs() == blank_glyphs((width as int * height as int) as nat),
            final(self).colors() == blank_colors((width as int * height as int) as nat),
    {
        proof {
            lemma_display_cells_fit(width as int, height as int);
        }
        let cells: usize = (width as usize) * (height as usize);
        self.width = width;
        self.height = height;
        self.fg_frame_buf = fill_bytes(cells, BLANK_GLYPH);
        self.color_buf = fill_colors(cells, Color(0));
        self.bg_frame_buf = fill_bytes(cells, BLANK_GLYPH);
        proof {
            assert(self.fg_frame_buf@ =~= blank_glyphs((width as int * height as int) as nat));
            assert(self.bg_frame_buf@ =~= blank_glyphs((width as int * height as int) as nat));
            assert(self.color_buf@ =~= blank_colors((width as int * height as int) as nat));
        }
    }

    /// Composites one frame from the current actors and the shared atlas:
    /// clears the buffers, culls the actors to those whose rounded cell
    /// position lies on the display, stable-sorts the survivors by
    /// ascending z and paints them in that order, later actors
    /// overwriting earlier ones cell by cell.
    pub fn render_frame(&mut self, game: &crate::game::Game)
        requires
            old(self).wf(),
            game.wf(),
        ensures
            final(self).wf(),
            final(self).spec_width() == old(self).spec_width(),
            final(self).spec_height() == old(self).spec_height(),
            (final(self).glyphs(), final(self).colors()) == frame_model(
                *game,
                old(self).spec_width() as int,
                old(self).spec_height() as int,
            ),
    {
        let ghost w = old(self).spec_width() as int;
        let ghost h = old(self).spec_height() as int;
        let ghost atlas_len = game.tile_atlas@.len() as int;
        self.clear();
        let ghost cleared = *self;
        let width_limit: i32 = self.width as i32;
        let height_limit: i32 = self.height as i32;

        // Cull: keep the actors whose rounded origin is on the display.
        let mut draw_list: Vec<&Actor> = Vec::new();
        let n_actors: usize = game.actor_list.len();
        let mut i: usize = 0;
        while i < n_actors
            invariant
                *self == cleared,
                game.wf(),
                n_actors == game.actor_list@.len(),
                i <= n_actors,
                width_limit == w,
                height_limit == h,
                atlas_len == game.tile_atlas@.len() as int,
                actors_of(draw_list@) == culled(game.actor_list@.take(i as int), w, h),
                forall|k: int|
                    0 <= k < draw_list@.len() ==> drawable(
                        #[trigger] actors_of(draw_list@)[k],
                        atlas_len,
                        w,
                        h,
                    ),
            decreases n_actors - i,
        {
            let actor = &game.actor_list[i];
            let cx: i32 = cell_of_pos(actor.props.x_pos);
            let cy: i32 = cell_of_pos(actor.props.y_pos);
            let ghost prev = draw_list@;
            if cx >= 0 && cy >= 0 && cx < width_limit && cy < height_limit {
                draw_list.push(actor);
            }
            proof {
                reveal(Seq::filter);
                assert(game.actor_list@.take(i as int + 1).drop_last() =~= game.actor_list@.take(
                    i as int,
                ));
                assert(game.actor_list@.take(i as int + 1).last() == game.actor_list@[i as int]);
                if in_view(game.actor_list@[i as int].props, w, h) {
                    assert(actors_of(draw_list@) =~= actors_of(prev).push(
                        game.actor_list@[i as int],
                    ));
                    assert(sprite_wf(game.actor_list@[i as int].props.sprite, atlas_len));
                } else {
                    assert(actors_of(draw_list@) == actors_of(prev));
                }
                assert(actors_of(draw_list@) == culled(game.actor_list@.take(i as int + 1), w, h));
            }
            i = i + 1;
        }
        proof {
            assert(game.actor_list@.take(n_actors as int) =~= game.actor_list@);
        }
        let ghost ds = actors_of(draw_list@);

        // Order: stable insertion sort by ascending z.
        let mut render_batch: Vec<&Actor> = Vec::new();
        let mut t: usize = 0;
        while t < draw_list.len()
            invariant
                *self == cleared,
                game.wf(),
                atlas_len == game.tile_atlas@.len() as int,
                t <= draw_list@.len(),
                ds == actors_of(draw_list@),
                render_batch@.len() == t,
                actors_of(render_batch@) == sort_by_z(ds.take(t as int)),
                forall|k: int|
                    0 <= k < draw_list@.len() ==> drawable(
                        #[trigger] actors_of(draw_list@)[k],
                        atlas_len,
                        w,
                        h,
                    ),
                forall|k: int|
                    0 <= k < render_batch@.len() ==> drawable(
                        #[trigger] actors_of(render_batch@)[k],
                        atlas_len,
                        w,
                        h,
                    ),
            decreases draw_list@.len() - t,
        {
            let actor: &Actor = draw_list[t];
            let z: u8 = actor.props.sprite.z_order;
            let batch_len: usize = render_batch.len();
            let mut p: usize = 0;
            while p < batch_len && render_batch[p].props.sprite.z_order <= z
                invariant
                    batch_len == render_batch@.len(),
                    p <= batch_len,
                    forall|k: int|
                        0 <= k < p ==> (#[trigger] actors_of(
                            render_batch@,
                        )[k]).props.sprite.z_order <= z,
                decreases batch_len - p,
            {
                proof {
                    assert(actors_of(render_batch@)[p as int] == *render_batch@[p as int]);
                }
                p = p + 1;
            }
            proof {
                let batch = actors_of(render_batch@);
                lemma_first_above(batch, z as int);
                let f = first_above(batch, z as int);
                if (p as int) < f {
                    assert(batch[p as int].props.sprite.z_order <= z);
                    assert(batch[p as int] == *render_batch@[p as int]);
                    assert(false);
                }
                if f < p as int {
                    assert(batch[f].props.sprite.z_order > z);
                    assert(false);
                }
            }
            let ghost prev_batch = actors_of(render_batch@);
            render_batch.insert(p, actor);
            proof {
                assert(actors_of(render_batch@) =~= insert_by_z(prev_batch, *actor));
                assert(ds.take(t as int + 1).drop_last() =~= ds.take(t as int));
                assert(ds.take(t as int + 1).last() == ds[t as int]);
                assert(ds[t as int] == *draw_list@[t as int]);
                assert(actors_of(render_batch@) == sort_by_z(ds.take(t as int + 1)));
                assert forall|k: int| 0 <= k < render_batch@.len() implies drawable(
                    #[trigger] actors_of(render_batch@)[k],
                    atlas_len,
                    w,
                    h,
                ) by {
                    if k < p as int {
                        assert(actors_of(render_batch@)[k] == prev_batch[k]);
                    } else if k == p as int {
                        assert(actors_of(render_batch@)[k] == *actor);
                        assert(drawable(ds[t as int], atlas_len, w, h));
                    } else {
                        assert(actors_of(render_batch@)[k] == prev_batch[k - 1]);
                    }
                }
            }
            t = t + 1;
        }
        proof {
            assert(ds.take(draw_list@.len() as int) =~= ds);
        }
        let ghost sorted = actors_of(render_batch@);

        // Blit: painter's algorithm over the ordered batch.
        let ghost base = (
            blank_glyphs((w * h) as nat),
            blank_colors((w * h) as nat),
        );
        proof {
            assert(self.glyphs() =~= base.0);
            assert(self.colors() =~= base.1);
            assert(sorted.take(0) =~= Seq::<Actor>::empty());
        }
        let batch_count: usize = render_batch.len();
        let mut q: usize = 0;
        while q < batch_count
            invariant
                self.wf(),
                self.spec_width() == cleared.spec_width(),
                self.spec_height() == cleared.spec_height(),
                w == cleared.spec_width() as int,
                h == cleared.spec_height() as int,
                game.wf(),
                atlas_len == game.tile_atlas@.len() as int,
                batch_count == render_batch@.len(),
                q <= batch_count,
                sorted == actors_of(render_batch@),
                base == (blank_glyphs((w * h) as nat), blank_colors((w * h) as nat)),
                (self.glyphs(), self.colors()) == paint_actors(
                    base,
                    sorted.take(q as int),
                    game.tile_atlas@,
                    w,
                ),
                forall|k: int|
                    0 <= k < render_batch@.len() ==> drawable(
                        #[trigger] actors_of(render_batch@)[k],
                        atlas_len,
                        w,
                        h,
                    ),
            decreases batch_count - q,
        {
            let actor: &Actor = render_batch[q];
            proof {
                assert(actors_of(render_batch@)[q as int] == *render_batch@[q as int]);
                assert(drawable(*actor, atlas_len, w, h));
            }
            self.blit_actor(actor, &game.tile_atlas);
            proof {
                assert(sorted.take(q as int + 1).drop_last() =~= sorted.take(q as int));
                assert(sorted.take(q as int + 1).last() == sorted[q as int]);
            }
            q = q + 1;
        }
        proof {
            assert(sorted.take(batch_count as int) =~= sorted);
            assert(sorted == sort_by_z(culled(game.actor_list@, w, h)));
        }
    }

    /// Draws one actor's sprite onto the frame, cell by cell; cells beyond
    /// the display edge are skipped.
    fn blit_actor(&mut self, actor: &Actor, tile_atlas: &Vec<Tile>)
        requires
            old(self).wf(),
            in_view(actor.props, old(self).spec_width() as int, old(self).spec_height() as int),
            sprite_wf(actor.props.sprite, tile_atlas@.len() as int),
        ensures
            final(self).wf(),
            final(self).spec_width() == old(self).spec_width(),
            final(self).spec_height() == old(self).spec_height(),
            (final(self).glyphs(), final(self).colors()) == blit_actor_model(
                (old(self).glyphs(), old(self).colors()),
                *actor,
                tile_atlas@,
                old(self).spec_width() as int,
            ),
    {
        let ghost target = blit_actor_model(
            (old(self).glyphs(), old(self).colors()),
            *actor,
            tile_atlas@,
            old(self).spec_width() as int,
        );
        let width_cells: usize = self.width as usize;
        let height_cells: usize = self.height as usize;
        let ox: usize = cell_of_pos(actor.props.x_pos) as usize;
        let oy: usize = cell_of_pos(actor.props.y_pos) as usize;
        let sw: usize = actor.props.sprite.width;
        let sh: usize = actor.props.sprite.height;
        let ghost w = old(self).spec_width() as int;
        let mut v: usize = 0;
        while v < sh
            invariant
                self.wf(),
                old(self).wf(),
                self.width == old(self).width,
                self.height == old(self).height,
                width_cells == self.width as int,
                height_cells == self.height as int,
                w == self.width as int,
                ox == cell_of(actor.props.x_pos as int),
                oy == cell_of(actor.props.y_pos as int),
                ox < width_cells,
                oy < height_cells,
                sw == actor.props.sprite.width,
                sh == actor.props.sprite.height,
                sprite_wf(actor.props.sprite, tile_atlas@.len() as int),
                target == blit_actor_model(
                    (old(self).glyphs(), old(self).colors()),
                    *actor,
                    tile_atlas@,
                    w,
                ),
                v <= sh,
                forall|idx: int|
                    0 <= idx < self.fg_frame_buf@.len() ==> #[trigger] self.fg_frame_buf@[idx]
                        == if cell_drawn(idx, w, ox as int, oy as int, sw as int, sh as int, v as int, 0) {
                        target.0[idx]
                    } else {
                        old(self).fg_frame_buf@[idx]
                    },
                forall|idx: int|
                    0 <= idx < self.color_buf@.len() ==> #[trigger] self.color_buf@[idx]
                        == if cell_drawn(idx, w, ox as int, oy as int, sw as int, sh as int, v as int, 0) {
                        target.1[idx]
                    } else {
                        old(self).color_buf@[idx]
                    },
            decreases sh - v,
        {
            let mut u: usize = 0;
            while u < sw
                invariant
                    self.wf(),
                    old(self).wf(),
                    self.width == old(self).width,
                    self.height == old(self).height,
                    width_cells == self.width as int,
                    height_cells == self.height as int,
                    w == self.width as int,
                    ox == cell_of(actor.props.x_pos as int),
                    oy == cell_of(actor.props.y_pos as int),
                    ox < width_cells,
                    oy < height_cells,
                    sw == actor.props.sprite.width,
                    sh == actor.props.sprite.height,
                    sprite_wf(actor.props.sprite, tile_atlas@.len() as int),
                    target == blit_actor_model(
                        (old(self).glyphs(), old(self).colors()),
                        *actor,
                        tile_atlas@,
                        w,
                    ),
                    v < sh,
                    u <= sw,
                    forall|idx: int|
                        0 <= idx < self.fg_frame_buf@.len() ==> #[trigger] self.fg_frame_buf@[idx]
                            == if cell_drawn(idx, w, ox as int, oy as int, sw as int, sh as int, v as int, u as int) {
                            target.0[idx]
                        } else {
                            old(self).fg_frame_buf@[idx]
                        },
                    forall|idx: int|
                        0 <= idx < self.color_buf@.len() ==> #[trigger] self.color_buf@[idx]
                            == if cell_drawn(idx, w, ox as int, oy as int, sw as int, sh as int, v as int, u as int) {
                            target.1[idx]
                        } else {
                            old(self).color_buf@[idx]
                        },
                decreases sw - u,
            {
                if u < width_cells - ox && v < height_cells - oy {
                    let x: usize = ox + u;
                    let y: usize = oy + v;
                    proof {
                        assert(v as int / 2 < sh as int / 2) by {
                            assert(2 * (sh as int / 2) == sh as int);
                        }
                        assert(u as int / 2 < sw as int / 2) by {
                            assert(2 * (sw as int / 2) == sw as int);
                        }
                        assert((v as int / 2) * (sw as int / 2) + (u as int / 2) < (sh as int / 2)
                            * (sw as int / 2)) by (nonlinear_arith)
                            requires
                                0 <= (v as int / 2) && (v as int / 2) < (sh as int / 2),
                                0 <= (u as int / 2) && (u as int / 2) < (sw as int / 2),
                        ;
                    }
                    let n_tiles: usize = actor.props.sprite.tile_ids.len();
                    proof {
                        assert(n_tiles as int == (sh as int / 2) * (sw as int / 2));
                    }
                    let n_tile: usize = (v / STRIDE) * (sw / STRIDE) + (u / STRIDE);
                    let tid = actor.props.sprite.tile_ids[n_tile];
                    proof {
                        assert(actor.props.sprite.tile_ids@[n_tile as int] < tile_atlas@.len());
                    }
                    let tile = &tile_atlas[tid as usize];
                    let k: usize = (v % STRIDE) * STRIDE + (u % STRIDE);
                    let glyph: u8 = tile.pix_buf.get(k);
                    let color: Color = tile.color_buf[k];
                    let cell_count: usize = self.fg_frame_buf.len();
                    proof {
                        assert((y as int) * w + (x as int) < (height_cells as int) * w
                            && (height_cells as int) * w == w * (height_cells as int))
                            by (nonlinear_arith)
                            requires
                                0 <= (y as int) && (y as int) < (height_cells as int),
                                0 <= (x as int) && (x as int) < w,
                        ;
                        assert(cell_count as int == w * (height_cells as int));
                    }
                    let idx: usize = y * width_cells + x;
                    self.fg_frame_buf.set(idx, glyph);
                    self.color_buf.set(idx, color);
                    proof {
                        lemma_fundamental_div_mod_converse(idx as int, w, y as int, x as int);
                        assert(target.0[idx as int] == sprite_glyph(
                            actor.props.sprite,
                            tile_atlas@,
                            u as int,
                            v as int,
                        ));
                        assert(glyph == target.0[idx as int]);
                        assert(color == target.1[idx as int]);
                        assert forall|idx2: int|
                            0 <= idx2 < self.fg_frame_buf@.len() && idx2 != idx as int implies
                            (cell_drawn(idx2, w, ox as int, oy as int, sw as int, sh as int, v as int, u as int + 1)
                            == cell_drawn(idx2, w, ox as int, oy as int, sw as int, sh as int, v as int, u as int)) by {
                            if idx2 % w - ox as int == u as int && idx2 / w - oy as int
                                == v as int {
                                lemma_fundamental_div_mod(idx2, w);
                                assert(w * (idx2 / w) == (idx2 / w) * w) by (nonlinear_arith);
                            }
                        }
                    }
                } else {
                    proof {
                        assert forall|idx2: int| 0 <= idx2 < self.fg_frame_buf@.len() implies
                            (cell_drawn(idx2, w, ox as int, oy as int, sw as int, sh as int, v as int, u as int + 1)
                            == cell_drawn(idx2, w, ox as int, oy as int, sw as int, sh as int, v as int, u as int)) by {
                            if idx2 % w - ox as int == u as int && idx2 / w - oy as int
                                == v as int {
                                assert(idx2 % w < w);
                                assert(0 <= idx2 / w < height_cells as int) by {
                                    assert(self.fg_frame_buf@.len() == w * height_cells as int);
                                    assert(w * (height_cells as int) == (height_cells as int) * w)
                                        by (nonlinear_arith);
                                    lemma_fundamental_div_mod(idx2, w);
                                    if idx2 / w >= height_cells as int {
                                        assert(idx2 >= (height_cells as int) * w)
                                            by (nonlinear_arith)
                                            requires
                                                idx2 / w >= height_cells as int,
                                                w > 0,
                                                idx2 % w >= 0,
                                                idx2 == w * (idx2 / w) + idx2 % w,
                                        ;
                                    }
                                }
                            }
                        }
                    }
                }
                u = u + 1;
            }
            proof {
                assert forall|idx2: int| 0 <= idx2 < self.fg_frame_buf@.len() implies
                    (cell_drawn(idx2, w, ox as int, oy as int, sw as int, sh as int, v as int + 1, 0)
                    == cell_drawn(idx2, w, ox as int, oy as int, sw as int, sh as int, v as int, sw as int)) by {
                }
            }
            v = v + 1;
        }
        proof {
            assert(self.fg_frame_buf@ =~= target.0);
            assert(self.color_buf@ =~= target.1);
        }
    }
}

/// Round trip of decomposition and compositing: a sprite decoded from a
/// valid raster and composited alone at the origin of a display of
/// exactly the raster's size reproduces the raster's glyphs cell for
/// cell.
pub proof fn lemma_round_trip(before: Seq<Tile>, game: Game, rows: Seq<Seq<u8>>, a: Actor)
    requires
        dedup_ok(atlas_contents(before)),
        raster_check(rows) == Ok::<(), ValidationError>(()),
        sprite_decodes(a.props.sprite, before, game.tile_atlas@, rows),
        game.actor_list@ == seq![a],
        cell_of(a.props.x_pos as int) == 0,
        cell_of(a.props.y_pos as int) == 0,
    ensures
        forall|x: int, y: int|
            0 <= x < a.props.sprite.width && 0 <= y < a.props.sprite.height ==> frame_model(
                game,
                a.props.sprite.width as int,
                a.props.sprite.height as int,
            ).0[y * (a.props.sprite.width as int) + x] == rows[y][x],
{
    let s = a.props.sprite;
    let w = s.width as int;
    let h = s.height as int;
    let atlas = game.tile_atlas@;
    let blocks = blocks_of(rows, w);
    let contents0 = atlas_contents(before);
    let r = register_blocks(contents0, blocks);
    lemma_register_blocks(contents0, blocks);
    assert(w > 0 && w % 2 == 0 && h > 0 && h % 2 == 0);
    assert(in_view(a.props, w, h));
    reveal_with_fuel(Seq::filter, 3);
    reveal_with_fuel(sort_by_z, 3);
    reveal_with_fuel(first_above, 3);
    reveal_with_fuel(paint_actors, 3);
    assert(seq![a].drop_last() =~= Seq::<Actor>::empty());
    assert(culled(game.actor_list@, w, h) =~= seq![a]);
    assert(sort_by_z(culled(game.actor_list@, w, h)) =~= seq![a]) by {
        assert(insert_by_z(Seq::<Actor>::empty(), a) =~= seq![a]);
    }
    let base = (blank_glyphs((w * h) as nat), blank_colors((w * h) as nat));
    let frame = frame_model(game, w, h);
    assert(frame == blit_actor_model(base, a, atlas, w));
    assert forall|x: int, y: int| 0 <= x < w && 0 <= y < h implies frame.0[y * w + x]
        == rows[y][x] by {
        assert(0 <= y * w + x && y * w + x < h * w && h * w == w * h) by (nonlinear_arith)
            requires
                0 <= x < w,
                0 <= y < h,
        ;
        let idx = y * w + x;
        lemma_fundamental_div_mod_converse(idx, w, y, x);
        assert(2 * (w / 2) == w && 2 * (h / 2) == h);
        let bw = w / 2;
        assert(0 <= y / 2 && y / 2 < h / 2 && 0 <= x / 2 && x / 2 < bw);
        assert(0 <= (y / 2) * bw + (x / 2) && (y / 2) * bw + (x / 2) < (h / 2) * bw)
            by (nonlinear_arith)
            requires
                0 <= (y / 2) && (y / 2) < (h / 2),
                0 <= (x / 2) && (x / 2) < bw,
        ;
        let n = (y / 2) * bw + (x / 2);
        lemma_fundamental_div_mod_converse(n, bw, y / 2, x / 2);
        assert(blocks[n] == block_content(rows, y / 2, x / 2));
        assert(s.tile_ids@[n] as int == r.1[n]);
        assert(r.0[r.1[n]] == blocks[n]);
        assert(atlas_contents(atlas)[s.tile_ids@[n] as int] == atlas[s.tile_ids@[n]
            as int].pix_buf@);
        let k = (y % 2) * 2 + (x % 2);
        lemma_fundamental_div_mod_converse(k, 2, y % 2, x % 2);
        assert(block_content(rows, y / 2, x / 2)[k] == rows[2 * (y / 2) + k / 2][2 * (x / 2) + k
            % 2]);
        assert(frame.0[idx] == sprite_glyph(s, atlas, x, y));
        assert(sprite_glyph(s, atlas, x, y) == atlas[s.tile_ids@[n] as int].pix_buf@[k]);
        assert(blocks[n][k] == rows[y][x]);
    }
}

/// Z-order tie break: of two overlapping actors with equal z priority,
/// the later list entry keeps its place in the stable order, is drawn
/// last, and so wins every display cell its sprite covers.
pub proof fn lemma_z_tie_break(
    game: Game,
    first: Actor,
    second: Actor,
    w: int,
    h: int,
    x: int,
    y: int,
)
    requires
        game.actor_list@ == seq![first, second],
        first.props.sprite.z_order == second.props.sprite.z_order,
        in_view(first.props, w, h),
        in_view(second.props, w, h),
        0 <= x < w,
        0 <= y < h,
        cell_of(second.props.x_pos as int) <= x < cell_of(second.props.x_pos as int)
            + second.props.sprite.width,
        cell_of(second.props.y_pos as int) <= y < cell_of(second.props.y_pos as int)
            + second.props.sprite.height,
    ensures
        frame_model(game, w, h).0[y * w + x] == sprite_glyph(
            second.props.sprite,
            game.tile_atlas@,
            x - cell_of(second.props.x_pos as int),
            y - cell_of(second.props.y_pos as int),
        ),
{
    let actors = game.actor_list@;
    reveal_with_fuel(Seq::filter, 4);
    reveal_with_fuel(sort_by_z, 4);
    reveal_with_fuel(first_above, 4);
    reveal_with_fuel(paint_actors, 4);
    assert(actors.drop_last() =~= seq![first]);
    assert(seq![first].drop_last() =~= Seq::<Actor>::empty());
    assert(culled(actors, w, h) =~= seq![first, second]);
    let z = second.props.sprite.z_order as int;
    assert(sort_by_z(culled(actors, w, h)) =~= seq![first, second]) by {
        assert(seq![first, second].drop_last() =~= seq![first]);
        assert(sort_by_z(seq![first]) =~= seq![first]) by {
            assert(insert_by_z(Seq::<Actor>::empty(), first) =~= seq![first]);
        }
        assert(first_above(seq![first], z) == 1) by {
            assert(seq![first].drop_first() =~= Seq::<Actor>::empty());
        }
        assert(insert_by_z(seq![first], second) =~= seq![first, second]);
    }
    let base = (blank_glyphs((w * h) as nat), blank_colors((w * h) as nat));
    let under = blit_actor_model(base, first, game.tile_atlas@, w);
    let frame = frame_model(game, w, h);
    assert(seq![first, second].drop_last() =~= seq![first]);
    assert(frame == blit_actor_model(under, second, game.tile_atlas@, w));
    assert(0 <= y * w + x && y * w + x < h * w && h * w == w * h) by (nonlinear_arith)
        requires
            0 <= x < w,
            0 <= y < h,
    ;
    let idx = y * w + x;
    lemma_fundamental_div_mod_converse(idx, w, y, x);
    assert(frame.0[idx] == sprite_glyph(
        second.props.sprite,
        game.tile_atlas@,
        x - cell_of(second.props.x_pos as int),
        y - cell_of(second.props.y_pos as int),
    ));
}

/// Culling keeps exactly the actors whose rounded cell position lies on
/// the display: every survivor is in view, every in-view actor survives,
/// and an actor out of view never reaches the drawing stages.
pub proof fn lemma_culling(actors: Seq<Actor>, w: int, h: int)
    ensures
        forall|k: int|
            0 <= k < culled(actors, w, h).len() ==> in_view(
                (#[trigger] culled(actors, w, h)[k]).props,
                w,
                h,
            ),
        forall|k: int|
            0 <= k < actors.len() && in_view((#[trigger] actors[k]).props, w, h) ==> culled(
                actors,
                w,
                h,
            ).contains(actors[k]),
        forall|a: Actor| culled(actors, w, h).contains(a) ==> in_view(a.props, w, h),
{
    broadcast use vstd::seq_lib::group_filter_ensures;

    let pred = |a: Actor| in_view(a.props, w, h);
    assert forall|k: int| 0 <= k < culled(actors, w, h).len() implies in_view(
        (#[trigger] culled(actors, w, h)[k]).props,
        w,
        h,
    ) by {
        assert(pred(actors.filter(pred)[k]));
    }
    assert forall|k: int|
        0 <= k < actors.len() && in_view((#[trigger] actors[k]).props, w, h) implies culled(
        actors,
        w,
        h,
    ).contains(actors[k]) by {
        assert(pred(actors[k]));
        assert(actors.filter(pred).contains(actors[k]));
    }
    assert forall|a: Actor| culled(actors, w, h).contains(a) implies in_view(a.props, w, h) by {
        let k = choose|k: int| 0 <= k < culled(actors, w, h).len() && culled(actors, w, h)[k] == a;
        assert(pred(actors.filter(pred)[k]));
    }
}

/// A frame whose only actor stands out of view is entirely blank: the
/// actor is culled and nothing is drawn over the background.
pub proof fn lemma_culled_frame_blank(game: Game, a: Actor, w: int, h: int)
    requires
        game.actor_list@ == seq![a],
        !in_view(a.props, w, h),
    ensures
        frame_model(game, w, h).0 == blank_glyphs((w * h) as nat),
        frame_model(game, w, h).1 == blank_colors((w * h) as nat),
{
    reveal_with_fuel(Seq::filter, 3);
    reveal_with_fuel(sort_by_z, 3);
    reveal_with_fuel(paint_actors, 3);
    assert(seq![a].drop_last() =~= Seq::<Actor>::empty());
    assert(culled(game.actor_list@, w, h) =~= Seq::<Actor>::empty());
}

/// A vector of `n` copies of `value`.
fn fill_bytes(n: usize, value: u8) -> (buf: Vec<u8>)
    ensures
        buf@ == Seq::new(n as nat, |i: int| value),
{
    let mut buf: Vec<u8> = Vec::new();
    let mut i: usize = 0;
    while i < n
        invariant
            i <= n,
            buf@ == Seq::new(i as nat, |j: int| value),
        decreases n - i,
    {
        buf.push(value);
        proof {
            assert(buf@ =~= Seq::new((i + 1) as nat, |j: int| value));
        }
        i = i + 1;
    }
    proof {
        assert(buf@ =~= Seq::new(n as nat, |j: int| value));
    }
    buf
}

/// A vector of `n` copies of `value`.
fn fill_colors(n: usize, value: Color) -> (buf: Vec<Color>)
    ensures
        buf@ == Seq::new(n as nat, |i: int| value),
{
    let mut buf: Vec<Color> = Vec::new();
    let mut i: usize = 0;
    while i < n
        invariant
            i <= n,
            buf@ == Seq::new(i as nat, |j: int| value),
        decreases n - i,
    {
        buf.push(value);
        proof {
            assert(buf@ =~= Seq::new((i + 1) as nat, |j: int| value));
        }
        i = i + 1;
    }
    proof {
        assert(buf@ =~= Seq::new(n as nat, |j: int| value));
    }
    buf
}

} // verus!

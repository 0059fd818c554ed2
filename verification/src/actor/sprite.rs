pub mod tile;

use vstd::prelude::*;

verus! {

use crate::ascii_bros::{Color, EntityType, Ident};
use crate::actor::sprite::tile::{PixBuf, Tile, STRIDE, TILE_AREA};
use crate::game::{
    atlas_contents,
    dedup_ok,
    find_content,
    lemma_find_content,
    Game,
    ATLAS_CAPACITY,
};
use vstd::arithmetic::div_mod::lemma_fundamental_div_mod_converse;

/// Why a sprite asset was rejected at load time.
#[derive(Debug, Copy, Clone, PartialEq, Eq, Structural)]
pub enum ValidationError {
    /// The width is not a positive multiple of the tile stride.
    InvalidWidth(usize),
    /// The height is not a positive multiple of the tile stride.
    InvalidHeight(usize),
    /// The raster's rows do not all have the same length.
    MalformedRaster,
}

impl ValidationError {
    /// A short description of the rejection, for display by a caller.
    pub fn describe(&self) -> (msg: &'static str) {
        match self {
            ValidationError::InvalidWidth(_) => "sprite width is not a positive multiple of the tile stride",
            ValidationError::InvalidHeight(_) => "sprite height is not a positive multiple of the tile stride",
            ValidationError::MalformedRaster => "sprite raster rows are not all of equal length",
        }
    }
}

/// The reserved placeholder glyph of the sprite asset format (`@`); it
/// stands in for a literal space, which plain-text assets cannot carry
/// reliably.
pub const PLACEHOLDER_GLYPH: u8 = 64;

/// The glyph a placeholder decodes to: a space.
pub const SPACE_GLYPH: u8 = 32;

/// Decodes one row of a plain-text sprite asset: every placeholder glyph
/// becomes a literal space, all other glyphs pass through unchanged.
pub fn decode_asset_row(row: &Vec<u8>) -> (decoded: Vec<u8>)
    ensures
        decoded@.len() == row@.len(),
        forall|k: int|
            0 <= k < row@.len() ==> decoded@[k] == (if row@[k] == PLACEHOLDER_GLYPH {
                SPACE_GLYPH
            } else {
                row@[k]
            }),
{
    let mut decoded: Vec<u8> = Vec::new();
    let mut k: usize = 0;
    while k < row.len()
        invariant
            k <= row@.len(),
            decoded@.len() == k,
            forall|j: int|
                0 <= j < k ==> decoded@[j] == (if row@[j] == PLACEHOLDER_GLYPH {
                    SPACE_GLYPH
                } else {
                    row@[j]
                }),
        decreases row@.len() - k,
    {
        let glyph = row[k];
        if glyph == PLACEHOLDER_GLYPH {
            decoded.push(SPACE_GLYPH);
        } else {
            decoded.push(glyph);
        }
        k = k + 1;
    }
    decoded
}

/// Whether `dim` is a positive multiple of the tile stride, the condition a
/// sprite's width and height must each meet.
pub open spec fn dim_valid(dim: int) -> bool {
    dim > 0 && dim % (STRIDE as int) == 0
}

/// The raster view: one inner sequence of glyph bytes per row.
pub open spec fn raster_view(raster: &Vec<Vec<u8>>) -> Seq<Seq<u8>> {
    Seq::new(raster@.len(), |y: int| raster@[y]@)
}

/// Whether `rows` is a rectangular raster of `height` rows, each `width`
/// glyphs long.
pub open spec fn raster_rect(rows: Seq<Seq<u8>>, width: int, height: int) -> bool {
    &&& rows.len() == height
    &&& forall|y: int| 0 <= y < height ==> (#[trigger] rows[y]).len() == width
}

/// Glyph `k` (row-major within the block) of the stride-square block at
/// block row `bj`, block column `bi` of `rows`.
pub open spec fn block_glyph(rows: Seq<Seq<u8>>, bj: int, bi: int, k: int) -> u8 {
    rows[2 * bj + k / 2][2 * bi + k % 2]
}

/// The contents of the block at block row `bj`, block column `bi`: its
/// `TILE_AREA` glyphs in row-major scan order.
pub open spec fn block_content(rows: Seq<Seq<u8>>, bj: int, bi: int) -> Seq<u8> {
    Seq::new(4, |k: int| block_glyph(rows, bj, bi, k))
}

/// All blocks of a `width`-glyph-wide raster in row-major block order:
/// block `n` sits at block row `n / (width/2)`, block column `n % (width/2)`.
pub open spec fn blocks_of(rows: Seq<Seq<u8>>, width: int) -> Seq<Seq<u8>> {
    Seq::new(((rows.len() / 2) * (width / 2)) as nat, |n: int| block_content(rows, n / (width / 2), n % (width / 2)))
}

#[derive(Debug)]
pub struct Sprite {
    /// Used to bind the sprite to an actor.
    pub entity_type: EntityType,
    /// Width of the sprite, in glyph cells.
    pub width: usize,
    /// Height of the sprite, in glyph cells.
    pub height: usize,
    /// Tile ids in row-major block order: all blocks of block row 0 from
    /// left to right, then block row 1, and so on.
    pub tile_ids: Vec<Ident>,
    /// The z-layer priority of the sprite when rendered; higher z is drawn
    /// later and so ends up on top.
    pub z_order: u8,
}

impl Sprite {
    /// Builds a sprite from an already-loaded raster: validates it, then
    /// decomposes it into deduplicated tiles registered in the shared
    /// atlas. A rejected raster leaves the game untouched, so one bad
    /// asset can neither corrupt the atlas nor affect other sprites. The
    /// new sprite is bound to no entity; the caller tags it afterwards.
    pub fn new(game: &mut Game, sprite_as_lines: &Vec<Vec<u8>>, z_order: u8) -> (result: Result<
        Sprite,
        ValidationError,
    >)
        requires
            old(game).wf(),
            old(game).tile_atlas@.len() + raster_block_budget(raster_view(sprite_as_lines))
                <= ATLAS_CAPACITY,
        ensures
            final(game).wf(),
            final(game).actor_list == old(game).actor_list,
            ({
                let rows = raster_view(sprite_as_lines);
                match result {
                    Err(e) => {
                        &&& raster_check(rows) == Err::<(), ValidationError>(e)
                        &&& *final(game) == *old(game)
                    },
                    Ok(sprite) => {
                        &&& raster_check(rows) == Ok::<(), ValidationError>(())
                        &&& sprite.z_order == z_order
                        &&& sprite.entity_type == EntityType::Unbound
                        &&& sprite_decodes(
                            sprite,
                            old(game).tile_atlas@,
                            final(game).tile_atlas@,
                            rows,
                        )
                        &&& crate::game::sprite_wf(sprite, final(game).tile_atlas@.len() as int)
                    },
                }
            }),
    {
        let ghost rows = raster_view(sprite_as_lines);
        let height: usize = sprite_as_lines.len();
        if height == 0 {
            return Err(ValidationError::InvalidHeight(0));
        }
        let width: usize = sprite_as_lines[0].len();
        proof {
            assert(rows[0] == sprite_as_lines@[0]@);
        }
        let mut y: usize = 1;
        while y < height
            invariant
                *game == *old(game),
                old(game).wf(),
                height == sprite_as_lines@.len(),
                width == rows[0].len(),
                rows == raster_view(sprite_as_lines),
                1 <= y <= height,
                forall|k: int| 0 <= k < y ==> (#[trigger] rows[k]).len() == width,
            decreases height - y,
        {
            if sprite_as_lines[y].len() != width {
                proof {
                    assert(rows[y as int].len() != rows[0].len());
                }
                return Err(ValidationError::MalformedRaster);
            }
            proof {
                assert(rows[y as int] == sprite_as_lines@[y as int]@);
            }
            y = y + 1;
        }
        if let Err(e) = dims_check_exec(width, height) {
            return Err(e);
        }
        proof {
            assert(raster_check(rows) == Ok::<(), ValidationError>(()));
            assert(raster_rect(rows, width as int, height as int));
        }
        let tile_ids = Self::as_tile_ids(game, sprite_as_lines, width, height);
        let sprite = Sprite {
            entity_type: EntityType::Unbound,
            width,
            height,
            tile_ids,
            z_order,
        };
        proof {
            let r = register_blocks(
                atlas_contents(old(game).tile_atlas@),
                blocks_of(rows, width as int),
            );
            lemma_register_blocks(atlas_contents(old(game).tile_atlas@), blocks_of(
                rows,
                width as int,
            ));
            assert(sprite.tile_ids@.len() == (height as int / 2) * (width as int / 2));
            assert forall|n: int| 0 <= n < sprite.tile_ids@.len() implies (
            #[trigger] sprite.tile_ids@[n]) < game.tile_atlas@.len() by {
                assert(sprite.tile_ids@[n] as int == r.1[n]);
                assert(0 <= r.1[n] < r.0.len());
            }
        }
        Ok(sprite)
    }

    /// Checks that this sprite's dimensions are each a positive multiple of
    /// the tile stride, reporting the offending dimension otherwise.
    pub fn validate(&self) -> (result: Result<(), ValidationError>)
        ensures
            result == dims_check(self.width, self.height),
    {
        dims_check_exec(self.width, self.height)
    }

    /// Decomposes a rectangular raster into stride-square blocks in
    /// row-major block order, resolving each block to a tile id: a block
    /// whose contents the atlas already holds reuses that id, novel
    /// contents are inserted under the next dense id. The returned ids and
    /// the atlas afterwards are exactly the [`register_blocks`] model of
    /// the raster's [`blocks_of`] sequence.
    pub fn as_tile_ids(
        game: &mut Game,
        sprite_as_lines: &Vec<Vec<u8>>,
        sprite_width: usize,
        sprite_height: usize,
    ) -> (tile_ids: Vec<Ident>)
        requires
            old(game).wf(),
            raster_rect(raster_view(sprite_as_lines), sprite_width as int, sprite_height as int),
            sprite_width % 2 == 0,
            sprite_height % 2 == 0,
            old(game).tile_atlas@.len() + (sprite_height as int / 2) * (sprite_width as int / 2)
                <= ATLAS_CAPACITY,
        ensures
            final(game).wf(),
            final(game).actor_list == old(game).actor_list,
            ({
                let r = register_blocks(
                    atlas_contents(old(game).tile_atlas@),
                    blocks_of(raster_view(sprite_as_lines), sprite_width as int),
                );
                &&& atlas_contents(final(game).tile_atlas@) == r.0
                &&& tile_ids@.len() == r.1.len()
                &&& forall|n: int|
                    0 <= n < tile_ids@.len() ==> (#[trigger] tile_ids@[n]) as int == r.1[n]
            }),
            forall|i: int|
                0 <= i < old(game).tile_atlas@.len() ==> final(game).tile_atlas@[i] == old(
                    game,
                ).tile_atlas@[i],
            forall|i: int|
                old(game).tile_atlas@.len() <= i < final(game).tile_atlas@.len() ==> (
                #[trigger] final(game).tile_atlas@[i]).color_buf@ == placeholder_colors(),
    {
        let ghost initial = atlas_contents(old(game).tile_atlas@);
        let ghost rows = raster_view(sprite_as_lines);
        let ghost blocks = blocks_of(rows, sprite_width as int);
        let block_cols: usize = sprite_width / STRIDE;
        let block_rows: usize = sprite_height / STRIDE;
        let mut tile_ids: Vec<Ident> = Vec::new();
        proof {
            assert(blocks.len() == block_rows * block_cols);
            assert(blocks.take(0) =~= Seq::<Seq<u8>>::empty());
        }
        let mut bj: usize = 0;
        while bj < block_rows
            invariant
                game.wf(),
                game.actor_list == old(game).actor_list,
                bj <= block_rows,
                block_cols == sprite_width as int / 2,
                block_rows == sprite_height as int / 2,
                sprite_width % 2 == 0,
                sprite_height % 2 == 0,
                rows == raster_view(sprite_as_lines),
                raster_rect(rows, sprite_width as int, sprite_height as int),
                blocks == blocks_of(rows, sprite_width as int),
                initial == atlas_contents(old(game).tile_atlas@),
                initial.len() + block_rows * block_cols <= ATLAS_CAPACITY,
                dedup_ok(initial),
                tile_ids@.len() == bj * block_cols,
                ({
                    let r = register_blocks(initial, blocks.take(bj * block_cols));
                    &&& atlas_contents(game.tile_atlas@) == r.0
                    &&& forall|k: int|
                        0 <= k < tile_ids@.len() ==> (#[trigger] tile_ids@[k]) as int == r.1[k]
                }),
                forall|i: int|
                    0 <= i < old(game).tile_atlas@.len() ==> game.tile_atlas@[i] == old(
                        game,
                    ).tile_atlas@[i],
                forall|i: int|
                    old(game).tile_atlas@.len() <= i < game.tile_atlas@.len() ==> (
                    #[trigger] game.tile_atlas@[i]).color_buf@ == placeholder_colors(),
            decreases block_rows - bj,
        {
            let mut bi: usize = 0;
            proof {
                assert(bj * block_cols + block_cols == (bj + 1) * block_cols) by (nonlinear_arith);
                assert((bj + 1) * block_cols <= block_rows * block_cols) by (nonlinear_arith)
                    requires
                        bj + 1 <= block_rows,
                        block_cols >= 0,
                ;
            }
            while bi < block_cols
                invariant
                    game.wf(),
                    game.actor_list == old(game).actor_list,
                    bj < block_rows,
                    bi <= block_cols,
                    block_cols == sprite_width as int / 2,
                    block_rows == sprite_height as int / 2,
                    sprite_width % 2 == 0,
                    sprite_height % 2 == 0,
                    rows == raster_view(sprite_as_lines),
                    raster_rect(rows, sprite_width as int, sprite_height as int),
                    blocks == blocks_of(rows, sprite_width as int),
                    initial == atlas_contents(old(game).tile_atlas@),
                    initial.len() + block_rows * block_cols <= ATLAS_CAPACITY,
                    dedup_ok(initial),
                    bj * block_cols + bi <= block_rows * block_cols,
                    tile_ids@.len() == bj * block_cols + bi,
                    ({
                        let r = register_blocks(initial, blocks.take(bj * block_cols + bi));
                        &&& atlas_contents(game.tile_atlas@) == r.0
                        &&& forall|k: int|
                            0 <= k < tile_ids@.len() ==> (#[trigger] tile_ids@[k]) as int == r.1[k]
                    }),
                    forall|i: int|
                        0 <= i < old(game).tile_atlas@.len() ==> game.tile_atlas@[i] == old(
                            game,
                        ).tile_atlas@[i],
                    forall|i: int|
                        old(game).tile_atlas@.len() <= i < game.tile_atlas@.len() ==> (
                        #[trigger] game.tile_atlas@[i]).color_buf@ == placeholder_colors(),
                decreases block_cols - bi,
            {
                let ghost n = bj * block_cols + bi;
                proof {
                    assert(n < block_rows * block_cols) by (nonlinear_arith)
                        requires
                            n == bj * block_cols + bi,
                            0 <= bj < block_rows,
                            0 <= bi < block_cols,
                    ;
                    assert(2 * bj + 1 < sprite_height && 2 * bi + 1 < sprite_width) by {
                        assert(2 * (sprite_height as int / 2) == sprite_height as int);
                        assert(2 * (sprite_width as int / 2) == sprite_width as int);
                    }
                    assert(rows[2 * bj as int] == sprite_as_lines@[2 * bj as int]@);
                    assert(rows[2 * bj as int + 1] == sprite_as_lines@[2 * bj as int + 1]@);
                    assert(rows[2 * bj as int].len() == sprite_width);
                    assert(rows[2 * bj as int + 1].len() == sprite_width);
                }
                let y0: usize = STRIDE * bj;
                let x0: usize = STRIDE * bi;
                let bytes: [u8; TILE_AREA] = [
                    sprite_as_lines[y0][x0],
                    sprite_as_lines[y0][x0 + 1],
                    sprite_as_lines[y0 + 1][x0],
                    sprite_as_lines[y0 + 1][x0 + 1],
                ];
                let pix_buf = PixBuf::new(bytes);
                let ghost r_now = register_blocks(initial, blocks.take(n as int));
                let ghost r_next = register_blocks(initial, blocks.take(n as int + 1));
                proof {
                    assert(pix_buf@ =~= block_content(rows, bj as int, bi as int));
                    lemma_fundamental_div_mod_converse(
                        n as int,
                        block_cols as int,
                        bj as int,
                        bi as int,
                    );
                    assert(blocks[n as int] == block_content(rows, bj as int, bi as int));
                    lemma_register_blocks(initial, blocks.take(n as int));
                    assert(blocks.take(n as int + 1).drop_last() =~= blocks.take(n as int));
                    assert(blocks.take(n as int + 1).last() == blocks[n as int]);
                    assert(r_next.0 == register_block(r_now.0, blocks[n as int]).0);
                    assert(r_next.1 == r_now.1.push(register_block(r_now.0, blocks[n as int]).1));
                    assert(r_now.0.len() == game.tile_atlas@.len());
                }
                let ghost prev_ids = tile_ids@;
                let id: Ident = match game.find_tile_id(&pix_buf) {
                    Some(existing) => {
                        proof {
                            assert(find_content(r_now.0, blocks[n as int]) == existing as int);
                            assert(register_block(r_now.0, blocks[n as int]).1 == existing as int);
                            assert(register_block(r_now.0, blocks[n as int]).0 == r_now.0);
                        }
                        existing
                    },
                    None => {
                        proof {
                            assert forall|i: int| 0 <= i < r_now.0.len() implies r_now.0[i]
                                != blocks[n as int] by {
                                assert(r_now.0[i] == game.tile_atlas@[i].pix_buf@);
                            }
                            assert(find_content(r_now.0, blocks[n as int]) == -1) by {
                                lemma_find_content(r_now.0, blocks[n as int]);
                            }
                            assert(game.tile_atlas@.len() < ATLAS_CAPACITY);
                        }
                        game.insert_tile([Color(32), Color(32), Color(32), Color(32)], pix_buf)
                    },
                };
                tile_ids.push(id);
                proof {
                    assert(atlas_contents(game.tile_atlas@) == r_next.0);
                    assert(tile_ids@.len() == n + 1);
                    assert forall|k: int| 0 <= k < tile_ids@.len() implies (
                    #[trigger] tile_ids@[k]) as int == r_next.1[k] by {
                        if k < n {
                            assert(tile_ids@[k] == prev_ids[k]);
                            assert(r_next.1[k] == r_now.1[k]);
                        } else {
                            assert(tile_ids@[k] == id);
                        }
                    }
                    if game.tile_atlas@.len() > old(game).tile_atlas@.len() {
                        assert(game.tile_atlas@.last().color_buf@ =~= placeholder_colors());
                    }
                }
                bi = bi + 1;
            }
            bj = bj + 1;
        }
        proof {
            assert(tile_ids@.len() == block_rows * block_cols);
            assert(blocks.take((block_rows * block_cols) as int) =~= blocks);
            lemma_register_blocks(initial, blocks);
        }
        tile_ids
    }
}

/// The dimension check of [`Sprite::validate`]: width is examined first,
/// then height; a dimension fails if it is zero or not a multiple of the
/// tile stride.
pub open spec fn dims_check(width: usize, height: usize) -> Result<(), ValidationError> {
    if !dim_valid(width as int) {
        Err(ValidationError::InvalidWidth(width))
    } else if !dim_valid(height as int) {
        Err(ValidationError::InvalidHeight(height))
    } else {
        Ok(())
    }
}

fn dims_check_exec(width: usize, height: usize) -> (result: Result<(), ValidationError>)
    ensures
        result == dims_check(width, height),
{
    if width == 0 || width % STRIDE != 0 {
        Err(ValidationError::InvalidWidth(width))
    } else if height == 0 || height % STRIDE != 0 {
        Err(ValidationError::InvalidHeight(height))
    } else {
        Ok(())
    }
}

/// The full load-time check of a raster: a positive number of rows, all
/// rows of one length, and both dimensions positive multiples of the tile
/// stride. Width is examined before height, as in [`dims_check`].
pub open spec fn raster_check(rows: Seq<Seq<u8>>) -> Result<(), ValidationError> {
    if rows.len() == 0 {
        Err(ValidationError::InvalidHeight(0))
    } else if !(forall|y: int| 0 <= y < rows.len() ==> (#[trigger] rows[y]).len() == rows[0].len()) {
        Err(ValidationError::MalformedRaster)
    } else {
        dims_check(rows[0].len() as usize, rows.len() as usize)
    }
}

/// How many tiles registering this raster could add to the atlas at most:
/// one per stride-square block.
pub open spec fn raster_block_budget(rows: Seq<Seq<u8>>) -> int {
    if rows.len() == 0 {
        0
    } else {
        (rows.len() as int / 2) * (rows[0].len() as int / 2)
    }
}

/// The colors a freshly registered tile receives: the placeholder
/// attribute on every cell.
pub open spec fn placeholder_colors() -> Seq<Color> {
    Seq::new(4, |k: int| Color(32))
}

/// That `sprite` is exactly the tile decomposition of `rows` registered
/// against the atlas state `before`, leaving the atlas in state `after`:
/// dimensions taken from the raster, ids resolved block by block by the
/// [`register_blocks`] model, and every previously registered tile kept
/// in place.
pub open spec fn sprite_decodes(
    sprite: Sprite,
    before: Seq<Tile>,
    after: Seq<Tile>,
    rows: Seq<Seq<u8>>,
) -> bool {
    let r = register_blocks(atlas_contents(before), blocks_of(rows, sprite.width as int));
    &&& sprite.width == rows[0].len()
    &&& sprite.height == rows.len()
    &&& atlas_contents(after) == r.0
    &&& sprite.tile_ids@.len() == r.1.len()
    &&& forall|n: int|
        0 <= n < sprite.tile_ids@.len() ==> (#[trigger] sprite.tile_ids@[n]) as int == r.1[n]
    &&& forall|i: int| 0 <= i < before.len() ==> after[i] == before[i]
}

/// One deduplication step: a block whose contents are already registered
/// reuses the first matching id; novel contents are appended under the
/// next dense id.
pub open spec fn register_block(contents: Seq<Seq<u8>>, c: Seq<u8>) -> (Seq<Seq<u8>>, int) {
    let f = find_content(contents, c);
    if f >= 0 {
        (contents, f)
    } else {
        (contents.push(c), contents.len() as int)
    }
}

/// Registering a block sequence left to right against starting contents:
/// the contents afterwards, and the id resolved for each block in order.
pub open spec fn register_blocks(contents: Seq<Seq<u8>>, blocks: Seq<Seq<u8>>) -> (
    Seq<Seq<u8>>,
    Seq<int>,
)
    decreases blocks.len(),
{
    if blocks.len() == 0 {
        (contents, Seq::<int>::empty())
    } else {
        let prefix = register_blocks(contents, blocks.drop_last());
        let step = register_block(prefix.0, blocks.last());
        (step.0, prefix.1.push(step.1))
    }
}

/// What registering preserves and produces: existing entries are kept in
/// place, the contents stay deduplicated and grow by at most one entry per
/// block, and every block's id points at exactly its own contents.
pub proof fn lemma_register_blocks(contents: Seq<Seq<u8>>, blocks: Seq<Seq<u8>>)
    requires
        dedup_ok(contents),
    ensures
        ({
            let r = register_blocks(contents, blocks);
            &&& dedup_ok(r.0)
            &&& contents.len() <= r.0.len() <= contents.len() + blocks.len()
            &&& forall|i: int| 0 <= i < contents.len() ==> r.0[i] == contents[i]
            &&& r.1.len() == blocks.len()
            &&& forall|n: int| 0 <= n < blocks.len() ==> 0 <= #[trigger] r.1[n] < r.0.len()
            &&& forall|n: int| 0 <= n < blocks.len() ==> r.0[#[trigger] r.1[n]] == blocks[n]
        }),
    decreases blocks.len(),
{
    if blocks.len() == 0 {
    } else {
        lemma_register_blocks(contents, blocks.drop_last());
        let p = register_blocks(contents, blocks.drop_last());
        let c = blocks.last();
        lemma_find_content(p.0, c);
        let f = find_content(p.0, c);
        let r = register_blocks(contents, blocks);
        if f < 0 {
            assert forall|i: int, j: int| 0 <= i < j < r.0.len() implies r.0[i] != r.0[j] by {
                if j < p.0.len() {
                    assert(p.0[i] != p.0[j]);
                } else {
                    assert(r.0[j] == c);
                    assert(p.0[i] != c);
                }
            }
        }
        assert forall|n: int| 0 <= n < blocks.len() implies 0 <= #[trigger] r.1[n] < r.0.len()
            && r.0[r.1[n]] == blocks[n] by {
            if n < blocks.len() - 1 {
                assert(p.0[p.1[n]] == blocks.drop_last()[n]);
                assert(blocks.drop_last()[n] == blocks[n]);
            }
        }
    }
}

/// Deduplication across a whole registration: two blocks with identical
/// glyph contents always resolve to the same tile id, wherever they sit in
/// the block sequence.
pub proof fn lemma_register_blocks_dedup(
    contents: Seq<Seq<u8>>,
    blocks: Seq<Seq<u8>>,
    m: int,
    n: int,
)
    requires
        dedup_ok(contents),
        0 <= m < blocks.len(),
        0 <= n < blocks.len(),
        blocks[m] == blocks[n],
    ensures
        register_blocks(contents, blocks).1[m] == register_blocks(contents, blocks).1[n],
{
    lemma_register_blocks(contents, blocks);
    let r = register_blocks(contents, blocks);
    if r.1[m] != r.1[n] {
        assert(r.0[r.1[m]] == r.0[r.1[n]]);
        assert(false);
    }
}

/// Determinism of the rasterizer's model: a fixed starting atlas and a
/// fixed raster admit exactly one registration outcome, so two runs from
/// the same state agree on every resolved id.
pub proof fn lemma_rasterize_deterministic(
    contents: Seq<Seq<u8>>,
    rows: Seq<Seq<u8>>,
    width: int,
    first: (Seq<Seq<u8>>, Seq<int>),
    second: (Seq<Seq<u8>>, Seq<int>),
)
    requires
        first == register_blocks(contents, blocks_of(rows, width)),
        second == register_blocks(contents, blocks_of(rows, width)),
    ensures
        first == second,
{
}

} // verus!

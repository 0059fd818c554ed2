use vstd::prelude::*;

verus! {

use crate::ascii_bros::{Color, EntityType, Ident};
use crate::actor::{Actor, ActorBehavior, ActorProps};
use crate::actor::sprite::{
    raster_block_budget,
    raster_check,
    raster_view,
    sprite_decodes,
    Sprite,
    ValidationError,
};
use crate::actor::sprite::tile::{PixBuf, Tile, TILE_AREA};
use crate::window::{frame_model, Window};

/// The largest number of tiles the atlas can hold: ids are dense `u16`
/// values, so the id space is exhausted after `u16::MAX` insertions.
pub const ATLAS_CAPACITY: usize = 65535;

/// The glyph contents of each registered tile, in id order.
pub open spec fn atlas_contents(tiles: Seq<Tile>) -> Seq<Seq<u8>> {
    tiles.map_values(|t: Tile| t.pix_buf@)
}

/// The deduplication invariant: no two registered contents are equal.
pub open spec fn dedup_ok(contents: Seq<Seq<u8>>) -> bool {
    forall|i: int, j: int| 0 <= i < j < contents.len() ==> contents[i] != contents[j]
}

/// The index of the first entry of `contents` equal to `c`, or `-1` if no
/// entry matches.
pub open spec fn find_content(contents: Seq<Seq<u8>>, c: Seq<u8>) -> int
    decreases contents.len(),
{
    if contents.len() == 0 {
        -1
    } else if contents[0] == c {
        0
    } else {
        let rest = find_content(contents.drop_first(), c);
        if rest < 0 {
            -1
        } else {
            rest + 1
        }
    }
}

/// What [`find_content`] returns: `-1` exactly when nothing matches, and
/// otherwise the least matching index.
pub proof fn lemma_find_content(contents: Seq<Seq<u8>>, c: Seq<u8>)
    ensures
        find_content(contents, c) == -1 <==> (forall|i: int|
            0 <= i < contents.len() ==> contents[i] != c),
        find_content(contents, c) != -1 ==> {
            let f = find_content(contents, c);
            &&& 0 <= f < contents.len()
            &&& contents[f] == c
            &&& forall|i: int| 0 <= i < f ==> contents[i] != c
        },
    decreases contents.len(),
{
    if contents.len() == 0 {
    } else if contents[0] == c {
    } else {
        lemma_find_content(contents.drop_first(), c);
        assert(forall|i: int|
            1 <= i < contents.len() ==> contents[i] == contents.drop_first()[i - 1]);
    }
}

/// The atlas half of the deduplication invariant: a consistent game
/// never stores two tiles with equal glyph contents under different ids.
pub proof fn lemma_atlas_never_duplicates(game: Game)
    requires
        game.wf(),
    ensures
        forall|i: int, j: int|
            0 <= i < j < game.tile_atlas@.len() ==> (#[trigger] game.tile_atlas@[i]).pix_buf@ != (
            #[trigger] game.tile_atlas@[j]).pix_buf@,
{
    let contents = atlas_contents(game.tile_atlas@);
    assert forall|i: int, j: int| 0 <= i < j < game.tile_atlas@.len() implies (
    #[trigger] game.tile_atlas@[i]).pix_buf@ != (#[trigger] game.tile_atlas@[j]).pix_buf@ by {
        assert(contents[i] == game.tile_atlas@[i].pix_buf@);
        assert(contents[j] == game.tile_atlas@[j].pix_buf@);
    }
}

/// Whether a sprite is consistent with an atlas of `atlas_len` tiles:
/// valid dimensions, one tile id per stride-square block, every id in
/// range.
pub open spec fn sprite_wf(s: Sprite, atlas_len: int) -> bool {
    &&& crate::actor::sprite::dim_valid(s.width as int)
    &&& crate::actor::sprite::dim_valid(s.height as int)
    &&& s.tile_ids@.len() == (s.height as int / 2) * (s.width as int / 2)
    &&& forall|n: int| 0 <= n < s.tile_ids@.len() ==> (#[trigger] s.tile_ids@[n]) < atlas_len
}

/// What one frame's update does to an actor: its behavior's step applied
/// to its properties; the behavior tag itself never changes.
pub open spec fn step_actor(a: Actor) -> Actor {
    Actor { props: a.actions.step(a.props), actions: a.actions }
}

// Handles game logic e.g. timers, physics, etc.
pub struct Game {
    /// The shared tile atlas: the tile with id `n` is `tile_atlas[n]`.
    pub tile_atlas: Vec<Tile>,
    pub actor_list: Vec<Actor>,
    /// The id the next insertion will receive; always the atlas length.
    pub next_tile_id: Ident,
}

impl Game {
    /// The internal consistency of the whole game state: dense ids, no
    /// duplicated tile contents, a counter in step with the atlas, and
    /// every actor's sprite consistent with the atlas.
    pub open spec fn wf(self) -> bool {
        &&& self.tile_atlas@.len() <= ATLAS_CAPACITY
        &&& self.next_tile_id as int == self.tile_atlas@.len()
        &&& forall|i: int|
            0 <= i < self.tile_atlas@.len() ==> (#[trigger] self.tile_atlas@[i]).id as int == i
        &&& dedup_ok(atlas_contents(self.tile_atlas@))
        &&& forall|k: int|
            0 <= k < self.actor_list@.len() ==> sprite_wf(
                (#[trigger] self.actor_list@[k]).props.sprite,
                self.tile_atlas@.len() as int,
            )
    }

    /// An empty game: no tiles, no actors.
    pub fn new() -> (game: Self)
        ensures
            game.wf(),
            game.tile_atlas@.len() == 0,
            game.actor_list@.len() == 0,
    {
        Game { tile_atlas: Vec::new(), actor_list: Vec::new(), next_tile_id: 0 }
    }

    /// Looks up the id under which `pix_buf`'s contents are registered, if
    /// any: the content-equality reverse lookup run before every insertion.
    pub fn find_tile_id(&self, pix_buf: &PixBuf) -> (found: Option<Ident>)
        requires
            self.wf(),
        ensures
            ({
                let f = find_content(atlas_contents(self.tile_atlas@), pix_buf@);
                match found {
                    Some(id) => f == id as int,
                    None => f == -1,
                }
            }),
            match found {
                Some(id) => {
                    &&& (id as int) < self.tile_atlas@.len()
                    &&& self.tile_atlas@[id as int].pix_buf@ == pix_buf@
                },
                None => forall|i: int|
                    0 <= i < self.tile_atlas@.len() ==> (#[trigger] self.tile_atlas@[i]).pix_buf@
                        != pix_buf@,
            },
    {
        proof {
            lemma_find_content(atlas_contents(self.tile_atlas@), pix_buf@);
        }
        let ghost contents = atlas_contents(self.tile_atlas@);
        let mut i: usize = 0;
        while i < self.tile_atlas.len()
            invariant
                self.wf(),
                i <= self.tile_atlas@.len(),
                contents == atlas_contents(self.tile_atlas@),
                forall|k: int| 0 <= k < i ==> contents[k] != pix_buf@,
            decreases self.tile_atlas@.len() - i,
        {
            if self.tile_atlas[i].pix_buf.eq(pix_buf) {
                proof {
                    lemma_find_content(contents, pix_buf@);
                    let f = find_content(contents, pix_buf@);
                    assert(contents[i as int] == pix_buf@);
                    assert(f != -1);
                    assert(f >= i as int);
                    assert(f <= i as int);
                }
                let id: Ident = self.tile_atlas[i].id;
                proof {
                    assert(self.tile_atlas@[i as int].id as int == i as int);
                }
                return Some(id);
            }
            i = i + 1;
        }
        proof {
            lemma_find_content(contents, pix_buf@);
            assert forall|k: int| 0 <= k < self.tile_atlas@.len() implies (#[trigger] self
                .tile_atlas@[k]).pix_buf@ != pix_buf@ by {
                assert(contents[k] == self.tile_atlas@[k].pix_buf@);
            }
        }
        None
    }

    /// Whether some registered tile has exactly these glyph contents.
    pub fn tile_atlas_contains(&self, pix_buf: &PixBuf) -> (contained: bool)
        requires
            self.wf(),
        ensures
            contained <==> exists|i: int|
                0 <= i < self.tile_atlas@.len() && (#[trigger] self.tile_atlas@[i]).pix_buf@
                    == pix_buf@,
    {
        match self.find_tile_id(pix_buf) {
            Some(id) => {
                proof {
                    assert(self.tile_atlas@[id as int].pix_buf@ == pix_buf@);
                }
                true
            },
            None => false,
        }
    }

    /// Registers new tile contents under the next dense id and returns that
    /// id. Callers must have checked that the contents are not yet present;
    /// the check-then-insert pairing is what keeps the atlas deduplicated.
    pub fn insert_tile(&mut self, color_buf: [Color; TILE_AREA], pix_buf: PixBuf) -> (id: Ident)
        requires
            old(self).wf(),
            old(self).tile_atlas@.len() < ATLAS_CAPACITY,
            forall|i: int|
                0 <= i < old(self).tile_atlas@.len() ==> (#[trigger] old(
                    self,
                ).tile_atlas@[i]).pix_buf@ != pix_buf@,
        ensures
            final(self).wf(),
            id as int == old(self).tile_atlas@.len(),
            final(self).tile_atlas@ == old(self).tile_atlas@.push(
                Tile { id, color_buf, pix_buf },
            ),
            final(self).actor_list == old(self).actor_list,
            atlas_contents(final(self).tile_atlas@) == atlas_contents(
                old(self).tile_atlas@,
            ).push(pix_buf@),
    {
        let id: Ident = self.next_tile_id;
        let tile = Tile::new(id, color_buf, pix_buf);
        self.tile_atlas.push(tile);
        self.next_tile_id = id + 1;
        proof {
            assert(tile == (Tile { id, color_buf, pix_buf }));
            assert(atlas_contents(self.tile_atlas@) =~= atlas_contents(
                old(self).tile_atlas@,
            ).push(pix_buf@));
            assert forall|k: int| 0 <= k < self.actor_list@.len() implies sprite_wf(
                (#[trigger] self.actor_list@[k]).props.sprite,
                self.tile_atlas@.len() as int,
            ) by {
                assert(sprite_wf(
                    self.actor_list@[k].props.sprite,
                    old(self).tile_atlas@.len() as int,
                ));
            }
        }
        id
    }

    /// Loads one sprite asset and spawns an actor for it: the raster is
    /// validated and decomposed into deduplicated tiles, the sprite is
    /// bound to `kind`, and the actor joins the active list at the given
    /// sub-cell position. A rejected raster reports its error and leaves
    /// the game exactly as it was.
    pub fn spawn_actor(
        &mut self,
        kind: EntityType,
        sprite_as_lines: &Vec<Vec<u8>>,
        z_order: u8,
        x_pos: i32,
        y_pos: i32,
    ) -> (result: Result<(), ValidationError>)
        requires
            old(self).wf(),
            old(self).tile_atlas@.len() + raster_block_budget(raster_view(sprite_as_lines))
                <= ATLAS_CAPACITY,
        ensures
            final(self).wf(),
            ({
                let rows = raster_view(sprite_as_lines);
                match result {
                    Err(e) => {
                        &&& raster_check(rows) == Err::<(), ValidationError>(e)
                        &&& *final(self) == *old(self)
                    },
                    Ok(()) => {
                        let spawned = final(self).actor_list@.last();
                        &&& raster_check(rows) == Ok::<(), ValidationError>(())
                        &&& final(self).actor_list@.len() == old(self).actor_list@.len() + 1
                        &&& forall|k: int|
                            0 <= k < old(self).actor_list@.len() ==> final(self).actor_list@[k]
                                == old(self).actor_list@[k]
                        &&& spawned.actions == ActorBehavior::Mushroom
                        &&& spawned.props.x_pos == x_pos
                        &&& spawned.props.y_pos == y_pos
                        &&& spawned.props.sprite.entity_type == kind
                        &&& spawned.props.sprite.z_order == z_order
                        &&& sprite_decodes(
                            spawned.props.sprite,
                            old(self).tile_atlas@,
                            final(self).tile_atlas@,
                            rows,
                        )
                    },
                }
            }),
    {
        let mut sprite = match Sprite::new(self, sprite_as_lines, z_order) {
            Err(e) => {
                return Err(e);
            },
            Ok(sprite) => sprite,
        };
        sprite.entity_type = kind;
        let actor = Actor::new(ActorProps::new(x_pos, y_pos, sprite), ActorBehavior::Mushroom);
        let ghost grown = self.tile_atlas@;
        self.actor_list.push(actor);
        proof {
            assert forall|k: int| 0 <= k < self.actor_list@.len() implies sprite_wf(
                (#[trigger] self.actor_list@[k]).props.sprite,
                self.tile_atlas@.len() as int,
            ) by {
                if k < self.actor_list@.len() - 1 {
                    assert(self.actor_list@[k] == old(self).actor_list@[k]);
                }
            }
        }
        Ok(())
    }

    /// Advances every actor by one update step of its behavior, then
    /// composites the frame onto `win`. The atlas and the set of actors
    /// are untouched; only actor positions move.
    pub fn on_update(&mut self, win: &mut Window, delta_time: &u128)
        requires
            old(self).wf(),
            old(win).wf(),
        ensures
            final(self).wf(),
            final(win).wf(),
            final(self).tile_atlas == old(self).tile_atlas,
            final(self).next_tile_id == old(self).next_tile_id,
            final(self).actor_list@.len() == old(self).actor_list@.len(),
            forall|k: int|
                0 <= k < old(self).actor_list@.len() ==> final(self).actor_list@[k] == step_actor(
                    #[trigger] old(self).actor_list@[k],
                ),
            final(win).spec_width() == old(win).spec_width(),
            final(win).spec_height() == old(win).spec_height(),
            (final(win).glyphs(), final(win).colors()) == frame_model(
                *final(self),
                old(win).spec_width() as int,
                old(win).spec_height() as int,
            ),
    {
        let actor_count: usize = self.actor_list.len();
        let mut k: usize = 0;
        while k < actor_count
            invariant
                old(self).wf(),
                actor_count == self.actor_list@.len(),
                k <= actor_count,
                self.tile_atlas == old(self).tile_atlas,
                self.next_tile_id == old(self).next_tile_id,
                self.actor_list@.len() == old(self).actor_list@.len(),
                forall|j: int|
                    0 <= j < k ==> self.actor_list@[j] == step_actor(
                        #[trigger] old(self).actor_list@[j],
                    ),
                forall|j: int|
                    k <= j < actor_count ==> self.actor_list@[j] == old(self).actor_list@[j],
            decreases actor_count - k,
        {
            let actor = &mut self.actor_list[k];
            let actions = actor.actions;
            actions.update_pos(&mut actor.props, delta_time);
            proof {
                assert(self.actor_list@[k as int] == step_actor(old(self).actor_list@[k as int]));
            }
            k = k + 1;
        }
        proof {
            assert forall|j: int| 0 <= j < self.actor_list@.len() implies sprite_wf(
                (#[trigger] self.actor_list@[j]).props.sprite,
                self.tile_atlas@.len() as int,
            ) by {
                assert(self.actor_list@[j].props.sprite == old(self).actor_list@[j].props.sprite);
                assert(sprite_wf(
                    old(self).actor_list@[j].props.sprite,
                    old(self).tile_atlas@.len() as int,
                ));
            }
        }
        win.render_frame(self);
    }

    /// The tile registered under `id`; ids are only ever produced by the
    /// atlas itself, so an unknown id is an internal-consistency fault that
    /// callers rule out beforehand.
    pub fn get_tile(&self, id: Ident) -> (tile: &Tile)
        requires
            (id as int) < self.tile_atlas@.len(),
        ensures
            *tile == self.tile_atlas@[id as int],
    {
        &self.tile_atlas[id as usize]
    }
}

} // verus!

use vstd::prelude::*;

verus! {

/// Handle type for tiles registered in the atlas. Ids are dense: the tile
/// with id `n` is the `n`-th tile ever inserted.
pub type Ident = u16;

/// A terminal color attribute attached to one glyph cell.
#[derive(Debug, Copy, Clone, PartialEq, Eq, Structural)]
pub struct Color(pub i32);

/// Frame rate the game loop aims for; pacing itself happens outside the core.
pub const TARGET_FPS: u8 = 30;

/// Binds actors to their respective sprites.
#[derive(Debug, Copy, Clone, PartialEq, Eq, Structural)]
pub enum EntityType {
    Unbound,
    Mario,
    Mushroom,
    OneUp,
    Bowser,
    Goomba,
    Koopa,
    Parakoopa,
    Pirhana,
    Lakitu,
    Spiney,
    Beetle,
    BulletBill,
    HammerBro,
    FireBar,
}

} // verus!

pub mod sprite;

use vstd::prelude::*;

verus! {

use crate::actor::sprite::Sprite;

/// Number of sub-cell position units per character cell. Actor positions are
/// kept in sub-cell units so that movement can be smoother than one cell per
/// step; they are rounded to whole cells only when a frame is rendered.
pub const POS_SCALE: i32 = 10;

/// Rounds a sub-cell position to its cell coordinate: division by
/// `POS_SCALE`, rounding half away from zero (so `15` is cell `2`,
/// `-15` is cell `-2`).
pub open spec fn cell_of(pos: int) -> int {
    if pos >= 0 {
        (pos + 5) / 10
    } else {
        -((-pos + 5) / 10)
    }
}

/// Executable counterpart of [`cell_of`].
pub fn cell_of_pos(pos: i32) -> (cell: i32)
    ensures
        cell as int == cell_of(pos as int),
{
    if pos >= 0 {
        let units: u32 = pos as u32;
        ((units + 5) / 10) as i32
    } else {
        let units: u32 = (-(pos as i64)) as u32;
        let magnitude: u32 = (units + 5) / 10;
        -(magnitude as i32)
    }
}

// Basic behaviors shared by all actors.
pub trait ActorActions {
    /// What one update step does to the given properties.
    spec fn step_spec(&self, props: ActorProps) -> ActorProps;

    fn update_pos(&self, actor_props: &mut ActorProps, delta_time: &u128)
        ensures
            *final(actor_props) == self.step_spec(*old(actor_props)),
    ;
}

// Basic properties shared by all actors.
pub struct ActorProps {
    /// The x position of the actor, in sub-cell units.
    pub x_pos: i32,
    /// The y position of the actor, in sub-cell units.
    pub y_pos: i32,
    /// The actor's associated sprite.
    pub sprite: Sprite,
}

impl ActorProps {
    pub fn new(x_pos: i32, y_pos: i32, sprite: Sprite) -> (props: Self)
        ensures
            props.x_pos == x_pos,
            props.y_pos == y_pos,
            props.sprite == sprite,
    {
        ActorProps { x_pos, y_pos, sprite }
    }
}

/// What one mushroom step does to an actor's properties: drift one sub-cell
/// to the right, stopping at the numeric limit.
pub open spec fn mushroom_step(props: ActorProps) -> ActorProps {
    ActorProps {
        x_pos: if props.x_pos < i32::MAX {
            (props.x_pos + 1) as i32
        } else {
            props.x_pos
        },
        ..props
    }
}

// Actions for each type of actor.
pub struct MushroomActions;

impl ActorActions for MushroomActions {
    open spec fn step_spec(&self, props: ActorProps) -> ActorProps {
        mushroom_step(props)
    }

    fn update_pos(&self, actor_props: &mut ActorProps, _delta_time: &u128) {
        if actor_props.x_pos < i32::MAX {
            actor_props.x_pos = actor_props.x_pos + 1;
        }
    }
}

/// The fixed set of behavior kinds an actor can be given; per-frame movement
/// is dispatched over this tag.
#[derive(Clone, Copy, PartialEq, Eq, Structural, Debug)]
pub enum ActorBehavior {
    Mushroom,
}

impl ActorBehavior {
    /// What one update step of this behavior does to the given properties.
    pub open spec fn step(self, props: ActorProps) -> ActorProps {
        match self {
            ActorBehavior::Mushroom => mushroom_step(props),
        }
    }

    /// Advances `actor_props` by one update step of this behavior.
    pub fn update_pos(&self, actor_props: &mut ActorProps, delta_time: &u128)
        ensures
            *final(actor_props) == self.step(*old(actor_props)),
    {
        match self {
            ActorBehavior::Mushroom => {
                MushroomActions.update_pos(actor_props, delta_time);
            },
        }
    }
}

// The actual actor type.
pub struct Actor {
    pub props: ActorProps,
    pub actions: ActorBehavior,
}

impl Actor {
    pub fn new(props: ActorProps, actions: ActorBehavior) -> (actor: Self)
        ensures
            actor.props == props,
            actor.actions == actions,
    {
        Actor { props, actions }
    }
}

} // verus!

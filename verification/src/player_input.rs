//! The decisions of the player's movement input: which speed applies and what
//! happens to the vertical velocity, from the body's state flags and the keys
//! held. The speeds themselves are applied by the caller.
use vstd::prelude::*;

verus! {

/// The body's state flags that movement depends on.
#[derive(Debug, Clone, Copy, PartialEq, Eq, Structural)]
pub struct BodyState {
    pub grounded: bool,
    pub in_water: bool,
    pub on_ladder: bool,
}

/// The movement keys held this frame.
#[derive(Debug, Clone, Copy, PartialEq, Eq, Structural)]
pub struct MovementKeys {
    pub forward: bool,
    pub back: bool,
    pub jump: bool,
    pub sprint: bool,
    pub crouch: bool,
}

/// Which horizontal speed applies (walking 4.3, sprinting 5.6, crouching 1.3,
/// in the air 2.0, swimming 2.0).
#[derive(Debug, Clone, Copy, PartialEq, Eq, Structural)]
pub enum MovementSpeed {
    Walk,
    Sprint,
    Crouch,
    Air,
    Swim,
}

/// What happens to the vertical velocity: left as it is, or set to climbing up
/// (3.0) or down (-3.0), holding on the ladder (0.0), swimming up (4.0), a jump
/// (8.5) or swimming down (-2.0).
#[derive(Debug, Clone, Copy, PartialEq, Eq, Structural)]
pub enum VerticalMotion {
    Keep,
    ClimbUp,
    ClimbDown,
    HoldOnLadder,
    SwimUp,
    Jump,
    SwimDown,
}

/// The horizontal speed for a body state and keys.
pub open spec fn speed_of(body: BodyState, keys: MovementKeys) -> MovementSpeed {
    if !body.in_water && !body.on_ladder {
        if keys.sprint && body.grounded {
            MovementSpeed::Sprint
        } else if keys.crouch {
            MovementSpeed::Crouch
        } else if !body.grounded {
            MovementSpeed::Air
        } else {
            MovementSpeed::Walk
        }
    } else if body.in_water {
        MovementSpeed::Swim
    } else {
        MovementSpeed::Walk
    }
}

/// The vertical motion for a body state and keys.
pub open spec fn motion_of(body: BodyState, keys: MovementKeys) -> VerticalMotion {
    if body.on_ladder {
        if keys.forward {
            VerticalMotion::ClimbUp
        } else if keys.back {
            VerticalMotion::ClimbDown
        } else {
            VerticalMotion::HoldOnLadder
        }
    } else if keys.jump {
        if body.in_water {
            VerticalMotion::SwimUp
        } else if body.grounded {
            VerticalMotion::Jump
        } else {
            VerticalMotion::Keep
        }
    } else if body.in_water && keys.crouch {
        VerticalMotion::SwimDown
    } else {
        VerticalMotion::Keep
    }
}

/// The horizontal speed: out of water and off ladders, sprinting needs the
/// ground, crouching comes next, and a body in the air moves at air speed;
/// in water it swims; on a ladder out of water it walks.
pub fn movement_speed(body: BodyState, keys: MovementKeys) -> (speed: MovementSpeed)
    ensures
        speed == speed_of(body, keys),
{
    if !body.in_water && !body.on_ladder {
        if keys.sprint && body.grounded {
            MovementSpeed::Sprint
        } else if keys.crouch {
            MovementSpeed::Crouch
        } else if !body.grounded {
            MovementSpeed::Air
        } else {
            MovementSpeed::Walk
        }
    } else if body.in_water {
        MovementSpeed::Swim
    } else {
        MovementSpeed::Walk
    }
}

/// The vertical motion: on a ladder forward climbs, back descends and
/// otherwise the body holds; off ladders jump swims up in water and jumps
/// from the ground; crouching in water swims down.
pub fn vertical_motion(body: BodyState, keys: MovementKeys) -> (motion: VerticalMotion)
    ensures
        motion == motion_of(body, keys),
{
    if body.on_ladder {
        if keys.forward {
            VerticalMotion::ClimbUp
        } else if keys.back {
            VerticalMotion::ClimbDown
        } else {
            VerticalMotion::HoldOnLadder
        }
    } else if keys.jump {
        if body.in_water {
            VerticalMotion::SwimUp
        } else if body.grounded {
            VerticalMotion::Jump
        } else {
            VerticalMotion::Keep
        }
    } else if body.in_water && keys.crouch {
        VerticalMotion::SwimDown
    } else {
        VerticalMotion::Keep
    }
}

/// A body in the air never jumps and never sprints, and a body on a ladder
/// never jumps or swims.
pub proof fn lemma_no_jump_or_sprint_in_air(body: BodyState, keys: MovementKeys)
    ensures
        !body.grounded ==> speed_of(body, keys) != MovementSpeed::Sprint && motion_of(body, keys)
            != VerticalMotion::Jump,
        body.on_ladder ==> motion_of(body, keys) != VerticalMotion::Jump && motion_of(body, keys)
            != VerticalMotion::SwimUp && motion_of(body, keys) != VerticalMotion::SwimDown,
{
}

} // verus!

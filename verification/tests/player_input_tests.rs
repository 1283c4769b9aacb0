use hearth_engine::player_input::{movement_speed, vertical_motion, BodyState, MovementKeys, MovementSpeed, VerticalMotion};

fn body(grounded: bool, in_water: bool, on_ladder: bool) -> BodyState {
    BodyState { grounded, in_water, on_ladder }
}

fn keys(forward: bool, back: bool, jump: bool, sprint: bool, crouch: bool) -> MovementKeys {
    MovementKeys { forward, back, jump, sprint, crouch }
}

#[test]
fn speed_follows_state_and_keys() {
    assert_eq!(movement_speed(body(true, false, false), keys(true, false, false, false, false)), MovementSpeed::Walk);
    assert_eq!(movement_speed(body(true, false, false), keys(true, false, false, true, false)), MovementSpeed::Sprint);
    assert_eq!(movement_speed(body(false, false, false), keys(true, false, false, true, false)), MovementSpeed::Air);
    assert_eq!(movement_speed(body(false, false, false), keys(true, false, false, true, true)), MovementSpeed::Crouch);
    assert_eq!(movement_speed(body(true, false, false), keys(false, false, false, false, true)), MovementSpeed::Crouch);
    assert_eq!(movement_speed(body(true, true, false), keys(true, false, false, true, false)), MovementSpeed::Swim);
    assert_eq!(movement_speed(body(true, false, true), keys(true, false, false, true, false)), MovementSpeed::Walk);
}

#[test]
fn vertical_motion_follows_state_and_keys() {
    assert_eq!(vertical_motion(body(false, false, true), keys(true, true, true, false, false)), VerticalMotion::ClimbUp);
    assert_eq!(vertical_motion(body(false, false, true), keys(false, true, false, false, false)), VerticalMotion::ClimbDown);
    assert_eq!(vertical_motion(body(false, false, true), keys(false, false, true, false, false)), VerticalMotion::HoldOnLadder);
    assert_eq!(vertical_motion(body(true, false, false), keys(false, false, true, false, false)), VerticalMotion::Jump);
    assert_eq!(vertical_motion(body(false, false, false), keys(false, false, true, false, false)), VerticalMotion::Keep);
    assert_eq!(vertical_motion(body(true, true, false), keys(false, false, true, false, false)), VerticalMotion::SwimUp);
    assert_eq!(vertical_motion(body(false, true, false), keys(false, false, false, false, true)), VerticalMotion::SwimDown);
    assert_eq!(vertical_motion(body(true, false, false), keys(false, false, false, false, true)), VerticalMotion::Keep);
}

use tilegame::players::{Jumping, LookDirection, MoveDirection, OnGround, Player};

#[test]
fn player_defaults() {
    assert_eq!(Player::default(), Player::Local);
    assert_eq!(LookDirection::default(), LookDirection::Right);
    assert_eq!(MoveDirection::default(), MoveDirection::Still);
    assert_eq!(Jumping::default(), Jumping(false));
    assert_eq!(OnGround::default(), OnGround(false));
}

#[test]
fn steering_keys_cancel_each_other() {
    assert_eq!(MoveDirection::from_keys(false, false), MoveDirection::Still);
    assert_eq!(MoveDirection::from_keys(true, false), MoveDirection::Left);
    assert_eq!(MoveDirection::from_keys(false, true), MoveDirection::Right);
    assert_eq!(MoveDirection::from_keys(true, true), MoveDirection::Still);
}

#[test]
fn direction_signs() {
    assert_eq!(MoveDirection::Left.sign(), -1);
    assert_eq!(MoveDirection::Right.sign(), 1);
    assert_eq!(MoveDirection::Still.sign(), 0);
}

#[test]
fn player_faces_where_it_moves() {
    assert_eq!(LookDirection::Right.after_move(MoveDirection::Left), LookDirection::Left);
    assert_eq!(LookDirection::Left.after_move(MoveDirection::Right), LookDirection::Right);
    assert_eq!(LookDirection::Left.after_move(MoveDirection::Still), LookDirection::Left);
    assert_eq!(LookDirection::Right.after_move(MoveDirection::Still), LookDirection::Right);
}

#[test]
fn jump_key_by_setting() {
    assert_eq!(Jumping::from_keys(true, true, false), Jumping(true));
    assert_eq!(Jumping::from_keys(false, true, false), Jumping(false));
    assert_eq!(Jumping::from_keys(false, true, true), Jumping(true));
    assert_eq!(Jumping::from_keys(true, false, false), Jumping(false));
}

#[test]
fn jumping_player_leaves_the_ground() {
    assert_eq!(OnGround(true).after_jump(Jumping(true)), OnGround(false));
    assert_eq!(OnGround(true).after_jump(Jumping(false)), OnGround(true));
    assert_eq!(OnGround(false).after_jump(Jumping(true)), OnGround(false));
}

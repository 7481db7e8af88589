//! What the keys ask of a player.

use vstd::prelude::*;

verus! {

/// Whose player it is: the one at this machine, or one from elsewhere.
#[derive(Clone, Copy, Debug, PartialEq, Eq, Structural)]
pub enum Player {
    Local,
    _Remote,
}

/// The side that a player faces.
#[derive(Clone, Copy, Debug, PartialEq, Eq, Structural)]
pub enum LookDirection {
    Left,
    Right,
}

/// The side that a player is steered to.
#[derive(Clone, Copy, Debug, PartialEq, Eq, Structural)]
pub enum MoveDirection {
    Left,
    Right,
    Still,
}

/// Whether a player is asked to jump.
#[derive(Clone, Copy, Debug, PartialEq, Eq, Structural)]
pub struct Jumping(pub bool);

/// Whether a player stands on the ground.
#[derive(Clone, Copy, Debug, PartialEq, Eq, Structural)]
pub struct OnGround(pub bool);

impl Default for Player {
    fn default() -> (player: Self)
        ensures
            player == Player::Local,
    {
        Self::Local
    }
}

impl Default for LookDirection {
    fn default() -> (direction: Self)
        ensures
            direction == LookDirection::Right,
    {
        Self::Right
    }
}

impl Default for MoveDirection {
    fn default() -> (direction: Self)
        ensures
            direction == MoveDirection::Still,
    {
        Self::Still
    }
}

impl Default for Jumping {
    fn default() -> (jumping: Self)
        ensures
            !jumping.0,
    {
        Jumping(false)
    }
}

impl Default for OnGround {
    fn default() -> (on_ground: Self)
        ensures
            !on_ground.0,
    {
        OnGround(false)
    }
}

impl MoveDirection {
    /// The direction that the two steering keys ask for: the side of the
    /// one key that is held, none where both or neither are.
    pub fn from_keys(left: bool, right: bool) -> (direction: Self)
        ensures
            direction == (if left && !right {
                MoveDirection::Left
            } else if right && !left {
                MoveDirection::Right
            } else {
                MoveDirection::Still
            }),
    {
        let mut direction = MoveDirection::Still;
        if left {
            direction = MoveDirection::Left;
        }
        if right {
            if let MoveDirection::Left = direction {
                direction = MoveDirection::Still;
            } else {
                direction = MoveDirection::Right;
            }
        }
        direction
    }

    /// The sign of the direction: -1 for left, 1 for right, 0 for none.
    pub fn sign(&self) -> (sign: i8)
        ensures
            sign == (match *self {
                MoveDirection::Left => -1i8,
                MoveDirection::Right => 1i8,
                MoveDirection::Still => 0i8,
            }),
    {
        match self {
            MoveDirection::Left => -1,
            MoveDirection::Right => 1,
            MoveDirection::Still => 0,
        }
    }
}

impl LookDirection {
    /// The side that a player faces once steered: the side it moves to, and
    /// the side it faced before where it does not move.
    pub fn after_move(self, direction: MoveDirection) -> (facing: Self)
        ensures
            facing == (match direction {
                MoveDirection::Left => LookDirection::Left,
                MoveDirection::Right => LookDirection::Right,
                MoveDirection::Still => self,
            }),
    {
        match direction {
            MoveDirection::Left => LookDirection::Left,
            MoveDirection::Right => LookDirection::Right,
            MoveDirection::Still => self,
        }
    }
}

impl Jumping {
    /// Whether the jump key asks for a jump: while it is held where held
    /// keys keep jumping, else only when it has just gone down.
    pub fn from_keys(hold_to_keep_jumping: bool, pressed: bool, just_pressed: bool) -> (jumping:
        Self)
        ensures
            jumping.0 == (if hold_to_keep_jumping {
                pressed
            } else {
                just_pressed
            }),
    {
        if hold_to_keep_jumping {
            Jumping(pressed)
        } else {
            Jumping(just_pressed)
        }
    }
}

impl OnGround {
    /// Whether a player that stood like this still stands once the jump is
    /// taken: one that jumps leaves the ground.
    pub fn after_jump(self, jumping: Jumping) -> (on_ground: Self)
        ensures
            on_ground.0 == (self.0 && !jumping.0),
    {
        OnGround(self.0 && !jumping.0)
    }
}

} // verus!

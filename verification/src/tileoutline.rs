//! The outline of a tile, from the solid tiles around it.

use vstd::prelude::*;

verus! {

/// Which of the eight cells around a tile hold a solid tile.
#[derive(Clone, Copy, Debug, PartialEq, Eq, Structural)]
pub struct ConnectedNeighbors {
    pub top_left: bool,
    pub top: bool,
    pub top_right: bool,
    pub left: bool,
    pub right: bool,
    pub bottom: bool,
    pub bottom_left: bool,
    pub bottom_right: bool,
}

/// Number of distinct outline sprites.
pub const OUTLINE_COUNT: usize = 47;

/// Outline of a tile that is enclosed on every side: nothing is drawn.
pub const OUTLINE_ENCLOSED: usize = 40;

/// The outline of a tile whose four edges are all connected, by its four corners.
pub open spec fn outline_of_corners(tl: bool, tr: bool, bl: bool, br: bool) -> nat {
    match (tl, tr, bl, br) {
        (true, true, true, true) => 40,
        (true, true, true, false) => 17,
        (true, true, false, true) => 18,
        (true, true, false, false) => 19,
        (true, false, true, true) => 25,
        (true, false, true, false) => 27,
        (true, false, false, true) => 39,
        (true, false, false, false) => 42,
        (false, true, true, true) => 26,
        (false, true, true, false) => 47,
        (false, true, false, true) => 28,
        (false, true, false, false) => 41,
        (false, false, true, true) => 20,
        (false, false, true, false) => 34,
        (false, false, false, true) => 33,
        (false, false, false, false) => 23,
    }
}

impl ConnectedNeighbors {
    /// The neighbourhood with every corner dropped that does not touch two
    /// connected edges. A corner cell only shapes the outline where both
    /// edges next to it are connected.
    pub open spec fn effective(self) -> ConnectedNeighbors {
        ConnectedNeighbors {
            top_left: self.top_left && self.top && self.left,
            top_right: self.top_right && self.top && self.right,
            bottom_left: self.bottom_left && self.bottom && self.left,
            bottom_right: self.bottom_right && self.bottom && self.right,
            ..self
        }
    }

    /// The outline table: the sprite id of each neighbourhood, by its four
    /// edges and the corners that count.
    pub open spec fn outline_id(self) -> nat {
        let n = self.effective();
        match (n.top, n.bottom, n.left, n.right) {
            (true, true, true, true) => outline_of_corners(
                n.top_left,
                n.top_right,
                n.bottom_left,
                n.bottom_right,
            ),
            (true, true, true, false) => match (n.top_left, n.bottom_left) {
                (true, true) => 22,
                (true, false) => 44,
                (false, true) => 36,
                (false, false) => 13,
            },
            (true, true, false, true) => match (n.top_right, n.bottom_right) {
                (true, true) => 21,
                (true, false) => 43,
                (false, true) => 35,
                (false, false) => 12,
            },
            (true, true, false, false) => 11,
            (true, false, true, true) => match (n.top_left, n.top_right) {
                (true, true) => 30,
                (true, false) => 46,
                (false, true) => 45,
                (false, false) => 5,
            },
            (true, false, true, false) => if n.top_left { 32 } else { 10 },
            (true, false, false, true) => if n.top_right { 16 } else { 9 },
            (true, false, false, false) => 7,
            (false, true, true, true) => match (n.bottom_left, n.bottom_right) {
                (true, true) => 29,
                (true, false) => 38,
                (false, true) => 37,
                (false, false) => 4,
            },
            (false, true, true, false) => if n.bottom_left { 24 } else { 2 },
            (false, true, false, true) => if n.bottom_right { 8 } else { 1 },
            (false, true, false, false) => 14,
            (false, false, true, true) => 3,
            (false, false, true, false) => 6,
            (false, false, false, true) => 15,
            (false, false, false, false) => 31,
        }
    }

    /// A neighbourhood with nothing connected.
    pub fn new() -> (neighbors: Self)
        ensures
            neighbors == (ConnectedNeighbors {
                top_left: false,
                top: false,
                top_right: false,
                left: false,
                right: false,
                bottom: false,
                bottom_left: false,
                bottom_right: false,
            }),
    {
        Self {
            top_left: false,
            top: false,
            top_right: false,
            left: false,
            right: false,
            bottom: false,
            bottom_left: false,
            bottom_right: false,
        }
    }

    /// The id of the outline sprite for this neighbourhood, from 1 to 47.
    pub fn get_outline_id(self) -> (id: usize)
        ensures
            id == self.outline_id(),
            1 <= id <= OUTLINE_COUNT,
    {
        if self.top {
            if self.bottom {
                if self.left {
                    if self.right {
                        if self.top_left {
                            if self.top_right {
                                if self.bottom_left {
                                    if self.bottom_right {
                                        40
                                    } else {
                                        17
                                    }
                                } else if self.bottom_right {
                                    18
                                } else {
                                    19
                                }
                            } else if self.bottom_left {
                                if self.bottom_right {
                                    25
                                } else {
                                    27
                                }
                            } else if self.bottom_right {
                                39
                            } else {
                                42
                            }
                        } else if self.top_right {
                            if self.bottom_left {
                                if self.bottom_right {
                                    26
                                } else {
                                    47
                                }
                            } else if self.bottom_right {
                                28
                            } else {
                                41
                            }
                        } else if self.bottom_left {
                            if self.bottom_right {
                                20
                            } else {
                                34
                            }
                        } else if self.bottom_right {
                            33
                        } else {
                            23
                        }
                    } else if self.top_left {
                        if self.bottom_left {
                            22
                        } else {
                            44
                        }
                    } else if self.bottom_left {
                        36
                    } else {
                        13
                    }
                } else if self.right {
                    if self.top_right {
                        if self.bottom_right {
                            21
                        } else {
                            43
                        }
                    } else if self.bottom_right {
                        35
                    } else {
                        12
                    }
                } else {
                    11
                }
            } else if self.left {
                if self.right {
                    if self.top_left {
                        if self.top_right {
                            30
                        } else {
                            46
                        }
                    } else if self.top_right {
                        45
                    } else {
                        5
                    }
                } else if self.top_left {
                    32
                } else {
                    10
                }
            } else if self.right {
                if self.top_right {
                    16
                } else {
                    9
                }
            } else {
                7
            }
        } else if self.bottom {
            if self.left {
                if self.right {
                    if self.bottom_left {
                        if self.bottom_right {
                            29
                        } else {
                            38
                        }
                    } else if self.bottom_right {
                        37
                    } else {
                        4
                    }
                } else if self.bottom_left {
                    24
                } else {
                    2
                }
            } else if self.right {
                if self.bottom_right {
                    8
                } else {
                    1
                }
            } else {
                14
            }
        } else if self.left {
            if self.right {
                3
            } else {
                6
            }
        } else if self.right {
            15
        } else {
            31
        }
    }
}

/// Every neighbourhood has an outline among the 47 sprites.
pub proof fn lemma_outline_id_in_range(n: ConnectedNeighbors)
    ensures
        1 <= n.outline_id() <= 47,
{
}

/// A corner cell that does not touch two connected edges never changes the
/// outline.
pub proof fn lemma_outline_id_ignores_loose_corners(n: ConnectedNeighbors)
    ensures
        n.outline_id() == n.effective().outline_id(),
        n.effective().effective() == n.effective(),
{
}

/// Two neighbourhoods share an outline exactly when they agree on the edges
/// and on the corners that count: the 47 ids name 47 different shapes.
pub proof fn lemma_outline_id_distinguishes(a: ConnectedNeighbors, b: ConnectedNeighbors)
    ensures
        a.outline_id() == b.outline_id() <==> a.effective() == b.effective(),
{
}

} // verus!

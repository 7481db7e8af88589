//! The flow pass: liquids pour down, react with other liquids, and level
//! out.

use crate::gravity::{offset_on, Sides};
use crate::grid::{prefers_left, prefers_left_side, ChunkStore, Coordinate};
use crate::order::{
    ascending, keys_of, lemma_ascending_of_none, lemma_ascending_of_one, pass_keys,
};
use crate::tilephysics::INITIAL_LIQUID_MOMENTUM;
use crate::tiles::{set_tile, Marker};
use crate::tiletypes::{Liquid, LiquidInteraction, TileType};
use crate::world::{
    is_marked, key_of, lemma_mark_keeps_wf, lemma_try_set_tile_keeps_wf, marked_keys, tile_ok,
    World,
};
use vstd::prelude::*;

verus! {

/// The levels of two cells of one liquid after the upper one has poured
/// into the lower one: the lower cell takes what fits, the rest stays above.
pub open spec fn poured(upper: u8, lower: u8) -> (u8, u8) {
    if upper + lower <= 255 {
        (0u8, (upper + lower) as u8)
    } else {
        ((upper + lower - 255) as u8, 255u8)
    }
}

/// The level of the liquid in a tile; 0 for a tile that is no liquid.
pub open spec fn level_of(tile_type: TileType) -> u8 {
    match tile_type.liquid_of() {
        Some(liquid) => liquid.level,
        None => 0,
    }
}

/// The world after the liquid at `(x, y)` has poured into the cell of the
/// same liquid at `(bx, by)`. Both cells come out as liquids at rest.
pub open spec fn pour(w: World, x: int, y: int, bx: int, by: int) -> World {
    let me = w.kind(x, y);
    let levels = poured(level_of(me), level_of(w.kind(bx, by)));
    w.try_set_tile(x, y, me.spec_with_liquid(Liquid::of_level(levels.0))).try_set_tile(
        bx,
        by,
        me.spec_with_liquid(Liquid::of_level(levels.1)),
    )
}

/// The world after the liquid at `(x, y)` has met the liquid of another
/// kind at `(bx, by)`.
pub open spec fn react(w: World, x: int, y: int, bx: int, by: int) -> World {
    let me = w.kind(x, y);
    let other = w.kind(bx, by);
    match me.interaction(other) {
        LiquidInteraction::Vaporize => w.try_set_tile(x, y, TileType::Empty).try_set_tile(
            bx,
            by,
            me,
        ),
        LiquidInteraction::Vaporized => w.try_set_tile(x, y, TileType::Empty),
        LiquidInteraction::Float => w.try_set_tile(
            bx,
            by,
            other.spec_with_liquid(
                (Liquid { sprite_override: true, ..other.liquid_of().unwrap() }),
            ),
        ),
        LiquidInteraction::Sink => w.try_set_tile(x, y, other).try_set_tile(bx, by, me),
    }
}

/// What a flowing liquid finds in a cell of the row below.
#[derive(Clone, Copy, Debug, PartialEq, Eq, Structural)]
pub enum FlowProbe {
    /// A cell of the same liquid: the search goes on.
    Open,
    /// A cell that ends the search on its side: one of a chunk that is not
    /// loaded, one that holds no liquid, or a liquid that carries this one
    /// and shows it already.
    Closed,
    /// A liquid of another kind that the meeting changes.
    React,
}

/// What the liquid at `(x, y)` finds at `(bx, by)`.
pub open spec fn flow_probe(w: World, x: int, y: int, bx: int, by: int) -> FlowProbe {
    let me = w.kind(x, y);
    if !w.loaded(bx, by) {
        FlowProbe::Closed
    } else {
        let other = w.kind(bx, by);
        if other.spec_same_kind(me) {
            FlowProbe::Open
        } else if !other.spec_is_liquid() {
            FlowProbe::Closed
        } else if me.interaction(other) == LiquidInteraction::Float
            && other.liquid_of().unwrap().sprite_override {
            FlowProbe::Closed
        } else {
            FlowProbe::React
        }
    }
}

/// The search of the liquid at `(x, y)` along the row below, from distance
/// `distance` on. At each distance the side `first` is tried before the
/// other one; the cell straight down is the first cell of the right side.
/// The search ends with the first liquid of another kind that the meeting
/// changes, and finds nothing once both sides are closed or the distance has
/// passed `reach`.
pub open spec fn flow_scan(
    w: World,
    x: int,
    y: int,
    reach: int,
    first: int,
    distance: int,
    sides: Sides,
) -> Option<World>
    decreases reach - distance + 1,
{
    if distance > reach {
        None
    } else {
        let near_skipped = sides.blocked(first) || (distance == 0 && first < 0);
        let near = if near_skipped {
            FlowProbe::Open
        } else {
            flow_probe(w, x, y, x + offset_on(first, distance), y - 1)
        };
        let sides_near = if near == FlowProbe::Closed {
            sides.block(first)
        } else {
            sides
        };
        let far_skipped = sides_near.blocked(-first) || (distance == 0 && -first < 0);
        let far = if far_skipped {
            FlowProbe::Open
        } else {
            flow_probe(w, x, y, x + offset_on(-first, distance), y - 1)
        };
        let sides_far = if far == FlowProbe::Closed {
            sides_near.block(-first)
        } else {
            sides_near
        };
        if near == FlowProbe::React {
            Some(react(w, x, y, x + offset_on(first, distance), y - 1))
        } else if far == FlowProbe::React {
            Some(react(w, x, y, x + offset_on(-first, distance), y - 1))
        } else if sides_far.both() {
            None
        } else {
            flow_scan(w, x, y, reach, first, distance + 1, sides_far)
        }
    }
}

/// The side that a search along the row below tries first in the tick
/// `tick`: the right one in even ticks, the left one in odd ticks.
pub open spec fn scan_side(tick: u64) -> int {
    if tick % 2 == 0 {
        1
    } else {
        -1
    }
}

/// How far a liquid searches along the row below: its fluidity squared.
pub open spec fn scan_reach(tile_type: TileType) -> int {
    tile_type.spec_fluidity() as int * tile_type.spec_fluidity() as int
}

/// A liquid of fluidity below 10 searches and levels only in ticks that
/// 11 less its fluidity divides.
pub open spec fn throttled(fluidity: u8, tick: u64) -> bool {
    fluidity < 10 && tick as int % (11 - fluidity as int) != 0
}

/// The level that the liquid `me` sees in the cell at `(x, y)` beside it:
/// the level of the same liquid; 0 for an empty cell and for a liquid that
/// it vaporizes; -1 for what it cannot flow into: a solid, any other liquid,
/// a chunk that is not loaded.
pub open spec fn neighbor_level(w: World, me: TileType, x: int, y: int) -> int {
    if !w.loaded(x, y) {
        -1
    } else {
        let other = w.kind(x, y);
        if other.spec_same_kind(me) {
            level_of(other) as int
        } else if other.spec_is_solid() {
            -1
        } else if other.spec_is_liquid() {
            if me.interaction(other) == LiquidInteraction::Vaporize {
                0
            } else {
                -1
            }
        } else {
            0
        }
    }
}

/// The levels of a liquid cell and of the cells to its left and right, and
/// the side that the next unit goes to where both are open.
pub struct Levels {
    pub left: int,
    pub this: int,
    pub right: int,
    pub flow_right: bool,
}

/// The levels after the cell in the middle has handed out its liquid one
/// unit at a time. A unit goes to a side that can be flowed into and is
/// lower than the middle; where both sides are, the units go to them in
/// turn. It ends when the middle is empty or neither side is lower.
pub open spec fn level_out(levels: Levels) -> Levels
    decreases levels.this,
{
    let left_blocked = levels.left == -1 || levels.left >= levels.this;
    let right_blocked = levels.right == -1 || levels.right >= levels.this;
    if levels.this <= 0 || (left_blocked && right_blocked) {
        levels
    } else {
        let to_right = if right_blocked {
            false
        } else if left_blocked {
            true
        } else {
            levels.flow_right
        };
        level_out(
            Levels {
                left: if to_right {
                    levels.left
                } else {
                    levels.left + 1
                },
                this: levels.this - 1,
                right: if to_right {
                    levels.right + 1
                } else {
                    levels.right
                },
                flow_right: !to_right,
            },
        )
    }
}

/// Whether a level beside a liquid differs from its own by more than one.
pub open spec fn significant(this: int, left: int, right: int) -> bool {
    (left != -1 && (this - left > 1 || left - this > 1)) || (right != -1 && (this - right > 1
        || right - this > 1))
}

/// The momentum of a liquid after a tick: the full momentum where a level
/// beside it differs by more than one; else one less than before, and 1 for
/// a liquid that has not flowed yet.
pub open spec fn next_momentum(liquid: Liquid, significant: bool) -> u8 {
    if significant {
        INITIAL_LIQUID_MOMENTUM
    } else if liquid.flowing_right.is_some() {
        if liquid.momentum == 0 {
            0
        } else {
            (liquid.momentum - 1) as u8
        }
    } else {
        1
    }
}

/// The levelling of the liquid at `(x, y)` with the cells beside it. A
/// liquid whose momentum has run out comes to rest: it loses its marker and
/// nothing else changes. Any other liquid hands out its level, first to
/// the side that it last turned to, or, where it has not flowed yet, to the
/// right if the hash of its position is even and to the left if not. Each
/// of the three cells whose tile comes out different is then changed, the
/// left one first and the middle one last; a cell that takes liquid takes
/// the momentum and the turn of the middle one with it.
pub open spec fn level_step(w: World, x: int, y: int) -> World {
    let me = w.kind(x, y);
    let liquid = me.liquid_of().unwrap();
    let left = neighbor_level(w, me, x - 1, y);
    let right = neighbor_level(w, me, x + 1, y);
    let momentum = next_momentum(liquid, significant(liquid.level as int, left, right));
    if momentum <= 1 {
        w.mark(x, y, Marker::Resting)
    } else {
        let end = level_out(
            Levels {
                left,
                this: liquid.level as int,
                right,
                flow_right: match liquid.flowing_right {
                    Some(to_right) => to_right,
                    None => prefers_left(x, y),
                },
            },
        );
        let w_left = if end.left != left {
            w.try_set_tile(x - 1, y, levelled(me, liquid, end.left, end.flow_right, momentum))
        } else {
            w
        };
        let w_right = if end.right != right {
            w_left.try_set_tile(
                x + 1,
                y,
                levelled(me, liquid, end.right, end.flow_right, momentum),
            )
        } else {
            w_left
        };
        let mine = levelled(me, liquid, end.this, end.flow_right, momentum).spec_normalized();
        if mine != me {
            w_right.try_set_tile(x, y, mine)
        } else {
            w_right
        }
    }
}

/// The liquid `me` at level `level` after a levelling that ended with the
/// next unit due to the side `flow_right`.
pub open spec fn levelled(
    me: TileType,
    liquid: Liquid,
    level: int,
    flow_right: bool,
    momentum: u8,
) -> TileType {
    me.spec_with_liquid(
        Liquid {
            level: level as u8,
            flowing_right: Some(!flow_right),
            momentum,
            sprite_override: liquid.sprite_override,
        },
    )
}

/// Whether the liquid at `(x, y)` pours straight down: the cell below holds
/// the same liquid and is not full.
pub open spec fn pours_down(w: World, x: int, y: int) -> bool {
    w.loaded(x, y - 1) && w.kind(x, y - 1).spec_same_kind(w.kind(x, y)) && level_of(
        w.kind(x, y - 1),
    ) < 255
}

/// What one flow pass does with the cell at `(x, y)` in the tick `tick`. A
/// cell without a flowing marker is left alone. A liquid pours straight
/// down where the cell below holds the same liquid and has room. Else,
/// unless it is throttled in this tick, it searches the row below for a
/// liquid of another kind to react with, and where it finds none it levels
/// with the cells beside it.
pub open spec fn flow_step(w: World, x: int, y: int, tick: u64) -> World {
    if !is_marked(w, x, y, false) {
        w
    } else if pours_down(w, x, y) {
        pour(w, x, y, x, y - 1)
    } else if throttled(w.kind(x, y).spec_fluidity(), tick) {
        w
    } else {
        match flow_scan(
            w,
            x,
            y,
            scan_reach(w.kind(x, y)),
            scan_side(tick),
            0,
            Sides { left_blocked: false, right_blocked: false },
        ) {
            Some(after) => after,
            None => level_step(w, x, y),
        }
    }
}

/// The world after the flow steps for `keys`, first key first. A key of the
/// flow pass holds the column of its cell, then the row.
pub open spec fn flow_pass(w: World, keys: Seq<(int, int)>, tick: u64) -> World
    decreases keys.len(),
{
    if keys.len() == 0 {
        w
    } else {
        flow_pass(flow_step(w, keys[0].0, keys[0].1, tick), keys.drop_first(), tick)
    }
}

/// The cells that a flow pass visits in the tick `tick`: those with a
/// flowing marker, by column and by row within a column, ascending in even
/// ticks and descending in odd ticks.
pub open spec fn flowing_order(w: World, tick: u64) -> Seq<(int, int)> {
    if tick % 2 == 0 {
        ascending(marked_keys(w, false))
    } else {
        ascending(marked_keys(w, false)).reverse()
    }
}

/// Looks at the cell `target` for the liquid `me` at `position`. `None`
/// stands for a cell beyond the grid.
fn flow_probe_at(map: &ChunkStore, position: Coordinate, me: TileType, target: Option<Coordinate>) -> (found:
    FlowProbe)
    requires
        map.wf(),
        position is Tile,
        map@.loaded(position.x(), position.y()),
        me == map@.kind(position.x(), position.y()),
        me.spec_is_liquid(),
        target matches Some(cell) ==> cell is Tile,
    ensures
        target matches Some(cell) ==> found == flow_probe(
            map@,
            position.x(),
            position.y(),
            cell.x(),
            cell.y(),
        ),
        target is None ==> found == FlowProbe::Closed,
{
    let cell = match target {
        Some(cell) => cell,
        None => {
            return FlowProbe::Closed;
        },
    };
    match map.get_tile(cell) {
        Ok(tile) => {
            let other = tile.tile_type;
            if other.same_kind(me) {
                FlowProbe::Open
            } else if !other.is_liquid() {
                FlowProbe::Closed
            } else {
                match me.get_liquid_interaction_with(other) {
                    LiquidInteraction::Float => {
                        if other.liquid().sprite_override {
                            FlowProbe::Closed
                        } else {
                            FlowProbe::React
                        }
                    },
                    _ => FlowProbe::React,
                }
            }
        },
        Err(_) => FlowProbe::Closed,
    }
}

/// Pours the liquid at `position` into the cell of the same liquid at
/// `target`.
fn pour_into(store: &mut ChunkStore, position: Coordinate, target: Coordinate)
    requires
        old(store).wf(),
        position is Tile,
        target is Tile,
        old(store)@.loaded(position.x(), position.y()),
        old(store)@.loaded(target.x(), target.y()),
        old(store)@.kind(position.x(), position.y()).spec_is_liquid(),
        old(store)@.kind(target.x(), target.y()).spec_same_kind(
            old(store)@.kind(position.x(), position.y()),
        ),
    ensures
        final(store).wf(),
        final(store)@ == pour(old(store)@, position.x(), position.y(), target.x(), target.y()),
{
    let me = match store.get_tile(position) {
        Ok(tile) => tile.tile_type,
        Err(_) => {
            return ;
        },
    };
    let other = match store.get_tile(target) {
        Ok(tile) => tile.tile_type,
        Err(_) => {
            return ;
        },
    };
    let upper: u16 = me.liquid().level as u16;
    let lower: u16 = other.liquid().level as u16;
    let (new_level, new_other_level): (u8, u8) = if upper + lower <= 255 {
        (0, (upper + lower) as u8)
    } else {
        ((upper + lower - 255) as u8, 255)
    };
    set_tile(
        store,
        position,
        me.with_liquid(
            Liquid { level: new_level, flowing_right: None, momentum: 0, sprite_override: false },
        ),
    );
    set_tile(
        store,
        target,
        me.with_liquid(
            Liquid {
                level: new_other_level,
                flowing_right: None,
                momentum: 0,
                sprite_override: false,
            },
        ),
    );
}

/// Lets the liquid at `position` meet the liquid of another kind at
/// `target`.
fn react_with(store: &mut ChunkStore, position: Coordinate, target: Coordinate)
    requires
        old(store).wf(),
        position is Tile,
        target is Tile,
        old(store)@.loaded(position.x(), position.y()),
        old(store)@.loaded(target.x(), target.y()),
        old(store)@.kind(position.x(), position.y()).interacts_with(
            old(store)@.kind(target.x(), target.y()),
        ),
    ensures
        final(store).wf(),
        final(store)@ == react(old(store)@, position.x(), position.y(), target.x(), target.y()),
{
    let me = match store.get_tile(position) {
        Ok(tile) => tile.tile_type,
        Err(_) => {
            return ;
        },
    };
    let other = match store.get_tile(target) {
        Ok(tile) => tile.tile_type,
        Err(_) => {
            return ;
        },
    };
    match me.get_liquid_interaction_with(other) {
        LiquidInteraction::Vaporize => {
            set_tile(store, position, TileType::Empty);
            set_tile(store, target, me);
        },
        LiquidInteraction::Vaporized => {
            set_tile(store, position, TileType::Empty);
        },
        LiquidInteraction::Float => {
            let carried = other.liquid();
            set_tile(
                store,
                target,
                other.with_liquid(
                    Liquid {
                        level: carried.level,
                        flowing_right: carried.flowing_right,
                        momentum: carried.momentum,
                        sprite_override: true,
                    },
                ),
            );
        },
        LiquidInteraction::Sink => {
            set_tile(store, position, other);
            set_tile(store, target, me);
        },
    }
}

/// The search of the liquid `me` at `position` along the row below. Says
/// whether it changed anything.
fn scan_below(store: &mut ChunkStore, position: Coordinate, me: TileType, tick: u64) -> (acted:
    bool)
    requires
        old(store).wf(),
        position is Tile,
        old(store)@.loaded(position.x(), position.y()),
        me == old(store)@.kind(position.x(), position.y()),
        me.spec_is_liquid(),
    ensures
        final(store).wf(),
        acted == flow_scan(
            old(store)@,
            position.x(),
            position.y(),
            scan_reach(me),
            scan_side(tick),
            0,
            Sides { left_blocked: false, right_blocked: false },
        ).is_some(),
        final(store)@ == (match flow_scan(
            old(store)@,
            position.x(),
            position.y(),
            scan_reach(me),
            scan_side(tick),
            0,
            Sides { left_blocked: false, right_blocked: false },
        ) {
            Some(after) => after,
            None => old(store)@,
        }),
{
    let fluidity: i32 = me.get_fluidity() as i32;
    let reach: i32 = fluidity * fluidity;
    let first: i32 = if tick % 2 == 0 {
        1
    } else {
        -1
    };
    let mut left_blocked = false;
    let mut right_blocked = false;
    let mut distance: i32 = 0;
    let ghost w = store@;
    let ghost x = position.x();
    let ghost y = position.y();
    let ghost whole = flow_scan(
        w,
        x,
        y,
        reach as int,
        first as int,
        0,
        Sides { left_blocked: false, right_blocked: false },
    );
    while distance <= reach
        invariant
            store.wf(),
            w == store@,
            w == old(store)@,
            position is Tile,
            x == position.x(),
            y == position.y(),
            w.loaded(x, y),
            me == w.kind(x, y),
            me.spec_is_liquid(),
            first == scan_side(tick),
            reach == scan_reach(me),
            0 <= reach <= 100,
            0 <= distance <= reach + 1,
            !(left_blocked && right_blocked) || distance == 0,
            whole == flow_scan(
                w,
                x,
                y,
                reach as int,
                first as int,
                0,
                Sides { left_blocked: false, right_blocked: false },
            ),
            whole == flow_scan(
                w,
                x,
                y,
                reach as int,
                first as int,
                distance as int,
                Sides { left_blocked, right_blocked },
            ),
        decreases reach - distance + 1,
    {
        let near: i32 = if first < 0 {
            -distance
        } else {
            distance
        };
        let far: i32 = -near;
        let near_blocked = if first < 0 {
            left_blocked
        } else {
            right_blocked
        };
        if !near_blocked && !(distance == 0 && first < 0) {
            let target = position.checked_moved(near, -1);
            proof {
                store.lemma_view_wf();
            }
            match flow_probe_at(store, position, me, target) {
                FlowProbe::React => {
                    match target {
                        Some(cell) => {
                            react_with(store, position, cell);
                        },
                        None => {},
                    }
                    return true;
                },
                FlowProbe::Closed => {
                    if first < 0 {
                        left_blocked = true;
                    } else {
                        right_blocked = true;
                    }
                },
                FlowProbe::Open => {},
            }
        }
        let far_blocked = if first < 0 {
            right_blocked
        } else {
            left_blocked
        };
        if !far_blocked && !(distance == 0 && first > 0) {
            let target = position.checked_moved(far, -1);
            proof {
                store.lemma_view_wf();
            }
            match flow_probe_at(store, position, me, target) {
                FlowProbe::React => {
                    match target {
                        Some(cell) => {
                            react_with(store, position, cell);
                        },
                        None => {},
                    }
                    return true;
                },
                FlowProbe::Closed => {
                    if first < 0 {
                        right_blocked = true;
                    } else {
                        left_blocked = true;
                    }
                },
                FlowProbe::Open => {},
            }
        }
        if left_blocked && right_blocked {
            return false;
        }
        distance = distance + 1;
    }
    false
}

/// The level that the liquid `me` sees in the cell `target` beside it.
/// `None` stands for a cell beyond the grid.
fn level_beside(map: &ChunkStore, me: TileType, target: Option<Coordinate>) -> (level: i32)
    requires
        map.wf(),
        me.spec_is_liquid(),
        target matches Some(cell) ==> cell is Tile,
    ensures
        -1 <= level <= 255,
        target matches Some(cell) ==> level == neighbor_level(map@, me, cell.x(), cell.y()),
        target is None ==> level == -1,
{
    let cell = match target {
        Some(cell) => cell,
        None => {
            return -1;
        },
    };
    match map.get_tile(cell) {
        Ok(tile) => {
            let other = tile.tile_type;
            if other.same_kind(me) {
                other.liquid().level as i32
            } else if other.is_solid() {
                -1
            } else if other.is_liquid() {
                match me.get_liquid_interaction_with(other) {
                    LiquidInteraction::Vaporize => 0,
                    _ => -1,
                }
            } else {
                0
            }
        },
        Err(_) => -1,
    }
}

/// The levelling of the liquid at `position` with the cells beside it.
fn level_with_neighbors(store: &mut ChunkStore, position: Coordinate)
    requires
        old(store).wf(),
        position is Tile,
        is_marked(old(store)@, position.x(), position.y(), false),
    ensures
        final(store).wf(),
        final(store)@ == level_step(old(store)@, position.x(), position.y()),
{
    proof {
        store.lemma_view_wf();
    }
    let me = match store.get_tile(position) {
        Ok(tile) => tile.tile_type,
        Err(_) => {
            return ;
        },
    };
    let liquid = me.liquid();
    let left_coord = position.checked_moved(-1, 0);
    let right_coord = position.checked_moved(1, 0);
    let left_initial = level_beside(store, me, left_coord);
    let right_initial = level_beside(store, me, right_coord);
    let this_initial: i32 = liquid.level as i32;
    let is_significant = (left_initial != -1 && (this_initial - left_initial > 1 || left_initial
        - this_initial > 1)) || (right_initial != -1 && (this_initial - right_initial > 1
        || right_initial - this_initial > 1));
    let momentum: u8 = if is_significant {
        INITIAL_LIQUID_MOMENTUM
    } else if liquid.flowing_right.is_some() {
        liquid.momentum.saturating_sub(1)
    } else {
        1
    };
    if momentum <= 1 {
        store.set_marker(position, Marker::Resting);
        return ;
    }
    let mut flow_right = match liquid.flowing_right {
        Some(to_right) => to_right,
        None => prefers_left_side(position),
    };
    let mut left = left_initial;
    let mut right = right_initial;
    let mut this = this_initial;
    let ghost start = Levels {
        left: left as int,
        this: this as int,
        right: right as int,
        flow_right,
    };
    while this > 0 && (!(left == -1 || left >= this) || !(right == -1 || right >= this))
        invariant
            -1 <= left <= 255,
            -1 <= right <= 255,
            0 <= this <= 255,
            level_out(start) == level_out(
                Levels { left: left as int, this: this as int, right: right as int, flow_right },
            ),
        decreases this,
    {
        let left_blocked = left == -1 || left >= this;
        let right_blocked = right == -1 || right >= this;
        let to_right = if right_blocked {
            false
        } else if left_blocked {
            true
        } else {
            flow_right
        };
        if to_right {
            right = right + 1;
        } else {
            left = left + 1;
        }
        this = this - 1;
        flow_right = !to_right;
    }
    if left != left_initial {
        match left_coord {
            Some(cell) => {
                set_tile(
                    store,
                    cell,
                    me.with_liquid(
                        Liquid {
                            level: left as u8,
                            flowing_right: Some(!flow_right),
                            momentum,
                            sprite_override: liquid.sprite_override,
                        },
                    ),
                );
            },
            None => {},
        }
    }
    if right != right_initial {
        match right_coord {
            Some(cell) => {
                set_tile(
                    store,
                    cell,
                    me.with_liquid(
                        Liquid {
                            level: right as u8,
                            flowing_right: Some(!flow_right),
                            momentum,
                            sprite_override: liquid.sprite_override,
                        },
                    ),
                );
            },
            None => {},
        }
    }
    let mine = me.with_liquid(
        Liquid {
            level: this as u8,
            flowing_right: Some(!flow_right),
            momentum,
            sprite_override: liquid.sprite_override,
        },
    ).normalized();
    if mine != me {
        set_tile(store, position, mine);
    }
}

/// One flow step for the cell at `coord` in the tick `tick`.
pub fn flow_tile(store: &mut ChunkStore, coord: Coordinate, tick: u64)
    requires
        old(store).wf(),
        coord is Tile,
    ensures
        final(store).wf(),
        final(store)@ == flow_step(old(store)@, coord.x(), coord.y(), tick),
{
    proof {
        store.lemma_view_wf();
    }
    let maptile = match store.get_tile(coord) {
        Ok(tile) => tile,
        Err(_) => {
            return ;
        },
    };
    match maptile.marker {
        Marker::Flowing(_) => {},
        _ => {
            return ;
        },
    }
    let me = maptile.tile_type;
    match coord.checked_moved(0, -1) {
        Some(below) => match store.get_tile(below) {
            Ok(tile) => {
                if tile.tile_type.same_kind(me) && tile.tile_type.liquid().level < 255 {
                    pour_into(store, coord, below);
                    return ;
                }
            },
            Err(_) => {},
        },
        None => {},
    }
    let fluidity = me.get_fluidity();
    if fluidity < 10 && tick % (11 - fluidity as u64) != 0 {
        return ;
    }
    if scan_below(store, coord, me, tick) {
        return ;
    }
    level_with_neighbors(store, coord);
}

/// One flow pass in the tick `tick`: every tile with a flowing marker gets
/// its step, column by column, from the left in even ticks and from the
/// right in odd ticks. Each step sees what the steps before it have
/// changed.
pub fn flow_liquid_tile(store: &mut ChunkStore, tick: u64)
    requires
        old(store).wf(),
    ensures
        final(store).wf(),
        final(store)@ == flow_pass(old(store)@, flowing_order(old(store)@, tick), tick),
{
    let keys = pass_keys(store, false);
    let count = keys.len();
    let forward = tick % 2 == 0;
    let ghost order = flowing_order(store@, tick);
    let ghost start = store@;
    let mut i: usize = 0;
    assert(order.skip(0) =~= order);
    while i < count
        invariant
            store.wf(),
            count == keys@.len(),
            i <= count,
            forward == (tick % 2 == 0),
            order == (if forward {
                keys_of(keys@)
            } else {
                keys_of(keys@).reverse()
            }),
            flow_pass(start, order, tick) == flow_pass(store@, order.skip(i as int), tick),
        decreases count - i,
    {
        let key = if forward {
            keys[i]
        } else {
            keys[count - 1 - i]
        };
        proof {
            let rest = order.skip(i as int);
            assert(rest[0] == key_of(key));
            assert(rest.drop_first() =~= order.skip(i + 1));
        }
        flow_tile(store, Coordinate::Tile { x: key.0, y: key.1 }, tick);
        i = i + 1;
    }
    proof {
        assert(order.skip(i as int).len() == 0);
    }
}

/// Pouring loses nothing: the two levels add up to what they added up to
/// before. The lower cell takes all of it up to a full cell, and what is
/// beyond a full cell stays above.
pub proof fn lemma_pour_conserves(upper: u8, lower: u8)
    ensures
        poured(upper, lower).0 + poured(upper, lower).1 == upper + lower,
        upper + lower <= 255 ==> poured(upper, lower) == (0u8, (upper + lower) as u8),
        upper + lower > 255 ==> poured(upper, lower).1 == 255 && poured(upper, lower).0 == upper
            + lower - 255,
{
}

/// The same in the world: after the liquid at `(x, y)` has poured into the
/// cell of the same liquid at `(bx, by)`, the levels of the two cells add up
/// to what they added up to before, both cells hold that liquid or nothing,
/// and no third cell holds another tile than before.
pub proof fn lemma_pour_conserves_in_world(w: World, x: int, y: int, bx: int, by: int)
    requires
        w.loaded(x, y),
        w.loaded(bx, by),
        (x, y) != (bx, by),
        w.kind(x, y).spec_is_liquid(),
        w.kind(bx, by).spec_same_kind(w.kind(x, y)),
    ensures
        level_of(pour(w, x, y, bx, by).kind(x, y)) + level_of(pour(w, x, y, bx, by).kind(bx, by))
            == level_of(w.kind(x, y)) + level_of(w.kind(bx, by)),
        level_of(pour(w, x, y, bx, by).kind(bx, by)) >= level_of(w.kind(bx, by)),
        forall|ox: int, oy: int|
            w.loaded(ox, oy) && (ox, oy) != (x, y) && (ox, oy) != (bx, by) ==> #[trigger] pour(
                w,
                x,
                y,
                bx,
                by,
            ).kind(ox, oy) == w.kind(ox, oy),
{
    let me = w.kind(x, y);
    let levels = poured(level_of(me), level_of(w.kind(bx, by)));
    let upper = me.spec_with_liquid(Liquid::of_level(levels.0));
    let lower = me.spec_with_liquid(Liquid::of_level(levels.1));
    let first = w.try_set_tile(x, y, upper);
    assert(first.loaded(bx, by));
    assert(level_of(upper.spec_normalized()) == levels.0);
    assert(level_of(lower.spec_normalized()) == levels.1);
}

/// Levelling loses nothing and evens out. A side that cannot be flowed
/// into stays as it is; no level falls below 0 or rises above the level that
/// the middle started from; the three levels add up to what they added up to
/// before; the middle never gains and the sides never lose; and at the end
/// the middle is empty or no side that can be flowed into lies below it.
pub proof fn lemma_level_out(levels: Levels)
    requires
        0 <= levels.this,
        -1 <= levels.left,
        -1 <= levels.right,
    ensures
        levels.left == -1 <==> level_out(levels).left == -1,
        levels.right == -1 <==> level_out(levels).right == -1,
        0 <= level_out(levels).this <= levels.this,
        levels.left <= level_out(levels).left,
        levels.right <= level_out(levels).right,
        level_out(levels).left <= levels.left || level_out(levels).left <= levels.this,
        level_out(levels).right <= levels.right || level_out(levels).right <= levels.this,
        level_out(levels).left + level_out(levels).this + level_out(levels).right == levels.left
            + levels.this + levels.right,
        level_out(levels).this == 0 || ((level_out(levels).left == -1 || level_out(levels).left
            >= level_out(levels).this) && (level_out(levels).right == -1 || level_out(
            levels,
        ).right >= level_out(levels).this)),
    decreases levels.this,
{
    let left_blocked = levels.left == -1 || levels.left >= levels.this;
    let right_blocked = levels.right == -1 || levels.right >= levels.this;
    if levels.this <= 0 || (left_blocked && right_blocked) {
    } else {
        let to_right = if right_blocked {
            false
        } else if left_blocked {
            true
        } else {
            levels.flow_right
        };
        let next = Levels {
            left: if to_right {
                levels.left
            } else {
                levels.left + 1
            },
            this: levels.this - 1,
            right: if to_right {
                levels.right + 1
            } else {
                levels.right
            },
            flow_right: !to_right,
        };
        lemma_level_out(next);
    }
}

/// Two columns come level: where a liquid can only flow to one side, and
/// that side is lower, the two levels end up equal, or the side one unit
/// higher where their sum is odd. A column of 200 beside an empty one ends
/// at 100 and 100.
pub proof fn lemma_level_out_two_columns(levels: Levels)
    requires
        (levels.right == -1 && 0 <= levels.left < levels.this) || (levels.left == -1 && 0
            <= levels.right < levels.this),
    ensures
        levels.right == -1 ==> level_out(levels).left + level_out(levels).this == levels.left
            + levels.this && level_out(levels).this <= level_out(levels).left <= level_out(
            levels,
        ).this + 1,
        levels.left == -1 ==> level_out(levels).right + level_out(levels).this == levels.right
            + levels.this && level_out(levels).this <= level_out(levels).right <= level_out(
            levels,
        ).this + 1,
    decreases levels.this,
{
    let to_right = levels.right != -1;
    let next = Levels {
        left: if to_right {
            levels.left
        } else {
            levels.left + 1
        },
        this: levels.this - 1,
        right: if to_right {
            levels.right + 1
        } else {
            levels.right
        },
        flow_right: !to_right,
    };
    assert(level_out(levels) == level_out(next));
    if to_right {
        assert(levels.left == -1);
        if next.right < next.this {
            lemma_level_out_two_columns(next);
        } else {
            assert(level_out(next) == next);
        }
    } else {
        assert(levels.right == -1);
        if next.left < next.this {
            lemma_level_out_two_columns(next);
        } else {
            assert(level_out(next) == next);
        }
    }
}

/// A flowing liquid whose momentum has run out comes to rest within one
/// tick: where it neither pours down nor is throttled in that tick, its
/// search finds nothing, no level beside it differs from its own by more
/// than one, and its momentum after the tick is 1 or less (as it is for a
/// liquid of momentum 1), the flow step takes its flowing marker and changes
/// nothing else, so its level stays as it was.
pub proof fn lemma_flow_step_stagnates(w: World, x: int, y: int, tick: u64)
    requires
        is_marked(w, x, y, false),
        w.kind(x, y).spec_is_liquid(),
        !pours_down(w, x, y),
        !throttled(w.kind(x, y).spec_fluidity(), tick),
        flow_scan(
            w,
            x,
            y,
            scan_reach(w.kind(x, y)),
            scan_side(tick),
            0,
            Sides { left_blocked: false, right_blocked: false },
        ) is None,
        next_momentum(w.kind(x, y).liquid_of().unwrap(), false) <= 1,
        !significant(
            w.kind(x, y).liquid_of().unwrap().level as int,
            neighbor_level(w, w.kind(x, y), x - 1, y),
            neighbor_level(w, w.kind(x, y), x + 1, y),
        ),
    ensures
        flow_step(w, x, y, tick) == w.mark(x, y, Marker::Resting),
        flow_step(w, x, y, tick).kind(x, y) == w.kind(x, y),
        flow_step(w, x, y, tick).tile(x, y).marker == Marker::Resting,
        flow_step(w, x, y, tick).updates == w.updates,
{
}

/// A meeting of two liquids goes by the interaction table. A liquid that
/// vaporizes the other one leaves its cell and takes the other cell; one
/// that is vaporized leaves its cell and the other cell stays; one that
/// sinks trades cells with the other; one that floats stays, and the other
/// shows that it is covered.
pub proof fn lemma_react_follows_table(w: World, x: int, y: int, bx: int, by: int)
    requires
        w.loaded(x, y),
        w.loaded(bx, by),
        (x, y) != (bx, by),
        w.kind(x, y).interacts_with(w.kind(bx, by)),
        w.kind(x, y) == w.kind(x, y).spec_normalized(),
        w.kind(bx, by) == w.kind(bx, by).spec_normalized(),
    ensures
        match w.kind(x, y).interaction(w.kind(bx, by)) {
            LiquidInteraction::Vaporize => react(w, x, y, bx, by).kind(x, y) == TileType::Empty
                && react(w, x, y, bx, by).kind(bx, by) == w.kind(x, y),
            LiquidInteraction::Vaporized => react(w, x, y, bx, by).kind(x, y) == TileType::Empty
                && react(w, x, y, bx, by).kind(bx, by) == w.kind(bx, by),
            LiquidInteraction::Sink => react(w, x, y, bx, by).kind(x, y) == w.kind(bx, by)
                && react(w, x, y, bx, by).kind(bx, by) == w.kind(x, y),
            LiquidInteraction::Float => react(w, x, y, bx, by).kind(x, y) == w.kind(x, y)
                && react(w, x, y, bx, by).kind(bx, by) == w.kind(bx, by).spec_with_liquid(
                (Liquid { sprite_override: true, ..w.kind(bx, by).liquid_of().unwrap() }),
            ),
        },
        forall|ox: int, oy: int|
            w.loaded(ox, oy) && (ox, oy) != (x, y) && (ox, oy) != (bx, by) ==> #[trigger] react(
                w,
                x,
                y,
                bx,
                by,
            ).kind(ox, oy) == w.kind(ox, oy),
{
    let first = w.try_set_tile(x, y, TileType::Empty);
    assert(first.loaded(bx, by));
    let swapped = w.try_set_tile(x, y, w.kind(bx, by));
    assert(swapped.loaded(bx, by));
}

/// Beside a liquid, a liquid of another kind counts by the same table: one
/// that it vaporizes counts as an empty cell, which it flows into; any other
/// one counts as a wall.
pub proof fn lemma_neighbor_level_follows_table(w: World, me: TileType, x: int, y: int)
    requires
        w.loaded(x, y),
        me.interacts_with(w.kind(x, y)),
    ensures
        neighbor_level(w, me, x, y) == (if me.interaction(w.kind(x, y))
            == LiquidInteraction::Vaporize {
            0int
        } else {
            -1int
        }),
{
}

/// Whatever the search along the row below changes, it leaves a
/// well-formed world well formed.
proof fn lemma_flow_scan_keeps_wf(
    w: World,
    x: int,
    y: int,
    reach: int,
    first: int,
    distance: int,
    sides: Sides,
)
    requires
        w.wf(),
    ensures
        flow_scan(w, x, y, reach, first, distance, sides) matches Some(after) ==> after.wf(),
    decreases reach - distance + 1,
{
    if distance <= reach {
        let near_skipped = sides.blocked(first) || (distance == 0 && first < 0);
        let near = if near_skipped {
            FlowProbe::Open
        } else {
            flow_probe(w, x, y, x + offset_on(first, distance), y - 1)
        };
        let sides_near = if near == FlowProbe::Closed {
            sides.block(first)
        } else {
            sides
        };
        let far_skipped = sides_near.blocked(-first) || (distance == 0 && -first < 0);
        let far = if far_skipped {
            FlowProbe::Open
        } else {
            flow_probe(w, x, y, x + offset_on(-first, distance), y - 1)
        };
        let sides_far = if far == FlowProbe::Closed {
            sides_near.block(-first)
        } else {
            sides_near
        };
        lemma_react_keeps_wf(w, x, y, x + offset_on(first, distance), y - 1);
        lemma_react_keeps_wf(w, x, y, x + offset_on(-first, distance), y - 1);
        lemma_flow_scan_keeps_wf(w, x, y, reach, first, distance + 1, sides_far);
    }
}

/// A meeting of two liquids leaves a well-formed world well formed.
proof fn lemma_react_keeps_wf(w: World, x: int, y: int, bx: int, by: int)
    requires
        w.wf(),
    ensures
        react(w, x, y, bx, by).wf(),
{
    let me = w.kind(x, y);
    let other = w.kind(bx, by);
    lemma_try_set_tile_keeps_wf(w, x, y, TileType::Empty);
    lemma_try_set_tile_keeps_wf(w.try_set_tile(x, y, TileType::Empty), bx, by, me);
    lemma_try_set_tile_keeps_wf(w, x, y, other);
    lemma_try_set_tile_keeps_wf(w.try_set_tile(x, y, other), bx, by, me);
    lemma_try_set_tile_keeps_wf(
        w,
        bx,
        by,
        other.spec_with_liquid(
            (Liquid { sprite_override: true, ..other.liquid_of().unwrap() }),
        ),
    );
}

/// A flow step leaves a well-formed world well formed, and so does a flow
/// pass.
pub proof fn lemma_flow_keeps_wf(w: World, keys: Seq<(int, int)>, tick: u64)
    requires
        w.wf(),
    ensures
        flow_pass(w, keys, tick).wf(),
        keys.len() > 0 ==> flow_step(w, keys[0].0, keys[0].1, tick).wf(),
    decreases keys.len(),
{
    if keys.len() > 0 {
        let x = keys[0].0;
        let y = keys[0].1;
        let next = flow_step(w, x, y, tick);
        if is_marked(w, x, y, false) {
            let me = w.kind(x, y);
            assert(tile_ok(x, y, w.tile(x, y)));
            let levels = poured(level_of(me), level_of(w.kind(x, y - 1)));
            let upper = me.spec_with_liquid(Liquid::of_level(levels.0));
            lemma_try_set_tile_keeps_wf(w, x, y, upper);
            lemma_try_set_tile_keeps_wf(
                w.try_set_tile(x, y, upper),
                x,
                y - 1,
                me.spec_with_liquid(Liquid::of_level(levels.1)),
            );
            lemma_flow_scan_keeps_wf(
                w,
                x,
                y,
                scan_reach(me),
                scan_side(tick),
                0,
                Sides { left_blocked: false, right_blocked: false },
            );
            lemma_level_step_keeps_wf(w, x, y);
        }
        lemma_flow_keeps_wf(next, keys.drop_first(), tick);
    }
}

/// Levelling leaves a well-formed world well formed.
proof fn lemma_level_step_keeps_wf(w: World, x: int, y: int)
    requires
        w.wf(),
        w.loaded(x, y),
    ensures
        level_step(w, x, y).wf(),
{
    let me = w.kind(x, y);
    let liquid = me.liquid_of().unwrap();
    let left = neighbor_level(w, me, x - 1, y);
    let right = neighbor_level(w, me, x + 1, y);
    let momentum = next_momentum(liquid, significant(liquid.level as int, left, right));
    if momentum <= 1 {
        lemma_mark_keeps_wf(w, x, y, Marker::Resting);
    } else {
        let end = level_out(
            Levels {
                left,
                this: liquid.level as int,
                right,
                flow_right: match liquid.flowing_right {
                    Some(to_right) => to_right,
                    None => prefers_left(x, y),
                },
            },
        );
        let to_left = levelled(me, liquid, end.left, end.flow_right, momentum);
        lemma_try_set_tile_keeps_wf(w, x - 1, y, to_left);
        let w_left = if end.left != left {
            w.try_set_tile(x - 1, y, to_left)
        } else {
            w
        };
        let to_right = levelled(me, liquid, end.right, end.flow_right, momentum);
        lemma_try_set_tile_keeps_wf(w_left, x + 1, y, to_right);
        let w_right = if end.right != right {
            w_left.try_set_tile(x + 1, y, to_right)
        } else {
            w_left
        };
        let mine = levelled(me, liquid, end.this, end.flow_right, momentum).spec_normalized();
        lemma_try_set_tile_keeps_wf(w_right, x, y, mine);
    }
}

/// Where no cell carries a flowing marker, a flow pass changes nothing.
pub proof fn lemma_flow_pass_of_none(w: World, tick: u64)
    requires
        forall|key: (int, int)| !marked_keys(w, false).contains(key),
    ensures
        flow_pass(w, flowing_order(w, tick), tick) == w,
{
    lemma_ascending_of_none(marked_keys(w, false));
    assert(Seq::<(int, int)>::empty().reverse() =~= Seq::<(int, int)>::empty());
}

/// Where the cell at `(x, y)` is the only one that carries a flowing
/// marker, a flow pass is the flow step for that cell.
pub proof fn lemma_flow_pass_of_lone_liquid(w: World, x: int, y: int, tick: u64)
    requires
        is_marked(w, x, y, false),
        forall|key: (int, int)| marked_keys(w, false).contains(key) ==> key == (x, y),
    ensures
        flow_pass(w, flowing_order(w, tick), tick) == flow_step(w, x, y, tick),
{
    assert(marked_keys(w, false).contains((x, y)));
    lemma_ascending_of_one((x, y), marked_keys(w, false));
    let only = seq![(x, y)];
    assert(flowing_order(w, tick) == only);
    assert(only.drop_first().len() == 0);
    assert(flow_pass(flow_step(w, x, y, tick), only.drop_first(), tick) == flow_step(
        w,
        x,
        y,
        tick,
    ));
}

/// The momentum of a liquid counts down: a level beside it that differs
/// by more than one sets it to the full momentum of 200; without one, a
/// liquid that has flowed before loses one unit of momentum in each tick,
/// and one that has not flowed yet gets momentum 1.
pub proof fn lemma_momentum_counts_down(liquid: Liquid, significant: bool)
    ensures
        significant ==> next_momentum(liquid, significant) == INITIAL_LIQUID_MOMENTUM,
        !significant && liquid.flowing_right.is_some() && liquid.momentum >= 1 ==> next_momentum(
            liquid,
            significant,
        ) == liquid.momentum - 1,
        !significant && liquid.flowing_right.is_some() && liquid.momentum == 0 ==> next_momentum(
            liquid,
            significant,
        ) == 0,
        !significant && liquid.flowing_right.is_none() ==> next_momentum(liquid, significant)
            == 1,
{
}

/// Levelling stores the momentum that it has counted. A liquid that does
/// not come to rest holds, after the step, the momentum of this tick: 200
/// after a level beside it that differed by more than one, else one less
/// than before. Its cell is empty only where it has handed out all of its
/// level.
pub proof fn lemma_level_step_stores_momentum(w: World, x: int, y: int)
    requires
        w.loaded(x, y),
        w.kind(x, y).spec_is_liquid(),
        w.kind(x, y) == w.kind(x, y).spec_normalized(),
        next_momentum(
            w.kind(x, y).liquid_of().unwrap(),
            significant(
                w.kind(x, y).liquid_of().unwrap().level as int,
                neighbor_level(w, w.kind(x, y), x - 1, y),
                neighbor_level(w, w.kind(x, y), x + 1, y),
            ),
        ) > 1,
    ensures
        level_step(w, x, y).kind(x, y) == TileType::Empty || (level_step(w, x, y).kind(
            x,
            y,
        ).spec_same_kind(w.kind(x, y)) && level_step(w, x, y).kind(
            x,
            y,
        ).liquid_of().unwrap().momentum == next_momentum(
            w.kind(x, y).liquid_of().unwrap(),
            significant(
                w.kind(x, y).liquid_of().unwrap().level as int,
                neighbor_level(w, w.kind(x, y), x - 1, y),
                neighbor_level(w, w.kind(x, y), x + 1, y),
            ),
        )),
        level_step(w, x, y).kind(x, y) == TileType::Empty ==> level_out(
            start_levels(w, x, y),
        ).this == 0,
{
    let me = w.kind(x, y);
    let liquid = me.liquid_of().unwrap();
    let left = neighbor_level(w, me, x - 1, y);
    let right = neighbor_level(w, me, x + 1, y);
    let momentum = next_momentum(liquid, significant(liquid.level as int, left, right));
    let start = start_levels(w, x, y);
    lemma_level_out(start);
    let end = level_out(start);
    let w_left = if end.left != left {
        w.try_set_tile(x - 1, y, levelled(me, liquid, end.left, end.flow_right, momentum))
    } else {
        w
    };
    let w_right = if end.right != right {
        w_left.try_set_tile(x + 1, y, levelled(me, liquid, end.right, end.flow_right, momentum))
    } else {
        w_left
    };
    assert(w_left.loaded(x, y) && w_left.kind(x, y) == me);
    assert(w_right.loaded(x, y) && w_right.kind(x, y) == me);
    let mine = levelled(me, liquid, end.this, end.flow_right, momentum).spec_normalized();
    assert(level_step(w, x, y).kind(x, y) == mine);
}

/// The levels that the levelling of the liquid at `(x, y)` starts from.
pub open spec fn start_levels(w: World, x: int, y: int) -> Levels {
    let me = w.kind(x, y);
    let liquid = me.liquid_of().unwrap();
    Levels {
        left: neighbor_level(w, me, x - 1, y),
        this: liquid.level as int,
        right: neighbor_level(w, me, x + 1, y),
        flow_right: match liquid.flowing_right {
            Some(to_right) => to_right,
            None => prefers_left(x, y),
        },
    }
}

/// Two columns come level in the world. Where the liquid at `(x, y)` does
/// not come to rest, cannot flow to one side, and has on the other side an
/// empty cell or a lower cell of the same liquid, levelling leaves the two
/// cells with the same liquid, with levels that add up to what they added up
/// to before, the side at the level of the middle or one unit above it.
/// `side` is 1 where the open side is the right one and -1 where it is the
/// left one.
pub proof fn lemma_level_step_two_columns(w: World, x: int, y: int, side: int)
    requires
        side == 1 || side == -1,
        w.loaded(x, y),
        w.kind(x, y).spec_is_liquid(),
        w.kind(x, y) == w.kind(x, y).spec_normalized(),
        w.loaded(x + side, y),
        w.kind(x + side, y) == TileType::Empty || w.kind(x + side, y).spec_same_kind(
            w.kind(x, y),
        ),
        level_of(w.kind(x + side, y)) < level_of(w.kind(x, y)),
        neighbor_level(w, w.kind(x, y), x - side, y) == -1,
        next_momentum(
            w.kind(x, y).liquid_of().unwrap(),
            significant(
                w.kind(x, y).liquid_of().unwrap().level as int,
                neighbor_level(w, w.kind(x, y), x - 1, y),
                neighbor_level(w, w.kind(x, y), x + 1, y),
            ),
        ) > 1,
    ensures
        level_of(level_step(w, x, y).kind(x, y)) + level_of(level_step(w, x, y).kind(x + side, y))
            == level_of(w.kind(x, y)) + level_of(w.kind(x + side, y)),
        level_of(level_step(w, x, y).kind(x, y)) <= level_of(
            level_step(w, x, y).kind(x + side, y),
        ) <= level_of(level_step(w, x, y).kind(x, y)) + 1,
        level_of(level_step(w, x, y).kind(x + side, y)) >= level_of(w.kind(x + side, y)),
        level_step(w, x, y).kind(x + side, y).spec_same_kind(w.kind(x, y)),
        forall|ox: int, oy: int|
            w.loaded(ox, oy) && (ox, oy) != (x, y) && (ox, oy) != (x + side, y)
                ==> #[trigger] level_step(w, x, y).kind(ox, oy) == w.kind(ox, oy),
{
    let me = w.kind(x, y);
    let liquid = me.liquid_of().unwrap();
    let left = neighbor_level(w, me, x - 1, y);
    let right = neighbor_level(w, me, x + 1, y);
    let momentum = next_momentum(liquid, significant(liquid.level as int, left, right));
    let start = start_levels(w, x, y);
    assert(neighbor_level(w, me, x + side, y) == level_of(w.kind(x + side, y)));
    lemma_level_out(start);
    lemma_level_out_two_columns(start);
    let end = level_out(start);
    let to_left = levelled(me, liquid, end.left, end.flow_right, momentum);
    let to_right = levelled(me, liquid, end.right, end.flow_right, momentum);
    let w_left = if end.left != left {
        w.try_set_tile(x - 1, y, to_left)
    } else {
        w
    };
    let w_right = if end.right != right {
        w_left.try_set_tile(x + 1, y, to_right)
    } else {
        w_left
    };
    let mine = levelled(me, liquid, end.this, end.flow_right, momentum).spec_normalized();
    let after = level_step(w, x, y);
    assert(w_left.loaded(x, y) && w_left.kind(x, y) == me);
    assert(w_left.loaded(x + 1, y) <==> w.loaded(x + 1, y));
    assert(w_right.loaded(x, y) && w_right.kind(x, y) == me);
    assert(after.kind(x, y) == mine);
    if side == 1 {
        assert(end.left == left);
        assert(end.right != right);
        assert(w_right.kind(x + 1, y) == to_right.spec_normalized());
        assert(after.kind(x + 1, y) == to_right);
    } else {
        assert(end.right == right);
        assert(end.left != left);
        assert(w_left.kind(x - 1, y) == to_left.spec_normalized());
        assert(after.kind(x - 1, y) == to_left);
    }
}

/// A lone flowing liquid above the same liquid pours down in a flow pass.
/// Where the cell at `(x, y)` is the only one with a flowing marker and the
/// cell below holds the same liquid with room left, the pass leaves the sum
/// of the two levels in the cell below and an empty cell above where the sum
/// fits; where it does not fit, the cell below is full and what is beyond a
/// full cell stays above. The two levels add up to what they added up to
/// before, and no third cell holds another tile than before.
pub proof fn lemma_flow_pass_pours_down(w: World, x: int, y: int, tick: u64)
    requires
        w.wf(),
        is_marked(w, x, y, false),
        forall|key: (int, int)| marked_keys(w, false).contains(key) ==> key == (x, y),
        w.kind(x, y).spec_is_liquid(),
        pours_down(w, x, y),
    ensures
        flow_pass(w, flowing_order(w, tick), tick) == pour(w, x, y, x, y - 1),
        level_of(w.kind(x, y)) + level_of(w.kind(x, y - 1)) <= 255 ==> flow_pass(
            w,
            flowing_order(w, tick),
            tick,
        ).kind(x, y) == TileType::Empty && level_of(
            flow_pass(w, flowing_order(w, tick), tick).kind(x, y - 1),
        ) == level_of(w.kind(x, y)) + level_of(w.kind(x, y - 1)),
        level_of(w.kind(x, y)) + level_of(w.kind(x, y - 1)) > 255 ==> level_of(
            flow_pass(w, flowing_order(w, tick), tick).kind(x, y - 1),
        ) == 255 && level_of(flow_pass(w, flowing_order(w, tick), tick).kind(x, y)) == level_of(
            w.kind(x, y),
        ) + level_of(w.kind(x, y - 1)) - 255 && flow_pass(
            w,
            flowing_order(w, tick),
            tick,
        ).kind(x, y).spec_same_kind(w.kind(x, y)),
        flow_pass(w, flowing_order(w, tick), tick).kind(x, y - 1).spec_same_kind(w.kind(x, y)),
        forall|ox: int, oy: int|
            w.loaded(ox, oy) && (ox, oy) != (x, y) && (ox, oy) != (x, y - 1)
                ==> #[trigger] flow_pass(w, flowing_order(w, tick), tick).kind(ox, oy) == w.kind(
                ox,
                oy,
            ),
{
    lemma_flow_pass_of_lone_liquid(w, x, y, tick);
    lemma_pour_conserves_in_world(w, x, y, x, y - 1);
    assert(tile_ok(x, y, w.tile(x, y)));
    let me = w.kind(x, y);
    let levels = poured(level_of(me), level_of(w.kind(x, y - 1)));
    let upper = me.spec_with_liquid(Liquid::of_level(levels.0));
    let lower = me.spec_with_liquid(Liquid::of_level(levels.1));
    let first = w.try_set_tile(x, y, upper);
    assert(first.loaded(x, y - 1));
    assert(pour(w, x, y, x, y - 1).kind(x, y) == upper.spec_normalized());
    assert(pour(w, x, y, x, y - 1).kind(x, y - 1) == lower.spec_normalized());
}

/// A lone flowing liquid whose momentum has run out comes to rest in a
/// flow pass. Under what `lemma_flow_step_stagnates` asks of the cell, and
/// where no other cell carries a flowing marker, the pass takes the marker
/// of the cell and changes nothing else: every cell keeps its tile and its
/// level, and nobody is notified.
pub proof fn lemma_flow_pass_stagnates(w: World, x: int, y: int, tick: u64)
    requires
        is_marked(w, x, y, false),
        forall|key: (int, int)| marked_keys(w, false).contains(key) ==> key == (x, y),
        w.kind(x, y).spec_is_liquid(),
        !pours_down(w, x, y),
        !throttled(w.kind(x, y).spec_fluidity(), tick),
        flow_scan(
            w,
            x,
            y,
            scan_reach(w.kind(x, y)),
            scan_side(tick),
            0,
            Sides { left_blocked: false, right_blocked: false },
        ) is None,
        next_momentum(w.kind(x, y).liquid_of().unwrap(), false) <= 1,
        !significant(
            w.kind(x, y).liquid_of().unwrap().level as int,
            neighbor_level(w, w.kind(x, y), x - 1, y),
            neighbor_level(w, w.kind(x, y), x + 1, y),
        ),
    ensures
        flow_pass(w, flowing_order(w, tick), tick) == w.mark(x, y, Marker::Resting),
        forall|ox: int, oy: int|
            w.loaded(ox, oy) ==> #[trigger] flow_pass(w, flowing_order(w, tick), tick).kind(
                ox,
                oy,
            ) == w.kind(ox, oy),
        forall|key: (int, int)|
            !marked_keys(flow_pass(w, flowing_order(w, tick), tick), false).contains(key),
        flow_pass(w, flowing_order(w, tick), tick).updates == w.updates,
{
    lemma_flow_pass_of_lone_liquid(w, x, y, tick);
    lemma_flow_step_stagnates(w, x, y, tick);
    let after = w.mark(x, y, Marker::Resting);
    assert forall|key: (int, int)| !marked_keys(after, false).contains(key) by {
        if marked_keys(after, false).contains(key) {
            assert(marked_keys(w, false).contains(key));
        }
    }
}

/// A lone flowing liquid levels with the one side that is open to it in a
/// flow pass. Where the cell at `(x, y)` is the only one with a flowing
/// marker, neither pours down nor is throttled, finds nothing in the row
/// below and does not come to rest, the pass is the levelling of
/// `lemma_level_step_two_columns`: a column of 200 beside an empty cell,
/// with a wall on its other side, leaves 100 and 100.
pub proof fn lemma_flow_pass_levels_two_columns(w: World, x: int, y: int, side: int, tick: u64)
    requires
        is_marked(w, x, y, false),
        forall|key: (int, int)| marked_keys(w, false).contains(key) ==> key == (x, y),
        w.kind(x, y).spec_is_liquid(),
        w.kind(x, y) == w.kind(x, y).spec_normalized(),
        !pours_down(w, x, y),
        !throttled(w.kind(x, y).spec_fluidity(), tick),
        flow_scan(
            w,
            x,
            y,
            scan_reach(w.kind(x, y)),
            scan_side(tick),
            0,
            Sides { left_blocked: false, right_blocked: false },
        ) is None,
        side == 1 || side == -1,
        w.loaded(x + side, y),
        w.kind(x + side, y) == TileType::Empty || w.kind(x + side, y).spec_same_kind(
            w.kind(x, y),
        ),
        level_of(w.kind(x + side, y)) < level_of(w.kind(x, y)),
        neighbor_level(w, w.kind(x, y), x - side, y) == -1,
        next_momentum(
            w.kind(x, y).liquid_of().unwrap(),
            significant(
                w.kind(x, y).liquid_of().unwrap().level as int,
                neighbor_level(w, w.kind(x, y), x - 1, y),
                neighbor_level(w, w.kind(x, y), x + 1, y),
            ),
        ) > 1,
    ensures
        flow_pass(w, flowing_order(w, tick), tick) == level_step(w, x, y),
        level_of(flow_pass(w, flowing_order(w, tick), tick).kind(x, y)) + level_of(
            flow_pass(w, flowing_order(w, tick), tick).kind(x + side, y),
        ) == level_of(w.kind(x, y)) + level_of(w.kind(x + side, y)),
        level_of(flow_pass(w, flowing_order(w, tick), tick).kind(x, y)) <= level_of(
            flow_pass(w, flowing_order(w, tick), tick).kind(x + side, y),
        ) <= level_of(flow_pass(w, flowing_order(w, tick), tick).kind(x, y)) + 1,
        level_of(flow_pass(w, flowing_order(w, tick), tick).kind(x + side, y)) >= level_of(
            w.kind(x + side, y),
        ),
        flow_pass(w, flowing_order(w, tick), tick).kind(x + side, y).spec_same_kind(w.kind(x, y)),
        level_of(w.kind(x, y)) == 200 && level_of(w.kind(x + side, y)) == 0 ==> level_of(
            flow_pass(w, flowing_order(w, tick), tick).kind(x, y),
        ) == 100 && level_of(flow_pass(w, flowing_order(w, tick), tick).kind(x + side, y)) == 100,
{
    lemma_flow_pass_of_lone_liquid(w, x, y, tick);
    lemma_level_step_two_columns(w, x, y, side);
}

} // verus!

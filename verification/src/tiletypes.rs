//! The kinds of tiles and what each kind does.

use vstd::prelude::*;

verus! {

/// Whether a visible tile is a solid or a liquid.
#[derive(Clone, Copy, Debug, PartialEq, Eq, Structural)]
pub enum MatterState {
    Solid,
    Liquid,
}

/// What happens to a liquid that meets a liquid of another kind.
#[derive(Clone, Copy, Debug, PartialEq, Eq, Structural)]
pub enum LiquidInteraction {
    /// The liquid destroys the other one and takes its cell.
    Vaporize,
    /// The liquid is destroyed.
    Vaporized,
    /// The liquid stays on top of the other one.
    Float,
    /// The liquid trades places with the other one.
    Sink,
}

/// The state that every liquid tile carries.
#[derive(Clone, Copy, Debug, PartialEq, Eq, Structural)]
pub struct Liquid {
    /// Fill of the cell, from 1 to 255. A liquid of level 0 is no liquid.
    pub level: u8,
    /// The side that the next unit flows to, once the liquid has flowed.
    pub flowing_right: Option<bool>,
    /// Ticks of levelling left before the liquid comes to rest.
    pub momentum: u8,
    /// Set while a liquid of another kind lies on top.
    pub sprite_override: bool,
}

/// A light source: the distance that its light reaches, in tiles.
#[derive(Clone, Copy, Debug, PartialEq, Eq, Structural)]
pub struct Emitter {
    pub radius: u8,
}

/// What a cell of the world holds.
#[derive(Clone, Copy, Debug, PartialEq, Eq, Structural)]
pub enum TileType {
    Empty,
    Gravel,
    Moss,
    Dirt,
    Sand,
    Water(Liquid),
    Magma(Liquid),
    Oil(Liquid),
    Lantern(Emitter),
}

/// Fill of a full liquid cell.
pub const MAX_LEVEL: u8 = 255;

/// Light radius of a lantern that was given none.
pub const DEFAULT_EMITTER_RADIUS: u8 = 20;

impl Default for Liquid {
    /// A full cell of liquid at rest.
    fn default() -> (liquid: Self)
        ensures
            liquid == Liquid::full(),
    {
        Liquid { level: MAX_LEVEL, flowing_right: None, momentum: 0, sprite_override: false }
    }
}

impl Liquid {
    /// A full cell of liquid at rest.
    pub open spec fn full() -> Liquid {
        Liquid { level: 255, flowing_right: None, momentum: 0, sprite_override: false }
    }

    /// A resting liquid of the given level.
    pub open spec fn of_level(level: u8) -> Liquid {
        Liquid { level, ..Liquid::full() }
    }
}

impl Default for Emitter {
    fn default() -> (emitter: Self)
        ensures
            emitter.radius == DEFAULT_EMITTER_RADIUS,
    {
        Emitter { radius: DEFAULT_EMITTER_RADIUS }
    }
}

impl TileType {
    /// The liquid state of a liquid tile.
    pub open spec fn liquid_of(self) -> Option<Liquid> {
        match self {
            TileType::Water(l) => Some(l),
            TileType::Magma(l) => Some(l),
            TileType::Oil(l) => Some(l),
            _ => None,
        }
    }

    pub open spec fn spec_is_liquid(&self) -> bool {
        self.liquid_of().is_some()
    }

    pub open spec fn spec_is_visible(&self) -> bool {
        *self != TileType::Empty
    }

    pub open spec fn spec_is_solid(&self) -> bool {
        self.spec_is_visible() && !self.spec_is_liquid()
    }

    pub open spec fn spec_is_emitter(&self) -> bool {
        *self is Lantern
    }

    /// Gravity acts on granular solids and on every liquid.
    pub open spec fn spec_is_weighted(&self) -> bool {
        self.spec_is_liquid() || *self == TileType::Gravel || *self == TileType::Sand
    }

    /// Light passes through empty cells and through water only.
    pub open spec fn spec_is_opaque(&self) -> bool {
        !(*self is Water) && *self != TileType::Empty
    }

    /// Two tiles are of the same kind when they are the same variant,
    /// whatever state they carry.
    pub open spec fn spec_same_kind(&self, other: TileType) -> bool {
        match (*self, other) {
            (TileType::Empty, TileType::Empty) => true,
            (TileType::Gravel, TileType::Gravel) => true,
            (TileType::Moss, TileType::Moss) => true,
            (TileType::Dirt, TileType::Dirt) => true,
            (TileType::Sand, TileType::Sand) => true,
            (TileType::Water(_), TileType::Water(_)) => true,
            (TileType::Magma(_), TileType::Magma(_)) => true,
            (TileType::Oil(_), TileType::Oil(_)) => true,
            (TileType::Lantern(_), TileType::Lantern(_)) => true,
            _ => false,
        }
    }

    /// How runny a liquid is, from 1 to 10; 0 for what is no liquid.
    pub open spec fn spec_fluidity(&self) -> u8 {
        match *self {
            TileType::Water(_) => 10,
            TileType::Magma(_) => 1,
            TileType::Oil(_) => 5,
            _ => 0,
        }
    }

    /// How far to the side a falling tile looks for a lower place. A liquid
    /// looks farther the runnier and the emptier it is: its fluidity times
    /// the empty share of its cell, rounded down.
    pub open spec fn spec_granularity(&self) -> u8 {
        match self.liquid_of() {
            Some(l) => ((self.spec_fluidity() as int * (255 - l.level)) / 255) as u8,
            None => match *self {
                TileType::Gravel => 1,
                TileType::Sand => 2,
                _ => 0,
            },
        }
    }

    /// The same kind of liquid in another state.
    pub open spec fn spec_with_liquid(&self, l: Liquid) -> TileType {
        match *self {
            TileType::Water(_) => TileType::Water(l),
            TileType::Magma(_) => TileType::Magma(l),
            TileType::Oil(_) => TileType::Oil(l),
            _ => *self,
        }
    }

    /// The interaction table: what becomes of a liquid of this kind that
    /// meets a liquid of the other kind.
    pub open spec fn interaction(self, other: TileType) -> LiquidInteraction {
        match (self, other) {
            (TileType::Water(_), TileType::Magma(_)) => LiquidInteraction::Vaporized,
            (TileType::Water(_), TileType::Oil(_)) => LiquidInteraction::Sink,
            (TileType::Magma(_), TileType::Water(_)) => LiquidInteraction::Vaporize,
            (TileType::Magma(_), TileType::Oil(_)) => LiquidInteraction::Vaporize,
            (TileType::Oil(_), TileType::Water(_)) => LiquidInteraction::Float,
            _ => LiquidInteraction::Vaporized,
        }
    }

    /// The table covers two liquids of different kinds.
    pub open spec fn interacts_with(self, other: TileType) -> bool {
        self.spec_is_liquid() && other.spec_is_liquid() && !self.spec_same_kind(other)
    }

    /// A tile blocks the way of another when it is solid, or when both are
    /// liquids.
    pub open spec fn spec_is_obstructed_by(&self, other: TileType) -> bool {
        other.spec_is_solid() || (self.spec_is_liquid() && other.spec_is_liquid())
    }

    /// The tile as a cell stores it: a liquid of level 0 is an empty cell.
    pub open spec fn spec_normalized(&self) -> TileType {
        match self.liquid_of() {
            Some(l) => if l.level == 0 { TileType::Empty } else { *self },
            None => *self,
        }
    }

    pub open spec fn name_of(self) -> Seq<char> {
        match self {
            TileType::Empty => "Empty"@,
            TileType::Gravel => "Gravel"@,
            TileType::Moss => "Moss"@,
            TileType::Dirt => "Dirt"@,
            TileType::Sand => "Sand"@,
            TileType::Water(_) => "Water"@,
            TileType::Magma(_) => "Magma"@,
            TileType::Oil(_) => "Oil"@,
            TileType::Lantern(_) => "Lantern"@,
        }
    }

    pub open spec fn sprite_dir_name_of(self) -> Seq<char> {
        match self {
            TileType::Empty => Seq::<char>::empty(),
            TileType::Gravel => "gravel"@,
            TileType::Moss => "moss"@,
            TileType::Dirt => "dirt"@,
            TileType::Sand => "sand"@,
            TileType::Water(_) => "water"@,
            TileType::Magma(_) => "magma"@,
            TileType::Oil(_) => "oil"@,
            TileType::Lantern(_) => "lantern"@,
        }
    }

    /// The name of the kind.
    pub fn get_name(&self) -> (name: String)
        ensures
            name@ == self.name_of(),
    {
        match self {
            TileType::Empty => "Empty",
            TileType::Gravel => "Gravel",
            TileType::Moss => "Moss",
            TileType::Dirt => "Dirt",
            TileType::Sand => "Sand",
            TileType::Water(_) => "Water",
            TileType::Magma(_) => "Magma",
            TileType::Oil(_) => "Oil",
            TileType::Lantern(_) => "Lantern",
        }.to_owned()
    }

    /// The directory that holds the sprites of a visible tile.
    pub fn get_sprite_dir_name(&self) -> (name: String)
        requires
            self.spec_is_visible(),
        ensures
            name@ == self.sprite_dir_name_of(),
    {
        match self {
            TileType::Gravel => "gravel",
            TileType::Moss => "moss",
            TileType::Dirt => "dirt",
            TileType::Sand => "sand",
            TileType::Water(_) => "water",
            TileType::Magma(_) => "magma",
            TileType::Oil(_) => "oil",
            _ => "lantern",
        }.to_owned()
    }

    /// Every kind lets its sprite be turned and mirrored.
    pub fn morph_sprite(&self) -> (morph: bool)
        ensures
            morph,
    {
        true
    }

    #[verifier::when_used_as_spec(spec_is_weighted)]
    pub fn is_weighted(&self) -> (weighted: bool)
        ensures
            weighted == self.spec_is_weighted(),
    {
        if self.is_liquid() {
            return true;
        }
        matches!(self, TileType::Gravel | TileType::Sand)
    }

    /// `None` for an empty cell, else the state of matter of the tile.
    pub fn get_matter_state(&self) -> (state: Option<MatterState>)
        ensures
            state == (if !self.spec_is_visible() {
                None
            } else if self.spec_is_liquid() {
                Some(MatterState::Liquid)
            } else {
                Some(MatterState::Solid)
            }),
    {
        if let TileType::Empty = self {
            None
        } else if self.get_liquid().is_ok() {
            Some(MatterState::Liquid)
        } else {
            Some(MatterState::Solid)
        }
    }

    #[verifier::when_used_as_spec(spec_granularity)]
    pub fn get_granularity(&self) -> (granularity: u8)
        ensures
            granularity == self.spec_granularity(),
            granularity <= 10,
    {
        if let Ok(liquid) = self.get_liquid() {
            let fluidity: u32 = self.get_fluidity() as u32;
            let emptiness: u32 = (MAX_LEVEL - liquid.level) as u32;
            return (fluidity * emptiness / 255) as u8;
        }
        match self {
            TileType::Gravel => 1,
            TileType::Sand => 2,
            _ => 0,
        }
    }

    /// The liquid state of a liquid tile; `Err` for every other tile.
    pub fn get_liquid(&self) -> (liquid: Result<Liquid, ()>)
        ensures
            liquid == (match self.liquid_of() {
                Some(l) => Ok::<Liquid, ()>(l),
                None => Err::<Liquid, ()>(()),
            }),
    {
        match self {
            TileType::Water(l) => Ok(*l),
            TileType::Magma(l) => Ok(*l),
            TileType::Oil(l) => Ok(*l),
            _ => Err(()),
        }
    }

    /// The same kind of liquid in the state `l`.
    #[verifier::when_used_as_spec(spec_with_liquid)]
    pub fn with_liquid(&self, l: Liquid) -> (tile: TileType)
        requires
            self.spec_is_liquid(),
        ensures
            tile == self.spec_with_liquid(l),
            tile.liquid_of() == Some(l),
            tile.spec_same_kind(*self),
    {
        match self {
            TileType::Water(_) => TileType::Water(l),
            TileType::Magma(_) => TileType::Magma(l),
            _ => TileType::Oil(l),
        }
    }

    #[verifier::when_used_as_spec(spec_fluidity)]
    pub fn get_fluidity(&self) -> (fluidity: u8)
        requires
            self.spec_is_liquid(),
        ensures
            fluidity == self.spec_fluidity(),
            1 <= fluidity <= 10,
    {
        match self {
            TileType::Water(_) => 10,
            TileType::Magma(_) => 1,
            _ => 5,
        }
    }

    /// What becomes of this liquid when it meets the other one.
    pub fn get_liquid_interaction_with(&self, other: TileType) -> (interaction: LiquidInteraction)
        requires
            self.interacts_with(other),
        ensures
            interaction == self.interaction(other),
    {
        match self {
            TileType::Water(_) => match other {
                TileType::Magma(_) => LiquidInteraction::Vaporized,
                _ => LiquidInteraction::Sink,
            },
            TileType::Magma(_) => LiquidInteraction::Vaporize,
            _ => match other {
                TileType::Water(_) => LiquidInteraction::Float,
                _ => LiquidInteraction::Vaporized,
            },
        }
    }

    /// The light source of a lantern; `Err` for every other tile.
    pub fn get_emitter(&self) -> (emitter: Result<Emitter, ()>)
        ensures
            emitter == (match *self {
                TileType::Lantern(e) => Ok::<Emitter, ()>(e),
                _ => Err::<Emitter, ()>(()),
            }),
    {
        match self {
            TileType::Lantern(e) => Ok(*e),
            _ => Err(()),
        }
    }

    #[verifier::when_used_as_spec(spec_is_emitter)]
    pub fn is_emitter(&self) -> (emitter: bool)
        ensures
            emitter == self.spec_is_emitter(),
    {
        self.get_emitter().is_ok()
    }

    /// The liquid state of a liquid tile.
    pub fn liquid(&self) -> (liquid: Liquid)
        requires
            self.spec_is_liquid(),
        ensures
            Some(liquid) == self.liquid_of(),
    {
        match self {
            TileType::Water(l) => *l,
            TileType::Magma(l) => *l,
            TileType::Oil(l) => *l,
            _ => Liquid::default(),
        }
    }

    #[verifier::when_used_as_spec(spec_is_visible)]
    pub fn is_visible(&self) -> (visible: bool)
        ensures
            visible == self.spec_is_visible(),
    {
        !matches!(self, TileType::Empty)
    }

    #[verifier::when_used_as_spec(spec_is_solid)]
    pub fn is_solid(&self) -> (solid: bool)
        ensures
            solid == self.spec_is_solid(),
    {
        matches!(self.get_matter_state(), Some(MatterState::Solid))
    }

    #[verifier::when_used_as_spec(spec_is_liquid)]
    pub fn is_liquid(&self) -> (liquid: bool)
        ensures
            liquid == self.spec_is_liquid(),
    {
        matches!(self.get_matter_state(), Some(MatterState::Liquid))
    }

    #[verifier::when_used_as_spec(spec_is_opaque)]
    pub fn is_opaque(&self) -> (opaque: bool)
        ensures
            opaque == self.spec_is_opaque(),
    {
        !matches!(self, TileType::Water(_) | TileType::Empty)
    }

    #[verifier::when_used_as_spec(spec_is_obstructed_by)]
    pub fn is_obstructed_by(&self, other: TileType) -> (obstructed: bool)
        ensures
            obstructed == self.spec_is_obstructed_by(other),
    {
        if other.is_solid() {
            return true;
        }
        if self.is_liquid() && other.is_liquid() {
            return true;
        }
        false
    }

    /// Whether both tiles are the same variant.
    #[verifier::when_used_as_spec(spec_same_kind)]
    pub fn same_kind(&self, other: TileType) -> (same: bool)
        ensures
            same == self.spec_same_kind(other),
    {
        match (self, other) {
            (TileType::Empty, TileType::Empty) => true,
            (TileType::Gravel, TileType::Gravel) => true,
            (TileType::Moss, TileType::Moss) => true,
            (TileType::Dirt, TileType::Dirt) => true,
            (TileType::Sand, TileType::Sand) => true,
            (TileType::Water(_), TileType::Water(_)) => true,
            (TileType::Magma(_), TileType::Magma(_)) => true,
            (TileType::Oil(_), TileType::Oil(_)) => true,
            (TileType::Lantern(_), TileType::Lantern(_)) => true,
            _ => false,
        }
    }

    /// The tile as a cell stores it: a liquid of level 0 is an empty cell.
    #[verifier::when_used_as_spec(spec_normalized)]
    pub fn normalized(&self) -> (tile: TileType)
        ensures
            tile == self.spec_normalized(),
    {
        match self.get_liquid() {
            Ok(l) => if l.level == 0 {
                TileType::Empty
            } else {
                *self
            },
            Err(_) => *self,
        }
    }
}

/// The interaction table is not symmetric: where two liquids of different
/// kinds meet, at most one of them vaporizes the other, and one that
/// vaporizes the other is never vaporized by it.
pub proof fn lemma_interaction_is_one_sided(a: TileType, b: TileType)
    requires
        a.interacts_with(b),
    ensures
        b.interacts_with(a),
        a.interaction(b) == LiquidInteraction::Vaporize ==> b.interaction(a)
            == LiquidInteraction::Vaporized,
        a.interaction(b) == LiquidInteraction::Sink ==> b.interaction(a)
            == LiquidInteraction::Float,
        a.interaction(b) == LiquidInteraction::Float ==> b.interaction(a)
            == LiquidInteraction::Sink,
{
}

/// A liquid searches no farther than its fluidity, a full one not at all,
/// and an emptier one at least as far as a fuller one of its kind.
pub proof fn lemma_liquid_granularity(tile: TileType, fuller: Liquid, emptier: Liquid)
    requires
        tile.spec_is_liquid(),
        emptier.level <= fuller.level,
    ensures
        tile.spec_with_liquid(fuller).spec_granularity() <= tile.spec_with_liquid(
            emptier,
        ).spec_granularity() <= tile.spec_fluidity(),
        tile.spec_with_liquid(Liquid::full()).spec_granularity() == 0,
{
    let f = tile.spec_fluidity() as int;
    let a = 255 - fuller.level as int;
    let b = 255 - emptier.level as int;
    assert(f * a <= f * b) by (nonlinear_arith)
        requires
            0 <= f,
            a <= b,
    ;
    assert(f * b <= f * 255) by (nonlinear_arith)
        requires
            0 <= f,
            b <= 255,
    ;
    assert(f * 0 == 0);
}

} // verus!

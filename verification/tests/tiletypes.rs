use tilegame::tiletypes::{
    Emitter, Liquid, LiquidInteraction, MatterState, TileType, DEFAULT_EMITTER_RADIUS, MAX_LEVEL,
};

fn liquid_of_level(level: u8) -> Liquid {
    Liquid { level, flowing_right: None, momentum: 0, sprite_override: false }
}

#[test]
fn default_liquid_is_full_and_at_rest() {
    let l = Liquid::default();
    assert_eq!(l.level, 255);
    assert_eq!(l.level, MAX_LEVEL);
    assert_eq!(l.flowing_right, None);
    assert_eq!(l.momentum, 0);
    assert!(!l.sprite_override);
}

#[test]
fn default_emitter_has_radius_20() {
    assert_eq!(Emitter::default().radius, 20);
    assert_eq!(DEFAULT_EMITTER_RADIUS, 20);
}

#[test]
fn names_of_the_kinds() {
    assert_eq!(TileType::Empty.get_name(), "Empty");
    assert_eq!(TileType::Gravel.get_name(), "Gravel");
    assert_eq!(TileType::Moss.get_name(), "Moss");
    assert_eq!(TileType::Dirt.get_name(), "Dirt");
    assert_eq!(TileType::Sand.get_name(), "Sand");
    assert_eq!(TileType::Water(Liquid::default()).get_name(), "Water");
    assert_eq!(TileType::Magma(Liquid::default()).get_name(), "Magma");
    assert_eq!(TileType::Oil(Liquid::default()).get_name(), "Oil");
    assert_eq!(TileType::Lantern(Emitter::default()).get_name(), "Lantern");
}

#[test]
fn sprite_directories_of_the_visible_kinds() {
    assert_eq!(TileType::Gravel.get_sprite_dir_name(), "gravel");
    assert_eq!(TileType::Moss.get_sprite_dir_name(), "moss");
    assert_eq!(TileType::Dirt.get_sprite_dir_name(), "dirt");
    assert_eq!(TileType::Sand.get_sprite_dir_name(), "sand");
    assert_eq!(TileType::Water(Liquid::default()).get_sprite_dir_name(), "water");
    assert_eq!(TileType::Magma(Liquid::default()).get_sprite_dir_name(), "magma");
    assert_eq!(TileType::Oil(Liquid::default()).get_sprite_dir_name(), "oil");
    assert_eq!(TileType::Lantern(Emitter::default()).get_sprite_dir_name(), "lantern");
}

#[test]
fn every_kind_morphs_its_sprite() {
    assert!(TileType::Dirt.morph_sprite());
    assert!(TileType::Water(Liquid::default()).morph_sprite());
}

#[test]
fn matter_states() {
    assert_eq!(TileType::Empty.get_matter_state(), None);
    assert_eq!(TileType::Dirt.get_matter_state(), Some(MatterState::Solid));
    assert_eq!(TileType::Lantern(Emitter::default()).get_matter_state(), Some(MatterState::Solid));
    assert_eq!(TileType::Oil(Liquid::default()).get_matter_state(), Some(MatterState::Liquid));
}

#[test]
fn solid_liquid_visible_opaque() {
    let water = TileType::Water(Liquid::default());
    let magma = TileType::Magma(Liquid::default());
    assert!(!TileType::Empty.is_visible());
    assert!(!TileType::Empty.is_solid());
    assert!(!TileType::Empty.is_liquid());
    assert!(!TileType::Empty.is_opaque());
    assert!(TileType::Moss.is_visible() && TileType::Moss.is_solid() && TileType::Moss.is_opaque());
    assert!(water.is_visible() && water.is_liquid() && !water.is_solid() && !water.is_opaque());
    assert!(magma.is_liquid() && magma.is_opaque());
}

#[test]
fn weighted_kinds_are_granular_solids_and_liquids() {
    assert!(TileType::Gravel.is_weighted());
    assert!(TileType::Sand.is_weighted());
    assert!(TileType::Water(Liquid::default()).is_weighted());
    assert!(TileType::Magma(Liquid::default()).is_weighted());
    assert!(TileType::Oil(Liquid::default()).is_weighted());
    assert!(!TileType::Dirt.is_weighted());
    assert!(!TileType::Moss.is_weighted());
    assert!(!TileType::Empty.is_weighted());
    assert!(!TileType::Lantern(Emitter::default()).is_weighted());
}

#[test]
fn fluidity_of_each_liquid() {
    assert_eq!(TileType::Water(Liquid::default()).get_fluidity(), 10);
    assert_eq!(TileType::Magma(Liquid::default()).get_fluidity(), 1);
    assert_eq!(TileType::Oil(Liquid::default()).get_fluidity(), 5);
}

#[test]
fn granularity_of_solids() {
    assert_eq!(TileType::Gravel.get_granularity(), 1);
    assert_eq!(TileType::Sand.get_granularity(), 2);
    assert_eq!(TileType::Dirt.get_granularity(), 0);
    assert_eq!(TileType::Empty.get_granularity(), 0);
}

#[test]
fn granularity_of_liquids_grows_with_emptiness() {
    assert_eq!(TileType::Water(liquid_of_level(255)).get_granularity(), 0);
    assert_eq!(TileType::Water(liquid_of_level(128)).get_granularity(), 4);
    assert_eq!(TileType::Water(liquid_of_level(102)).get_granularity(), 6);
    assert_eq!(TileType::Water(liquid_of_level(1)).get_granularity(), 9);
    assert_eq!(TileType::Water(liquid_of_level(0)).get_granularity(), 10);
    assert_eq!(TileType::Oil(liquid_of_level(100)).get_granularity(), 3);
    assert_eq!(TileType::Oil(liquid_of_level(102)).get_granularity(), 3);
    assert_eq!(TileType::Oil(liquid_of_level(103)).get_granularity(), 2);
    assert_eq!(TileType::Magma(liquid_of_level(1)).get_granularity(), 0);
    assert_eq!(TileType::Magma(liquid_of_level(0)).get_granularity(), 1);
}

#[test]
fn liquid_accessors() {
    let l = Liquid { level: 7, flowing_right: Some(true), momentum: 3, sprite_override: true };
    assert_eq!(TileType::Water(l).get_liquid(), Ok(l));
    assert_eq!(TileType::Water(l).liquid(), l);
    assert_eq!(TileType::Dirt.get_liquid(), Err(()));
    assert_eq!(TileType::Empty.get_liquid(), Err(()));
    assert_eq!(TileType::Oil(Liquid::default()).with_liquid(l), TileType::Oil(l));
    assert_eq!(TileType::Magma(Liquid::default()).with_liquid(l), TileType::Magma(l));
    assert_eq!(TileType::Water(Liquid::default()).with_liquid(l), TileType::Water(l));
}

#[test]
fn emitter_accessors() {
    let e = Emitter { radius: 9 };
    assert_eq!(TileType::Lantern(e).get_emitter(), Ok(e));
    assert!(TileType::Lantern(e).is_emitter());
    assert_eq!(TileType::Sand.get_emitter(), Err(()));
    assert!(!TileType::Sand.is_emitter());
}

#[test]
fn interaction_table() {
    let water = TileType::Water(Liquid::default());
    let magma = TileType::Magma(Liquid::default());
    let oil = TileType::Oil(Liquid::default());
    assert_eq!(water.get_liquid_interaction_with(magma), LiquidInteraction::Vaporized);
    assert_eq!(water.get_liquid_interaction_with(oil), LiquidInteraction::Sink);
    assert_eq!(magma.get_liquid_interaction_with(water), LiquidInteraction::Vaporize);
    assert_eq!(magma.get_liquid_interaction_with(oil), LiquidInteraction::Vaporize);
    assert_eq!(oil.get_liquid_interaction_with(water), LiquidInteraction::Float);
    assert_eq!(oil.get_liquid_interaction_with(magma), LiquidInteraction::Vaporized);
}

#[test]
fn obstruction() {
    let water = TileType::Water(Liquid::default());
    let oil = TileType::Oil(Liquid::default());
    assert!(TileType::Sand.is_obstructed_by(TileType::Dirt));
    assert!(!TileType::Sand.is_obstructed_by(TileType::Empty));
    assert!(!TileType::Sand.is_obstructed_by(water));
    assert!(water.is_obstructed_by(oil));
    assert!(water.is_obstructed_by(water));
    assert!(water.is_obstructed_by(TileType::Sand));
    assert!(!water.is_obstructed_by(TileType::Empty));
}

#[test]
fn same_kind_ignores_the_state() {
    assert!(TileType::Water(liquid_of_level(3)).same_kind(TileType::Water(liquid_of_level(200))));
    assert!(!TileType::Water(liquid_of_level(3)).same_kind(TileType::Oil(liquid_of_level(3))));
    assert!(TileType::Dirt.same_kind(TileType::Dirt));
    assert!(!TileType::Dirt.same_kind(TileType::Moss));
    assert!(TileType::Empty.same_kind(TileType::Empty));
}

#[test]
fn liquid_of_level_zero_is_an_empty_cell() {
    assert_eq!(TileType::Water(liquid_of_level(0)).normalized(), TileType::Empty);
    assert_eq!(TileType::Magma(liquid_of_level(0)).normalized(), TileType::Empty);
    assert_eq!(TileType::Oil(liquid_of_level(1)).normalized(), TileType::Oil(liquid_of_level(1)));
    assert_eq!(TileType::Sand.normalized(), TileType::Sand);
}

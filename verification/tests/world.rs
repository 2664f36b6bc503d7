use std::sync::Arc;

use alife::neural_network::{Action, Location, NeuralNetwork, Neuron, InputNeuron};
use alife::simulation::{
    CardinalDirection, Color, Creature, Position, Tile, World, WorldSettings,
};

fn quiet_settings() -> WorldSettings {
    WorldSettings { food_regen_rate: 0, creature_generation_rate: 0 }
}

/// A brain that always fires the given action: an always-active sense at
/// slot 0 feeds the actuator at slot 1 through one connection.
fn forced_brain(action: Action) -> NeuralNetwork {
    NeuralNetwork::new(
        vec![
            Neuron::Input(InputNeuron::AlwaysActive),
            Neuron::Output(action),
            Neuron::Input(InputNeuron::AlwaysActive),
        ],
        vec![alife::neural_network::NeuralConnection { source: 0, destination: 1 }],
    )
    .unwrap()
}

#[test]
fn fresh_world_accessors() {
    let world = World::new(8, 6, Tile::Lava, WorldSettings {
        food_regen_rate: 3,
        creature_generation_rate: 2,
    });
    assert_eq!(world.width(), 8);
    assert_eq!(world.height(), 6);
    assert_eq!(world.current_tick(), 0);
    assert_eq!(world.creature_count(), 0);
    assert!(matches!(world.get_tile(&Position { x: 0, y: 0 }), Some(Tile::Lava)));
    assert!(matches!(world.get_tile(&Position { x: 7, y: 3 }), Some(Tile::Lava)));
    assert!(matches!(world.get_tile(&Position { x: 3, y: 5 }), Some(Tile::Lava)));
    let interior = world.get_tile(&Position { x: 3, y: 3 }).unwrap();
    assert!(interior.can_contain_creature());
    assert!(interior.has_food());
    assert!(world.get_tile(&Position { x: 8, y: 0 }).is_none());
    assert!(world.get_tile(&Position { x: 0, y: 6 }).is_none());
}

#[test]
fn border_stays_lava_across_ticks() {
    let mut world = World::new(8, 6, Tile::Lava, WorldSettings {
        food_regen_rate: 4,
        creature_generation_rate: 3,
    });
    for _ in 0..6 {
        world.tick();
    }
    for x in 0..8usize {
        assert!(matches!(world.get_tile(&Position { x, y: 0 }), Some(Tile::Lava)));
        assert!(matches!(world.get_tile(&Position { x, y: 5 }), Some(Tile::Lava)));
    }
    for y in 0..6usize {
        assert!(matches!(world.get_tile(&Position { x: 0, y }), Some(Tile::Lava)));
        assert!(matches!(world.get_tile(&Position { x: 7, y }), Some(Tile::Lava)));
    }
}

#[test]
fn occupancy_never_exceeds_passable_tiles() {
    // A 6 by 6 grid with a lava ring has 16 passable interior tiles.
    let mut world = World::new(6, 6, Tile::Lava, WorldSettings {
        food_regen_rate: 5,
        creature_generation_rate: 40,
    });
    for _ in 0..8 {
        world.tick();
        assert!(world.creature_count() <= 16);
    }
}

#[test]
fn creature_dies_when_cost_exceeds_energy() {
    let mut world = World::new(5, 5, Tile::Lava, quiet_settings());
    let brain = forced_brain(Action::Idle);
    let creature = Creature::new(0, CardinalDirection::North, Some(Arc::new(brain)))
        .with_energy(0);
    world.spawn_creature(Position { x: 2, y: 2 }, creature);
    assert_eq!(world.creature_count(), 1);
    world.tick();
    assert_eq!(world.creature_count(), 0);
    assert!(world.get_creature(&Position { x: 2, y: 2 }).is_none());
}

#[test]
fn forced_move_with_low_energy_empties_the_world() {
    // One interior creature with energy 1 whose brain always moves: the
    // move costs 3, so the creature is removed in the same tick.
    let mut world = World::new(5, 5, Tile::Lava, quiet_settings());
    let brain = forced_brain(Action::Move(Location::InFront));
    let creature = Creature::new(0, CardinalDirection::East, Some(Arc::new(brain)))
        .with_energy(1);
    world.spawn_creature(Position { x: 2, y: 2 }, creature);
    assert_eq!(world.creature_count(), 1);
    world.tick();
    assert_eq!(world.creature_count(), 0);
}

#[test]
fn successful_move_relocates_the_creature() {
    let mut world = World::new(5, 5, Tile::Lava, quiet_settings());
    let brain = forced_brain(Action::Move(Location::InFront));
    let creature = Creature::new(0, CardinalDirection::East, Some(Arc::new(brain)));
    world.spawn_creature(Position { x: 1, y: 2 }, creature);
    world.tick();
    assert_eq!(world.creature_count(), 1);
    assert!(!world.contains_creature(&Position { x: 1, y: 2 }));
    let moved = world.get_creature(&Position { x: 2, y: 2 }).unwrap();
    assert_eq!(moved.energy(), 97);
}

#[test]
fn conflicting_moves_let_only_one_relocation_succeed() {
    let mut world = World::new(5, 5, Tile::Lava, quiet_settings());
    let left = Creature::new(
        0,
        CardinalDirection::East,
        Some(Arc::new(forced_brain(Action::Move(Location::InFront)))),
    );
    let right = Creature::new(
        0,
        CardinalDirection::West,
        Some(Arc::new(forced_brain(Action::Move(Location::InFront)))),
    );
    world.spawn_creature(Position { x: 1, y: 2 }, left);
    world.spawn_creature(Position { x: 3, y: 2 }, right);
    world.tick();
    assert_eq!(world.creature_count(), 2);
    assert!(world.contains_creature(&Position { x: 2, y: 2 }));
    let left_stayed = world.contains_creature(&Position { x: 1, y: 2 });
    let right_stayed = world.contains_creature(&Position { x: 3, y: 2 });
    assert!(left_stayed != right_stayed);
}

#[test]
fn move_into_a_wall_keeps_the_creature_in_place() {
    let mut world = World::new(5, 5, Tile::Lava, quiet_settings());
    let brain = forced_brain(Action::Move(Location::InFront));
    let creature = Creature::new(0, CardinalDirection::North, Some(Arc::new(brain)));
    world.spawn_creature(Position { x: 2, y: 1 }, creature);
    world.tick();
    let stayed = world.get_creature(&Position { x: 2, y: 1 }).unwrap();
    assert_eq!(stayed.energy(), 97);
}

#[test]
fn eating_consumes_food_once_and_then_gains_nothing() {
    let mut world = World::new(5, 5, Tile::Lava, quiet_settings());
    let brain = forced_brain(Action::Eat);
    let creature = Creature::new(0, CardinalDirection::North, Some(Arc::new(brain)));
    world.spawn_creature(Position { x: 2, y: 2 }, creature);
    world.tick();
    assert_eq!(world.get_creature(&Position { x: 2, y: 2 }).unwrap().energy(), 148);
    assert!(!world.get_tile(&Position { x: 2, y: 2 }).unwrap().has_food());
    world.tick();
    // The tile has no food left: the meal costs 2 and yields nothing.
    assert_eq!(world.get_creature(&Position { x: 2, y: 2 }).unwrap().energy(), 146);
    assert!(!world.get_tile(&Position { x: 2, y: 2 }).unwrap().has_food());
}

#[test]
fn rotation_action_turns_the_creature() {
    let mut world = World::new(5, 5, Tile::Lava, quiet_settings());
    let brain = forced_brain(Action::Rotate(alife::neural_network::Rotation::Clockwise));
    let creature = Creature::new(0, CardinalDirection::North, Some(Arc::new(brain)));
    world.spawn_creature(Position { x: 2, y: 2 }, creature);
    world.tick();
    let turned = world.get_creature(&Position { x: 2, y: 2 }).unwrap();
    assert_eq!(turned.rotation(), CardinalDirection::East);
    assert_eq!(turned.energy(), 98);
}

#[test]
fn reproduction_places_one_inert_newborn() {
    let mut world = World::new(5, 5, Tile::Lava, quiet_settings());
    let brain = forced_brain(Action::CreateMembrane(Location::InFront));
    let creature = Creature::new(0, CardinalDirection::North, Some(Arc::new(brain)))
        .with_energy(200);
    world.spawn_creature(Position { x: 2, y: 2 }, creature);
    world.tick();
    assert_eq!(world.creature_count(), 2);
    let parent = world.get_creature(&Position { x: 2, y: 2 }).unwrap();
    assert_eq!(parent.offspring(), 1);
    assert_eq!(parent.energy(), 95);
    let child = world.get_creature(&Position { x: 2, y: 1 }).unwrap();
    assert!(!child.has_brain());
    assert_eq!(child.energy(), 100);
    assert_eq!(child.born(), 1);
    assert_eq!(child.rotation(), CardinalDirection::North);
}

#[test]
fn reproduction_into_an_occupied_cell_only_counts_the_attempt() {
    let mut world = World::new(5, 5, Tile::Lava, quiet_settings());
    let brain = forced_brain(Action::CreateMembrane(Location::InFront));
    let parent = Creature::new(0, CardinalDirection::North, Some(Arc::new(brain)))
        .with_energy(200);
    let blocker = Creature::new(0, CardinalDirection::North, None);
    world.spawn_creature(Position { x: 2, y: 2 }, parent);
    world.spawn_creature(Position { x: 2, y: 1 }, blocker);
    world.tick();
    assert_eq!(world.creature_count(), 2);
    let parent = world.get_creature(&Position { x: 2, y: 2 }).unwrap();
    assert_eq!(parent.offspring(), 1);
    let blocker = world.get_creature(&Position { x: 2, y: 1 }).unwrap();
    assert!(!blocker.has_brain());
    assert_eq!(blocker.energy(), 100);
}

#[test]
fn copying_gives_the_neighbor_a_brain() {
    let mut world = World::new(5, 5, Tile::Lava, quiet_settings());
    let brain = forced_brain(Action::CopyDna(Location::InFront));
    let copier = Creature::new(0, CardinalDirection::East, Some(Arc::new(brain)));
    let inert = Creature::new(0, CardinalDirection::North, None);
    world.spawn_creature(Position { x: 2, y: 2 }, copier);
    world.spawn_creature(Position { x: 3, y: 2 }, inert);
    world.tick();
    let target = world.get_creature(&Position { x: 3, y: 2 }).unwrap();
    assert!(target.has_brain());
    let source = world.get_creature(&Position { x: 2, y: 2 }).unwrap();
    assert_eq!(source.energy(), 90);
}

#[test]
fn spawning_is_skipped_on_lava_and_occupied_cells() {
    let mut world = World::new(5, 5, Tile::Lava, quiet_settings());
    world.spawn_creature(Position { x: 0, y: 0 }, Creature::new(0, CardinalDirection::North, None));
    assert_eq!(world.creature_count(), 0);
    world.spawn_creature(Position { x: 2, y: 2 }, Creature::new(0, CardinalDirection::North, None));
    world.spawn_creature(Position { x: 2, y: 2 }, Creature::new(0, CardinalDirection::East, None));
    assert_eq!(world.creature_count(), 1);
    assert_eq!(
        world.get_creature(&Position { x: 2, y: 2 }).unwrap().rotation(),
        CardinalDirection::North,
    );
    world.kill_creature(&Position { x: 2, y: 2 });
    assert_eq!(world.creature_count(), 0);
}

#[test]
fn food_regeneration_restocks_ground() {
    let mut world = World::new(4, 4, Tile::Lava, WorldSettings {
        food_regen_rate: 64,
        creature_generation_rate: 0,
    });
    let mut eater_world = World::new(5, 5, Tile::Lava, quiet_settings());
    let brain = forced_brain(Action::Eat);
    let creature = Creature::new(0, CardinalDirection::North, Some(Arc::new(brain)));
    eater_world.spawn_creature(Position { x: 2, y: 2 }, creature);
    eater_world.tick();
    assert!(!eater_world.get_tile(&Position { x: 2, y: 2 }).unwrap().has_food());
    // In the other world nothing eats, so ticks only restock ground tiles.
    world.tick();
    for x in 1..3usize {
        for y in 1..3usize {
            assert!(world.get_tile(&Position { x, y }).unwrap().has_food());
        }
    }
}

#[test]
fn pixel_buffer_paints_lava_and_food() {
    let world = World::new(3, 3, Tile::Lava, quiet_settings());
    let pixels = world.to_rgba_image();
    assert_eq!(pixels.len(), 9 * 4);
    // Corner tile: lava is orange.
    assert_eq!(&pixels[0..4], &[255, 128, 0, 255]);
    // Center tile: ground with food is green.
    let center = 4 * (1 * 3 + 1);
    assert_eq!(&pixels[center..center + 4], &[0, 255, 0, 255]);
    // The tile color values themselves.
    assert_eq!(Tile::Lava.color(), Color::new(255, 128, 0));
    assert_eq!(Tile::default().color(), Color::new(0, 255, 0));
}

#[test]
fn snapshot_reports_tick_count_and_brain_sizes() {
    let mut world = World::new(4, 4, Tile::Lava, quiet_settings());
    let brain = forced_brain(Action::Idle);
    let creature = Creature::new(0, CardinalDirection::North, Some(Arc::new(brain)));
    world.spawn_creature(Position { x: 1, y: 1 }, creature);
    world.spawn_creature(Position { x: 2, y: 2 }, Creature::new(0, CardinalDirection::North, None));
    world.tick();
    let (pixels, stats) = world.snapshot();
    assert_eq!(pixels.len(), 16 * 4);
    assert_eq!(stats.current_tick, 1);
    assert_eq!(stats.creature_count, 2);
    assert_eq!(stats.max_brain_neuron_count, 3);
}

#[test]
fn position_steps_saturate_at_the_origin() {
    let origin = Position { x: 0, y: 0 };
    assert_eq!(origin.cardinal(CardinalDirection::North, 1), Position { x: 0, y: 0 });
    assert_eq!(origin.cardinal(CardinalDirection::West, 1), Position { x: 0, y: 0 });
    assert_eq!(origin.cardinal(CardinalDirection::South, 2), Position { x: 0, y: 2 });
    assert_eq!(origin.cardinal(CardinalDirection::East, 3), Position { x: 3, y: 0 });
}

use std::sync::Arc;

use alife::neural_network::{
    Action, InputNeuron, Location, NeuralConnection, NeuralNetwork, NeuralTick, Neuron, Rotation,
};
use alife::simulation::{CardinalDirection, Color, Creature, Position, Tile, World, WorldSettings};

fn quiet_settings() -> WorldSettings {
    WorldSettings { food_regen_rate: 0, creature_generation_rate: 0 }
}

#[test]
fn energy_costs_match_the_table() {
    assert_eq!(Action::Idle.energy_cost(), 1);
    assert_eq!(Action::Move(Location::InFront).energy_cost(), 3);
    assert_eq!(Action::Rotate(Rotation::Clockwise).energy_cost(), 2);
    assert_eq!(Action::Eat.energy_cost(), 2);
    assert_eq!(Action::CreateMembrane(Location::Left).energy_cost(), 105);
    assert_eq!(Action::CopyDna(Location::Behind).energy_cost(), 10);
}

#[test]
fn rotations_cycle_through_the_cardinals() {
    let mut facing = CardinalDirection::North;
    facing.rotate(Rotation::Clockwise);
    assert_eq!(facing, CardinalDirection::East);
    facing.rotate(Rotation::Clockwise);
    assert_eq!(facing, CardinalDirection::South);
    facing.rotate(Rotation::Clockwise);
    assert_eq!(facing, CardinalDirection::West);
    facing.rotate(Rotation::Clockwise);
    assert_eq!(facing, CardinalDirection::North);
    facing.rotate(Rotation::CounterClockwise);
    assert_eq!(facing, CardinalDirection::West);
}

#[test]
fn relative_directions_resolve_against_the_facing() {
    assert_eq!(
        Location::InFront.to_cardinal(&CardinalDirection::South),
        CardinalDirection::South,
    );
    assert_eq!(Location::Left.to_cardinal(&CardinalDirection::North), CardinalDirection::West);
    assert_eq!(Location::Right.to_cardinal(&CardinalDirection::West), CardinalDirection::North);
    assert_eq!(Location::Behind.to_cardinal(&CardinalDirection::East), CardinalDirection::West);
}

#[test]
fn color_dominance_is_strict_on_every_channel() {
    let a = Color::new(10, 10, 10);
    assert!(!a.dominates(&Color::new(10, 5, 5)));
    assert!(a.dominates(&Color::new(5, 5, 5)));
    assert!(!Color::new(5, 5, 5).dominates(&a));
    assert_eq!(a.to_u8(), [10, 10, 10, 255]);
}

#[test]
fn generated_brains_are_always_valid() {
    for _ in 0..30 {
        let nn = NeuralNetwork::randomize();
        let n = nn.neuron_count();
        assert!((6..=16).contains(&n));
        let mut sensing: usize = 0;
        let mut acting: usize = 0;
        for i in 0..n {
            match nn.neuron(i) {
                Neuron::Input(InputNeuron::Eye(_, color)) => {
                    assert!(color.r <= 254 && color.g <= 254 && color.b <= 254);
                    sensing += 1;
                },
                Neuron::Input(_) => sensing += 1,
                Neuron::Output(_) => acting += 1,
            }
        }
        assert!(sensing >= 1);
        assert!(acting >= 1);
        let m = nn.connection_count();
        assert!(m >= 1);
        assert!(m <= 16);
        assert!(m <= 2 * acting);
        for i in 0..m {
            let c = nn.connection(i);
            assert!((c.source as usize) < sensing);
            assert!((c.destination as usize) < acting);
            for j in 0..i {
                assert_ne!(nn.connection(j), c);
            }
        }
    }
}

#[test]
fn builder_rejects_invalid_parts() {
    // No acting neuron.
    assert!(NeuralNetwork::new(vec![Neuron::Input(InputNeuron::AlwaysActive)], vec![]).is_none());
    // No sensing neuron.
    assert!(NeuralNetwork::new(vec![Neuron::Output(Action::Idle)], vec![]).is_none());
    // A connection endpoint outside the neuron list.
    assert!(NeuralNetwork::new(
        vec![Neuron::Input(InputNeuron::AlwaysActive), Neuron::Output(Action::Idle)],
        vec![NeuralConnection { source: 0, destination: 2 }],
    )
    .is_none());
    // Too many neurons.
    let many = vec![Neuron::Input(InputNeuron::AlwaysActive); 17];
    assert!(NeuralNetwork::new(many, vec![]).is_none());
    // A valid pair of parts.
    assert!(NeuralNetwork::new(
        vec![Neuron::Input(InputNeuron::AlwaysActive), Neuron::Output(Action::Idle)],
        vec![NeuralConnection { source: 0, destination: 1 }],
    )
    .is_some());
}

#[test]
fn decisions_are_deterministic_without_random_senses() {
    let world = World::new(5, 5, Tile::Lava, quiet_settings());
    let nn = NeuralNetwork::new(
        vec![
            Neuron::Input(InputNeuron::AlwaysActive),
            Neuron::Output(Action::Move(Location::InFront)),
            Neuron::Input(InputNeuron::AlwaysActive),
        ],
        vec![NeuralConnection { source: 0, destination: 1 }],
    )
    .unwrap();
    let me = Creature::new(0, CardinalDirection::East, None);
    let position = Position { x: 2, y: 2 };
    let mut first = NeuralTick::seed(&nn, &me, &position, &world);
    let a1 = first.calculate_action(&nn);
    let mut second = NeuralTick::seed(&nn, &me, &position, &world);
    let a2 = second.calculate_action(&nn);
    assert_eq!(a1, a2);
    assert_eq!(a1, Action::Move(Location::InFront));
}

#[test]
fn a_brain_without_positive_input_idles() {
    let world = World::new(5, 5, Tile::Lava, quiet_settings());
    let nn = NeuralNetwork::new(
        vec![
            Neuron::Input(InputNeuron::AlwaysActive),
            Neuron::Output(Action::Eat),
        ],
        vec![],
    )
    .unwrap();
    let me = Creature::new(0, CardinalDirection::North, None);
    let position = Position { x: 2, y: 2 };
    let mut pass = NeuralTick::seed(&nn, &me, &position, &world);
    assert_eq!(pass.calculate_action(&nn), Action::Idle);
}

#[test]
fn the_feeler_senses_an_adjacent_creature() {
    // The sense at slot 0 feels the cell in front; it feeds the actuator
    // at slot 1, which turns clockwise when the feeler fires.
    let brain = NeuralNetwork::new(
        vec![
            Neuron::Input(InputNeuron::Feeler(Location::InFront)),
            Neuron::Output(Action::Rotate(Rotation::Clockwise)),
            Neuron::Input(InputNeuron::AlwaysActive),
        ],
        vec![NeuralConnection { source: 0, destination: 1 }],
    )
    .unwrap();

    // With a neighbor in front: the creature turns (cost 2).
    let mut world = World::new(5, 5, Tile::Lava, quiet_settings());
    let feeler = Creature::new(0, CardinalDirection::East, Some(Arc::new(brain)));
    world.spawn_creature(Position { x: 2, y: 2 }, feeler.duplicate());
    world.spawn_creature(Position { x: 3, y: 2 }, Creature::new(0, CardinalDirection::North, None));
    world.tick();
    let turned = world.get_creature(&Position { x: 2, y: 2 }).unwrap();
    assert_eq!(turned.rotation(), CardinalDirection::South);
    assert_eq!(turned.energy(), 98);

    // Without a neighbor: no positive input, so the creature idles
    // (cost 1) and keeps its facing.
    let mut lonely_world = World::new(5, 5, Tile::Lava, quiet_settings());
    lonely_world.spawn_creature(Position { x: 2, y: 2 }, feeler);
    lonely_world.tick();
    let still = lonely_world.get_creature(&Position { x: 2, y: 2 }).unwrap();
    assert_eq!(still.rotation(), CardinalDirection::East);
    assert_eq!(still.energy(), 99);
}

#[test]
fn the_eye_compares_the_tile_color_with_its_reference() {
    // An eye looking at its own tile: green ground dominates the dark
    // reference color, so the actuator fires and the creature turns.
    let seeing = NeuralNetwork::new(
        vec![
            Neuron::Input(InputNeuron::Eye(None, Color::new(0, 10, 0))),
            Neuron::Output(Action::Rotate(Rotation::Clockwise)),
            Neuron::Input(InputNeuron::AlwaysActive),
        ],
        vec![NeuralConnection { source: 0, destination: 1 }],
    )
    .unwrap();
    let mut world = World::new(5, 5, Tile::Lava, quiet_settings());
    // Green (0, 255, 0) does not dominate (0, 10, 0): the red channels tie.
    world.spawn_creature(
        Position { x: 2, y: 2 },
        Creature::new(0, CardinalDirection::North, Some(Arc::new(seeing))),
    );
    world.tick();
    let watcher = world.get_creature(&Position { x: 2, y: 2 }).unwrap();
    assert_eq!(watcher.rotation(), CardinalDirection::North);
    assert_eq!(watcher.energy(), 99);

    // Against a reference every channel of green beats, the eye fires.
    let brain = NeuralNetwork::new(
        vec![
            Neuron::Input(InputNeuron::Eye(Some(Location::InFront), Color::new(100, 50, 0))),
            Neuron::Output(Action::Rotate(Rotation::Clockwise)),
            Neuron::Input(InputNeuron::AlwaysActive),
        ],
        vec![NeuralConnection { source: 0, destination: 1 }],
    )
    .unwrap();
    let mut lava_world = World::new(5, 5, Tile::Lava, quiet_settings());
    // Looking north from (2, 1) at the lava border (255, 128, 0): orange
    // fails to dominate on the blue channel, so the creature idles.
    lava_world.spawn_creature(
        Position { x: 2, y: 1 },
        Creature::new(0, CardinalDirection::North, Some(Arc::new(brain))),
    );
    lava_world.tick();
    let gazer = lava_world.get_creature(&Position { x: 2, y: 1 }).unwrap();
    assert_eq!(gazer.rotation(), CardinalDirection::North);
    assert_eq!(gazer.energy(), 99);
}

//! The neural decision model: immutable, randomly generated networks of
//! sensing and acting neurons, and the per-tick evaluation that turns sensed
//! inputs into one chosen action.

use std::sync::Arc;

use vstd::prelude::*;

use crate::caps::{conn_seq, neuron_seq, ConnVec, NeuronVec};
use crate::simulation::{creature_ok, occ_has, spec_dominates, spec_in_bounds, spec_relative_position, spec_tile_at, spec_tile_color, wf, CardinalDirection, Color, Creature, Position, World, WorldView};

verus! {

/// Most neurons a network may hold.
pub const NEURON_CAPACITY: usize = 16;

/// Fewest neurons a randomized network is generated with.
pub const MIN_GENERATED_NEURONS: usize = 6;

/// Most connections a network may hold.
pub const CONNECTION_CAPACITY: usize = 16;

/// The scalar value of a fully active neuron. Signals are carried as
/// fixed-point numbers: 0 is silence, `SIGNAL_UNIT` is full activation, and a
/// random sense draws uniformly from `0..SIGNAL_UNIT`.
pub const SIGNAL_UNIT: u64 = 0x1_0000_0000;

/// A quarter-circle turn sense.
#[derive(Clone, Copy, PartialEq, Eq, Structural, Debug)]
pub enum Rotation {
    Clockwise,
    CounterClockwise,
}

impl Rotation {
    /// A uniformly drawn turn sense; either variant may come back, and
    /// the type itself is the full range of outcomes.
    pub fn randomize() -> Rotation {
        match crate::rng::random_bool() {
            true => Rotation::Clockwise,
            false => Rotation::CounterClockwise,
        }
    }
}

/// A direction relative to the creature's current facing.
#[derive(Clone, Copy, PartialEq, Eq, Structural, Debug)]
pub enum Location {
    InFront,
    Left,
    Right,
    Behind,
}

/// What one acting neuron asks the world to do.
#[derive(Clone, Copy, PartialEq, Eq, Structural, Debug)]
pub enum Action {
    Idle,
    Move(Location),
    Rotate(Rotation),
    Eat,
    CreateMembrane(Location),
    CopyDna(Location),
}

/// The fixed energy price of each action. Reproducing costs the newborn's
/// full energy budget plus five.
pub open spec fn spec_energy_cost(a: Action) -> int {
    match a {
        Action::Idle => 1,
        Action::Move(_) => 3,
        Action::Rotate(_) => 2,
        Action::Eat => 2,
        Action::CreateMembrane(_) => crate::simulation::INITIAL_CREATURE_ENERGY + 5,
        Action::CopyDna(_) => 10,
    }
}

impl Action {
    pub fn energy_cost(&self) -> (r: u16)
        ensures
            r == spec_energy_cost(*self),
    {
        match self {
            Action::Idle => 1,
            Action::Move(_) => 3,
            Action::Rotate(_) => 2,
            Action::Eat => 2,
            Action::CreateMembrane(_) => crate::simulation::INITIAL_CREATURE_ENERGY + 5,
            Action::CopyDna(_) => 10,
        }
    }
}

/// A directed edge between two slots of the neuron list. Sources are drawn
/// below the count of sensing neurons and destinations below the count of
/// acting neurons, and both are applied as positions in the full neuron
/// list when signals propagate.
#[derive(Clone, Copy, PartialEq, Eq, Structural, Debug)]
pub struct NeuralConnection {
    pub source: u8,
    pub destination: u8,
}

/// One neuron: either a sense (input) or an actuator wrapping an action.
#[derive(Clone, Copy, Debug)]
pub enum Neuron {
    Input(InputNeuron),
    Output(Action),
}

/// The sensing neuron kinds.
#[derive(Clone, Copy, Debug)]
pub enum InputNeuron {
    AlwaysActive,
    Random,
    Feeler(Location),
    Eye(Option<Location>, Color),
}

impl Neuron {
    /// Whether the neuron emits a signal: such a slot may serve as a
    /// connection source.
    fn has_output(&self) -> (r: bool)
        ensures
            r == (*self is Input),
    {
        match self {
            Neuron::Input(_) => true,
            Neuron::Output(_) => false,
        }
    }

    /// Whether the neuron accumulates a signal: such a slot may serve as
    /// a connection destination.
    fn has_input(&self) -> (r: bool)
        ensures
            r == (*self is Output),
    {
        match self {
            Neuron::Input(_) => false,
            Neuron::Output(_) => true,
        }
    }

    /// A uniformly drawn neuron among the ten kinds; any kind may come
    /// back, with its drawn parameters inside their ranges.
    pub fn randomize() -> (r: Self)
        ensures
            drawn_neuron_ok(r),
    {
        let neuron_type = crate::rng::random_u8_up_to(9);
        match neuron_type {
            0 => Self::Input(InputNeuron::AlwaysActive),
            1 => Self::Input(InputNeuron::Random),
            2 => {
                let location = Location::randomize();
                Self::Input(InputNeuron::Feeler(location))
            },
            3 => {
                let location = match crate::rng::random_u8_up_to(4) {
                    0 => Some(Location::InFront),
                    1 => Some(Location::Left),
                    2 => Some(Location::Right),
                    3 => Some(Location::Behind),
                    _ => None,
                };
                let color = Color::randomize();
                Self::Input(InputNeuron::Eye(location, color))
            },
            4 => Self::Output(Action::Idle),
            5 => Self::Output(Action::Eat),
            6 => {
                let location = Location::randomize();
                Self::Output(Action::Move(location))
            },
            7 => {
                let rotation = Rotation::randomize();
                Self::Output(Action::Rotate(rotation))
            },
            8 => {
                let location = Location::randomize();
                Self::Output(Action::CreateMembrane(location))
            },
            _ => {
                let location = Location::randomize();
                Self::Output(Action::CopyDna(location))
            },
        }
    }
}

/// A relative direction resolved against an absolute facing.
pub open spec fn spec_to_cardinal(l: Location, look: CardinalDirection) -> CardinalDirection {
    match (l, look) {
        (Location::InFront, cardinal) => cardinal,
        (Location::Left, CardinalDirection::North) => CardinalDirection::West,
        (Location::Left, CardinalDirection::West) => CardinalDirection::South,
        (Location::Left, CardinalDirection::South) => CardinalDirection::East,
        (Location::Left, CardinalDirection::East) => CardinalDirection::North,
        (Location::Right, CardinalDirection::North) => CardinalDirection::East,
        (Location::Right, CardinalDirection::East) => CardinalDirection::South,
        (Location::Right, CardinalDirection::South) => CardinalDirection::West,
        (Location::Right, CardinalDirection::West) => CardinalDirection::North,
        (Location::Behind, CardinalDirection::North) => CardinalDirection::South,
        (Location::Behind, CardinalDirection::South) => CardinalDirection::North,
        (Location::Behind, CardinalDirection::West) => CardinalDirection::East,
        (Location::Behind, CardinalDirection::East) => CardinalDirection::West,
    }
}

impl Location {
    pub fn to_cardinal(&self, look_direction: &CardinalDirection) -> (r: CardinalDirection)
        ensures
            r == spec_to_cardinal(*self, *look_direction),
    {
        match (self, look_direction) {
            (Location::InFront, cardinal) => *cardinal,
            (Location::Left, CardinalDirection::North) => CardinalDirection::West,
            (Location::Left, CardinalDirection::West) => CardinalDirection::South,
            (Location::Left, CardinalDirection::South) => CardinalDirection::East,
            (Location::Left, CardinalDirection::East) => CardinalDirection::North,
            (Location::Right, CardinalDirection::North) => CardinalDirection::East,
            (Location::Right, CardinalDirection::East) => CardinalDirection::South,
            (Location::Right, CardinalDirection::South) => CardinalDirection::West,
            (Location::Right, CardinalDirection::West) => CardinalDirection::North,
            (Location::Behind, CardinalDirection::North) => CardinalDirection::South,
            (Location::Behind, CardinalDirection::South) => CardinalDirection::North,
            (Location::Behind, CardinalDirection::West) => CardinalDirection::East,
            (Location::Behind, CardinalDirection::East) => CardinalDirection::West,
        }
    }

    /// A uniformly drawn relative direction; any of the four variants may
    /// come back, and the type itself is the full range of outcomes.
    pub fn randomize() -> Self {
        match crate::rng::random_u8_up_to(3) {
            0 => Location::InFront,
            1 => Location::Left,
            2 => Location::Right,
            _ => Location::Behind,
        }
    }
}

/// An immutable decision network: an ordered list of neurons and a list of
/// directed connections between their slots.
pub struct NeuralNetwork {
    pub neurons: NeuronVec,
    pub connections: ConnVec,
}

/// The neuron list of a network.
pub open spec fn nn_neurons(nn: NeuralNetwork) -> Seq<Neuron> {
    neuron_seq(nn.neurons)
}

/// The connection list of a network.
pub open spec fn nn_conns(nn: NeuralNetwork) -> Seq<NeuralConnection> {
    conn_seq(nn.connections)
}

/// Structural well-formedness: capacities respected and every connection
/// endpoint a valid slot of the neuron list.
pub open spec fn nn_wf(nn: NeuralNetwork) -> bool {
    &&& nn_neurons(nn).len() <= NEURON_CAPACITY
    &&& nn_conns(nn).len() <= CONNECTION_CAPACITY
    &&& forall|i: int|
        0 <= i < nn_conns(nn).len() ==> #[trigger] nn_conns(nn)[i].source < nn_neurons(nn).len()
            && nn_conns(nn)[i].destination < nn_neurons(nn).len()
}

/// No two connections share the same (source, destination) pair.
pub open spec fn no_duplicate_conns(cs: Seq<NeuralConnection>) -> bool {
    forall|i: int, j: int| 0 <= i < j < cs.len() ==> cs[i] != cs[j]
}

/// How many neurons of the list are senses (the sensing partition).
pub open spec fn sensing_count(ns: Seq<Neuron>) -> int
    decreases ns.len(),
{
    if ns.len() == 0 {
        0
    } else {
        sensing_count(ns.drop_last()) + if ns.last() is Input {
            1int
        } else {
            0int
        }
    }
}

/// How many neurons of the list are actuators (the acting partition).
pub open spec fn acting_count(ns: Seq<Neuron>) -> int
    decreases ns.len(),
{
    if ns.len() == 0 {
        0
    } else {
        acting_count(ns.drop_last()) + if ns.last() is Output {
            1int
        } else {
            0int
        }
    }
}

pub proof fn lemma_counts_push(ns: Seq<Neuron>, n: Neuron)
    ensures
        sensing_count(ns.push(n)) == sensing_count(ns) + (if n is Input {
            1int
        } else {
            0int
        }),
        acting_count(ns.push(n)) == acting_count(ns) + (if n is Output {
            1int
        } else {
            0int
        }),
{
    assert(ns.push(n).drop_last() =~= ns);
    assert(ns.push(n).last() == n);
}

/// A generated neuron's drawn parameters stay inside their draw ranges: an
/// eye's reference color has every channel below 255.
pub open spec fn drawn_neuron_ok(n: Neuron) -> bool {
    match n {
        Neuron::Input(InputNeuron::Eye(_, c)) => c.r <= 254 && c.g <= 254 && c.b <= 254,
        _ => true,
    }
}

/// What every network coming out of generation satisfies: well-formed, at
/// least the minimum neuron count, at least one sensing and one acting
/// neuron, drawn parameters in range, and the connection topology of
/// generation — at least one connection and at most twice the acting
/// count, deduplicated, each source drawn below the sensing count (a
/// signal-emitting slot pool) and each destination below the acting count
/// (a signal-accumulating slot pool), both later applied as positions in
/// the whole neuron list during propagation.
pub open spec fn generated_ok(nn: NeuralNetwork) -> bool {
    &&& nn_wf(nn)
    &&& MIN_GENERATED_NEURONS <= nn_neurons(nn).len()
    &&& no_duplicate_conns(nn_conns(nn))
    &&& exists|i: int| 0 <= i < nn_neurons(nn).len() && #[trigger] nn_neurons(nn)[i] is Input
    &&& exists|i: int| 0 <= i < nn_neurons(nn).len() && #[trigger] nn_neurons(nn)[i] is Output
    &&& forall|i: int| 0 <= i < nn_neurons(nn).len() ==> drawn_neuron_ok(#[trigger] nn_neurons(nn)[i])
    &&& 1 <= nn_conns(nn).len()
    &&& nn_conns(nn).len() <= 2 * acting_count(nn_neurons(nn))
    &&& forall|i: int|
        0 <= i < nn_conns(nn).len() ==> (#[trigger] nn_conns(nn)[i]).source < sensing_count(
            nn_neurons(nn),
        ) && nn_conns(nn)[i].destination < acting_count(nn_neurons(nn))
}

/// Relies on Arc::clone: a second handle to the same shared network.
#[verifier::external_body]
pub(crate) fn share_brain(b: &Arc<NeuralNetwork>) -> (r: Arc<NeuralNetwork>)
    ensures
        r == *b,
{
    Arc::clone(b)
}

/// What explicit parts must satisfy to form a network: capacities
/// respected, every endpoint a valid slot, and at least one sensing and one
/// acting neuron present.
pub open spec fn buildable(ns: Seq<Neuron>, cs: Seq<NeuralConnection>) -> bool {
    &&& ns.len() <= NEURON_CAPACITY
    &&& cs.len() <= CONNECTION_CAPACITY
    &&& forall|i: int|
        0 <= i < cs.len() ==> (#[trigger] cs[i]).source < ns.len() && cs[i].destination < ns.len()
    &&& exists|i: int| 0 <= i < ns.len() && (#[trigger] ns[i]) is Input
    &&& exists|i: int| 0 <= i < ns.len() && (#[trigger] ns[i]) is Output
}

/// Whether `v` holds a connection equal to `c`.
fn contains_connection(v: &Vec<NeuralConnection>, c: NeuralConnection) -> (r: bool)
    ensures
        r == exists|i: int| 0 <= i < v@.len() && v@[i] == c,
{
    let mut i: usize = 0;
    while i < v.len()
        invariant
            i <= v@.len(),
            forall|j: int| 0 <= j < i ==> v@[j] != c,
        decreases v@.len() - i,
    {
        if v[i] == c {
            return true;
        }
        i = i + 1;
    }
    false
}

impl NeuralNetwork {
    /// Builds a network from explicit parts; yields nothing when the parts
    /// do not satisfy `buildable`.
    pub fn new(neurons: Vec<Neuron>, connections: Vec<NeuralConnection>) -> (r: Option<
        NeuralNetwork,
    >)
        ensures
            (r is Some) == buildable(neurons@, connections@),
            r matches Some(nn) ==> nn_neurons(nn) == neurons@ && nn_conns(nn) == connections@
                && nn_wf(nn),
    {
        if neurons.len() > NEURON_CAPACITY || connections.len() > CONNECTION_CAPACITY {
            return None;
        }
        let mut has_sensing = false;
        let mut has_acting = false;
        let mut i: usize = 0;
        while i < neurons.len()
            invariant
                i <= neurons@.len(),
                has_sensing == exists|j: int| 0 <= j < i && (#[trigger] neurons@[j]) is Input,
                has_acting == exists|j: int| 0 <= j < i && (#[trigger] neurons@[j]) is Output,
            decreases neurons@.len() - i,
        {
            match neurons[i] {
                Neuron::Input(_) => {
                    has_sensing = true;
                },
                Neuron::Output(_) => {
                    has_acting = true;
                },
            }
            i = i + 1;
        }
        if !has_sensing || !has_acting {
            return None;
        }
        let mut i: usize = 0;
        while i < connections.len()
            invariant
                i <= connections@.len(),
                forall|j: int|
                    0 <= j < i ==> (#[trigger] connections@[j]).source < neurons@.len()
                        && connections@[j].destination < neurons@.len(),
            decreases connections@.len() - i,
        {
            let c = connections[i];
            if c.source as usize >= neurons.len() || c.destination as usize >= neurons.len() {
                return None;
            }
            i = i + 1;
        }
        let mut neuron_store = NeuronVec::new();
        let mut i: usize = 0;
        while i < neurons.len()
            invariant
                i <= neurons@.len(),
                neurons@.len() <= NEURON_CAPACITY,
                neuron_seq(neuron_store) == neurons@.take(i as int),
            decreases neurons@.len() - i,
        {
            neuron_store.push(neurons[i]);
            proof {
                assert(neurons@.take(i + 1) =~= neurons@.take(i as int).push(neurons@[i as int]));
            }
            i = i + 1;
        }
        let mut conn_store = ConnVec::new();
        let mut i: usize = 0;
        while i < connections.len()
            invariant
                i <= connections@.len(),
                connections@.len() <= CONNECTION_CAPACITY,
                conn_seq(conn_store) == connections@.take(i as int),
            decreases connections@.len() - i,
        {
            conn_store.push(connections[i]);
            proof {
                assert(connections@.take(i + 1) =~= connections@.take(i as int).push(
                    connections@[i as int],
                ));
            }
            i = i + 1;
        }
        proof {
            assert(neurons@.take(neurons@.len() as int) =~= neurons@);
            assert(connections@.take(connections@.len() as int) =~= connections@);
        }
        Some(NeuralNetwork { neurons: neuron_store, connections: conn_store })
    }

    /// How many neurons the network holds.
    pub fn neuron_count(&self) -> (r: usize)
        ensures
            r == nn_neurons(*self).len(),
    {
        self.neurons.len()
    }

    /// The neuron at a slot.
    pub fn neuron(&self, i: usize) -> (r: Neuron)
        requires
            i < nn_neurons(*self).len(),
        ensures
            r == nn_neurons(*self)[i as int],
    {
        self.neurons.get(i)
    }

    /// How many connections the network holds.
    pub fn connection_count(&self) -> (r: usize)
        ensures
            r == nn_conns(*self).len(),
    {
        self.connections.len()
    }

    /// The connection at a slot.
    pub fn connection(&self, i: usize) -> (r: NeuralConnection)
        requires
            i < nn_conns(*self).len(),
        ensures
            r == nn_conns(*self)[i as int],
    {
        self.connections.get(i)
    }

    /// One randomized generation attempt; yields nothing when the drawn
    /// neurons lack a sensing or an acting neuron. Connection sources are
    /// drawn from the sensing partition (the slots that emit a signal) and
    /// destinations from the acting partition (the slots that accumulate
    /// one); the number of candidates lies between the acting count and
    /// twice that count, capped at the connection capacity.
    fn attempt_randomize() -> (r: Option<NeuralNetwork>)
        ensures
            r matches Some(nn) ==> generated_ok(nn),
    {
        let neuron_count = crate::rng::random_usize_between(MIN_GENERATED_NEURONS, NEURON_CAPACITY);
        let mut neurons = NeuronVec::new();
        let mut i: usize = 0;
        while i < neuron_count
            invariant
                i <= neuron_count,
                MIN_GENERATED_NEURONS <= neuron_count <= NEURON_CAPACITY,
                neuron_seq(neurons).len() == i,
                forall|j: int| 0 <= j < i ==> drawn_neuron_ok(#[trigger] neuron_seq(neurons)[j]),
            decreases neuron_count - i,
        {
            let neuron = Neuron::randomize();
            neurons.push(neuron);
            i = i + 1;
        }
        // The two slot pools: senses serve as connection sources, actuators
        // as connection destinations.
        let mut sensing_pool: Vec<usize> = Vec::new();
        let mut acting_pool: Vec<usize> = Vec::new();
        let mut i: usize = 0;
        while i < neurons.len()
            invariant
                i <= neuron_seq(neurons).len(),
                neuron_seq(neurons).len() == neuron_count,
                neuron_count <= NEURON_CAPACITY,
                sensing_pool@.len() <= i,
                acting_pool@.len() <= i,
                sensing_pool@.len() == sensing_count(neuron_seq(neurons).take(i as int)),
                acting_pool@.len() == acting_count(neuron_seq(neurons).take(i as int)),
                forall|k: int|
                    0 <= k < sensing_pool@.len() ==> #[trigger] sensing_pool@[k] < neuron_count
                        && neuron_seq(neurons)[sensing_pool@[k] as int] is Input,
                forall|k: int|
                    0 <= k < acting_pool@.len() ==> #[trigger] acting_pool@[k] < neuron_count
                        && neuron_seq(neurons)[acting_pool@[k] as int] is Output,
            decreases neuron_seq(neurons).len() - i,
        {
            proof {
                assert(neuron_seq(neurons).take(i + 1).drop_last() =~= neuron_seq(neurons).take(
                    i as int,
                ));
                assert(neuron_seq(neurons).take(i + 1).last() == neuron_seq(neurons)[i as int]);
            }
            let neuron = neurons.get(i);
            if neuron.has_output() {
                sensing_pool.push(i);
            }
            if neuron.has_input() {
                acting_pool.push(i);
            }
            i = i + 1;
        }
        proof {
            assert(neuron_seq(neurons).take(neuron_count as int) =~= neuron_seq(neurons));
        }
        if sensing_pool.len() == 0 || acting_pool.len() == 0 {
            return None;
        }
        let min_tries = acting_pool.len();
        let doubled = acting_pool.len() * 2;
        let upper = if doubled < CONNECTION_CAPACITY {
            doubled
        } else {
            CONNECTION_CAPACITY
        };
        let tries = crate::rng::random_usize_between(min_tries, upper);
        let mut conns: Vec<NeuralConnection> = Vec::new();
        let mut t: usize = 0;
        while t < tries
            invariant
                t <= tries,
                1 <= tries <= CONNECTION_CAPACITY,
                tries <= 2 * acting_pool@.len(),
                conns@.len() <= t,
                t >= 1 ==> conns@.len() >= 1,
                sensing_pool@.len() >= 1,
                acting_pool@.len() >= 1,
                sensing_pool@.len() <= neuron_count,
                acting_pool@.len() <= neuron_count,
                neuron_count <= NEURON_CAPACITY,
                no_duplicate_conns(conns@),
                forall|k: int|
                    0 <= k < conns@.len() ==> (#[trigger] conns@[k]).source < sensing_pool@.len()
                        && conns@[k].destination < acting_pool@.len(),
                forall|k: int|
                    0 <= k < sensing_pool@.len() ==> #[trigger] sensing_pool@[k] < neuron_count
                        && neuron_seq(neurons)[sensing_pool@[k] as int] is Input,
                forall|k: int|
                    0 <= k < acting_pool@.len() ==> #[trigger] acting_pool@[k] < neuron_count
                        && neuron_seq(neurons)[acting_pool@[k] as int] is Output,
            decreases tries - t,
        {
            t = t + 1;
            let s_idx = crate::rng::random_u8_up_to((sensing_pool.len() - 1) as u8);
            let d_idx = crate::rng::random_u8_up_to((acting_pool.len() - 1) as u8);
            if sensing_pool[s_idx as usize] == acting_pool[d_idx as usize] {
                // A self-referential pair is discarded. A slot holds either
                // a sense or an actuator, so the pools are disjoint and the
                // skip can in fact never fire.
                proof {
                    assert(neuron_seq(neurons)[sensing_pool@[s_idx as int] as int] is Input);
                    assert(neuron_seq(neurons)[acting_pool@[d_idx as int] as int] is Output);
                }
                continue;
            }
            let candidate = NeuralConnection { source: s_idx, destination: d_idx };
            if !contains_connection(&conns, candidate) {
                conns.push(candidate);
            }
        }
        let mut conn_store = ConnVec::new();
        let mut k: usize = 0;
        while k < conns.len()
            invariant
                k <= conns@.len(),
                conns@.len() <= CONNECTION_CAPACITY,
                conn_seq(conn_store) == conns@.take(k as int),
            decreases conns@.len() - k,
        {
            conn_store.push(conns[k]);
            proof {
                assert(conns@.take(k + 1) =~= conns@.take(k as int).push(conns@[k as int]));
            }
            k = k + 1;
        }
        proof {
            assert(conns@.take(conns@.len() as int) =~= conns@);
        }
        let nn = NeuralNetwork { neurons, connections: conn_store };
        proof {
            assert(nn_neurons(nn)[sensing_pool@[0] as int] is Input);
            assert(nn_neurons(nn)[acting_pool@[0] as int] is Output);
        }
        Some(nn)
    }

    /// The smallest network inside the generation outcome set: three
    /// always-active senses, three idle actuators, and one connection from
    /// the first sense into the first slot.
    fn minimal_network() -> (r: NeuralNetwork)
        ensures
            generated_ok(r),
    {
        let mut neurons = NeuronVec::new();
        neurons.push(Neuron::Input(InputNeuron::AlwaysActive));
        neurons.push(Neuron::Input(InputNeuron::AlwaysActive));
        neurons.push(Neuron::Input(InputNeuron::AlwaysActive));
        neurons.push(Neuron::Output(Action::Idle));
        neurons.push(Neuron::Output(Action::Idle));
        neurons.push(Neuron::Output(Action::Idle));
        let mut connections = ConnVec::new();
        connections.push(NeuralConnection { source: 0, destination: 0 });
        let nn = NeuralNetwork { neurons, connections };
        proof {
            let ns = nn_neurons(nn);
            let s0 = Seq::<Neuron>::empty();
            let s1 = s0.push(Neuron::Input(InputNeuron::AlwaysActive));
            let s2 = s1.push(Neuron::Input(InputNeuron::AlwaysActive));
            let s3 = s2.push(Neuron::Input(InputNeuron::AlwaysActive));
            let s4 = s3.push(Neuron::Output(Action::Idle));
            let s5 = s4.push(Neuron::Output(Action::Idle));
            lemma_counts_push(s0, Neuron::Input(InputNeuron::AlwaysActive));
            lemma_counts_push(s1, Neuron::Input(InputNeuron::AlwaysActive));
            lemma_counts_push(s2, Neuron::Input(InputNeuron::AlwaysActive));
            lemma_counts_push(s3, Neuron::Output(Action::Idle));
            lemma_counts_push(s4, Neuron::Output(Action::Idle));
            lemma_counts_push(s5, Neuron::Output(Action::Idle));
            assert(sensing_count(ns) == 3);
            assert(acting_count(ns) == 3);
            assert(ns[0] is Input);
            assert(ns[3] is Output);
            assert forall|i: int| 0 <= i < ns.len() implies drawn_neuron_ok(#[trigger] ns[i]) by {
                assert(ns[i] == s5.push(Neuron::Output(Action::Idle))[i]);
            }
        }
        nn
    }

    /// A randomly generated network: neuron kinds and connections drawn at
    /// random, regenerated from scratch until both a sensing and an acting
    /// neuron are present. The retry loop has a generous attempt budget;
    /// if the budget is ever exhausted, the smallest network of the
    /// generation outcome set is returned instead.
    pub fn randomize() -> (r: NeuralNetwork)
        ensures
            generated_ok(r),
    {
        let mut attempts: u32 = 0;
        while attempts < 1000000
            invariant
                true,
            decreases 1000000 - attempts,
        {
            match Self::attempt_randomize() {
                Some(nn) => {
                    return nn;
                },
                None => {},
            }
            attempts = attempts + 1;
        }
        Self::minimal_network()
    }
}

/// The scalar state of one neuron during a tick: the signal accumulated on
/// its input side and the signal it emits.
#[derive(Clone, Copy, Debug)]
pub struct NeuronValue {
    pub input: u64,
    pub output: u64,
}

/// The working state of one evaluation pass: one value slot per neuron.
pub struct NeuralTick {
    pub neuron_states: Vec<NeuronValue>,
}

/// The emitted signals of a pass, one per neuron.
pub open spec fn outputs_of(t: NeuralTick) -> Seq<u64> {
    t.neuron_states@.map(|i: int, v: NeuronValue| v.output)
}

/// What the seeded output of one neuron may be: a full signal for an active
/// sense, silence for an inactive one, any sub-unit draw for a random
/// sense, and silence for every actuator.
pub open spec fn seed_value_ok(
    n: Neuron,
    me: Creature,
    p: Position,
    w: WorldView,
    v: u64,
) -> bool {
    match n {
        Neuron::Input(inp) => match inp {
            InputNeuron::AlwaysActive => v == SIGNAL_UNIT,
            InputNeuron::Random => v < SIGNAL_UNIT,
            InputNeuron::Feeler(loc) => v == (if occ_has(w, spec_relative_position(me, p, loc)) {
                SIGNAL_UNIT
            } else {
                0u64
            }),
            InputNeuron::Eye(look, color) => {
                let lp = match look {
                    Some(l) => spec_relative_position(me, p, l),
                    None => p,
                };
                v == (if spec_in_bounds(w, lp) && spec_dominates(
                    spec_tile_color(spec_tile_at(w, lp)),
                    color,
                ) {
                    SIGNAL_UNIT
                } else {
                    0u64
                })
            },
        },
        Neuron::Output(_) => v == 0,
    }
}

/// What a whole seeding pass may produce for a creature at a position.
pub open spec fn seed_ok(
    nn: NeuralNetwork,
    me: Creature,
    p: Position,
    w: WorldView,
    outs: Seq<u64>,
) -> bool {
    &&& outs.len() == nn_neurons(nn).len()
    &&& forall|i: int|
        0 <= i < outs.len() ==> #[trigger] seed_value_ok(nn_neurons(nn)[i], me, p, w, outs[i])
}

/// The accumulated input of every neuron after the connections in `cs` have
/// each carried their source's output once, in order.
pub open spec fn propagate(cs: Seq<NeuralConnection>, outs: Seq<u64>) -> Seq<int>
    decreases cs.len(),
{
    if cs.len() == 0 {
        Seq::new(outs.len(), |i: int| 0int)
    } else {
        let prev = propagate(cs.drop_last(), outs);
        let c = cs.last();
        prev.update(c.destination as int, prev[c.destination as int] + outs[c.source as int])
    }
}

pub proof fn lemma_propagate_bounds(cs: Seq<NeuralConnection>, outs: Seq<u64>)
    requires
        forall|i: int| 0 <= i < outs.len() ==> #[trigger] outs[i] <= SIGNAL_UNIT,
        forall|i: int|
            0 <= i < cs.len() ==> (#[trigger] cs[i]).source < outs.len() && cs[i].destination
                < outs.len(),
    ensures
        propagate(cs, outs).len() == outs.len(),
        forall|k: int|
            0 <= k < outs.len() ==> 0 <= #[trigger] propagate(cs, outs)[k] <= cs.len()
                * SIGNAL_UNIT,
    decreases cs.len(),
{
    if cs.len() == 0 {
    } else {
        lemma_propagate_bounds(cs.drop_last(), outs);
        assert((cs.len() - 1) * SIGNAL_UNIT + SIGNAL_UNIT == cs.len() * SIGNAL_UNIT)
            by (nonlinear_arith);
        assert((cs.len() - 1) * SIGNAL_UNIT <= cs.len() * SIGNAL_UNIT) by (nonlinear_arith);
    }
}

/// The chosen action, scanning neurons from slot `i` with the best action
/// and impulse seen so far: an actuator with a strictly larger accumulated
/// input takes over; ties keep the earlier winner.
pub open spec fn decide_from(
    ns: Seq<Neuron>,
    ins: Seq<int>,
    i: int,
    best: Action,
    imp: int,
) -> Action
    decreases ns.len() - i,
{
    if i < 0 || i >= ns.len() {
        best
    } else {
        match ns[i] {
            Neuron::Output(a) => if ins[i] > imp {
                decide_from(ns, ins, i + 1, a, ins[i])
            } else {
                decide_from(ns, ins, i + 1, best, imp)
            },
            Neuron::Input(_) => decide_from(ns, ins, i + 1, best, imp),
        }
    }
}

/// The action a network chooses given every neuron's accumulated input:
/// the actuator with the strictly largest positive input, earliest slot
/// first; idle when no actuator received a positive input.
pub open spec fn decide_spec(ns: Seq<Neuron>, ins: Seq<int>) -> Action {
    decide_from(ns, ins, 0, Action::Idle, 0)
}

/// What an evaluated action may be for a creature at a position: some valid
/// seeding exists whose decision is that action; brainless creatures always
/// idle.
pub open spec fn decision_ok(w: WorldView, p: Position, me: Creature, a: Action) -> bool {
    match me.brain {
        Some(nn) => exists|outs: Seq<u64>|
            #[trigger] seed_ok(*nn, me, p, w, outs) && a == decide_spec(
                nn_neurons(*nn),
                propagate(nn_conns(*nn), outs),
            ),
        None => a == Action::Idle,
    }
}

impl NeuralTick {
    /// Seeds every sensing neuron's output from the world as it stands, and
    /// every actuator's to silence.
    pub fn seed(net: &NeuralNetwork, me: &Creature, position: &Position, world: &World) -> (r:
        NeuralTick)
        requires
            nn_wf(*net),
            wf(world@),
        ensures
            r.neuron_states@.len() == nn_neurons(*net).len(),
            forall|i: int|
                0 <= i < r.neuron_states@.len() ==> (#[trigger] r.neuron_states@[i]).input == 0
                    && r.neuron_states@[i].output <= SIGNAL_UNIT,
            seed_ok(*net, *me, *position, world@, outputs_of(r)),
    {
        let n = net.neurons.len();
        let mut neuron_states: Vec<NeuronValue> = Vec::new();
        let mut i: usize = 0;
        while i < n
            invariant
                i <= n,
                n == nn_neurons(*net).len(),
                nn_wf(*net),
                wf(world@),
                neuron_states@.len() == i,
                forall|j: int|
                    0 <= j < i ==> (#[trigger] neuron_states@[j]).input == 0
                        && neuron_states@[j].output <= SIGNAL_UNIT,
                forall|j: int|
                    0 <= j < i ==> #[trigger] seed_value_ok(
                        nn_neurons(*net)[j],
                        *me,
                        *position,
                        world@,
                        neuron_states@[j].output,
                    ),
            decreases n - i,
        {
            let neuron = net.neurons.get(i);
            let initial_output: u64 = match neuron {
                Neuron::Input(input_neuron) => match input_neuron {
                    InputNeuron::AlwaysActive => SIGNAL_UNIT,
                    InputNeuron::Random => crate::rng::random_u64_below(SIGNAL_UNIT),
                    InputNeuron::Feeler(feel_location) => {
                        let feel_position = me.relative_position(position, feel_location);
                        if world.contains_creature(&feel_position) {
                            SIGNAL_UNIT
                        } else {
                            0
                        }
                    },
                    InputNeuron::Eye(look_location, color) => {
                        let look_position = match look_location {
                            Some(location) => me.relative_position(position, location),
                            None => *position,
                        };
                        match world.get_tile(&look_position) {
                            Some(tile) => if tile.color().dominates(&color) {
                                SIGNAL_UNIT
                            } else {
                                0
                            },
                            None => 0,
                        }
                    },
                },
                Neuron::Output(_action) => 0,
            };
            neuron_states.push(NeuronValue { input: 0, output: initial_output });
            i = i + 1;
        }
        NeuralTick { neuron_states }
    }

    /// Propagates every connection once, then picks the actuator with the
    /// strictly largest accumulated input (earliest slot on ties; idle when
    /// none is positive).
    pub fn calculate_action(&mut self, net: &NeuralNetwork) -> (action: Action)
        requires
            nn_wf(*net),
            old(self).neuron_states@.len() == nn_neurons(*net).len(),
            forall|i: int|
                0 <= i < old(self).neuron_states@.len() ==> (#[trigger] old(
                    self,
                ).neuron_states@[i]).input == 0 && old(self).neuron_states@[i].output
                    <= SIGNAL_UNIT,
        ensures
            action == decide_spec(
                nn_neurons(*net),
                propagate(nn_conns(*net), outputs_of(*old(self))),
            ),
            final(self).neuron_states@.len() == old(self).neuron_states@.len(),
            forall|k: int|
                0 <= k < old(self).neuron_states@.len() ==> (#[trigger] final(self).neuron_states@[k]).input as int == propagate(
                    nn_conns(*net),
                    outputs_of(*old(self)),
                )[k] && final(self).neuron_states@[k].output == old(self).neuron_states@[k].output,
    {
        let ghost outs = outputs_of(*old(self));
        let ghost all_conns = nn_conns(*net);
        let m = net.connections.len();
        let mut j: usize = 0;
        proof {
            assert(all_conns.take(0) =~= Seq::<NeuralConnection>::empty());
        }
        while j < m
            invariant
                j <= m,
                m == all_conns.len(),
                all_conns == nn_conns(*net),
                nn_wf(*net),
                outs.len() == nn_neurons(*net).len(),
                self.neuron_states@.len() == outs.len(),
                forall|i: int| 0 <= i < outs.len() ==> #[trigger] outs[i] <= SIGNAL_UNIT,
                forall|i: int|
                    0 <= i < outs.len() ==> (#[trigger] self.neuron_states@[i]).output == outs[i],
                forall|i: int|
                    0 <= i < outs.len() ==> (#[trigger] self.neuron_states@[i]).input as int
                        == propagate(all_conns.take(j as int), outs)[i],
            decreases m - j,
        {
            let connection = net.connections.get(j);
            proof {
                lemma_propagate_bounds(all_conns.take(j as int), outs);
                assert(all_conns.take(j as int).len() * SIGNAL_UNIT <= 16 * SIGNAL_UNIT)
                    by (nonlinear_arith)
                    requires
                        0 <= all_conns.take(j as int).len() <= 16,
                ;
                assert(all_conns.take(j + 1).drop_last() =~= all_conns.take(j as int));
            }
            let source_value = self.neuron_states[connection.source as usize].output;
            let destination = connection.destination as usize;
            let current = self.neuron_states[destination];
            self.neuron_states[destination] = NeuronValue {
                input: current.input + source_value,
                output: current.output,
            };
            j = j + 1;
        }
        proof {
            assert(all_conns.take(m as int) =~= all_conns);
            lemma_propagate_bounds(all_conns, outs);
        }
        let ghost ins = propagate(all_conns, outs);
        let ghost all_neurons = nn_neurons(*net);
        let mut action = Action::Idle;
        let mut action_impulse: u64 = 0;
        let count = self.neuron_states.len();
        let mut i: usize = 0;
        while i < count
            invariant
                i <= count,
                count == all_neurons.len(),
                all_neurons == nn_neurons(*net),
                ins == propagate(nn_conns(*net), outs),
                ins.len() == count,
                self.neuron_states@.len() == count,
                forall|k: int|
                    0 <= k < count ==> (#[trigger] self.neuron_states@[k]).input as int == ins[k],
                forall|k: int|
                    0 <= k < count ==> (#[trigger] self.neuron_states@[k]).output == outs[k],
                outs == outputs_of(*old(self)),
                decide_from(all_neurons, ins, i as int, action, action_impulse as int)
                    == decide_spec(all_neurons, ins),
            decreases count - i,
        {
            match net.neurons.get(i) {
                Neuron::Input(_) => {},
                Neuron::Output(neuron_action) => {
                    let neuron_impulse = self.neuron_states[i].input;
                    if neuron_impulse > action_impulse {
                        action = neuron_action;
                        action_impulse = neuron_impulse;
                    }
                },
            }
            i = i + 1;
        }
        action
    }
}

/// Whether the network has no random sense: its seeded outputs are then a
/// function of the creature, its position and the world alone.
pub open spec fn no_random(nn: NeuralNetwork) -> bool {
    forall|i: int|
        0 <= i < nn_neurons(nn).len() ==> !((#[trigger] nn_neurons(nn)[i]) matches Neuron::Input(
            InputNeuron::Random,
        ))
}

/// Decision determinism given fixed inputs: a network without a random
/// sense seeds identically on every evaluation, so the decided action is
/// the same.
pub proof fn lemma_seed_deterministic(
    nn: NeuralNetwork,
    me: Creature,
    p: Position,
    w: WorldView,
    o1: Seq<u64>,
    o2: Seq<u64>,
)
    requires
        no_random(nn),
        seed_ok(nn, me, p, w, o1),
        seed_ok(nn, me, p, w, o2),
    ensures
        o1 == o2,
        decide_spec(nn_neurons(nn), propagate(nn_conns(nn), o1)) == decide_spec(
            nn_neurons(nn),
            propagate(nn_conns(nn), o2),
        ),
{
    assert forall|i: int| 0 <= i < o1.len() implies #[trigger] o1[i] == o2[i] by {
        assert(seed_value_ok(nn_neurons(nn)[i], me, p, w, o1[i]));
        assert(seed_value_ok(nn_neurons(nn)[i], me, p, w, o2[i]));
    }
    assert(o1 =~= o2);
}

/// Decision determinism at the evaluation interface: for a creature whose
/// brain has no random sense, any two evaluated actions against the same
/// world agree.
pub proof fn lemma_decision_deterministic(
    w: WorldView,
    p: Position,
    me: Creature,
    a1: Action,
    a2: Action,
)
    requires
        me.brain matches Some(b) && no_random(*b),
        decision_ok(w, p, me, a1),
        decision_ok(w, p, me, a2),
    ensures
        a1 == a2,
{
    let ghost nn = brain_value(me);
    let o1 = choose|outs: Seq<u64>|
        #[trigger] seed_ok(nn, me, p, w, outs) && a1 == decide_spec(
            nn_neurons(nn),
            propagate(nn_conns(nn), outs),
        );
    let o2 = choose|outs: Seq<u64>|
        #[trigger] seed_ok(nn, me, p, w, outs) && a2 == decide_spec(
            nn_neurons(nn),
            propagate(nn_conns(nn), outs),
        );
    lemma_seed_deterministic(nn, me, p, w, o1, o2);
}

/// The network behind a creature's brain handle.
pub open spec fn brain_value(me: Creature) -> NeuralNetwork {
    *me.brain->Some_0
}

/// Evaluates one creature against a read-only view of the world: seed, one
/// propagation pass, one decision. Brainless creatures idle.
pub fn decide_creature(world: &World, position: &Position, me: &Creature) -> (action: Action)
    requires
        wf(world@),
        creature_ok(*me),
    ensures
        decision_ok(world@, *position, *me, action),
{
    match &me.brain {
        Some(brain) => {
            let mut neural_tick = NeuralTick::seed(&**brain, me, position, world);
            let ghost outs = outputs_of(neural_tick);
            let action = neural_tick.calculate_action(&**brain);
            proof {
                assert(seed_ok(**brain, *me, *position, world@, outs) && action == decide_spec(
                    nn_neurons(**brain),
                    propagate(nn_conns(**brain), outs),
                ));
            }
            action
        },
        None => Action::Idle,
    }
}

} // verus!

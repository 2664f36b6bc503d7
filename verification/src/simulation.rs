//! The spatial world: positions, tiles, colors, creatures, and the world
//! itself with its four-phase tick.

use std::io::Write;
use std::sync::Arc;

use rayon::iter::IntoParallelRefIterator;
use rayon::iter::ParallelIterator;

use vstd::prelude::*;

use crate::neural_network::{Action, Location, NeuralNetwork, Rotation};
use crate::neural_network::{nn_wf, spec_energy_cost, spec_to_cardinal};

verus! {

/// Energy a creature holds right after it is created.
pub const INITIAL_CREATURE_ENERGY: u16 = 100;

/// A cell coordinate. Arithmetic on positions saturates at the ends of the
/// `usize` range instead of wrapping.
#[derive(Clone, Copy, PartialEq, Eq, Structural, Debug)]
pub struct Position {
    pub x: usize,
    pub y: usize,
}

pub open spec fn sat_sub_usize(a: usize, b: usize) -> usize {
    if a >= b {
        (a - b) as usize
    } else {
        0
    }
}

pub open spec fn sat_add_usize(a: usize, b: usize) -> usize {
    if a + b > usize::MAX {
        usize::MAX
    } else {
        (a + b) as usize
    }
}

pub open spec fn spec_step(p: Position, d: CardinalDirection, amount: usize) -> Position {
    match d {
        CardinalDirection::North => (Position { x: p.x, y: sat_sub_usize(p.y, amount) }),
        CardinalDirection::South => (Position { x: p.x, y: sat_add_usize(p.y, amount) }),
        CardinalDirection::East => (Position { x: sat_add_usize(p.x, amount), y: p.y }),
        CardinalDirection::West => (Position { x: sat_sub_usize(p.x, amount), y: p.y }),
    }
}

impl Position {
    fn north(&self, amount: usize) -> (r: Self)
        ensures
            r == spec_step(*self, CardinalDirection::North, amount),
    {
        Self { x: self.x, y: self.y.saturating_sub(amount) }
    }

    fn south(&self, amount: usize) -> (r: Self)
        ensures
            r == spec_step(*self, CardinalDirection::South, amount),
    {
        Self { x: self.x, y: self.y.saturating_add(amount) }
    }

    fn east(&self, amount: usize) -> (r: Self)
        ensures
            r == spec_step(*self, CardinalDirection::East, amount),
    {
        Self { x: self.x.saturating_add(amount), y: self.y }
    }

    fn west(&self, amount: usize) -> (r: Self)
        ensures
            r == spec_step(*self, CardinalDirection::West, amount),
    {
        Self { x: self.x.saturating_sub(amount), y: self.y }
    }

    /// One or more cells away in an absolute direction, saturating at the
    /// edges of the coordinate space.
    pub fn cardinal(&self, location: CardinalDirection, amount: usize) -> (r: Self)
        ensures
            r == spec_step(*self, location, amount),
    {
        match location {
            CardinalDirection::North => self.north(amount),
            CardinalDirection::South => self.south(amount),
            CardinalDirection::East => self.east(amount),
            CardinalDirection::West => self.west(amount),
        }
    }

    /// A uniformly drawn position inside a `width` by `height` grid.
    pub fn randomize(width: usize, height: usize) -> (r: Self)
        requires
            width >= 1,
            height >= 1,
        ensures
            r.x < width,
            r.y < height,
    {
        Self {
            x: crate::rng::random_usize_between(0, width - 1),
            y: crate::rng::random_usize_between(0, height - 1),
        }
    }
}

/// One of the four absolute directions a creature can face.
#[derive(Clone, Copy, PartialEq, Eq, Structural, Debug)]
pub enum CardinalDirection {
    North,
    East,
    South,
    West,
}

pub open spec fn spec_rotate(d: CardinalDirection, rotation: Rotation) -> CardinalDirection {
    match rotation {
        Rotation::Clockwise => match d {
            CardinalDirection::North => CardinalDirection::East,
            CardinalDirection::East => CardinalDirection::South,
            CardinalDirection::South => CardinalDirection::West,
            CardinalDirection::West => CardinalDirection::North,
        },
        Rotation::CounterClockwise => match d {
            CardinalDirection::North => CardinalDirection::West,
            CardinalDirection::East => CardinalDirection::North,
            CardinalDirection::South => CardinalDirection::East,
            CardinalDirection::West => CardinalDirection::South,
        },
    }
}

impl CardinalDirection {
    /// Turn a quarter circle in the given sense.
    pub fn rotate(&mut self, rotation: Rotation)
        ensures
            *final(self) == spec_rotate(*old(self), rotation),
    {
        match rotation {
            Rotation::Clockwise => {
                *self = match self {
                    CardinalDirection::North => CardinalDirection::East,
                    CardinalDirection::East => CardinalDirection::South,
                    CardinalDirection::South => CardinalDirection::West,
                    CardinalDirection::West => CardinalDirection::North,
                };
            },
            Rotation::CounterClockwise => {
                *self = match self {
                    CardinalDirection::North => CardinalDirection::West,
                    CardinalDirection::East => CardinalDirection::North,
                    CardinalDirection::South => CardinalDirection::East,
                    CardinalDirection::West => CardinalDirection::South,
                };
            },
        }
    }

    /// A uniformly drawn facing; any of the four variants may come back,
    /// and the type itself is the full range of outcomes.
    pub fn randomize() -> CardinalDirection {
        match crate::rng::random_u8_up_to(3) {
            0 => CardinalDirection::North,
            1 => CardinalDirection::East,
            2 => CardinalDirection::South,
            _ => CardinalDirection::West,
        }
    }
}

/// A three-channel color value.
#[derive(Clone, Copy, PartialEq, Eq, Structural, Debug)]
pub struct Color {
    pub r: u8,
    pub g: u8,
    pub b: u8,
}

/// The strict partial order on colors: `a` dominates `b` only when every
/// channel of `a` is strictly greater than the matching channel of `b`.
pub open spec fn spec_dominates(a: Color, b: Color) -> bool {
    a.r > b.r && a.g > b.g && a.b > b.b
}

impl Color {
    pub fn new(r: u8, g: u8, b: u8) -> (c: Color)
        ensures
            c == (Color { r, g, b }),
    {
        Color { r, g, b }
    }

    /// Whether this color strictly dominates `other` on every channel.
    pub fn dominates(&self, other: &Color) -> (res: bool)
        ensures
            res == spec_dominates(*self, *other),
    {
        self.r > other.r && self.g > other.g && self.b > other.b
    }

    /// A color with uniformly drawn channels, each below 255.
    pub fn randomize() -> (c: Color)
        ensures
            c.r <= 254,
            c.g <= 254,
            c.b <= 254,
    {
        Color {
            r: crate::rng::random_u8_up_to(254),
            g: crate::rng::random_u8_up_to(254),
            b: crate::rng::random_u8_up_to(254),
        }
    }

    /// The color as an RGBA byte quadruple with full opacity.
    pub fn to_u8(&self) -> (r: [u8; 4])
        ensures
            r@ == seq![self.r, self.g, self.b, 255u8],
    {
        let bytes = [self.r, self.g, self.b, 255];
        proof {
            assert(bytes@ =~= seq![self.r, self.g, self.b, 255u8]);
        }
        bytes
    }
}

/// The static and dynamic state of one grid cell: walkable ground with a
/// food flag, or lava that nothing may enter.
#[derive(Clone, Copy, Debug)]
pub enum Tile {
    Ground(AccessableTileData),
    Lava,
}

/// The mutable data of a walkable tile.
#[derive(Clone, Copy, Debug)]
pub struct AccessableTileData {
    pub food_1: bool,
}

impl AccessableTileData {
    /// A fresh walkable tile, stocked with food.
    pub fn default() -> (r: Self)
        ensures
            r == (AccessableTileData { food_1: true }),
    {
        AccessableTileData { food_1: true }
    }

    pub fn color(&self) -> (c: Color)
        ensures
            c == spec_tile_data_color(*self),
    {
        if self.food_1 {
            Color { r: 0, g: 255, b: 0 }
        } else {
            Color { r: 0, g: 0, b: 0 }
        }
    }
}

pub open spec fn spec_tile_data_color(data: AccessableTileData) -> Color {
    if data.food_1 {
        Color { r: 0, g: 255, b: 0 }
    } else {
        Color { r: 0, g: 0, b: 0 }
    }
}

pub open spec fn spec_tile_color(t: Tile) -> Color {
    match t {
        Tile::Ground(data) => spec_tile_data_color(data),
        Tile::Lava => Color { r: 255, g: 128, b: 0 },
    }
}

/// Whether a creature may stand on the tile.
pub open spec fn spec_passable(t: Tile) -> bool {
    t is Ground
}

/// Whether the tile is ground that currently carries food.
pub open spec fn spec_has_food(t: Tile) -> bool {
    match t {
        Tile::Ground(data) => data.food_1,
        Tile::Lava => false,
    }
}

impl Tile {
    /// The tile the interior of a fresh world is filled with.
    pub fn default() -> (r: Self)
        ensures
            r == Tile::Ground(AccessableTileData { food_1: true }),
    {
        Tile::Ground(AccessableTileData::default())
    }

    pub fn can_contain_creature(&self) -> (r: bool)
        ensures
            r == spec_passable(*self),
    {
        match self {
            Tile::Ground(_) => true,
            Tile::Lava => false,
        }
    }

    pub fn has_food(&self) -> (r: bool)
        ensures
            r == spec_has_food(*self),
    {
        match self {
            Tile::Ground(data) => data.food_1,
            Tile::Lava => false,
        }
    }

    pub fn color(&self) -> (c: Color)
        ensures
            c == spec_tile_color(*self),
    {
        match self {
            Tile::Ground(data) => data.color(),
            Tile::Lava => Color { r: 255, g: 128, b: 0 },
        }
    }
}

/// One agent: its energy, facing, optional brain, birth tick and offspring
/// count.
pub struct Creature {
    pub born: u64,
    pub energy: u16,
    pub rotation: CardinalDirection,
    pub brain: Option<Arc<NeuralNetwork>>,
    pub offspring: u64,
}

/// A creature is valid when its brain, if present, is a well-formed network.
pub open spec fn creature_ok(c: Creature) -> bool {
    match c.brain {
        Some(b) => nn_wf(*b),
        None => true,
    }
}

/// The cell one step away from `position` in the relative direction
/// `location`, resolved against the creature's facing.
pub open spec fn spec_relative_position(c: Creature, position: Position, location: Location) -> Position {
    spec_step(position, spec_to_cardinal(location, c.rotation), 1)
}

impl Creature {
    /// A newborn creature with the initial energy budget.
    pub fn new(born: u64, rotation: CardinalDirection, brain: Option<Arc<NeuralNetwork>>) -> (c: Self)
        ensures
            c == (Creature {
                born,
                energy: INITIAL_CREATURE_ENERGY,
                rotation,
                brain,
                offspring: 0u64,
            }),
    {
        Creature { born, energy: INITIAL_CREATURE_ENERGY, rotation, brain, offspring: 0 }
    }

    /// The same creature with a chosen energy level.
    pub fn with_energy(self, energy: u16) -> (c: Self)
        ensures
            c == (Creature { energy, ..self }),
    {
        Creature { energy, ..self }
    }

    /// An equal creature whose brain handle shares the same network.
    pub fn duplicate(&self) -> (c: Self)
        ensures
            c == *self,
    {
        let brain = match &self.brain {
            Some(b) => Some(crate::neural_network::share_brain(b)),
            None => None,
        };
        Creature {
            born: self.born,
            energy: self.energy,
            rotation: self.rotation,
            brain,
            offspring: self.offspring,
        }
    }

    /// The cell one step away in the given relative direction.
    pub fn relative_position(&self, position: &Position, location: Location) -> (r: Position)
        ensures
            r == spec_relative_position(*self, *position, location),
    {
        let cardinal = location.to_cardinal(&self.rotation);
        position.cardinal(cardinal, 1)
    }

    pub fn energy(&self) -> (r: u16)
        ensures
            r == self.energy,
    {
        self.energy
    }

    pub fn offspring(&self) -> (r: u64)
        ensures
            r == self.offspring,
    {
        self.offspring
    }

    pub fn born(&self) -> (r: u64)
        ensures
            r == self.born,
    {
        self.born
    }

    pub fn rotation(&self) -> (r: CardinalDirection)
        ensures
            r == self.rotation,
    {
        self.rotation
    }

    pub fn has_brain(&self) -> (r: bool)
        ensures
            r == (self.brain is Some),
    {
        match &self.brain {
            Some(_) => true,
            None => false,
        }
    }
}

/// Per-tick regeneration budgets: how many food placements and how many
/// fresh creatures are attempted each tick.
#[derive(Clone, Copy, Debug)]
pub struct WorldSettings {
    pub food_regen_rate: u16,
    pub creature_generation_rate: u16,
}

/// The world: a dense row-major tile grid, a sparse occupancy list from
/// positions to creatures, a tick counter and the regeneration settings.
pub struct World {
    width: usize,
    height: usize,
    tiles: Vec<Tile>,
    creatures: Vec<(Position, Creature)>,
    current_tick: u64,
    settings: WorldSettings,
}

/// The mathematical state of a world.
#[verifier::ext_equal]
pub ghost struct WorldView {
    pub width: int,
    pub height: int,
    pub tiles: Seq<Tile>,
    pub occ: Seq<(Position, Creature)>,
    pub tick: int,
    pub food_regen_rate: int,
    pub creature_generation_rate: int,
}

impl View for World {
    type V = WorldView;

    closed spec fn view(&self) -> WorldView {
        WorldView {
            width: self.width as int,
            height: self.height as int,
            tiles: self.tiles@,
            occ: self.creatures@,
            tick: self.current_tick as int,
            food_regen_rate: self.settings.food_regen_rate as int,
            creature_generation_rate: self.settings.creature_generation_rate as int,
        }
    }
}

pub open spec fn spec_in_bounds(w: WorldView, p: Position) -> bool {
    p.x < w.width && p.y < w.height
}

/// Row-major index of a position in the tile array.
pub open spec fn tile_index(w: WorldView, p: Position) -> int {
    p.y * w.width + p.x
}

pub open spec fn spec_tile_at(w: WorldView, p: Position) -> Tile {
    w.tiles[tile_index(w, p)]
}

/// Whether some entry of the occupancy list has key `p`.
pub open spec fn keys_has(occ: Seq<(Position, Creature)>, p: Position) -> bool {
    exists|i: int| 0 <= i < occ.len() && (#[trigger] occ[i]).0 == p
}

/// The slot of the entry with key `p`.
pub open spec fn keys_index(occ: Seq<(Position, Creature)>, p: Position) -> int {
    choose|i: int| 0 <= i < occ.len() && (#[trigger] occ[i]).0 == p
}

/// Whether some creature occupies the position.
pub open spec fn occ_has(w: WorldView, p: Position) -> bool {
    keys_has(w.occ, p)
}

/// The slot of the creature occupying the position.
pub open spec fn occ_index(w: WorldView, p: Position) -> int {
    keys_index(w.occ, p)
}

/// The creature occupying the position.
pub open spec fn creature_at(w: WorldView, p: Position) -> Creature {
    w.occ[occ_index(w, p)].1
}

/// Each occupied position maps to exactly one creature.
pub open spec fn occ_distinct(occ: Seq<(Position, Creature)>) -> bool {
    forall|i: int, j: int| 0 <= i < j < occ.len() ==> (#[trigger] occ[i]).0 != (#[trigger] occ[j]).0
}

/// One occupancy entry is sound: in bounds, on a passable tile, holding a
/// valid creature.
pub open spec fn occ_entry_ok(w: WorldView, i: int) -> bool {
    &&& spec_in_bounds(w, w.occ[i].0)
    &&& spec_passable(spec_tile_at(w, w.occ[i].0))
    &&& creature_ok(w.occ[i].1)
}

/// Well-formedness of a world state, established by construction and
/// preserved by every tick.
pub open spec fn wf(w: WorldView) -> bool {
    &&& 1 <= w.width
    &&& 1 <= w.height
    &&& w.tiles.len() == w.width * w.height
    &&& w.tiles.len() <= usize::MAX
    &&& w.tick >= 0
    &&& occ_distinct(w.occ)
    &&& forall|i: int| 0 <= i < w.occ.len() ==> #[trigger] occ_entry_ok(w, i)
}

/// Whether the position lies on the outer ring of the grid.
pub open spec fn on_border(w: WorldView, p: Position) -> bool {
    p.x == 0 || p.y == 0 || p.x == w.width - 1 || p.y == w.height - 1
}

/// The tile a fresh world carries at flat index `i`: the border tile on the
/// outer ring, the default ground tile inside.
pub open spec fn initial_tile(width: int, height: int, border: Tile, i: int) -> Tile {
    let x = i % width;
    let y = i / width;
    if x == 0 || y == 0 || x == width - 1 || y == height - 1 {
        border
    } else {
        Tile::Ground(AccessableTileData { food_1: true })
    }
}

pub proof fn lemma_tile_index_in_range(w: WorldView, p: Position)
    requires
        wf(w),
        spec_in_bounds(w, p),
    ensures
        0 <= tile_index(w, p) < w.tiles.len(),
        tile_index(w, p) % w.width == p.x,
        tile_index(w, p) / w.width == p.y,
{
    assert(0 <= p.y * w.width + p.x < w.height * w.width) by (nonlinear_arith)
        requires
            0 <= p.x < w.width,
            0 <= p.y < w.height,
    ;
    assert(w.height * w.width == w.width * w.height) by (nonlinear_arith);
    vstd::arithmetic::div_mod::lemma_fundamental_div_mod_converse(
        tile_index(w, p),
        w.width,
        p.y as int,
        p.x as int,
    );
}

/// The occupant's slot is unique, so any witness slot is the slot.
pub proof fn lemma_occ_index_unique(w: WorldView, p: Position, i: int)
    requires
        occ_distinct(w.occ),
        0 <= i < w.occ.len(),
        w.occ[i].0 == p,
    ensures
        occ_has(w, p),
        occ_index(w, p) == i,
        creature_at(w, p) == w.occ[i].1,
{
    assert(occ_has(w, p));
    let j = occ_index(w, p);
    if j < i {
        assert(w.occ[j].0 != w.occ[i].0);
    } else if i < j {
        assert(w.occ[i].0 != w.occ[j].0);
    }
}

pub open spec fn sat_add_u16(a: u16, b: u16) -> u16 {
    if a + b > u16::MAX {
        u16::MAX
    } else {
        (a + b) as u16
    }
}

pub open spec fn sat_add_u64(a: u64, b: u64) -> u64 {
    if a + b > u64::MAX {
        u64::MAX
    } else {
        (a + b) as u64
    }
}

/// Removal of the creature at `p`, if any.
pub open spec fn spec_kill(w: WorldView, p: Position) -> WorldView {
    if keys_has(w.occ, p) {
        WorldView { occ: w.occ.remove(keys_index(w.occ, p)), ..w }
    } else {
        w
    }
}

/// Relocation of the creature at `old_p` to `new_p`: it stays in place when
/// the target is occupied or impassable.
pub open spec fn spec_move(w: WorldView, old_p: Position, new_p: Position) -> WorldView {
    if keys_has(w.occ, new_p) {
        w
    } else if !spec_passable(spec_tile_at(w, new_p)) {
        w
    } else {
        let i = keys_index(w.occ, old_p);
        WorldView { occ: w.occ.remove(i).push((new_p, w.occ[i].1)), ..w }
    }
}

/// Placement of a creature at `p`: skipped when the cell is out of bounds,
/// impassable, or occupied.
pub open spec fn spec_spawn(w: WorldView, p: Position, c: Creature) -> WorldView {
    if !spec_in_bounds(w, p) {
        w
    } else if !spec_passable(spec_tile_at(w, p)) {
        w
    } else if keys_has(w.occ, p) {
        w
    } else {
        WorldView { occ: w.occ.push((p, c)), ..w }
    }
}

/// Replacement of the brain of the creature at `q`, if one is there, by a
/// shared handle to the brain of the creature at `p`.
pub open spec fn spec_copy(w: WorldView, p: Position, q: Position) -> WorldView {
    if q == p || !keys_has(w.occ, q) {
        w
    } else {
        let j = keys_index(w.occ, q);
        let d = w.occ[j].1;
        WorldView { occ: w.occ.update(j, (q, Creature { brain: creature_at(w, p).brain, ..d })), ..w }
    }
}

/// One action applied at an occupied position: the cost is deducted first;
/// a creature that cannot pay is removed with no further effect; otherwise
/// the action's own effect follows.
pub open spec fn spec_apply_action(w: WorldView, p: Position, a: Action) -> WorldView {
    let i = keys_index(w.occ, p);
    let c = w.occ[i].1;
    let cost = spec_energy_cost(a);
    if c.energy < cost {
        WorldView { occ: w.occ.remove(i), ..w }
    } else {
        let c1 = Creature { energy: (c.energy - cost) as u16, ..c };
        let w1 = WorldView { occ: w.occ.update(i, (p, c1)), ..w };
        match a {
            Action::Idle => w1,
            Action::Eat => {
                if spec_has_food(spec_tile_at(w1, p)) {
                    let c2 = Creature { energy: sat_add_u16(c1.energy, 50), ..c1 };
                    WorldView {
                        tiles: w1.tiles.update(
                            tile_index(w1, p),
                            Tile::Ground(AccessableTileData { food_1: false }),
                        ),
                        occ: w1.occ.update(i, (p, c2)),
                        ..w1
                    }
                } else {
                    w1
                }
            },
            Action::Move(location) => {
                let target = spec_relative_position(c, p, location);
                if spec_in_bounds(w1, target) {
                    spec_move(w1, p, target)
                } else {
                    w1
                }
            },
            Action::Rotate(rotation) => {
                let c2 = Creature { rotation: spec_rotate(c.rotation, rotation), ..c1 };
                WorldView { occ: w1.occ.update(i, (p, c2)), ..w1 }
            },
            Action::CreateMembrane(location) => {
                let target = spec_relative_position(c, p, location);
                let c2 = Creature { offspring: sat_add_u64(c1.offspring, 1), ..c1 };
                let w2 = WorldView { occ: w1.occ.update(i, (p, c2)), ..w1 };
                let newborn = Creature {
                    born: w.tick as u64,
                    energy: INITIAL_CREATURE_ENERGY,
                    rotation: spec_to_cardinal(location, c.rotation),
                    brain: None,
                    offspring: 0u64,
                };
                spec_spawn(w2, target, newborn)
            },
            Action::CopyDna(location) => {
                let target = spec_relative_position(c, p, location);
                spec_copy(w1, p, target)
            },
        }
    }
}

/// The neuron count of a creature's brain; zero without a brain.
pub open spec fn brain_size(c: Creature) -> nat {
    match c.brain {
        Some(b) => crate::neural_network::nn_neurons(*b).len(),
        None => 0,
    }
}

/// A correct pixel rendering of a world's tiles: four bytes per tile in
/// row-major order — the tile's color channels and full opacity.
pub open spec fn rgba_ok(w: WorldView, bytes: Seq<u8>) -> bool {
    &&& bytes.len() == w.tiles.len() * 4
    &&& forall|t: int|
        0 <= t < w.tiles.len() ==> {
            let color = spec_tile_color(#[trigger] w.tiles[t]);
            bytes[4 * t] == color.r && bytes[4 * t + 1] == color.g && bytes[4 * t + 2] == color.b
                && bytes[4 * t + 3] == 255u8
        }
}

/// Summary statistics handed to the host layer beside the pixel buffer.
#[derive(Clone, Copy, Debug)]
pub struct SnapshotStats {
    pub current_tick: u64,
    pub creature_count: usize,
    pub max_brain_neuron_count: usize,
}

/// What two world states share when only creatures and food moved between
/// them: the grid shape, the clock, the settings, and the set of lava
/// cells.
pub open spec fn same_frame(w: WorldView, w2: WorldView) -> bool {
    &&& w2.width == w.width
    &&& w2.height == w.height
    &&& w2.tick == w.tick
    &&& w2.food_regen_rate == w.food_regen_rate
    &&& w2.creature_generation_rate == w.creature_generation_rate
    &&& w2.tiles.len() == w.tiles.len()
    &&& forall|t: int|
        0 <= t < w.tiles.len() ==> (((#[trigger] w2.tiles[t]) is Lava) <==> (w.tiles[t] is Lava))
}

/// The world as the tick counter advances, before any phase runs.
pub open spec fn bumped(w: WorldView) -> WorldView {
    WorldView { tick: w.tick + 1, ..w }
}

/// What a freshly spawned creature looks like: newborn with the current
/// birth tick and a valid generated brain, placed in bounds.
pub open spec fn spawn_candidate(w: WorldView, p: Position, c: Creature) -> bool {
    &&& spec_in_bounds(w, p)
    &&& c.energy == INITIAL_CREATURE_ENERGY
    &&& c.born == w.tick
    &&& c.offspring == 0
    &&& match c.brain {
        Some(b) => crate::neural_network::generated_ok(*b),
        None => false,
    }
}

/// Food placed on the tile at `p` when it is ground; lava is left alone.
pub open spec fn spec_food_at(w: WorldView, p: Position) -> WorldView {
    if spec_tile_at(w, p) is Ground {
        WorldView {
            tiles: w.tiles.update(
                tile_index(w, p),
                Tile::Ground(AccessableTileData { food_1: true }),
            ),
            ..w
        }
    } else {
        w
    }
}

/// The sub-list of occupancy entries whose creature has a brain, in order:
/// the creatures that decide an action each tick.
pub open spec fn deciders_of(occ: Seq<(Position, Creature)>) -> Seq<(Position, Creature)>
    decreases occ.len(),
{
    if occ.len() == 0 {
        occ
    } else {
        let rest = deciders_of(occ.drop_last());
        if occ.last().1.brain is Some {
            rest.push(occ.last())
        } else {
            rest
        }
    }
}

/// Every decider is one of the occupancy entries, deciders' keys are
/// distinct, and every decider has a brain.
pub proof fn lemma_deciders_props(occ: Seq<(Position, Creature)>)
    requires
        occ_distinct(occ),
    ensures
        deciders_of(occ).len() <= occ.len(),
        occ_distinct(deciders_of(occ)),
        forall|k: int|
            0 <= k < deciders_of(occ).len() ==> keys_has(occ, (#[trigger] deciders_of(occ)[k]).0)
                && deciders_of(occ)[k].1.brain is Some,
        forall|k: int|
            0 <= k < deciders_of(occ).len() ==> exists|j: int|
                0 <= j < occ.len() && (#[trigger] deciders_of(occ)[k]) == occ[j],
    decreases occ.len(),
{
    if occ.len() == 0 {
    } else {
        let prefix = occ.drop_last();
        assert(occ_distinct(prefix)) by {
            assert forall|a: int, b: int|
                0 <= a < b < prefix.len() implies (#[trigger] prefix[a]).0 != (
            #[trigger] prefix[b]).0 by {
                assert(prefix[a] == occ[a]);
                assert(prefix[b] == occ[b]);
            }
        }
        lemma_deciders_props(prefix);
        let d = deciders_of(occ);
        let rest = deciders_of(prefix);
        assert forall|k: int| 0 <= k < d.len() implies keys_has(occ, (#[trigger] d[k]).0)
            && d[k].1.brain is Some by {
            if k < rest.len() {
                assert(d[k] == rest[k]);
                let j = choose|j: int| 0 <= j < prefix.len() && rest[k] == prefix[j];
                assert(occ[j] == prefix[j]);
            } else {
                assert(d[k] == occ.last());
            }
        }
        assert forall|k: int| 0 <= k < d.len() implies exists|j: int|
            0 <= j < occ.len() && (#[trigger] d[k]) == occ[j] by {
            if k < rest.len() {
                assert(d[k] == rest[k]);
                let j = choose|j: int| 0 <= j < prefix.len() && rest[k] == prefix[j];
                assert(d[k] == occ[j]);
            } else {
                assert(d[k] == occ[occ.len() - 1]);
            }
        }
        assert forall|a: int, b: int| 0 <= a < b < d.len() implies (#[trigger] d[a]).0 != (
        #[trigger] d[b]).0 by {
            if b < rest.len() {
            } else {
                let ja = choose|j: int| 0 <= j < prefix.len() && rest[a] == prefix[j];
                assert(d[a] == occ[ja]);
                assert(d[b] == occ[occ.len() - 1]);
                assert(occ[ja].0 != occ[occ.len() - 1].0);
            }
        }
    }
}

/// One tick's worth of decisions: one per decider, in order, each a
/// possible evaluation of that creature against the tick-start world.
pub open spec fn decisions_ok(w: WorldView, ds: Seq<(Position, Action)>) -> bool {
    &&& ds.len() == deciders_of(w.occ).len()
    &&& forall|i: int|
        0 <= i < ds.len() ==> (#[trigger] ds[i]).0 == deciders_of(w.occ)[i].0
            && crate::neural_network::decision_ok(
            w,
            deciders_of(w.occ)[i].0,
            deciders_of(w.occ)[i].1,
            ds[i].1,
        )
}

/// The world after the collected decisions have been applied one at a
/// time, in order.
pub open spec fn apply_phase(w: WorldView, ds: Seq<(Position, Action)>) -> WorldView
    decreases ds.len(),
{
    if ds.len() == 0 {
        w
    } else {
        spec_apply_action(apply_phase(w, ds.drop_last()), ds.last().0, ds.last().1)
    }
}

/// The spawn phase as a relation: `n` placement attempts, each at some
/// in-bounds position with some freshly generated creature.
pub open spec fn spawn_phase_rel(w1: WorldView, n: int, w2: WorldView) -> bool
    decreases n,
{
    if n <= 0 {
        w2 == w1
    } else {
        exists|mid: WorldView, p: Position, c: Creature|
            spawn_phase_rel(w1, n - 1, mid) && spawn_candidate(mid, p, c) && w2
                == #[trigger] spec_spawn(mid, p, c)
    }
}

/// The food phase as a relation: `n` placement attempts, each at some
/// in-bounds position.
pub open spec fn food_phase_rel(w1: WorldView, n: int, w2: WorldView) -> bool
    decreases n,
{
    if n <= 0 {
        w2 == w1
    } else {
        exists|mid: WorldView, p: Position|
            food_phase_rel(w1, n - 1, mid) && spec_in_bounds(mid, p) && w2
                == #[trigger] spec_food_at(mid, p)
    }
}

/// Removing slot `i` keeps the occupancy well-formed; exactly the removed
/// key disappears, and every surviving entry is one of the old entries.
pub proof fn lemma_remove_frame(w: WorldView, w2: WorldView, i: int)
    requires
        wf(w),
        0 <= i < w.occ.len(),
        w2 == (WorldView { occ: w.occ.remove(i), ..w }),
    ensures
        wf(w2),
        forall|q: Position| #[trigger] occ_has(w2, q) <==> (occ_has(w, q) && q != w.occ[i].0),
        forall|q: Position|
            occ_has(w, q) && q != w.occ[i].0 ==> #[trigger] creature_at(w2, q) == creature_at(w, q),
{
    w.occ.remove_ensures(i);
    assert forall|a: int, b: int| 0 <= a < b < w2.occ.len() implies (#[trigger] w2.occ[a]).0 != (
    #[trigger] w2.occ[b]).0 by {
        let a0: int = if a < i {
            a
        } else {
            a + 1
        };
        let b0: int = if b < i {
            b
        } else {
            b + 1
        };
        assert(w2.occ[a] == w.occ[a0]);
        assert(w2.occ[b] == w.occ[b0]);
    }
    assert forall|q: Position| #[trigger] occ_has(w2, q) implies occ_has(w, q) && q
        != w.occ[i].0 by {
        let k = choose|k: int| 0 <= k < w2.occ.len() && w2.occ[k].0 == q;
        let k0: int = if k < i {
            k
        } else {
            k + 1
        };
        assert(w2.occ[k] == w.occ[k0]);
        assert(w.occ[k0].0 == q);
        if k0 == i {
            assert(false);
        }
    }
    assert forall|q: Position| occ_has(w, q) && q != w.occ[i].0 implies #[trigger] creature_at(
        w2,
        q,
    ) == creature_at(w, q) by {
        let k0 = choose|k: int| 0 <= k < w.occ.len() && w.occ[k].0 == q;
        lemma_occ_index_unique(w, q, k0);
        if k0 < i {
            assert(w2.occ[k0] == w.occ[k0]);
            lemma_occ_index_unique(w2, q, k0);
        } else {
            assert(k0 != i);
            assert(w2.occ[k0 - 1] == w.occ[k0]);
            lemma_occ_index_unique(w2, q, k0 - 1);
        }
    }
    assert forall|q: Position| occ_has(w, q) && q != w.occ[i].0 implies #[trigger] occ_has(
        w2,
        q,
    ) by {
        let k0 = choose|k: int| 0 <= k < w.occ.len() && w.occ[k].0 == q;
        if k0 < i {
            assert(w2.occ[k0] == w.occ[k0]);
        } else {
            assert(k0 != i);
            assert(w2.occ[k0 - 1] == w.occ[k0]);
        }
    }
    assert forall|k: int| 0 <= k < w2.occ.len() implies #[trigger] occ_entry_ok(w2, k) by {
        let k0: int = if k < i {
            k
        } else {
            k + 1
        };
        assert(w2.occ[k] == w.occ[k0]);
        assert(occ_entry_ok(w, k0));
    }
}

/// Updating slot `i` in place, key unchanged, keeps the occupancy
/// well-formed when the new creature is valid; no key appears or
/// disappears.
pub proof fn lemma_update_frame(w: WorldView, w2: WorldView, i: int, c: Creature)
    requires
        wf(w),
        0 <= i < w.occ.len(),
        creature_ok(c),
        w2 == (WorldView { occ: w.occ.update(i, (w.occ[i].0, c)), ..w }),
    ensures
        wf(w2),
        forall|q: Position| #[trigger] occ_has(w2, q) <==> occ_has(w, q),
        creature_at(w2, w.occ[i].0) == c,
        forall|q: Position|
            occ_has(w, q) && q != w.occ[i].0 ==> #[trigger] creature_at(w2, q) == creature_at(w, q),
{
    assert forall|q: Position| #[trigger] occ_has(w2, q) implies occ_has(w, q) by {
        let k = choose|k: int| 0 <= k < w2.occ.len() && w2.occ[k].0 == q;
        assert(w.occ[k].0 == q);
    }
    assert forall|q: Position| #[trigger] occ_has(w, q) implies occ_has(w2, q) by {
        let k = choose|k: int| 0 <= k < w.occ.len() && w.occ[k].0 == q;
        assert(w2.occ[k].0 == q);
    }
    lemma_occ_index_unique(w2, w.occ[i].0, i);
    assert forall|q: Position| occ_has(w, q) && q != w.occ[i].0 implies #[trigger] creature_at(
        w2,
        q,
    ) == creature_at(w, q) by {
        let k = choose|k: int| 0 <= k < w.occ.len() && w.occ[k].0 == q;
        lemma_occ_index_unique(w, q, k);
        assert(w2.occ[k] == w.occ[k]);
        lemma_occ_index_unique(w2, q, k);
    }
    assert forall|k: int| 0 <= k < w2.occ.len() implies #[trigger] occ_entry_ok(w2, k) by {
        assert(occ_entry_ok(w, k));
        if k != i {
            assert(w2.occ[k] == w.occ[k]);
        }
    }
}

/// Appending an entry with a fresh key on a passable in-bounds cell keeps
/// the occupancy well-formed; exactly that key appears.
pub proof fn lemma_push_frame(w: WorldView, w2: WorldView, p: Position, c: Creature)
    requires
        wf(w),
        !occ_has(w, p),
        spec_in_bounds(w, p),
        spec_passable(spec_tile_at(w, p)),
        creature_ok(c),
        w2 == (WorldView { occ: w.occ.push((p, c)), ..w }),
    ensures
        wf(w2),
        forall|q: Position| #[trigger] occ_has(w2, q) <==> (occ_has(w, q) || q == p),
        creature_at(w2, p) == c,
        forall|q: Position|
            occ_has(w, q) ==> #[trigger] creature_at(w2, q) == creature_at(w, q),
{
    assert(w2.occ[w.occ.len() as int] == (p, c));
    assert forall|a: int, b: int| 0 <= a < b < w2.occ.len() implies (#[trigger] w2.occ[a]).0 != (
    #[trigger] w2.occ[b]).0 by {
        if b < w.occ.len() {
            assert(w2.occ[a] == w.occ[a]);
            assert(w2.occ[b] == w.occ[b]);
        } else {
            assert(w2.occ[a] == w.occ[a]);
            assert(w2.occ[b] == (p, c));
            if w.occ[a].0 == p {
                assert(occ_has(w, p));
            }
        }
    }
    assert forall|q: Position| #[trigger] occ_has(w2, q) implies (occ_has(w, q) || q == p) by {
        let k = choose|k: int| 0 <= k < w2.occ.len() && w2.occ[k].0 == q;
        if k < w.occ.len() {
            assert(w.occ[k].0 == q);
        }
    }
    lemma_occ_index_unique(w2, p, w.occ.len() as int);
    assert forall|q: Position| occ_has(w, q) implies #[trigger] creature_at(w2, q) == creature_at(
        w,
        q,
    ) by {
        let k = choose|k: int| 0 <= k < w.occ.len() && w.occ[k].0 == q;
        lemma_occ_index_unique(w, q, k);
        assert(w2.occ[k] == w.occ[k]);
        lemma_occ_index_unique(w2, q, k);
    }
    assert forall|q: Position| occ_has(w, q) || q == p implies #[trigger] occ_has(w2, q) by {
        if occ_has(w, q) {
            let k = choose|k: int| 0 <= k < w.occ.len() && w.occ[k].0 == q;
            assert(w2.occ[k] == w.occ[k]);
        }
    }
    assert forall|k: int| 0 <= k < w2.occ.len() implies #[trigger] occ_entry_ok(w2, k) by {
        if k < w.occ.len() {
            assert(occ_entry_ok(w, k));
            assert(w2.occ[k] == w.occ[k]);
        }
    }
}

/// Applying one action changes neither the grid shape, the clock, the
/// settings, nor the set of lava cells, and removes no creature but
/// possibly the acting one.
pub proof fn lemma_apply_action_frame(w: WorldView, p: Position, a: Action)
    requires
        wf(w),
        occ_has(w, p),
    ensures
        same_frame(w, spec_apply_action(w, p, a)),
        wf(spec_apply_action(w, p, a)),
        forall|q: Position|
            q != p && occ_has(w, q) ==> #[trigger] occ_has(spec_apply_action(w, p, a), q),
{
    let i = keys_index(w.occ, p);
    assert(0 <= i < w.occ.len() && w.occ[i].0 == p) by {
        let k = choose|k: int| 0 <= k < w.occ.len() && w.occ[k].0 == p;
        lemma_occ_index_unique(w, p, k);
    }
    assert(occ_entry_ok(w, i));
    let c = w.occ[i].1;
    let cost = spec_energy_cost(a);
    let w2 = spec_apply_action(w, p, a);
    let goal = forall|q: Position| q != p && occ_has(w, q) ==> #[trigger] occ_has(w2, q);
    if c.energy < cost {
        lemma_remove_frame(w, w2, i);
        assert(goal);
    } else {
        let c1 = Creature { energy: (c.energy - cost) as u16, ..c };
        let w1 = WorldView { occ: w.occ.update(i, (p, c1)), ..w };
        lemma_update_frame(w, w1, i, c1);
        match a {
            Action::Idle => {
                assert(w2 == w1);
                assert(goal);
            },
            Action::Eat => {
                if spec_has_food(spec_tile_at(w1, p)) {
                    let c2 = Creature { energy: sat_add_u16(c1.energy, 50), ..c1 };
                    let wt = WorldView {
                        tiles: w1.tiles.update(
                            tile_index(w1, p),
                            Tile::Ground(AccessableTileData { food_1: false }),
                        ),
                        ..w1
                    };
                    lemma_tile_index_in_range(w1, p);
                    lemma_ground_tile_update_frame(
                        w1,
                        wt,
                        tile_index(w1, p),
                        AccessableTileData { food_1: false },
                    );
                    assert(w2 =~= (WorldView { occ: wt.occ.update(i, (p, c2)), ..wt }));
                    lemma_update_frame(wt, w2, i, c2);
                    assert forall|q: Position| #[trigger] occ_has(wt, q) <==> occ_has(w1, q) by {}
                } else {
                    assert(w2 == w1);
                }
                assert(goal);
            },
            Action::Move(location) => {
                let target = spec_relative_position(c, p, location);
                if spec_in_bounds(w1, target) {
                    if keys_has(w1.occ, target) {
                    } else if !spec_passable(spec_tile_at(w1, target)) {
                    } else {
                        lemma_occ_index_unique(w1, p, i);
                        let wm = WorldView { occ: w1.occ.remove(i), ..w1 };
                        lemma_remove_frame(w1, wm, i);
                        assert(w2 =~= (WorldView {
                            occ: wm.occ.push((target, w1.occ[i].1)),
                            ..wm
                        }));
                        lemma_push_frame(wm, w2, target, w1.occ[i].1);
                    }
                } else {
                    assert(w2 == w1);
                }
                assert(goal);
            },
            Action::Rotate(rotation) => {
                let c2 = Creature { rotation: spec_rotate(c.rotation, rotation), ..c1 };
                assert(w2 =~= (WorldView { occ: w.occ.update(i, (p, c2)), ..w }));
                lemma_update_frame(w, w2, i, c2);
                assert(goal);
            },
            Action::CreateMembrane(location) => {
                let target = spec_relative_position(c, p, location);
                let c2 = Creature { offspring: sat_add_u64(c1.offspring, 1), ..c1 };
                let wb = WorldView { occ: w1.occ.update(i, (p, c2)), ..w1 };
                assert(wb =~= (WorldView { occ: w.occ.update(i, (p, c2)), ..w }));
                lemma_update_frame(w, wb, i, c2);
                let newborn = Creature {
                    born: w.tick as u64,
                    energy: INITIAL_CREATURE_ENERGY,
                    rotation: spec_to_cardinal(location, c.rotation),
                    brain: None,
                    offspring: 0u64,
                };
                if !spec_in_bounds(wb, target) {
                } else if !spec_passable(spec_tile_at(wb, target)) {
                } else if keys_has(wb.occ, target) {
                } else {
                    lemma_push_frame(wb, w2, target, newborn);
                }
                assert(goal);
            },
            Action::CopyDna(location) => {
                let target = spec_relative_position(c, p, location);
                if target == p || !keys_has(w1.occ, target) {
                } else {
                    let j = keys_index(w1.occ, target);
                    assert(0 <= j < w1.occ.len() && w1.occ[j].0 == target) by {
                        let k = choose|k: int| 0 <= k < w1.occ.len() && w1.occ[k].0 == target;
                        lemma_occ_index_unique(w1, target, k);
                    }
                    assert(occ_entry_ok(w1, j));
                    lemma_occ_index_unique(w1, p, i);
                    let d = w1.occ[j].1;
                    let d2 = Creature { brain: creature_at(w1, p).brain, ..d };
                    assert(creature_ok(d2)) by {
                        assert(creature_at(w1, p) == c1);
                    }
                    lemma_update_frame(w1, w2, j, d2);
                }
                assert(goal);
            },
        }
    }
}

/// Boundary invariant: a world whose outer ring is lava keeps a lava outer
/// ring across any change that preserves the set of lava cells — which, by
/// the contracts of `tick` and of every action, covers every reachable
/// successor state.
pub proof fn lemma_border_invariant(w1: WorldView, w2: WorldView)
    requires
        wf(w1),
        same_frame(w1, w2),
        forall|p: Position|
            spec_in_bounds(w1, p) && on_border(w1, p) ==> (#[trigger] spec_tile_at(w1, p)) is Lava,
    ensures
        forall|p: Position|
            spec_in_bounds(w2, p) && on_border(w2, p) ==> (#[trigger] spec_tile_at(w2, p)) is Lava,
{
    assert forall|p: Position|
        spec_in_bounds(w2, p) && on_border(w2, p) implies (#[trigger] spec_tile_at(
        w2,
        p,
    )) is Lava by {
        lemma_tile_index_in_range(w1, p);
        assert(spec_tile_at(w1, p) is Lava);
        assert((w2.tiles[tile_index(w1, p)] is Lava) <==> (w1.tiles[tile_index(w1, p)] is Lava));
    }
}

/// The flat indices of every tile a creature stands on.
pub open spec fn passable_cells(w: WorldView) -> Set<int> {
    Set::new(|t: int| 0 <= t < w.tiles.len() && spec_passable(w.tiles[t]))
}

spec fn occ_tile_set(w: WorldView, k: int) -> Set<int>
    decreases k,
{
    if k <= 0 {
        Set::empty()
    } else {
        occ_tile_set(w, k - 1).insert(tile_index(w, w.occ[k - 1].0))
    }
}

proof fn lemma_occ_tile_set(w: WorldView, k: int)
    requires
        wf(w),
        0 <= k <= w.occ.len(),
    ensures
        occ_tile_set(w, k).finite(),
        occ_tile_set(w, k).len() == k,
        occ_tile_set(w, k).subset_of(passable_cells(w)),
        forall|j: int|
            #[trigger] occ_tile_set(w, k).contains(j) ==> exists|m: int|
                0 <= m < k && j == tile_index(w, (#[trigger] w.occ[m]).0),
    decreases k,
{
    if k <= 0 {
    } else {
        lemma_occ_tile_set(w, k - 1);
        assert(occ_entry_ok(w, k - 1));
        lemma_tile_index_in_range(w, w.occ[k - 1].0);
        let idx = tile_index(w, w.occ[k - 1].0);
        if occ_tile_set(w, k - 1).contains(idx) {
            let m = choose|m: int| 0 <= m < k - 1 && idx == tile_index(w, (#[trigger] w.occ[m]).0);
            assert(occ_entry_ok(w, m));
            lemma_tile_index_in_range(w, w.occ[m].0);
            assert(w.occ[m].0.x == w.occ[k - 1].0.x);
            assert(w.occ[m].0.y == w.occ[k - 1].0.y);
            assert(w.occ[m].0 == w.occ[k - 1].0);
            assert(false);
        }
        assert(occ_tile_set(w, k).len() == k);
        assert forall|j: int| #[trigger] occ_tile_set(w, k).contains(j) implies exists|m: int|
            0 <= m < k && j == tile_index(w, (#[trigger] w.occ[m]).0) by {
            if j == idx {
                assert(idx == tile_index(w, w.occ[k - 1].0));
            } else {
                assert(occ_tile_set(w, k - 1).contains(j));
            }
        }
    }
}

/// Occupancy uniqueness, counted: distinct occupied positions stand on
/// distinct passable tiles, so the occupancy never exceeds the number of
/// passable tiles.
pub proof fn lemma_occupancy_bounded(w: WorldView)
    requires
        wf(w),
    ensures
        passable_cells(w).finite(),
        w.occ.len() <= passable_cells(w).len(),
{
    vstd::set_lib::lemma_int_range(0, w.tiles.len() as int);
    assert(passable_cells(w).subset_of(vstd::set_lib::set_int_range(0, w.tiles.len() as int)));
    vstd::set_lib::lemma_len_subset(
        passable_cells(w),
        vstd::set_lib::set_int_range(0, w.tiles.len() as int),
    );
    lemma_occ_tile_set(w, w.occ.len() as int);
    vstd::set_lib::lemma_len_subset(occ_tile_set(w, w.occ.len() as int), passable_cells(w));
}

/// Energy monotonic death: a creature whose energy is below the action's
/// cost is removed in that same application step, and nothing else in the
/// world changes.
pub proof fn lemma_energy_death(w: WorldView, p: Position, a: Action)
    requires
        wf(w),
        occ_has(w, p),
        creature_at(w, p).energy < spec_energy_cost(a),
    ensures
        spec_apply_action(w, p, a) == (WorldView { occ: w.occ.remove(occ_index(w, p)), ..w }),
        !occ_has(spec_apply_action(w, p, a), p),
        spec_apply_action(w, p, a).tiles == w.tiles,
        forall|q: Position|
            q != p ==> (#[trigger] occ_has(spec_apply_action(w, p, a), q) <==> occ_has(w, q)),
{
    let i = keys_index(w.occ, p);
    assert(0 <= i < w.occ.len() && w.occ[i].0 == p) by {
        let k = choose|k: int| 0 <= k < w.occ.len() && w.occ[k].0 == p;
        lemma_occ_index_unique(w, p, k);
    }
    let w2 = spec_apply_action(w, p, a);
    lemma_remove_frame(w, w2, i);
}

/// Eat without food: the meal still costs its energy, yields none, and
/// leaves every tile — including the creature's own — exactly as it was.
pub proof fn lemma_eat_without_food(w: WorldView, p: Position)
    requires
        wf(w),
        occ_has(w, p),
        !spec_has_food(spec_tile_at(w, p)),
        creature_at(w, p).energy >= spec_energy_cost(Action::Eat),
    ensures
        spec_apply_action(w, p, Action::Eat).tiles == w.tiles,
        occ_has(spec_apply_action(w, p, Action::Eat), p),
        creature_at(spec_apply_action(w, p, Action::Eat), p).energy == creature_at(w, p).energy
            - spec_energy_cost(Action::Eat),
        !spec_has_food(spec_tile_at(spec_apply_action(w, p, Action::Eat), p)),
{
    let i = keys_index(w.occ, p);
    assert(0 <= i < w.occ.len() && w.occ[i].0 == p) by {
        let k = choose|k: int| 0 <= k < w.occ.len() && w.occ[k].0 == p;
        lemma_occ_index_unique(w, p, k);
    }
    assert(occ_entry_ok(w, i));
    let c = w.occ[i].1;
    let c1 = Creature { energy: (c.energy - spec_energy_cost(Action::Eat)) as u16, ..c };
    let w2 = spec_apply_action(w, p, Action::Eat);
    lemma_update_frame(w, w2, i, c1);
}

/// Move conflict resolution: when two creatures' decided moves target the
/// same free passable cell in one apply phase, the first relocation
/// succeeds and the second creature stays where it was, its move cost
/// deducted; the contested cell holds exactly the first mover.
pub proof fn lemma_move_conflict(
    w: WorldView,
    p1: Position,
    p2: Position,
    l1: Location,
    l2: Location,
    d: Position,
)
    requires
        wf(w),
        occ_has(w, p1),
        occ_has(w, p2),
        p1 != p2,
        d != p1,
        d != p2,
        spec_relative_position(creature_at(w, p1), p1, l1) == d,
        spec_relative_position(creature_at(w, p2), p2, l2) == d,
        creature_at(w, p1).energy >= spec_energy_cost(Action::Move(l1)),
        creature_at(w, p2).energy >= spec_energy_cost(Action::Move(l2)),
        !occ_has(w, d),
        spec_in_bounds(w, d),
        spec_passable(spec_tile_at(w, d)),
    ensures
        ({
            let w1 = spec_apply_action(w, p1, Action::Move(l1));
            let w2 = spec_apply_action(w1, p2, Action::Move(l2));
            &&& occ_has(w1, d)
            &&& !occ_has(w1, p1)
            &&& occ_has(w2, p2)
            &&& creature_at(w2, d) == creature_at(w1, d)
            &&& creature_at(w2, p2).energy == creature_at(w, p2).energy - spec_energy_cost(
                Action::Move(l2),
            )
        }),
{
    let i = keys_index(w.occ, p1);
    assert(0 <= i < w.occ.len() && w.occ[i].0 == p1) by {
        let k = choose|k: int| 0 <= k < w.occ.len() && w.occ[k].0 == p1;
        lemma_occ_index_unique(w, p1, k);
    }
    assert(occ_entry_ok(w, i));
    let c = w.occ[i].1;
    let cost1 = spec_energy_cost(Action::Move(l1));
    let c1 = Creature { energy: (c.energy - cost1) as u16, ..c };
    let wa = WorldView { occ: w.occ.update(i, (p1, c1)), ..w };
    lemma_update_frame(w, wa, i, c1);
    lemma_occ_index_unique(wa, p1, i);
    let w1 = spec_apply_action(w, p1, Action::Move(l1));
    let wm = WorldView { occ: wa.occ.remove(i), ..wa };
    lemma_remove_frame(wa, wm, i);
    assert(w1 =~= (WorldView { occ: wm.occ.push((d, c1)), ..wm }));
    lemma_push_frame(wm, w1, d, c1);
    assert(occ_has(w1, d));
    assert(!occ_has(w1, p1));
    assert(creature_at(w1, p2) == creature_at(w, p2));
    assert(wf(w1));
    // The second move: the destination is now occupied, so the creature
    // only pays the cost and stays.
    assert(occ_has(w1, p2));
    let j = keys_index(w1.occ, p2);
    assert(0 <= j < w1.occ.len() && w1.occ[j].0 == p2) by {
        assert(keys_has(w1.occ, p2));
        let k = choose|k: int| 0 <= k < w1.occ.len() && (#[trigger] w1.occ[k]).0 == p2;
        lemma_occ_index_unique(w1, p2, k);
    }
    assert(occ_entry_ok(w1, j));
    let c2 = w1.occ[j].1;
    let cost2 = spec_energy_cost(Action::Move(l2));
    let c2b = Creature { energy: (c2.energy - cost2) as u16, ..c2 };
    let w2 = spec_apply_action(w1, p2, Action::Move(l2));
    let wb = WorldView { occ: w1.occ.update(j, (p2, c2b)), ..w1 };
    lemma_update_frame(w1, wb, j, c2b);
    assert(spec_relative_position(c2, p2, l2) == d);
    assert(occ_has(wb, d));
    assert(w2 == wb);
    assert(creature_at(w2, d) == creature_at(w1, d));
    assert(creature_at(w2, p2).energy == creature_at(w, p2).energy - cost2);
}

/// Reproduction: a creature with enough energy reproducing into a free,
/// passable, in-bounds cell leaves exactly one new brainless newborn there
/// — full initial energy, born this tick, facing the relative direction —
/// and its own offspring counter rises by one.
pub proof fn lemma_reproduce(w: WorldView, p: Position, l: Location)
    requires
        wf(w),
        occ_has(w, p),
        creature_at(w, p).energy >= spec_energy_cost(Action::CreateMembrane(l)),
        creature_at(w, p).offspring < u64::MAX,
        spec_in_bounds(w, spec_relative_position(creature_at(w, p), p, l)),
        spec_passable(spec_tile_at(w, spec_relative_position(creature_at(w, p), p, l))),
        !occ_has(w, spec_relative_position(creature_at(w, p), p, l)),
    ensures
        ({
            let w2 = spec_apply_action(w, p, Action::CreateMembrane(l));
            let d = spec_relative_position(creature_at(w, p), p, l);
            &&& occ_has(w2, d)
            &&& creature_at(w2, d) == (Creature {
                born: w.tick as u64,
                energy: INITIAL_CREATURE_ENERGY,
                rotation: spec_to_cardinal(l, creature_at(w, p).rotation),
                brain: None,
                offspring: 0u64,
            })
            &&& occ_has(w2, p)
            &&& creature_at(w2, p).offspring == creature_at(w, p).offspring + 1
            &&& creature_at(w2, p).energy == creature_at(w, p).energy - spec_energy_cost(
                Action::CreateMembrane(l),
            )
            &&& w2.occ.len() == w.occ.len() + 1
        }),
{
    let i = keys_index(w.occ, p);
    assert(0 <= i < w.occ.len() && w.occ[i].0 == p) by {
        let k = choose|k: int| 0 <= k < w.occ.len() && w.occ[k].0 == p;
        lemma_occ_index_unique(w, p, k);
    }
    assert(occ_entry_ok(w, i));
    let c = w.occ[i].1;
    let d = spec_relative_position(c, p, l);
    let cost = spec_energy_cost(Action::CreateMembrane(l));
    let c1 = Creature { energy: (c.energy - cost) as u16, ..c };
    let c2 = Creature { offspring: sat_add_u64(c1.offspring, 1), ..c1 };
    let wb = WorldView { occ: w.occ.update(i, (p, c2)), ..w };
    assert(wb =~= (WorldView {
        occ: (WorldView { occ: w.occ.update(i, (p, c1)), ..w }).occ.update(i, (p, c2)),
        ..w
    }));
    lemma_update_frame(w, wb, i, c2);
    let newborn = Creature {
        born: w.tick as u64,
        energy: INITIAL_CREATURE_ENERGY,
        rotation: spec_to_cardinal(l, c.rotation),
        brain: None,
        offspring: 0u64,
    };
    let w2 = spec_apply_action(w, p, Action::CreateMembrane(l));
    assert(w2 =~= (WorldView { occ: wb.occ.push((d, newborn)), ..wb }));
    lemma_push_frame(wb, w2, d, newborn);
}

/// Overwriting a tile with ground keeps the world well-formed: passability
/// can only improve and the occupancy is untouched.
pub proof fn lemma_ground_tile_update_frame(
    w: WorldView,
    w2: WorldView,
    ti: int,
    data: AccessableTileData,
)
    requires
        wf(w),
        0 <= ti < w.tiles.len(),
        w2 == (WorldView { tiles: w.tiles.update(ti, Tile::Ground(data)), ..w }),
    ensures
        wf(w2),
{
    assert forall|k: int| 0 <= k < w2.occ.len() implies #[trigger] occ_entry_ok(w2, k) by {
        assert(occ_entry_ok(w, k));
        lemma_tile_index_in_range(w, w.occ[k].0);
        if tile_index(w, w.occ[k].0) == ti {
            assert(spec_tile_at(w2, w.occ[k].0) == Tile::Ground(data));
        } else {
            assert(spec_tile_at(w2, w.occ[k].0) == spec_tile_at(w, w.occ[k].0));
        }
    }
}

/// Relies on std's writeln to standard error: reports a creature crossing
/// the soft offspring threshold. Diagnostic only; no simulation effect.
#[verifier::external_body]
fn note_offspring_threshold() {
    let _ = writeln!(std::io::stderr(), "Creature has too many offspring!");
}

/// Relies on rayon's par_iter, map and collect: the closure runs once per
/// decider, possibly in parallel, and collect keeps the input order; each
/// output pairs the decider's position with what `decide_creature` — a
/// verified function whose contract gives `decision_ok` — returned for it.
#[verifier::external_body]
fn par_decide(world: &World, deciders: &Vec<(Position, Creature)>) -> (r: Vec<(Position, Action)>)
    requires
        wf(world@),
        forall|i: int| 0 <= i < deciders@.len() ==> creature_ok((#[trigger] deciders@[i]).1),
    ensures
        r@.len() == deciders@.len(),
        forall|i: int|
            0 <= i < r@.len() ==> (#[trigger] r@[i]).0 == deciders@[i].0
                && crate::neural_network::decision_ok(
                world@,
                deciders@[i].0,
                deciders@[i].1,
                r@[i].1,
            ),
{
    deciders
        .par_iter()
        .map(|d| (d.0, crate::neural_network::decide_creature(world, &d.0, &d.1)))
        .collect()
}

impl World {
    /// A fresh world: the outer ring stamped with `border`, the interior
    /// filled with default ground, no creatures, tick zero.
    pub fn new(width: usize, height: usize, border: Tile, settings: WorldSettings) -> (w: Self)
        requires
            1 <= width,
            1 <= height,
            width * height <= usize::MAX,
        ensures
            wf(w@),
            w@.width == width,
            w@.height == height,
            w@.tick == 0,
            w@.occ.len() == 0,
            w@.food_regen_rate == settings.food_regen_rate,
            w@.creature_generation_rate == settings.creature_generation_rate,
            forall|p: Position|
                spec_in_bounds(w@, p) ==> #[trigger] spec_tile_at(w@, p) == (if on_border(w@, p) {
                    border
                } else {
                    Tile::Ground(AccessableTileData { food_1: true })
                }),
    {
        proof {
            assert(width * height >= 1) by (nonlinear_arith)
                requires
                    width >= 1,
                    height >= 1,
            ;
        }
        let total = width * height;
        let mut tiles: Vec<Tile> = Vec::new();
        let mut i: usize = 0;
        while i < total
            invariant
                i <= total,
                total == width * height,
                width >= 1,
                height >= 1,
                tiles@.len() == i,
                forall|j: int|
                    0 <= j < i ==> #[trigger] tiles@[j] == initial_tile(
                        width as int,
                        height as int,
                        border,
                        j,
                    ),
            decreases total - i,
        {
            let x = i % width;
            let y = i / width;
            if x == 0 || y == 0 || x == width - 1 || y == height - 1 {
                tiles.push(border);
            } else {
                tiles.push(Tile::default());
            }
            i = i + 1;
        }
        let w = World {
            width,
            height,
            tiles,
            creatures: Vec::new(),
            current_tick: 0,
            settings,
        };
        proof {
            assert forall|p: Position| spec_in_bounds(w@, p) implies #[trigger] spec_tile_at(w@, p)
                == (if on_border(w@, p) {
                border
            } else {
                Tile::Ground(AccessableTileData { food_1: true })
            }) by {
                lemma_tile_index_in_range(w@, p);
            }
        }
        w
    }

    pub fn width(&self) -> (r: usize)
        ensures
            r == self@.width,
    {
        self.width
    }

    pub fn height(&self) -> (r: usize)
        ensures
            r == self@.height,
    {
        self.height
    }

    pub fn current_tick(&self) -> (r: u64)
        ensures
            r == self@.tick,
    {
        self.current_tick
    }

    /// How many creatures are alive.
    pub fn creature_count(&self) -> (r: usize)
        ensures
            r == self@.occ.len(),
    {
        self.creatures.len()
    }

    pub fn check_bounds(&self, position: &Position) -> (r: bool)
        ensures
            r == spec_in_bounds(self@, *position),
    {
        position.x < self.width && position.y < self.height
    }

    /// The tile at a position, or nothing when the position is out of
    /// bounds.
    pub fn get_tile(&self, position: &Position) -> (r: Option<&Tile>)
        requires
            wf(self@),
        ensures
            match r {
                Some(t) => spec_in_bounds(self@, *position) && *t == spec_tile_at(self@, *position),
                None => !spec_in_bounds(self@, *position),
            },
    {
        if self.check_bounds(position) {
            proof {
                lemma_tile_index_in_range(self@, *position);
            }
            Some(&self.tiles[position.y * self.width + position.x])
        } else {
            None
        }
    }

    /// The slot of the creature at a position in the occupancy list.
    fn find_creature_index(&self, position: &Position) -> (r: Option<usize>)
        ensures
            match r {
                Some(i) => i < self@.occ.len() && self@.occ[i as int].0 == *position,
                None => !occ_has(self@, *position),
            },
    {
        let mut i: usize = 0;
        while i < self.creatures.len()
            invariant
                i <= self@.occ.len(),
                forall|j: int| 0 <= j < i ==> (#[trigger] self@.occ[j]).0 != *position,
            decreases self@.occ.len() - i,
        {
            if self.creatures[i].0 == *position {
                return Some(i);
            }
            i = i + 1;
        }
        None
    }

    /// Whether a creature occupies the position.
    pub fn contains_creature(&self, position: &Position) -> (r: bool)
        requires
            wf(self@),
        ensures
            r == occ_has(self@, *position),
    {
        match self.find_creature_index(position) {
            Some(i) => {
                proof {
                    lemma_occ_index_unique(self@, *position, i as int);
                }
                true
            },
            None => false,
        }
    }

    /// Removes the creature at a position, if one is there.
    pub fn kill_creature(&mut self, position: &Position)
        requires
            wf(old(self)@),
        ensures
            wf(final(self)@),
            final(self)@ == spec_kill(old(self)@, *position),
    {
        match self.find_creature_index(position) {
            Some(i) => {
                proof {
                    lemma_occ_index_unique(self@, *position, i as int);
                }
                self.creatures.remove(i);
                proof {
                    assert(self@ =~= (WorldView {
                        occ: old(self)@.occ.remove(i as int),
                        ..old(self)@
                    }));
                    lemma_remove_frame(old(self)@, self@, i as int);
                    assert(self@ =~= spec_kill(old(self)@, *position));
                }
            },
            None => {
                proof {
                    assert(self@ =~= spec_kill(old(self)@, *position));
                }
            },
        }
    }

    /// Relocates the creature at `old_position` to `new_position`; the
    /// creature stays in place when the target cell is occupied or
    /// impassable.
    fn move_creature(&mut self, old_position: &Position, new_position: Position)
        requires
            wf(old(self)@),
            occ_has(old(self)@, *old_position),
            spec_in_bounds(old(self)@, new_position),
        ensures
            wf(final(self)@),
            final(self)@ == spec_move(old(self)@, *old_position, new_position),
    {
        if self.contains_creature(&new_position) {
            return;
        }
        let passable = match self.get_tile(&new_position) {
            Some(tile) => tile.can_contain_creature(),
            None => false,
        };
        if !passable {
            return;
        }
        let idx = self.find_creature_index(old_position).unwrap();
        proof {
            lemma_occ_index_unique(self@, *old_position, idx as int);
        }
        let entry = self.creatures.remove(idx);
        proof {
            assert(self@ =~= (WorldView { occ: old(self)@.occ.remove(idx as int), ..old(self)@ }));
            lemma_remove_frame(old(self)@, self@, idx as int);
        }
        let ghost wmid = self@;
        self.creatures.push((new_position, entry.1));
        proof {
            assert(old(self)@.occ[idx as int].1 == entry.1);
            assert(occ_entry_ok(old(self)@, idx as int));
            assert(self@ =~= (WorldView {
                occ: wmid.occ.push((new_position, entry.1)),
                ..wmid
            }));
            lemma_push_frame(wmid, self@, new_position, entry.1);
            assert(self@ =~= spec_move(old(self)@, *old_position, new_position));
        }
    }

    /// Places a creature at a cell; the placement is skipped when the cell
    /// is out of bounds, impassable, or occupied.
    pub fn spawn_creature(&mut self, position: Position, creature: Creature)
        requires
            wf(old(self)@),
            creature_ok(creature),
        ensures
            wf(final(self)@),
            final(self)@ == spec_spawn(old(self)@, position, creature),
    {
        if !self.check_bounds(&position) {
            return;
        }
        let passable = match self.get_tile(&position) {
            Some(tile) => tile.can_contain_creature(),
            None => false,
        };
        if !passable {
            return;
        }
        if self.contains_creature(&position) {
            return;
        }
        let ghost c = creature;
        self.creatures.push((position, creature));
        proof {
            assert(self@ =~= (WorldView { occ: old(self)@.occ.push((position, c)), ..old(self)@ }));
            lemma_push_frame(old(self)@, self@, position, c);
            assert(self@ =~= spec_spawn(old(self)@, position, c));
        }
    }

    /// Gives the creature at `new_position`, if one is there, a shared
    /// handle to the brain of the creature at `old_position`.
    fn copy_dna(&mut self, old_position: &Position, new_position: &Position)
        requires
            wf(old(self)@),
            occ_has(old(self)@, *old_position),
        ensures
            wf(final(self)@),
            final(self)@ == spec_copy(old(self)@, *old_position, *new_position),
    {
        if *old_position == *new_position {
            return;
        }
        let dst = match self.find_creature_index(new_position) {
            Some(j) => j,
            None => {
                return;
            },
        };
        let src = self.find_creature_index(old_position).unwrap();
        proof {
            lemma_occ_index_unique(self@, *new_position, dst as int);
            lemma_occ_index_unique(self@, *old_position, src as int);
        }
        let brain = match &self.creatures[src].1.brain {
            Some(b) => Some(crate::neural_network::share_brain(b)),
            None => None,
        };
        let dest = self.creatures[dst].1.duplicate();
        let updated = Creature { brain, ..dest };
        let ghost c2 = updated;
        self.creatures[dst] = (*new_position, updated);
        proof {
            assert(occ_entry_ok(old(self)@, src as int));
            assert(occ_entry_ok(old(self)@, dst as int));
            assert(creature_ok(old(self)@.occ[src as int].1));
            assert(self@ =~= (WorldView {
                occ: old(self)@.occ.update(dst as int, (*new_position, c2)),
                ..old(self)@
            }));
            lemma_update_frame(old(self)@, self@, dst as int, c2);
            assert(self@ =~= spec_copy(old(self)@, *old_position, *new_position));
        }
    }

    /// Applies one decided action at an occupied position, per the action
    /// effects: cost deduction, death on insufficient energy, then the
    /// action's own effect.
    pub fn apply_action(&mut self, position: &Position, action: Action)
        requires
            wf(old(self)@),
            occ_has(old(self)@, *position),
        ensures
            wf(final(self)@),
            final(self)@ == spec_apply_action(old(self)@, *position, action),
    {
        let idx = self.find_creature_index(position).unwrap();
        proof {
            lemma_occ_index_unique(self@, *position, idx as int);
            assert(occ_entry_ok(self@, idx as int));
        }
        let creature = self.creatures[idx].1.duplicate();
        let energy_cost = action.energy_cost();
        if creature.energy < energy_cost {
            self.kill_creature(position);
            proof {
                assert(self@ =~= spec_apply_action(old(self)@, *position, action));
            }
            return;
        }
        let c1 = Creature { energy: creature.energy.saturating_sub(energy_cost), ..creature };
        let ghost gc1 = c1;
        let ghost w0 = self@;
        match action {
            Action::Idle => {
                self.creatures[idx] = (*position, c1);
                proof {
                    assert(self@ =~= (WorldView {
                        occ: w0.occ.update(idx as int, (*position, gc1)),
                        ..w0
                    }));
                    lemma_update_frame(w0, self@, idx as int, gc1);
                    assert(self@ =~= spec_apply_action(w0, *position, action));
                }
            },
            Action::Eat => {
                proof {
                    lemma_tile_index_in_range(w0, *position);
                }
                let t_idx = position.y * self.width + position.x;
                let had_food = self.tiles[t_idx].has_food();
                if had_food {
                    self.tiles[t_idx] = Tile::Ground(AccessableTileData { food_1: false });
                    let c2 = Creature { energy: c1.energy.saturating_add(50), ..c1 };
                    let ghost gc2 = c2;
                    self.creatures[idx] = (*position, c2);
                    proof {
                        let wt = WorldView {
                            tiles: w0.tiles.update(
                                tile_index(w0, *position),
                                Tile::Ground(AccessableTileData { food_1: false }),
                            ),
                            ..w0
                        };
                        lemma_ground_tile_update_frame(
                            w0,
                            wt,
                            tile_index(w0, *position),
                            AccessableTileData { food_1: false },
                        );
                        assert(self@ =~= (WorldView {
                            occ: wt.occ.update(idx as int, (*position, gc2)),
                            ..wt
                        }));
                        lemma_update_frame(wt, self@, idx as int, gc2);
                        let w1 = WorldView { occ: w0.occ.update(idx as int, (*position, gc1)), ..w0 };
                        assert(w1.occ.update(idx as int, (*position, gc2)) =~= w0.occ.update(
                            idx as int,
                            (*position, gc2),
                        ));
                        assert(self@ =~= spec_apply_action(w0, *position, action));
                    }
                } else {
                    self.creatures[idx] = (*position, c1);
                    proof {
                        assert(self@ =~= (WorldView {
                            occ: w0.occ.update(idx as int, (*position, gc1)),
                            ..w0
                        }));
                        lemma_update_frame(w0, self@, idx as int, gc1);
                        assert(self@ =~= spec_apply_action(w0, *position, action));
                    }
                }
            },
            Action::Move(location) => {
                let new_position = c1.relative_position(position, location);
                self.creatures[idx] = (*position, c1);
                proof {
                    assert(self@ =~= (WorldView {
                        occ: w0.occ.update(idx as int, (*position, gc1)),
                        ..w0
                    }));
                    lemma_update_frame(w0, self@, idx as int, gc1);
                }
                if self.check_bounds(&new_position) {
                    self.move_creature(position, new_position);
                }
                proof {
                    assert(self@ =~= spec_apply_action(w0, *position, action));
                }
            },
            Action::Rotate(rotation) => {
                let mut facing = c1.rotation;
                facing.rotate(rotation);
                let c2 = Creature { rotation: facing, ..c1 };
                let ghost gc2 = c2;
                self.creatures[idx] = (*position, c2);
                proof {
                    assert(self@ =~= (WorldView {
                        occ: w0.occ.update(idx as int, (*position, gc2)),
                        ..w0
                    }));
                    lemma_update_frame(w0, self@, idx as int, gc2);
                    let w1 = WorldView { occ: w0.occ.update(idx as int, (*position, gc1)), ..w0 };
                    assert(w1.occ.update(idx as int, (*position, gc2)) =~= w0.occ.update(
                        idx as int,
                        (*position, gc2),
                    ));
                    assert(self@ =~= spec_apply_action(w0, *position, action));
                }
            },
            Action::CreateMembrane(location) => {
                let spawn_position = c1.relative_position(position, location);
                let facing = location.to_cardinal(&c1.rotation);
                let c2 = Creature { offspring: c1.offspring.saturating_add(1), ..c1 };
                let warn = c2.offspring > 2;
                let ghost gc2 = c2;
                self.creatures[idx] = (*position, c2);
                proof {
                    assert(self@ =~= (WorldView {
                        occ: w0.occ.update(idx as int, (*position, gc2)),
                        ..w0
                    }));
                    lemma_update_frame(w0, self@, idx as int, gc2);
                    let w1 = WorldView { occ: w0.occ.update(idx as int, (*position, gc1)), ..w0 };
                    assert(w1.occ.update(idx as int, (*position, gc2)) =~= w0.occ.update(
                        idx as int,
                        (*position, gc2),
                    ));
                }
                if warn {
                    note_offspring_threshold();
                }
                let newborn = Creature::new(self.current_tick, facing, None);
                self.spawn_creature(spawn_position, newborn);
                proof {
                    assert(self@ =~= spec_apply_action(w0, *position, action));
                }
            },
            Action::CopyDna(location) => {
                let copy_position = c1.relative_position(position, location);
                self.creatures[idx] = (*position, c1);
                proof {
                    assert(self@ =~= (WorldView {
                        occ: w0.occ.update(idx as int, (*position, gc1)),
                        ..w0
                    }));
                    lemma_update_frame(w0, self@, idx as int, gc1);
                }
                self.copy_dna(position, &copy_position);
                proof {
                    assert(self@ =~= spec_apply_action(w0, *position, action));
                }
            },
        }
    }

    /// Clones of the occupancy entries whose creature has a brain, in
    /// order: the creatures that will decide an action this tick.
    fn collect_deciders(&self) -> (r: Vec<(Position, Creature)>)
        requires
            wf(self@),
        ensures
            r@ == deciders_of(self@.occ),
    {
        let mut out: Vec<(Position, Creature)> = Vec::new();
        let mut i: usize = 0;
        while i < self.creatures.len()
            invariant
                i <= self@.occ.len(),
                out@ == deciders_of(self@.occ.take(i as int)),
            decreases self@.occ.len() - i,
        {
            proof {
                assert(self@.occ.take(i + 1).drop_last() =~= self@.occ.take(i as int));
                assert(self@.occ.take(i + 1).last() == self@.occ[i as int]);
            }
            if self.creatures[i].1.has_brain() {
                let p = self.creatures[i].0;
                let c = self.creatures[i].1.duplicate();
                out.push((p, c));
            }
            i = i + 1;
        }
        proof {
            assert(self@.occ.take(self@.occ.len() as int) =~= self@.occ);
        }
        out
    }

    /// Attempts one random spawn: a fresh creature with a random brain and
    /// facing at a random position, placed only if the cell is free and
    /// passable.
    pub fn randomize_creature(&mut self)
        requires
            wf(old(self)@),
        ensures
            wf(final(self)@),
            final(self)@.tiles == old(self)@.tiles,
            same_frame(old(self)@, final(self)@),
            exists|p: Position, c: Creature|
                spawn_candidate(old(self)@, p, c) && final(self)@ == #[trigger] spec_spawn(
                    old(self)@,
                    p,
                    c,
                ),
    {
        let position = Position::randomize(self.width, self.height);
        let rotation = CardinalDirection::randomize();
        let brain = Some(Arc::new(NeuralNetwork::randomize()));
        let creature = Creature::new(self.current_tick, rotation, brain);
        let ghost gp = position;
        let ghost gc = creature;
        self.spawn_creature(position, creature);
        proof {
            assert(spawn_candidate(old(self)@, gp, gc));
            assert(final(self)@ == spec_spawn(old(self)@, gp, gc));
        }
    }

    /// Attempts one random food placement: the tile at a random position
    /// gets its food flag set when it is ground; lava is left alone.
    pub fn regenerate_food(&mut self)
        requires
            wf(old(self)@),
        ensures
            wf(final(self)@),
            final(self)@.occ == old(self)@.occ,
            same_frame(old(self)@, final(self)@),
            exists|p: Position|
                spec_in_bounds(old(self)@, p) && final(self)@ == #[trigger] spec_food_at(
                    old(self)@,
                    p,
                ),
    {
        let position = Position::randomize(self.width, self.height);
        let ghost gp = position;
        proof {
            lemma_tile_index_in_range(self@, gp);
        }
        let t_idx = position.x + position.y * self.width;
        match self.tiles[t_idx] {
            Tile::Ground(_) => {
                self.tiles[t_idx] = Tile::Ground(AccessableTileData { food_1: true });
                proof {
                    let w0 = old(self)@;
                    assert(self@ =~= (WorldView {
                        tiles: w0.tiles.update(
                            tile_index(w0, gp),
                            Tile::Ground(AccessableTileData { food_1: true }),
                        ),
                        ..w0
                    }));
                    lemma_ground_tile_update_frame(
                        w0,
                        self@,
                        tile_index(w0, gp),
                        AccessableTileData { food_1: true },
                    );
                    assert(self@ =~= spec_food_at(w0, gp));
                    assert forall|t: int|
                        0 <= t < w0.tiles.len() implies (((#[trigger] self@.tiles[t]) is Lava)
                        <==> (w0.tiles[t] is Lava)) by {
                        if t == tile_index(w0, gp) {
                            assert(w0.tiles[t] is Ground);
                        }
                    }
                }
            },
            Tile::Lava => {
                proof {
                    assert(self@ =~= spec_food_at(old(self)@, gp));
                }
            },
        }
    }

    /// Advances the simulation by one tick: the counter moves first, then
    /// the four phases run in order — every brained creature decides
    /// against the tick-start world (in parallel), the decisions are
    /// applied one at a time, random spawns are attempted, and food
    /// regenerates.
    pub fn tick(&mut self)
        requires
            wf(old(self)@),
            old(self)@.tick < u64::MAX,
        ensures
            wf(final(self)@),
            same_frame(bumped(old(self)@), final(self)@),
            final(self)@.tick == old(self)@.tick + 1,
            exists|ds: Seq<(Position, Action)>, wa: WorldView, ws: WorldView|
                decisions_ok(bumped(old(self)@), ds) && wa == #[trigger] apply_phase(
                    bumped(old(self)@),
                    ds,
                ) && #[trigger] spawn_phase_rel(wa, old(self)@.creature_generation_rate, ws)
                    && food_phase_rel(ws, old(self)@.food_regen_rate, final(self)@),
    {
        self.current_tick = self.current_tick + 1;
        let ghost w_start = self@;
        proof {
            assert(w_start =~= bumped(old(self)@));
            assert forall|k: int| 0 <= k < w_start.occ.len() implies #[trigger] occ_entry_ok(
                w_start,
                k,
            ) by {
                assert(occ_entry_ok(old(self)@, k));
            }
            lemma_deciders_props(w_start.occ);
        }
        let deciders = self.collect_deciders();
        proof {
            assert forall|i: int| 0 <= i < deciders@.len() implies creature_ok(
                (#[trigger] deciders@[i]).1,
            ) by {
                assert(exists|j: int|
                    0 <= j < w_start.occ.len() && deciders_of(w_start.occ)[i] == w_start.occ[j]);
                let j = choose|j: int|
                    0 <= j < w_start.occ.len() && deciders_of(w_start.occ)[i] == w_start.occ[j];
                assert(occ_entry_ok(w_start, j));
            }
        }
        let actions = par_decide(self, &deciders);
        let ghost ds = actions@;
        proof {
            assert(decisions_ok(w_start, ds));
            assert(ds.take(0) =~= Seq::<(Position, Action)>::empty());
        }
        let mut i: usize = 0;
        while i < actions.len()
            invariant
                i <= ds.len(),
                actions@ == ds,
                ds.len() == deciders_of(w_start.occ).len(),
                forall|k: int|
                    0 <= k < ds.len() ==> (#[trigger] ds[k]).0 == deciders_of(w_start.occ)[k].0,
                occ_distinct(deciders_of(w_start.occ)),
                wf(self@),
                same_frame(w_start, self@),
                forall|k: int| i <= k < ds.len() ==> #[trigger] occ_has(self@, ds[k].0),
                self@ == apply_phase(w_start, ds.take(i as int)),
            decreases ds.len() - i,
        {
            let pa = actions[i];
            let ghost w_before = self@;
            proof {
                assert(occ_has(w_before, ds[i as int].0));
            }
            self.apply_action(&pa.0, pa.1);
            proof {
                lemma_apply_action_frame(w_before, pa.0, pa.1);
                assert(ds.take(i + 1).drop_last() =~= ds.take(i as int));
                assert(ds.take(i + 1).last() == ds[i as int]);
                assert(self@ == apply_phase(w_start, ds.take(i + 1)));
                assert forall|t: int|
                    0 <= t < w_start.tiles.len() implies (((#[trigger] self@.tiles[t]) is Lava)
                    <==> (w_start.tiles[t] is Lava)) by {
                    assert((w_before.tiles[t] is Lava) <==> (w_start.tiles[t] is Lava));
                }
                assert forall|k: int| i + 1 <= k < ds.len() implies #[trigger] occ_has(
                    self@,
                    ds[k].0,
                ) by {
                    assert(ds[k].0 == deciders_of(w_start.occ)[k].0);
                    assert(ds[i as int].0 == deciders_of(w_start.occ)[i as int].0);
                    assert(deciders_of(w_start.occ)[k].0 != deciders_of(w_start.occ)[i as int].0);
                    assert(occ_has(w_before, ds[k].0));
                }
            }
            i = i + 1;
        }
        proof {
            assert(ds.take(ds.len() as int) =~= ds);
        }
        let ghost w_applied = self@;
        let gen_rate = self.settings.creature_generation_rate;
        let mut s: u16 = 0;
        while s < gen_rate
            invariant
                s <= gen_rate,
                wf(self@),
                gen_rate as int == w_applied.creature_generation_rate,
                self@.tiles == w_applied.tiles,
                self@.width == w_applied.width,
                self@.height == w_applied.height,
                self@.tick == w_applied.tick,
                self@.food_regen_rate == w_applied.food_regen_rate,
                self@.creature_generation_rate == w_applied.creature_generation_rate,
                spawn_phase_rel(w_applied, s as int, self@),
            decreases gen_rate - s,
        {
            let ghost w_before = self@;
            self.randomize_creature();
            proof {
                assert(spawn_phase_rel(w_applied, s as int, w_before));
                let (gp, gc) = choose|p: Position, c: Creature|
                    spawn_candidate(w_before, p, c) && self@ == #[trigger] spec_spawn(
                        w_before,
                        p,
                        c,
                    );
                assert(spawn_phase_rel(w_applied, s + 1, self@));
            }
            s = s + 1;
        }
        let ghost w_spawned = self@;
        let food_rate = self.settings.food_regen_rate;
        let mut f: u16 = 0;
        while f < food_rate
            invariant
                f <= food_rate,
                wf(self@),
                food_rate as int == w_spawned.food_regen_rate,
                same_frame(w_spawned, self@),
                food_phase_rel(w_spawned, f as int, self@),
            decreases food_rate - f,
        {
            let ghost w_before = self@;
            self.regenerate_food();
            proof {
                assert(food_phase_rel(w_spawned, f as int, w_before));
                let gp = choose|p: Position|
                    spec_in_bounds(w_before, p) && self@ == #[trigger] spec_food_at(w_before, p);
                assert(food_phase_rel(w_spawned, f + 1, self@));
                assert forall|t: int|
                    0 <= t < w_spawned.tiles.len() implies (((#[trigger] self@.tiles[t]) is Lava)
                    <==> (w_spawned.tiles[t] is Lava)) by {
                    assert((w_before.tiles[t] is Lava) <==> (w_spawned.tiles[t] is Lava));
                }
            }
            f = f + 1;
        }
        proof {
            assert(same_frame(w_applied, w_spawned));
            assert forall|t: int|
                0 <= t < w_start.tiles.len() implies (((#[trigger] self@.tiles[t]) is Lava) <==> (
                w_start.tiles[t] is Lava)) by {
                assert((self@.tiles[t] is Lava) <==> (w_spawned.tiles[t] is Lava));
                assert((w_applied.tiles[t] is Lava) <==> (w_start.tiles[t] is Lava));
            }
            assert(same_frame(bumped(old(self)@), final(self)@));
            assert(decisions_ok(bumped(old(self)@), ds) && w_applied == apply_phase(
                bumped(old(self)@),
                ds,
            ) && spawn_phase_rel(w_applied, old(self)@.creature_generation_rate, w_spawned)
                && food_phase_rel(w_spawned, old(self)@.food_regen_rate, final(self)@));
        }
    }

    /// The world as a row-major pixel buffer, four bytes per tile.
    pub fn to_rgba_image(&self) -> (r: Vec<u8>)
        requires
            wf(self@),
            self@.tiles.len() * 4 <= usize::MAX,
        ensures
            rgba_ok(self@, r@),
    {
        let total = self.tiles.len();
        let mut out: Vec<u8> = Vec::new();
        let mut i: usize = 0;
        while i < total
            invariant
                i <= total,
                total == self@.tiles.len(),
                total * 4 <= usize::MAX,
                out@.len() == i * 4,
                forall|t: int|
                    0 <= t < i ==> {
                        let color = spec_tile_color(#[trigger] self@.tiles[t]);
                        out@[4 * t] == color.r && out@[4 * t + 1] == color.g && out@[4 * t + 2]
                            == color.b && out@[4 * t + 3] == 255u8
                    },
            decreases total - i,
        {
            proof {
                assert((i + 1) * 4 <= total * 4) by (nonlinear_arith)
                    requires
                        i < total,
                ;
                assert(i * 4 + 4 == (i + 1) * 4) by (nonlinear_arith);
            }
            let color = self.tiles[i].color();
            out.push(color.r);
            out.push(color.g);
            out.push(color.b);
            out.push(255);
            i = i + 1;
        }
        out
    }

    /// The largest neuron count among living creatures' brains; zero when
    /// no creature has a brain.
    pub fn max_brain_neuron_count(&self) -> (r: usize)
        requires
            wf(self@),
        ensures
            forall|k: int| 0 <= k < self@.occ.len() ==> brain_size((#[trigger] self@.occ[k]).1) <= r,
            r == 0 || exists|k: int|
                0 <= k < self@.occ.len() && brain_size((#[trigger] self@.occ[k]).1) == r,
    {
        let mut best: usize = 0;
        let mut i: usize = 0;
        while i < self.creatures.len()
            invariant
                i <= self@.occ.len(),
                forall|k: int| 0 <= k < i ==> brain_size((#[trigger] self@.occ[k]).1) <= best,
                best == 0 || exists|k: int|
                    0 <= k < i && brain_size((#[trigger] self@.occ[k]).1) == best,
            decreases self@.occ.len() - i,
        {
            let size = match &self.creatures[i].1.brain {
                Some(b) => {
                    let nn: &NeuralNetwork = &**b;
                    nn.neurons.len()
                },
                None => 0,
            };
            if size > best {
                best = size;
            }
            i = i + 1;
        }
        best
    }

    /// The pull interface for a host or rendering layer: the pixel buffer
    /// and the summary statistics, read from the world as it stands.
    pub fn snapshot(&self) -> (r: (Vec<u8>, SnapshotStats))
        requires
            wf(self@),
            self@.tiles.len() * 4 <= usize::MAX,
        ensures
            rgba_ok(self@, r.0@),
            r.1.current_tick == self@.tick,
            r.1.creature_count == self@.occ.len(),
            forall|k: int|
                0 <= k < self@.occ.len() ==> brain_size((#[trigger] self@.occ[k]).1)
                    <= r.1.max_brain_neuron_count,
    {
        let pixels = self.to_rgba_image();
        let stats = SnapshotStats {
            current_tick: self.current_tick,
            creature_count: self.creatures.len(),
            max_brain_neuron_count: self.max_brain_neuron_count(),
        };
        (pixels, stats)
    }

    /// The creature at a position, if any.
    pub fn get_creature(&self, position: &Position) -> (r: Option<&Creature>)
        requires
            wf(self@),
        ensures
            match r {
                Some(c) => occ_has(self@, *position) && *c == creature_at(self@, *position),
                None => !occ_has(self@, *position),
            },
    {
        match self.find_creature_index(position) {
            Some(i) => {
                proof {
                    lemma_occ_index_unique(self@, *position, i as int);
                }
                Some(&self.creatures[i].1)
            },
            None => None,
        }
    }
}

} // verus!

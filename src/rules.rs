//! The schema's data model: directions, coordinates, blocks, ants, rules,
//! rulesets and global properties, with their mathematical views.
use vstd::prelude::*;
use crate::text::{eq_ignore_ascii_case, eq_ignore_case};

verus! {

/// The state every ant starts in.
pub const INITIAL_STATE: &'static str = "initial";

/// An ant's state: an opaque, case-sensitive name.
pub type State = String;

/// A cell coordinate or an offset between cells.
#[derive(Clone, Copy, Debug, PartialEq, Eq, Hash, Structural)]
pub struct Coordinate {
    pub x: i32,
    pub y: i32,
    pub z: i32,
}

/// The material stored in one cell: an identifier and a modifier.
#[derive(Clone, Copy, Debug, PartialEq, Eq, Hash, Structural)]
pub struct Block {
    pub id: u32,
    pub modifier: u32,
}

/// One of the six axis-aligned directions an ant can face.
#[derive(Clone, Copy, Debug, PartialEq, Eq, Structural)]
pub enum Direction {
    East,
    West,
    South,
    North,
    Up,
    Down,
}

/// The unit vector of a direction.
pub open spec fn unit_offset(d: Direction) -> Coordinate {
    match d {
        Direction::East => Coordinate { x: 1, y: 0, z: 0 },
        Direction::West => Coordinate { x: -1i32, y: 0, z: 0 },
        Direction::South => Coordinate { x: 0, y: 0, z: 1 },
        Direction::North => Coordinate { x: 0, y: 0, z: -1i32 },
        Direction::Up => Coordinate { x: 0, y: 1, z: 0 },
        Direction::Down => Coordinate { x: 0, y: -1i32, z: 0 },
    }
}

/// Componentwise addition of coordinates; a component that leaves the range
/// of `i32` wraps around.
pub open spec fn coord_add(a: Coordinate, b: Coordinate) -> Coordinate {
    Coordinate {
        x: a.x.wrapping_add(b.x),
        y: a.y.wrapping_add(b.y),
        z: a.z.wrapping_add(b.z),
    }
}

impl Coordinate {
    pub fn new(x: i32, y: i32, z: i32) -> (r: Coordinate)
        ensures
            r == (Coordinate { x, y, z }),
    {
        Coordinate { x, y, z }
    }

    /// Componentwise sum of two coordinates.
    pub fn add(self, other: Coordinate) -> (r: Coordinate)
        ensures
            r == coord_add(self, other),
    {
        Coordinate {
            x: self.x.wrapping_add(other.x),
            y: self.y.wrapping_add(other.y),
            z: self.z.wrapping_add(other.z),
        }
    }
}

impl Direction {
    /// The unit vector of this direction, as `[x, y, z]`.
    pub fn into_vec3(self) -> (r: [i32; 3])
        ensures
            r[0] == unit_offset(self).x,
            r[1] == unit_offset(self).y,
            r[2] == unit_offset(self).z,
    {
        match self {
            Direction::East => [1, 0, 0],
            Direction::West => [-1, 0, 0],
            Direction::South => [0, 0, 1],
            Direction::North => [0, 0, -1],
            Direction::Up => [0, 1, 0],
            Direction::Down => [0, -1, 0],
        }
    }
}

/// An ant: a prototype from the schema, or a live agent of a simulation.
#[derive(Clone, Debug)]
pub struct Ant {
    pub ruleset: String,
    pub offset: Coordinate,
    pub position: Coordinate,
    pub facing: Direction,
    pub state: State,
    pub halted: bool,
    pub id: usize,
}

pub struct AntView {
    pub ruleset: Seq<char>,
    pub offset: Coordinate,
    pub position: Coordinate,
    pub facing: Direction,
    pub state: Seq<char>,
    pub halted: bool,
    pub id: usize,
}

impl View for Ant {
    type V = AntView;

    open spec fn view(&self) -> AntView {
        AntView {
            ruleset: self.ruleset@,
            offset: self.offset,
            position: self.position,
            facing: self.facing,
            state: self.state@,
            halted: self.halted,
            id: self.id,
        }
    }
}

impl Ant {
    /// Moves the ant one cell along the direction it faces.
    pub fn move_forward(&mut self)
        ensures
            final(self)@ == (AntView {
                position: coord_add(old(self).position, unit_offset(old(self).facing)),
                ..old(self)@
            }),
    {
        let v = self.facing.into_vec3();
        let offset = Coordinate::new(v[0], v[1], v[2]);
        self.position = self.position.add(offset);
    }

    /// A copy of this ant.
    pub fn duplicate(&self) -> (r: Ant)
        ensures
            r@ == self@,
    {
        Ant {
            ruleset: self.ruleset.clone(),
            offset: self.offset,
            position: self.position,
            facing: self.facing,
            state: self.state.clone(),
            halted: self.halted,
            id: self.id,
        }
    }
}

/// A guarded transition. An empty `from_*` list matches any value of its slot.
#[derive(Debug)]
pub struct Rule {
    pub from_state: Vec<State>,
    pub from_block: Vec<Block>,
    pub from_facing: Vec<Direction>,
    pub to_state: State,
    pub to_block: Option<Block>,
    pub to_facing: Option<Direction>,
    pub spawn: Option<Ant>,
}

pub struct RuleView {
    pub from_state: Seq<Seq<char>>,
    pub from_block: Seq<Block>,
    pub from_facing: Seq<Direction>,
    pub to_state: Seq<char>,
    pub to_block: Option<Block>,
    pub to_facing: Option<Direction>,
    pub spawn: Option<AntView>,
}

pub open spec fn opt_ant_view(a: Option<Ant>) -> Option<AntView> {
    match a {
        Some(a) => Some(a@),
        None => None,
    }
}

impl View for Rule {
    type V = RuleView;

    open spec fn view(&self) -> RuleView {
        RuleView {
            from_state: self.from_state@.map_values(|s: State| s@),
            from_block: self.from_block@,
            from_facing: self.from_facing@,
            to_state: self.to_state@,
            to_block: self.to_block,
            to_facing: self.to_facing,
            spawn: opt_ant_view(self.spawn),
        }
    }
}

/// A named, ordered list of rules.
#[derive(Debug)]
pub struct Ruleset {
    pub name: String,
    pub rules: Vec<Rule>,
}

pub struct RulesetView {
    pub name: Seq<char>,
    pub rules: Seq<RuleView>,
}

impl View for Ruleset {
    type V = RulesetView;

    open spec fn view(&self) -> RulesetView {
        RulesetView { name: self.name@, rules: rule_views(self.rules@) }
    }
}

/// The index of the first ruleset at or after `i` called `name` (ASCII case ignored).
pub open spec fn ruleset_from(rulesets: Seq<RulesetView>, name: Seq<char>, i: int) -> Option<int>
    decreases rulesets.len() - i,
{
    if i < 0 || i >= rulesets.len() {
        None
    } else if eq_ignore_case(rulesets[i].name, name) {
        Some(i)
    } else {
        ruleset_from(rulesets, name, i + 1)
    }
}

/// The index of the first ruleset called `name` (ASCII case ignored).
pub open spec fn ruleset_named(rulesets: Seq<RulesetView>, name: Seq<char>) -> Option<int> {
    ruleset_from(rulesets, name, 0)
}

pub open spec fn ant_views(ants: Seq<Ant>) -> Seq<AntView> {
    ants.map_values(|a: Ant| a@)
}

pub open spec fn rule_views(rules: Seq<Rule>) -> Seq<RuleView> {
    rules.map_values(|r: Rule| r@)
}

pub open spec fn ruleset_views(rulesets: Seq<Ruleset>) -> Seq<RulesetView> {
    rulesets.map_values(|r: Ruleset| r@)
}

/// The index of the first ruleset called `name`, ASCII case ignored.
pub fn ruleset_position(rulesets: &Vec<Ruleset>, name: &str) -> (r: Option<usize>)
    ensures
        match r {
            Some(i) => ruleset_named(ruleset_views(rulesets@), name@) == Some(i as int) && i
                < rulesets@.len(),
            None => ruleset_named(ruleset_views(rulesets@), name@).is_none(),
        },
{
    let ghost v = ruleset_views(rulesets@);
    let mut i: usize = 0;
    while i < rulesets.len()
        invariant
            i <= rulesets@.len(),
            v == ruleset_views(rulesets@),
            ruleset_named(v, name@) == ruleset_from(v, name@, i as int),
        decreases rulesets@.len() - i,
    {
        assert(v[i as int] == rulesets@[i as int]@);
        if eq_ignore_ascii_case(rulesets[i].name.as_str(), name) {
            return Some(i);
        }
        i = i + 1;
    }
    None
}

/// Global properties: the delay between ticks in milliseconds, and the
/// population cap.
#[derive(Clone, Copy, Debug, PartialEq, Eq, Structural)]
pub struct Properties {
    pub delay: Option<u64>,
    pub cap: Option<usize>,
}

impl Default for Properties {
    fn default() -> (r: Properties)
        ensures
            r == (Properties { delay: None, cap: None }),
    {
        Properties { delay: None, cap: None }
    }
}

/// A parsed program: ant prototypes, rulesets and properties.
#[derive(Debug)]
pub struct Schema {
    pub ants: Vec<Ant>,
    pub rulesets: Vec<Ruleset>,
    pub properties: Properties,
}

pub struct SchemaView {
    pub ants: Seq<AntView>,
    pub rulesets: Seq<RulesetView>,
    pub properties: Properties,
}

impl View for Schema {
    type V = SchemaView;

    open spec fn view(&self) -> SchemaView {
        SchemaView {
            ants: ant_views(self.ants@),
            rulesets: ruleset_views(self.rulesets@),
            properties: self.properties,
        }
    }
}

} // verus!

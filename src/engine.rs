//! The decisions of the simulation: which rule an ant follows, what one
//! step of an ant does, and how the population cap is enforced. Reading and
//! writing cells, and waiting between ticks, are left to the caller, which
//! hands in the block under an ant and performs the write that a step asks for.
use vstd::prelude::*;
use crate::text::eq_ignore_case;
use crate::rules::{
    ant_views, coord_add, ruleset_from, ruleset_named, ruleset_position, unit_offset, Ant, AntView, Block,
    Coordinate, Direction, Properties, Rule, RuleView, Ruleset, RulesetView, Schema, SchemaView,
};

verus! {

/// The tick delay, in milliseconds, where the schema sets none.
pub const DEFAULT_DELAY_MS: u64 = 100;

/// The population cap where the schema sets none.
pub const DEFAULT_CAP: usize = 50;

impl Properties {
    /// The tick delay in milliseconds, the default where none was set.
    pub fn delay_or_default(&self) -> (r: u64)
        ensures
            r == match self.delay {
                Some(d) => d,
                None => DEFAULT_DELAY_MS,
            },
    {
        match self.delay {
            Some(d) => d,
            None => DEFAULT_DELAY_MS,
        }
    }

    /// The population cap, the default where none was set.
    pub fn cap_or_default(&self) -> (r: usize)
        ensures
            r == match self.cap {
                Some(c) => c,
                None => DEFAULT_CAP,
            },
    {
        match self.cap {
            Some(c) => c,
            None => DEFAULT_CAP,
        }
    }
}

/// A predicate slot: an empty list matches every value, a non-empty one the
/// values it holds.
pub open spec fn slot_matches<T>(options: Seq<T>, value: T) -> bool {
    options.len() == 0 || options.contains(value)
}

/// Whether `rule` applies to an ant in `state`, facing `facing`, on `block`.
pub open spec fn rule_matches(rule: RuleView, state: Seq<char>, block: Block, facing: Direction) -> bool {
    &&& slot_matches(rule.from_state, state)
    &&& slot_matches(rule.from_block, block)
    &&& slot_matches(rule.from_facing, facing)
}

/// The index of the first rule at or after `i` that applies.
pub open spec fn first_match_from(
    rules: Seq<RuleView>,
    state: Seq<char>,
    block: Block,
    facing: Direction,
    i: int,
) -> Option<int>
    decreases rules.len() - i,
{
    if i < 0 || i >= rules.len() {
        None
    } else if rule_matches(rules[i], state, block, facing) {
        Some(i)
    } else {
        first_match_from(rules, state, block, facing, i + 1)
    }
}

/// The index of the first rule that applies: rules are tried in order.
pub open spec fn first_match(rules: Seq<RuleView>, state: Seq<char>, block: Block, facing: Direction) -> Option<int> {
    first_match_from(rules, state, block, facing, 0)
}

/// The rule that `ant` follows on `block`: the first applicable rule of the
/// first ruleset named as the ant's (ASCII case ignored).
pub open spec fn resolve(schema: SchemaView, ant: AntView, block: Block) -> Option<RuleView> {
    match ruleset_named(schema.rulesets, ant.ruleset) {
        None => None,
        Some(i) => match first_match(schema.rulesets[i].rules, ant.state, block, ant.facing) {
            None => None,
            Some(j) => Some(schema.rulesets[i].rules[j]),
        },
    }
}

/// The ruleset that `ant` runs under.
pub fn find_ruleset<'s>(schema: &'s Schema, ant: &Ant) -> (r: Option<&'s Ruleset>)
    ensures
        match ruleset_named(schema@.rulesets, ant.ruleset@) {
            None => r.is_none(),
            Some(i) => r.is_some() && r.unwrap()@ == schema@.rulesets[i],
        },
{
    match ruleset_position(&schema.rulesets, ant.ruleset.as_str()) {
        Some(i) => {
            assert(schema@.rulesets[i as int] == schema.rulesets@[i as int]@);
            Some(&schema.rulesets[i])
        },
        None => None,
    }
}

fn contains_state(options: &Vec<String>, value: &String) -> (r: bool)
    ensures
        r == options@.map_values(|s: String| s@).contains(value@),
{
    let ghost v = options@.map_values(|s: String| s@);
    let mut i: usize = 0;
    while i < options.len()
        invariant
            i <= options@.len(),
            v == options@.map_values(|s: String| s@),
            forall|j: int| 0 <= j < i ==> v[j] != value@,
        decreases options@.len() - i,
    {
        if options[i] == *value {
            assert(v[i as int] == value@);
            return true;
        }
        i = i + 1;
    }
    false
}

fn contains_block(options: &Vec<Block>, value: Block) -> (r: bool)
    ensures
        r == options@.contains(value),
{
    let mut i: usize = 0;
    while i < options.len()
        invariant
            i <= options@.len(),
            forall|j: int| 0 <= j < i ==> options@[j] != value,
        decreases options@.len() - i,
    {
        if options[i] == value {
            assert(options@[i as int] == value);
            return true;
        }
        i = i + 1;
    }
    false
}

fn contains_direction(options: &Vec<Direction>, value: Direction) -> (r: bool)
    ensures
        r == options@.contains(value),
{
    let mut i: usize = 0;
    while i < options.len()
        invariant
            i <= options@.len(),
            forall|j: int| 0 <= j < i ==> options@[j] != value,
        decreases options@.len() - i,
    {
        if options[i] == value {
            assert(options@[i as int] == value);
            return true;
        }
        i = i + 1;
    }
    false
}

/// Whether `rule` applies to `ant` on `block`.
pub fn rule_applies(rule: &Rule, ant: &Ant, block: Block) -> (r: bool)
    ensures
        r == rule_matches(rule@, ant.state@, block, ant.facing),
{
    (rule.from_state.len() == 0 || contains_state(&rule.from_state, &ant.state)) && (
    rule.from_block.len() == 0 || contains_block(&rule.from_block, block)) && (
    rule.from_facing.len() == 0 || contains_direction(&rule.from_facing, ant.facing))
}

/// The rule that `ant` follows on `block`, if any.
pub fn find_rule<'s>(schema: &'s Schema, ant: &Ant, block: Block) -> (r: Option<&'s Rule>)
    ensures
        match resolve(schema@, ant@, block) {
            None => r.is_none(),
            Some(rule) => r.is_some() && r.unwrap()@ == rule,
        },
{
    let ruleset = find_ruleset(schema, ant)?;
    let ghost rules = ruleset@.rules;
    let mut i: usize = 0;
    while i < ruleset.rules.len()
        invariant
            i <= ruleset.rules@.len(),
            rules == ruleset@.rules,
            match ruleset_named(schema@.rulesets, ant.ruleset@) {
                Some(k) => ruleset@ == schema@.rulesets[k],
                None => false,
            },
            first_match(rules, ant.state@, block, ant.facing) == first_match_from(
                rules,
                ant.state@,
                block,
                ant.facing,
                i as int,
            ),
        decreases ruleset.rules@.len() - i,
    {
        assert(rules[i as int] == ruleset.rules@[i as int]@);
        if rule_applies(&ruleset.rules[i], ant, block) {
            assert(first_match(rules, ant.state@, block, ant.facing) == Some(i as int));
            return Some(&ruleset.rules[i]);
        }
        i = i + 1;
    }
    None
}

/// What one step of ant `index` does on `block`: the ants afterwards, the
/// next free identity, and the cell write it asks for (where, and what).
/// A halted ant stays as it is. An ant with no applicable rule halts. Else
/// the ant takes the rule's state and facing (where the rule gives one) and
/// moves one cell along its new facing; a spawn clause appends a new ant at
/// the acting ant's position before the move, with the next identity.
pub open spec fn step_result(
    schema: SchemaView,
    ants: Seq<AntView>,
    next_id: usize,
    index: int,
    block: Block,
) -> (Seq<AntView>, int, Option<(Coordinate, Block)>) {
    let a = ants[index];
    if a.halted {
        (ants, next_id as int, None)
    } else {
        match resolve(schema, a, block) {
            None => (ants.update(index, AntView { halted: true, ..a }), next_id as int, None),
            Some(rule) => {
                let facing = match rule.to_facing {
                    Some(f) => f,
                    None => a.facing,
                };
                let moved = AntView {
                    state: rule.to_state,
                    facing,
                    position: coord_add(a.position, unit_offset(facing)),
                    ..a
                };
                let write = match rule.to_block {
                    Some(b) => Some((a.position, b)),
                    None => None,
                };
                match rule.spawn {
                    None => (ants.update(index, moved), next_id as int, write),
                    Some(proto) => (
                        ants.update(index, moved).push(
                            AntView { position: a.position, id: next_id, ..proto },
                        ),
                        next_id + 1,
                        write,
                    ),
                }
            },
        }
    }
}

/// The live population of a running simulation.
pub struct Simulation {
    pub ants: Vec<Ant>,
    pub next_id: usize,
}

impl Simulation {
    /// Every identity is below the next free one, and no two ants share one.
    pub open spec fn wf(&self) -> bool {
        &&& forall|i: int| 0 <= i < self.ants@.len() ==> #[trigger] self.ants@[i].id < self.next_id
        &&& forall|i: int, j: int|
            0 <= i < j < self.ants@.len() ==> #[trigger] self.ants@[i].id != #[trigger] self.ants@[j].id
    }

    /// Starts a simulation: each prototype of the schema becomes a live ant
    /// at `anchor` plus its offset, with identities 0, 1, 2, ... in order.
    pub fn new(schema: &Schema, anchor: Coordinate) -> (r: Simulation)
        ensures
            r.ants@.len() == schema.ants@.len(),
            r.next_id == schema.ants@.len(),
            r.wf(),
            forall|i: int|
                0 <= i < r.ants@.len() ==> #[trigger] r.ants@[i]@ == (AntView {
                    position: coord_add(anchor, schema.ants@[i].offset),
                    id: i as usize,
                    ..schema.ants@[i]@
                }),
    {
        let mut ants: Vec<Ant> = Vec::new();
        let mut i: usize = 0;
        while i < schema.ants.len()
            invariant
                i <= schema.ants@.len(),
                ants@.len() == i,
                forall|j: int|
                    0 <= j < i ==> #[trigger] ants@[j]@ == (AntView {
                        position: coord_add(anchor, schema.ants@[j].offset),
                        id: j as usize,
                        ..schema.ants@[j]@
                    }),
            decreases schema.ants@.len() - i,
        {
            let mut ant = schema.ants[i].duplicate();
            ant.position = anchor.add(ant.offset);
            ant.id = i;
            ants.push(ant);
            i = i + 1;
        }
        let r = Simulation { ants, next_id: i };
        assert forall|j: int| 0 <= j < r.ants@.len() implies #[trigger] r.ants@[j].id == j by {
            assert(r.ants@[j]@.id == j as usize);
        }
        r
    }

    /// Whether every ant has halted (the run is over).
    pub fn all_halted(&self) -> (r: bool)
        ensures
            r == forall|i: int| 0 <= i < self.ants@.len() ==> #[trigger] self.ants@[i].halted,
    {
        let mut i: usize = 0;
        while i < self.ants.len()
            invariant
                i <= self.ants@.len(),
                forall|j: int| 0 <= j < i ==> #[trigger] self.ants@[j].halted,
            decreases self.ants@.len() - i,
        {
            if !self.ants[i].halted {
                return false;
            }
            i = i + 1;
        }
        true
    }

    /// Removes ants from the front (oldest first, halted or not) until at
    /// most `cap` remain.
    pub fn enforce_cap(&mut self, cap: usize)
        ensures
            final(self).next_id == old(self).next_id,
            old(self).ants@.len() <= cap ==> final(self).ants@ == old(self).ants@,
            old(self).ants@.len() > cap ==> final(self).ants@ == old(self).ants@.skip(
                old(self).ants@.len() - cap,
            ),
            old(self).wf() ==> final(self).wf(),
    {
        let ghost all = self.ants@;
        let ghost excess = if all.len() > cap {
            all.len() - cap
        } else {
            0
        };
        let ghost mut removed: int = 0;
        while self.ants.len() > cap
            invariant
                self.next_id == old(self).next_id,
                all == old(self).ants@,
                excess == (if all.len() > cap {
                    all.len() - cap
                } else {
                    0
                }),
                removed <= excess,
                0 <= removed,
                self.ants@ == all.skip(removed),
            decreases self.ants@.len(),
        {
            assert(self.ants@.len() == all.len() - removed);
            let ghost before = self.ants@;
            self.ants.remove(0);
            assert(self.ants@ =~= before.subrange(1, before.len() as int));
            proof {
                removed = removed + 1;
            }
            assert(self.ants@ =~= all.skip(removed));
        }
        assert(all.skip(0) =~= all);
        proof {
            if old(self).wf() {
                assert forall|i: int, j: int| 0 <= i < j < self.ants@.len() implies #[trigger] self.ants@[i].id
                    != #[trigger] self.ants@[j].id by {
                    assert(self.ants@[i] == all[i + removed] && self.ants@[j] == all[j + removed]);
                }
                assert forall|i: int| 0 <= i < self.ants@.len() implies #[trigger] self.ants@[i].id < self.next_id by {
                    assert(self.ants@[i] == all[i + removed]);
                }
            }
        }
    }

    /// Starts a tick: enforces the population cap, and gives how many ants
    /// the tick processes. Ants spawned during the tick come after that
    /// count, so they first act in the next tick.
    pub fn begin_tick(&mut self, cap: usize) -> (r: usize)
        ensures
            final(self).next_id == old(self).next_id,
            old(self).ants@.len() <= cap ==> final(self).ants@ == old(self).ants@,
            old(self).ants@.len() > cap ==> final(self).ants@ == old(self).ants@.skip(
                old(self).ants@.len() - cap,
            ),
            r == final(self).ants@.len(),
            r <= cap,
            old(self).wf() ==> final(self).wf(),
    {
        self.enforce_cap(cap);
        self.ants.len()
    }

    /// The first ant at or after `from`, and before `end`, that has not
    /// halted: the next one a tick processes.
    pub fn next_in_tick(&self, from: usize, end: usize) -> (r: Option<usize>)
        ensures
            match r {
                Some(k) => from <= k < end && k < self.ants@.len() && !self.ants@[k as int].halted
                    && forall|j: int| from <= j < k ==> #[trigger] self.ants@[j].halted,
                None => forall|j: int|
                    from <= j < end && j < self.ants@.len() ==> #[trigger] self.ants@[j].halted,
            },
    {
        let mut k = from;
        while k < end && k < self.ants.len()
            invariant
                from <= k,
                forall|j: int| from <= j < k ==> #[trigger] self.ants@[j].halted,
            decreases end - k,
        {
            if !self.ants[k].halted {
                return Some(k);
            }
            k = k + 1;
        }
        None
    }

    /// One step of ant `index`, given the block under it. Gives the cell
    /// write the step asks for, if any: the caller performs it.
    pub fn step(&mut self, schema: &Schema, index: usize, block: Block) -> (r: Option<(Coordinate, Block)>)
        requires
            index < old(self).ants@.len(),
            old(self).next_id < usize::MAX,
        ensures
            ({
                let (ants, next_id, write) = step_result(
                    schema@,
                    ant_views(old(self).ants@),
                    old(self).next_id,
                    index as int,
                    block,
                );
                &&& ant_views(final(self).ants@) == ants
                &&& final(self).next_id == next_id
                &&& r == write
            }),
            old(self).wf() ==> final(self).wf(),
    {
        let ghost before = ant_views(self.ants@);
        assert(before[index as int] == self.ants@[index as int]@);
        if self.ants[index].halted {
            return None;
        }
        let rule = match find_rule(schema, &self.ants[index], block) {
            None => {
                self.ants[index].halted = true;
                assert(ant_views(self.ants@) =~= before.update(
                    index as int,
                    AntView { halted: true, ..before[index as int] },
                ));
                return None;
            },
            Some(rule) => rule,
        };
        let previous = self.ants[index].position;
        let write = match rule.to_block {
            Some(b) => Some((previous, b)),
            None => None,
        };
        let mut ant = self.ants[index].duplicate();
        ant.state = rule.to_state.clone();
        match rule.to_facing {
            Some(f) => {
                ant.facing = f;
            },
            None => {},
        }
        ant.move_forward();
        self.ants.set(index, ant);
        assert(ant_views(self.ants@) =~= before.update(index as int, ant@));
        match &rule.spawn {
            Some(proto) => {
                let mut child = proto.duplicate();
                child.position = previous;
                child.id = self.next_id;
                let ghost mid = self.ants@;
                self.ants.push(child);
                assert(ant_views(self.ants@) =~= ant_views(mid).push(child@));
                self.next_id = self.next_id + 1;
            },
            None => {},
        }
        write
    }
}

/// An empty predicate list matches every possible value of its slot.
pub proof fn lemma_empty_slot_matches<T>(value: T)
    ensures
        slot_matches(Seq::<T>::empty(), value),
{
}

/// A rule whose three predicate lists are all empty applies to every ant on
/// every block.
pub proof fn lemma_wildcard_rule_matches(rule: RuleView, state: Seq<char>, block: Block, facing: Direction)
    requires
        rule.from_state.len() == 0,
        rule.from_block.len() == 0,
        rule.from_facing.len() == 0,
    ensures
        rule_matches(rule, state, block, facing),
{
}

proof fn lemma_first_match_from(
    rules: Seq<RuleView>,
    state: Seq<char>,
    block: Block,
    facing: Direction,
    from: int,
    i: int,
)
    requires
        0 <= from <= i < rules.len(),
        rule_matches(rules[i], state, block, facing),
    ensures
        first_match_from(rules, state, block, facing, from) matches Some(k) && from <= k <= i
            && rule_matches(rules[k], state, block, facing),
    decreases i - from,
{
    if !rule_matches(rules[from], state, block, facing) {
        lemma_first_match_from(rules, state, block, facing, from + 1, i);
    }
}

/// First match wins: where rules `i < j` of one ruleset both apply, the
/// rule applied is never `j`, and comes no later than `i`.
pub proof fn lemma_first_match_wins(
    rules: Seq<RuleView>,
    state: Seq<char>,
    block: Block,
    facing: Direction,
    i: int,
    j: int,
)
    requires
        0 <= i < j < rules.len(),
        rule_matches(rules[i], state, block, facing),
        rule_matches(rules[j], state, block, facing),
    ensures
        first_match(rules, state, block, facing) matches Some(k) && k <= i && k != j
            && rule_matches(rules[k], state, block, facing),
{
    lemma_first_match_from(rules, state, block, facing, 0, i);
}

proof fn lemma_ruleset_from_ignores_case(rulesets: Seq<RulesetView>, a: Seq<char>, b: Seq<char>, i: int)
    requires
        eq_ignore_case(a, b),
    ensures
        ruleset_from(rulesets, a, i) == ruleset_from(rulesets, b, i),
    decreases rulesets.len() - i,
{
    if 0 <= i < rulesets.len() {
        let n = rulesets[i].name;
        if eq_ignore_case(n, a) {
            crate::text::lemma_eq_ignore_case_trans(n, a, b);
        } else if eq_ignore_case(n, b) {
            crate::text::lemma_eq_ignore_case_sym(a, b);
            crate::text::lemma_eq_ignore_case_trans(n, b, a);
        }
        lemma_ruleset_from_ignores_case(rulesets, a, b, i + 1);
    }
}

/// Ruleset names are looked up without regard to ASCII case.
pub proof fn lemma_ruleset_lookup_ignores_case(rulesets: Seq<RulesetView>, a: Seq<char>, b: Seq<char>)
    requires
        eq_ignore_case(a, b),
    ensures
        ruleset_named(rulesets, a) == ruleset_named(rulesets, b),
{
    lemma_ruleset_from_ignores_case(rulesets, a, b, 0);
}

/// States are matched exactly: a rule listing one state applies only to
/// that very name, case included.
pub proof fn lemma_state_match_is_exact(listed: Seq<char>, state: Seq<char>)
    ensures
        slot_matches(seq![listed], state) <==> listed == state,
{
    if listed == state {
        assert(seq![listed][0] == state);
    }
}

/// Rule resolution is a function of the ant's ruleset name, state and
/// facing and of the block: resolving again on the same values gives the
/// same rule, whatever else differs between the ants.
pub proof fn lemma_resolution_repeatable(schema: SchemaView, a: AntView, b: AntView, block: Block)
    requires
        a.ruleset == b.ruleset,
        a.state == b.state,
        a.facing == b.facing,
    ensures
        resolve(schema, a, block) == resolve(schema, b, block),
{
}

/// A step of a running ant whose rule has a spawn clause adds exactly one
/// ant: it stands where the acting ant stood before moving, and its
/// identity differs from every other ant's where identities so far were
/// all below the next free one.
pub proof fn lemma_spawn_adds_one(
    schema: SchemaView,
    ants: Seq<AntView>,
    next_id: usize,
    index: int,
    block: Block,
)
    requires
        0 <= index < ants.len(),
        !ants[index].halted,
        resolve(schema, ants[index], block) matches Some(rule) && rule.spawn is Some,
        forall|i: int| 0 <= i < ants.len() ==> #[trigger] ants[i].id < next_id,
    ensures
        ({
            let (after, id, _) = step_result(schema, ants, next_id, index, block);
            &&& after.len() == ants.len() + 1
            &&& after.last().position == ants[index].position
            &&& after.last().id == next_id
            &&& id == next_id + 1
            &&& forall|i: int| 0 <= i < ants.len() ==> #[trigger] after[i].id != after.last().id
        }),
{
    let (after, id, _) = step_result(schema, ants, next_id, index, block);
    assert forall|i: int| 0 <= i < ants.len() implies #[trigger] after[i].id != after.last().id by {
        assert(ants[i].id < next_id);
    }
}

/// An ant whose ruleset has no rules halts on its first step, and asks for
/// no write.
pub proof fn lemma_empty_ruleset_halts(schema: SchemaView, ants: Seq<AntView>, next_id: usize, index: int, block: Block)
    requires
        0 <= index < ants.len(),
        !ants[index].halted,
        ruleset_named(schema.rulesets, ants[index].ruleset) matches Some(k) && schema.rulesets[k].rules.len() == 0,
    ensures
        ({
            let (after, id, write) = step_result(schema, ants, next_id, index, block);
            &&& after.len() == ants.len()
            &&& after[index].halted
            &&& write.is_none()
            &&& id == next_id
        }),
{
}

} // verus!

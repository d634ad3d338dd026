use std::collections::HashMap;

use antsim::{find_rule, find_ruleset, Block, Coordinate, Direction, Parser, Schema, Simulation};

const AIR: Block = Block { id: 0, modifier: 0 };
const STONE: Block = Block { id: 1, modifier: 0 };
const DIRT: Block = Block { id: 3, modifier: 0 };

fn parse(text: &str) -> Schema {
    Parser::new(text).parse_schema().unwrap()
}

/// Runs one tick against an in-memory world, the way a host program does.
fn tick(sim: &mut Simulation, schema: &Schema, world: &mut HashMap<Coordinate, Block>, cap: usize) {
    let end = sim.begin_tick(cap);
    let mut from = 0;
    while let Some(i) = sim.next_in_tick(from, end) {
        from = i + 1;
        let position = sim.ants[i].position;
        let block = *world.get(&position).unwrap_or(&AIR);
        if let Some((at, b)) = sim.step(schema, i, block) {
            world.insert(at, b);
        }
    }
}

#[test]
fn wildcard_rule_matches_everything() {
    let schema = parse("ant use r; end ruleset r ,, -> s,,; end");
    let sim = Simulation::new(&schema, Coordinate::new(0, 0, 0));
    for block in [AIR, STONE, DIRT, Block { id: 99, modifier: 7 }] {
        let rule = find_rule(&schema, &sim.ants[0], block).unwrap();
        assert_eq!(rule.to_state, "s");
    }
}

#[test]
fn first_match_wins() {
    let schema = parse("ant use r; end ruleset r initial,stone, -> specific,,; ,, -> wildcard,,; end");
    let sim = Simulation::new(&schema, Coordinate::new(0, 0, 0));
    let ant = &sim.ants[0];
    assert_eq!(find_rule(&schema, ant, STONE).unwrap().to_state, "specific");
    assert_eq!(find_rule(&schema, ant, DIRT).unwrap().to_state, "wildcard");
}

#[test]
fn resolution_is_repeatable() {
    let schema = parse("ant use r; end ruleset r initial,dirt, -> a,,; ,stone, -> b,,; end");
    let sim = Simulation::new(&schema, Coordinate::new(0, 0, 0));
    let ant = &sim.ants[0];
    let first = find_rule(&schema, ant, STONE).unwrap().to_state.clone();
    for _ in 0..5 {
        assert_eq!(find_rule(&schema, ant, STONE).unwrap().to_state, first);
    }
    assert_eq!(first, "b");
}

#[test]
fn states_are_case_sensitive() {
    let schema = parse("ant use R; end ruleset r Initial,, -> x,,; end");
    let sim = Simulation::new(&schema, Coordinate::new(0, 0, 0));
    assert!(find_ruleset(&schema, &sim.ants[0]).is_some());
    assert!(find_rule(&schema, &sim.ants[0], AIR).is_none());
}

#[test]
fn start_positions_and_identities() {
    let schema = parse("ant use r; offset 1,2,3; end ant use r; facing down; end ruleset r end");
    let sim = Simulation::new(&schema, Coordinate::new(10, 20, 30));
    assert_eq!(sim.ants[0].position, Coordinate::new(11, 22, 33));
    assert_eq!(sim.ants[1].position, Coordinate::new(10, 20, 30));
    assert_eq!(sim.ants[0].id, 0);
    assert_eq!(sim.ants[1].id, 1);
    assert_eq!(sim.next_id, 2);
    assert_eq!(sim.ants[1].facing, Direction::Down);
}

#[test]
fn step_applies_rule() {
    let schema = parse("ant use r; end ruleset r initial,, -> walking,stone,north; end");
    let mut sim = Simulation::new(&schema, Coordinate::new(5, 5, 5));
    let write = sim.step(&schema, 0, AIR);
    assert_eq!(write, Some((Coordinate::new(5, 5, 5), STONE)));
    let ant = &sim.ants[0];
    assert_eq!(ant.state, "walking");
    assert_eq!(ant.facing, Direction::North);
    assert_eq!(ant.position, Coordinate::new(5, 5, 4));
}

#[test]
fn step_keeps_facing_when_absent() {
    let schema = parse("ant use r; facing up; end ruleset r ,, -> s,,; end");
    let mut sim = Simulation::new(&schema, Coordinate::new(0, 0, 0));
    assert_eq!(sim.step(&schema, 0, AIR), None);
    assert_eq!(sim.ants[0].facing, Direction::Up);
    assert_eq!(sim.ants[0].position, Coordinate::new(0, 1, 0));
}

#[test]
fn cap_keeps_most_recent() {
    let schema = parse("ant use r; end ant use r; end ant use r; end ruleset r ,, -> s,,; end");
    let mut sim = Simulation::new(&schema, Coordinate::new(0, 0, 0));
    let mut world = HashMap::new();
    tick(&mut sim, &schema, &mut world, 2);
    assert_eq!(sim.ants.len(), 2);
    assert_eq!(sim.ants[0].id, 1);
    assert_eq!(sim.ants[1].id, 2);
}

#[test]
fn spawned_ants_wait_for_next_tick() {
    let schema = parse("ant use r; end ruleset r initial,, -> s,, + spawn ant use r; end; s,, -> t,,; end");
    let mut sim = Simulation::new(&schema, Coordinate::new(0, 0, 0));
    let mut world = HashMap::new();
    tick(&mut sim, &schema, &mut world, 50);
    assert_eq!(sim.ants.len(), 2);
    assert_eq!(sim.ants[1].state, "initial");
    assert_eq!(sim.next_in_tick(0, 1), Some(0));
    assert_eq!(sim.next_in_tick(1, 1), None);
}

#[test]
fn cap_not_reached() {
    let schema = parse("ant use r; end ruleset r end");
    let mut sim = Simulation::new(&schema, Coordinate::new(0, 0, 0));
    sim.enforce_cap(5);
    assert_eq!(sim.ants.len(), 1);
    sim.enforce_cap(0);
    assert!(sim.ants.is_empty());
}

#[test]
fn empty_ruleset_halts_without_write() {
    let schema = parse("ant use r; end ruleset r end");
    let mut sim = Simulation::new(&schema, Coordinate::new(0, 0, 0));
    let mut world = HashMap::new();
    assert!(!sim.all_halted());
    tick(&mut sim, &schema, &mut world, 50);
    assert!(sim.ants[0].halted);
    assert!(world.is_empty());
    assert!(sim.all_halted());
    assert_eq!(sim.ants[0].position, Coordinate::new(0, 0, 0));
}

#[test]
fn halted_ant_is_skipped() {
    let schema = parse("ant use r; end ruleset r end");
    let mut sim = Simulation::new(&schema, Coordinate::new(0, 0, 0));
    sim.step(&schema, 0, AIR);
    assert!(sim.ants[0].halted);
    assert_eq!(sim.step(&schema, 0, STONE), None);
    assert!(sim.ants[0].halted);
}

#[test]
fn halt_does_not_stop_later_ants() {
    let schema = parse("ant use empty; end ant use r; end ruleset empty end ruleset r ,, -> s,,; end");
    let mut sim = Simulation::new(&schema, Coordinate::new(0, 0, 0));
    let mut world = HashMap::new();
    tick(&mut sim, &schema, &mut world, 50);
    assert!(sim.ants[0].halted);
    assert_eq!(sim.ants[1].state, "s");
}

#[test]
fn spawn_adds_one_ant() {
    let schema = parse(
        "ant use r; end ruleset r initial,, -> parent,, + spawn ant use q; offset 9,9,9; facing west; end; end ruleset q end",
    );
    let mut sim = Simulation::new(&schema, Coordinate::new(1, 1, 1));
    let mut world = HashMap::new();
    tick(&mut sim, &schema, &mut world, 50);
    assert_eq!(sim.ants.len(), 2);
    let child = &sim.ants[1];
    assert_eq!(child.position, Coordinate::new(1, 1, 1));
    assert_eq!(child.facing, Direction::West);
    assert_eq!(child.state, "initial");
    assert_eq!(child.ruleset, "q");
    assert_ne!(child.id, sim.ants[0].id);
    assert_eq!(child.id, 1);
    assert_eq!(sim.next_id, 2);
    assert_eq!(sim.ants[0].position, Coordinate::new(2, 1, 1));
}

#[test]
fn langtons_ant_two_ticks() {
    let schema = parse(
        "ant use l; end ruleset l ,air,east -> s,stone,south; ,air,south -> s,stone,west; end",
    );
    let mut sim = Simulation::new(&schema, Coordinate::new(0, 0, 0));
    let mut world = HashMap::new();
    tick(&mut sim, &schema, &mut world, 50);
    tick(&mut sim, &schema, &mut world, 50);
    assert_eq!(world.get(&Coordinate::new(0, 0, 0)), Some(&STONE));
    assert_eq!(world.get(&Coordinate::new(0, 0, 1)), Some(&STONE));
    assert_eq!(sim.ants[0].position, Coordinate::new(-1, 0, 1));
    tick(&mut sim, &schema, &mut world, 50);
    assert!(sim.ants[0].halted);
}

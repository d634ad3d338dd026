use antsim::{Block, Direction, Parser, Schema};

fn parse(text: &str) -> Result<Schema, String> {
    Parser::new(text).parse_schema()
}

fn parse_err(text: &str) -> String {
    match parse(text) {
        Ok(_) => panic!("expected an error for {:?}", text),
        Err(e) => e,
    }
}

#[test]
fn round_trip_minimal_schema() {
    let schema =
        parse("ant use r; offset 0,0,0; end ruleset r state,block,dir -> state2,block2,dir2; end");
    // `block`, `dir` name no block or direction: the rule is rejected.
    assert_eq!(schema.unwrap_err(), "unknown block `block`");

    let schema = parse(
        "ant use r; offset 0,0,0; end ruleset r state,stone,east -> state2,dirt,west; end",
    )
    .unwrap();
    assert_eq!(schema.ants.len(), 1);
    assert_eq!(schema.ants[0].ruleset, "r");
    assert_eq!(schema.ants[0].offset, antsim::Coordinate::new(0, 0, 0));
    assert_eq!(schema.ants[0].facing, Direction::East);
    assert_eq!(schema.ants[0].state, "initial");
    assert!(!schema.ants[0].halted);
    assert_eq!(schema.rulesets.len(), 1);
    let rules = &schema.rulesets[0].rules;
    assert_eq!(rules.len(), 1);
    assert_eq!(rules[0].from_state, vec!["state".to_string()]);
    assert_eq!(rules[0].from_block, vec![Block { id: 1, modifier: 0 }]);
    assert_eq!(rules[0].from_facing, vec![Direction::East]);
    assert_eq!(rules[0].to_state, "state2");
    assert_eq!(rules[0].to_block, Some(Block { id: 3, modifier: 0 }));
    assert_eq!(rules[0].to_facing, Some(Direction::West));
    assert!(rules[0].spawn.is_none());
}

#[test]
fn empty_lists_and_optional_targets() {
    let schema = parse("ant use r; end ruleset r ,, -> s,,; end").unwrap();
    let rule = &schema.rulesets[0].rules[0];
    assert!(rule.from_state.is_empty());
    assert!(rule.from_block.is_empty());
    assert!(rule.from_facing.is_empty());
    assert_eq!(rule.to_state, "s");
    assert_eq!(rule.to_block, None);
    assert_eq!(rule.to_facing, None);
}

#[test]
fn slash_separated_lists() {
    let schema =
        parse("ant use r; end ruleset r a/b, stone/AIR, up/Down -> c, , north; end").unwrap();
    let rule = &schema.rulesets[0].rules[0];
    assert_eq!(rule.from_state, vec!["a".to_string(), "b".to_string()]);
    assert_eq!(
        rule.from_block,
        vec![Block { id: 1, modifier: 0 }, Block { id: 0, modifier: 0 }]
    );
    assert_eq!(rule.from_facing, vec![Direction::Up, Direction::Down]);
    assert_eq!(rule.to_facing, Some(Direction::North));
}

#[test]
fn ant_attributes() {
    let schema = parse("ant offset -3,4,5; facing south; use r; end ruleset r end").unwrap();
    let ant = &schema.ants[0];
    assert_eq!(ant.offset, antsim::Coordinate::new(-3, 4, 5));
    assert_eq!(ant.facing, Direction::South);
    assert!(schema.rulesets[0].rules.is_empty());
}

#[test]
fn spawn_clause() {
    let schema =
        parse("ant use r; end ruleset r ,, -> s,, + spawn ant use q; facing up; end; end ruleset q end")
            .unwrap();
    let spawn = schema.rulesets[0].rules[0].spawn.as_ref().unwrap();
    assert_eq!(spawn.ruleset, "q");
    assert_eq!(spawn.facing, Direction::Up);
}

#[test]
fn macro_expansion_matches_literal() {
    let with_macro = parse("define $x stone ant use r; end ruleset r a, $x, -> b,$x,; end").unwrap();
    let literal = parse("ant use r; end ruleset r a, stone, -> b,stone,; end").unwrap();
    let a = &with_macro.rulesets[0].rules[0];
    let b = &literal.rulesets[0].rules[0];
    assert_eq!(a.from_block, b.from_block);
    assert_eq!(a.to_block, b.to_block);
    assert_eq!(a.from_block, vec![Block { id: 1, modifier: 0 }]);
}

#[test]
fn macro_redefinition_is_error() {
    assert_eq!(
        parse_err("define $x stone define $x dirt"),
        "redefinition of symbol `x`"
    );
}

#[test]
fn macro_names_are_case_sensitive() {
    assert_eq!(
        parse_err("define $x stone ant use r; end ruleset r a, $X, -> b,,; end"),
        "undefined symbol `X`"
    );
}

#[test]
fn macro_name_needs_dollar() {
    assert_eq!(parse_err("define x stone"), "symbol name must begin with `$`");
}

#[test]
fn ruleset_names_ignore_case() {
    let schema = parse("ant use MyRules; end ruleset myrules end").unwrap();
    assert_eq!(schema.ants[0].ruleset, "MyRules");
    assert_eq!(
        parse_err("ruleset abc end ruleset ABC end"),
        "duplicate ruleset `ABC`"
    );
}

#[test]
fn unknown_ruleset_reference() {
    assert_eq!(parse_err("ant use nowhere; end"), "unknown ruleset `nowhere`");
    assert_eq!(
        parse_err("ant use r; end ruleset r ,, -> s,, + spawn ant use gone; end; end"),
        "unknown ruleset `gone`"
    );
}

#[test]
fn properties() {
    let schema = parse("set delay 250 set CAP 3").unwrap();
    assert_eq!(schema.properties.delay, Some(250));
    assert_eq!(schema.properties.cap, Some(3));
    assert_eq!(schema.properties.delay_or_default(), 250);
    let schema = parse("").unwrap();
    assert_eq!(schema.properties.delay_or_default(), antsim::DEFAULT_DELAY_MS);
    assert_eq!(schema.properties.cap_or_default(), antsim::DEFAULT_CAP);
}

#[test]
fn property_errors() {
    assert_eq!(parse_err("set speed 3"), "unknown property `speed`");
    assert_eq!(parse_err("set delay 1 set Delay 2"), "duplicate property `Delay`");
    assert_eq!(parse_err("set delay 1e3"), "invalid number value");
    assert_eq!(parse_err("set delay 18446744073709551616"), "invalid number value");
    assert_eq!(parse_err("set cap -1"), "invalid number value");
    assert_eq!(
        parse_err("set delay abc"),
        "expected number, found non-numeric identifier"
    );
}

#[test]
fn ant_errors() {
    assert_eq!(parse_err("ant end"), "missing ruleset for ant");
    assert_eq!(
        parse_err("ant use a; use b; end"),
        "cannot use multiple rulesets for ant"
    );
    assert_eq!(
        parse_err("ant use a; offset 1,2,3; offset 1,2,3; end"),
        "duplicate attribute `offset` for ant"
    );
    assert_eq!(
        parse_err("ant use a; facing up; facing up; end"),
        "duplicate attribute `facing` for ant"
    );
    assert_eq!(parse_err("ant facing sideways; end"), "unknown direction `sideways`");
    assert_eq!(
        parse_err("ant spawn end"),
        "expected attribute or `end`, found `spawn`"
    );
    assert_eq!(parse_err("ant use a;"), "expected `end`, found eof");
    assert_eq!(parse_err("ant use a; offset 1,2e1,3; end"), "invalid number value");
    assert_eq!(
        parse_err("ant use a; offset 1,2.5,3; end"),
        "expected `,`, found <identifier>"
    );
}

#[test]
fn rule_errors() {
    assert_eq!(
        parse_err("ruleset r a, gold_block_x, -> b,,; end"),
        "unknown block `gold_block_x`"
    );
    assert_eq!(parse_err("ruleset r a,, left -> b,,; end"), "unknown direction `left`");
    assert_eq!(
        parse_err("ruleset r a,, -> b,,"),
        "expected `;` or `/`, found eof"
    );
    assert_eq!(
        parse_err("ruleset r a/ ,, -> b,,; end"),
        "expected <identifier> or `,`, found `,`"
    );
    assert_eq!(
        parse_err("ruleset r a,, -> b,, + ant use r; end; end"),
        "expected `spawn`, found `ant`"
    );
    assert_eq!(parse_err("ruleset r a,, -> b,, + spawn x; end"), "expected `ant`");
    assert_eq!(parse_err("ruleset r a/"), "expected token, found eof");
    assert_eq!(parse_err("ruleset r a"), "expected `,` or `/`, found eof");
}

#[test]
fn top_level_error() {
    assert_eq!(parse_err(";"), "expected `ruleset` or `ant`, found `;`");
}

#[test]
fn parse_text_reads_whole_program() {
    let schema = antsim::parse_text("set cap 2 ant use r; end ruleset r end").unwrap();
    assert_eq!(schema.properties.cap, Some(2));
    assert_eq!(schema.ants.len(), 1);
    assert_eq!(
        antsim::parse_text("ant use r; end").unwrap_err(),
        "unknown ruleset `r`"
    );
}

#[test]
fn rule_without_spaces() {
    let schema = parse("ant use r; end ruleset r a,stone,east->s,,;end").unwrap();
    let rule = &schema.rulesets[0].rules[0];
    assert_eq!(rule.from_facing, vec![Direction::East]);
    assert_eq!(rule.to_state, "s");
}

#[test]
fn comments_are_skipped() {
    let schema = parse("-- a comment\nant use r; end -- trailing\nruleset r end").unwrap();
    assert_eq!(schema.ants.len(), 1);
}

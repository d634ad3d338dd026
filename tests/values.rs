use antsim::numeric::{is_real_literal, parse_i32, parse_u64, parse_usize};
use antsim::text::{eq_ignore_ascii_case, remove_first_char};
use antsim::{parse_block, parse_direction, Ant, Block, Coordinate, Direction, ListParser, Parser};

#[test]
fn block_names_from_table() {
    assert_eq!(parse_block("stone"), Some(Block { id: 1, modifier: 0 }));
    assert_eq!(parse_block("Granite"), Some(Block { id: 1, modifier: 1 }));
    assert_eq!(parse_block("AIR"), Some(Block { id: 0, modifier: 0 }));
    assert_eq!(parse_block("not_a_block"), None);
}

#[test]
fn direction_names() {
    assert_eq!(parse_direction("EAST"), Some(Direction::East));
    assert_eq!(parse_direction("down"), Some(Direction::Down));
    assert_eq!(parse_direction("left"), None);
}

#[test]
fn unit_vectors() {
    assert_eq!(Direction::East.into_vec3(), [1, 0, 0]);
    assert_eq!(Direction::West.into_vec3(), [-1, 0, 0]);
    assert_eq!(Direction::South.into_vec3(), [0, 0, 1]);
    assert_eq!(Direction::North.into_vec3(), [0, 0, -1]);
    assert_eq!(Direction::Up.into_vec3(), [0, 1, 0]);
    assert_eq!(Direction::Down.into_vec3(), [0, -1, 0]);
}

#[test]
fn moving_forward() {
    let mut ant = Ant {
        ruleset: "r".to_string(),
        offset: Coordinate::new(0, 0, 0),
        position: Coordinate::new(1, 2, 3),
        facing: Direction::Down,
        state: "s".to_string(),
        halted: false,
        id: 4,
    };
    ant.move_forward();
    assert_eq!(ant.position, Coordinate::new(1, 1, 3));
    ant.position = Coordinate::new(i32::MAX, 0, 0);
    ant.facing = Direction::East;
    ant.move_forward();
    assert_eq!(ant.position, Coordinate::new(i32::MIN, 0, 0));
}

#[test]
fn integers() {
    assert_eq!(parse_i32("-5"), Ok(-5));
    assert_eq!(parse_i32("+12"), Ok(12));
    assert_eq!(parse_i32("-2147483648"), Ok(i32::MIN));
    assert_eq!(parse_i32("2147483648").unwrap_err(), "invalid number value");
    assert_eq!(parse_i32("-").unwrap_err(), "expected number, found non-numeric identifier");
    assert_eq!(parse_u64("18446744073709551615"), Ok(u64::MAX));
    assert_eq!(parse_u64("-0").unwrap_err(), "invalid number value");
    assert_eq!(parse_u64("").unwrap_err(), "expected number, found non-numeric identifier");
    assert_eq!(parse_usize("007"), Ok(7));
}

#[test]
fn real_literals() {
    for s in ["1e5", "inf", "-Infinity", "NaN", ".5", "5.", "+1.5E-3", "12"] {
        assert!(is_real_literal(s), "{}", s);
        assert_eq!(is_real_literal(s), s.parse::<f64>().is_ok(), "{}", s);
    }
    for s in ["e5", "1.2.3", ".", "abc", "1e", "--1", "", "1e+"] {
        assert!(!is_real_literal(s), "{}", s);
        assert_eq!(is_real_literal(s), s.parse::<f64>().is_ok(), "{}", s);
    }
}

#[test]
fn text_helpers() {
    assert!(eq_ignore_ascii_case("RuleSet", "ruleset"));
    assert!(!eq_ignore_ascii_case("rules", "ruleset"));
    assert_eq!(remove_first_char("$x"), "x");
    assert_eq!(remove_first_char(""), "");
}

#[test]
fn list_parser_reads_items() {
    let mut parser = Parser::new("a/b/c,");
    let mut list = ListParser::new();
    let mut items = Vec::new();
    while let Some(item) = list.next(&mut parser) {
        items.push(item.unwrap().to_string());
    }
    assert_eq!(items, vec!["a", "b", "c"]);
}

#[test]
fn list_parser_empty_list() {
    let mut parser = Parser::new(", x");
    let mut list = ListParser::new();
    assert!(list.next(&mut parser).is_none());
}

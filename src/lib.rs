//! A small language for programming ants that walk a three-dimensional grid,
//! read and write the material of the cells they visit, and follow ordered
//! transition rules: a lexer, a parser producing a validated schema, and the
//! per-tick decisions of the simulation engine.

pub mod blocks;
pub mod engine;
pub mod grammar;
pub mod numeric;
pub mod parse;
pub mod rules;
pub mod text;
pub mod tokens;

pub use blocks::parse_block;
pub use engine::{find_rule, find_ruleset, Simulation, DEFAULT_CAP, DEFAULT_DELAY_MS};
pub use parse::{parse_direction, parse_text, ListParser, Parser};
pub use rules::{
    Ant, Block, Coordinate, Direction, Properties, Rule, Ruleset, Schema, State, INITIAL_STATE,
};
pub use tokens::{tokenize, CharKind, Token, TokenKind, Tokens};

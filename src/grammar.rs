//! The grammar of the schema language, stated over token sequences. Each
//! function reads from a position and gives what is read and where reading
//! stops, or the message of the first error.
use vstd::prelude::*;
use crate::blocks::block_named;
use crate::numeric::{int_in, numeric_error};
use crate::rules::{
    ruleset_from, ruleset_named, AntView, Coordinate, Direction, Properties, RuleView, RulesetView,
    SchemaView,
};
use crate::text::eq_ignore_case;
use crate::tokens::{kind_text, Lexeme, TokenKind};

verus! {

/// A table of macros: name (without `$`) and replacement text.
pub type Symbols = Seq<(Seq<char>, Seq<char>)>;

/// The replacement of macro `name`: the first entry with that exact name.
pub open spec fn lookup(syms: Symbols, name: Seq<char>) -> Option<Seq<char>>
    decreases syms.len(),
{
    if syms.len() == 0 {
        None
    } else if syms[0].0 == name {
        Some(syms[0].1)
    } else {
        lookup(syms.drop_first(), name)
    }
}

/// No two macros share a name.
pub open spec fn symbols_distinct(syms: Symbols) -> bool {
    forall|i: int, j: int| 0 <= i < j < syms.len() ==> #[trigger] syms[i].0 != #[trigger] syms[j].0
}

/// A name that the lookup does not find is the name of no macro.
pub proof fn lemma_lookup_none(syms: Symbols, name: Seq<char>)
    ensures
        lookup(syms, name).is_none() ==> forall|i: int| 0 <= i < syms.len() ==> #[trigger] syms[i].0 != name,
    decreases syms.len(),
{
    if syms.len() > 0 && lookup(syms, name).is_none() {
        lemma_lookup_none(syms.drop_first(), name);
        assert forall|i: int| 0 <= i < syms.len() implies #[trigger] syms[i].0 != name by {
            if i > 0 {
                assert(syms[i] == syms.drop_first()[i - 1]);
            }
        }
    }
}

pub open spec fn quoted(prefix: Seq<char>, name: Seq<char>) -> Seq<char> {
    prefix + "`"@ + name + "`"@
}

/// An identifier with its macro reference (a leading `$`) replaced.
pub open spec fn expand(syms: Symbols, ident: Seq<char>) -> Result<Seq<char>, Seq<char>> {
    if ident.len() > 0 && ident[0] == '$' {
        match lookup(syms, ident.drop_first()) {
            Some(v) => Ok(v),
            None => Err(quoted("undefined symbol "@, ident.drop_first())),
        }
    } else {
        Ok(ident)
    }
}

/// The direction called `s`, ASCII case ignored.
pub open spec fn direction_named(s: Seq<char>) -> Option<Direction> {
    if eq_ignore_case(s, "east"@) {
        Some(Direction::East)
    } else if eq_ignore_case(s, "west"@) {
        Some(Direction::West)
    } else if eq_ignore_case(s, "south"@) {
        Some(Direction::South)
    } else if eq_ignore_case(s, "north"@) {
        Some(Direction::North)
    } else if eq_ignore_case(s, "up"@) {
        Some(Direction::Up)
    } else if eq_ignore_case(s, "down"@) {
        Some(Direction::Down)
    } else {
        None
    }
}

pub open spec fn found(t: Seq<Lexeme>, p: int) -> Seq<char> {
    if 0 <= p < t.len() {
        kind_text(t[p].kind)
    } else {
        "eof"@
    }
}

pub open spec fn kind_at(t: Seq<Lexeme>, p: int, k: TokenKind) -> bool {
    0 <= p < t.len() && t[p].kind == k
}

/// A token of kind `k`: its text.
pub open spec fn expect_kind(t: Seq<Lexeme>, p: int, k: TokenKind) -> Result<(Seq<char>, int), Seq<char>> {
    if kind_at(t, p, k) {
        Ok((t[p].text, p + 1))
    } else {
        Err("expected "@ + kind_text(k) + ", found "@ + found(t, p))
    }
}

/// An identifier, macro references expanded.
pub open spec fn expect_ident(t: Seq<Lexeme>, s: Symbols, p: int) -> Result<(Seq<char>, int), Seq<char>> {
    match expect_kind(t, p, TokenKind::Ident) {
        Err(e) => Err(e),
        Ok((x, q)) => match expand(s, x) {
            Ok(v) => Ok((v, q)),
            Err(e) => Err(e),
        },
    }
}

/// The token that closes a list.
pub open spec fn expect_list_end(t: Seq<Lexeme>, p: int, k: TokenKind) -> Result<int, Seq<char>> {
    if kind_at(t, p, k) {
        Ok(p + 1)
    } else {
        Err("expected "@ + kind_text(k) + " or "@ + kind_text(TokenKind::Slash) + ", found "@
            + found(t, p))
    }
}

/// A signed 32-bit integer.
pub open spec fn expect_i32(t: Seq<Lexeme>, s: Symbols, p: int) -> Result<(i32, int), Seq<char>> {
    match expect_ident(t, s, p) {
        Err(e) => Err(e),
        Ok((v, q)) => match int_in(v, true, i32::MIN as int, i32::MAX as int) {
            Some(n) => Ok((n as i32, q)),
            None => Err(numeric_error(v)),
        },
    }
}

/// The value of an `offset x, y, z;` clause, read after `offset`.
pub open spec fn offset_clause(t: Seq<Lexeme>, s: Symbols, p: int) -> Result<(Coordinate, int), Seq<char>> {
    match expect_i32(t, s, p) {
        Err(e) => Err(e),
        Ok((x, pos1)) => match expect_kind(t, pos1, TokenKind::Comma) {
            Err(e) => Err(e),
            Ok((_, pos2)) => match expect_i32(t, s, pos2) {
                Err(e) => Err(e),
                Ok((y, pos3)) => match expect_kind(t, pos3, TokenKind::Comma) {
                    Err(e) => Err(e),
                    Ok((_, pos4)) => match expect_i32(t, s, pos4) {
                        Err(e) => Err(e),
                        Ok((z, pos5)) => match expect_kind(t, pos5, TokenKind::Semicolon) {
                            Err(e) => Err(e),
                            Ok((_, pos6)) => Ok((Coordinate { x, y, z }, pos6)),
                        },
                    },
                },
            },
        },
    }
}

/// The identifier of a `use name;` or `facing name;` clause, read after its keyword.
pub open spec fn name_clause(t: Seq<Lexeme>, p: int) -> Result<(Seq<char>, int), Seq<char>> {
    match expect_kind(t, p, TokenKind::Ident) {
        Err(e) => Err(e),
        Ok((name, pos1)) => match expect_kind(t, pos1, TokenKind::Semicolon) {
            Err(e) => Err(e),
            Ok((_, pos2)) => Ok((name, pos2)),
        },
    }
}

/// The ant an `ant` block describes once its attributes are known.
pub open spec fn ant_of(ruleset: Seq<char>, offset: Option<Coordinate>, facing: Option<Direction>) -> AntView {
    AntView {
        ruleset,
        offset: match offset {
            Some(o) => o,
            None => Coordinate { x: 0, y: 0, z: 0 },
        },
        position: Coordinate { x: 0, y: 0, z: 0 },
        facing: match facing {
            Some(f) => f,
            None => Direction::East,
        },
        state: "initial"@,
        halted: false,
        id: 0,
    }
}

/// The attributes of an `ant` block up to and including its `end`, read
/// with the attributes seen so far.
pub open spec fn ant_body(
    t: Seq<Lexeme>,
    s: Symbols,
    p: int,
    ruleset: Option<Seq<char>>,
    offset: Option<Coordinate>,
    facing: Option<Direction>,
) -> Result<(AntView, int), Seq<char>>
    decreases t.len() - p,
{
    if p < 0 || p >= t.len() || t[p].kind == TokenKind::KwEnd {
        match expect_kind(t, p, TokenKind::KwEnd) {
            Err(e) => Err(e),
            Ok((_, q)) => match ruleset {
                None => Err("missing ruleset for ant"@),
                Some(r) => Ok((ant_of(r, offset, facing), q)),
            },
        }
    } else if t[p].kind == TokenKind::KwUse {
        match name_clause(t, p + 1) {
            Err(e) => Err(e),
            Ok((name, q)) => if ruleset.is_some() {
                Err("cannot use multiple rulesets for ant"@)
            } else {
                ant_body(t, s, q, Some(name), offset, facing)
            },
        }
    } else if t[p].kind == TokenKind::KwOffset {
        match offset_clause(t, s, p + 1) {
            Err(e) => Err(e),
            Ok((o, q)) => if offset.is_some() {
                Err("duplicate attribute `offset` for ant"@)
            } else {
                ant_body(t, s, q, ruleset, Some(o), facing)
            },
        }
    } else if t[p].kind == TokenKind::KwFacing {
        match name_clause(t, p + 1) {
            Err(e) => Err(e),
            Ok((name, q)) => if facing.is_some() {
                Err("duplicate attribute `facing` for ant"@)
            } else {
                match direction_named(name) {
                    None => Err(quoted("unknown direction "@, name)),
                    Some(d) => ant_body(t, s, q, ruleset, offset, Some(d)),
                }
            },
        }
    } else {
        Err("expected attribute or "@ + kind_text(TokenKind::KwEnd) + ", found "@ + kind_text(
            t[p].kind,
        ))
    }
}

/// An `ant ... end` block, if one starts at `p`.
pub open spec fn try_ant(t: Seq<Lexeme>, s: Symbols, p: int) -> Result<(Option<AntView>, int), Seq<char>> {
    if kind_at(t, p, TokenKind::KwAnt) {
        match ant_body(t, s, p + 1, None, None, None) {
            Err(e) => Err(e),
            Ok((a, q)) => Ok((Some(a), q)),
        }
    } else {
        Ok((None, p))
    }
}

/// What the items of a list must name.
#[derive(Clone, Copy, Debug, PartialEq, Eq, Structural)]
pub enum ListKind {
    States,
    Blocks,
    Directions,
}

/// The error for a list item that names nothing of its kind.
pub open spec fn item_error(kind: ListKind, x: Seq<char>) -> Option<Seq<char>> {
    match kind {
        ListKind::States => None,
        ListKind::Blocks => if block_named(x).is_none() {
            Some(quoted("unknown block "@, x))
        } else {
            None
        },
        ListKind::Directions => if direction_named(x).is_none() {
            Some(quoted("unknown direction "@, x))
        } else {
            None
        },
    }
}

/// One step of reading a `/`-separated list: the next item (expanded) or an
/// error or the end of the list, and the new position and flags. `first`
/// holds until a separator has been read; `end` once the last item has been.
pub open spec fn list_step(t: Seq<Lexeme>, s: Symbols, p: int, first: bool, end: bool) -> (
    Option<Result<Seq<char>, Seq<char>>>,
    int,
    bool,
    bool,
) {
    if end {
        (None, p, first, end)
    } else if p < 0 || p >= t.len() {
        (Some(Err("expected token, found eof"@)), p, first, end)
    } else if t[p].kind != TokenKind::Ident {
        if first {
            (None, p, first, end)
        } else {
            (
                Some(
                    Err("expected "@ + kind_text(TokenKind::Ident) + " or "@ + kind_text(
                        TokenKind::Comma,
                    ) + ", found "@ + kind_text(t[p].kind)),
                ),
                p,
                first,
                end,
            )
        }
    } else if p + 1 >= t.len() {
        (None, p + 1, first, end)
    } else if t[p + 1].kind == TokenKind::Slash {
        (Some(expand(s, t[p].text)), p + 2, false, end)
    } else {
        (Some(expand(s, t[p].text)), p + 1, first, true)
    }
}

/// The rest of a list: its items (expanded and checked against `kind`) and
/// where it stops.
pub open spec fn list_rest(
    t: Seq<Lexeme>,
    s: Symbols,
    kind: ListKind,
    p: int,
    first: bool,
    end: bool,
) -> Result<(Seq<Seq<char>>, int), Seq<char>>
    decreases t.len() - p, if end { 0int } else { 1int },
{
    let (item, q, f, e) = list_step(t, s, p, first, end);
    match item {
        None => Ok((Seq::empty(), q)),
        Some(Err(m)) => Err(m),
        Some(Ok(x)) => match item_error(kind, x) {
            Some(m) => Err(m),
            None => match list_rest(t, s, kind, q, f, e) {
                Err(m) => Err(m),
                Ok((xs, r)) => Ok((seq![x] + xs, r)),
            },
        },
    }
}

/// A whole list read from `p`.
pub open spec fn list_from(t: Seq<Lexeme>, s: Symbols, kind: ListKind, p: int) -> Result<
    (Seq<Seq<char>>, int),
    Seq<char>,
> {
    list_rest(t, s, kind, p, true, false)
}

/// The three guards of a rule, up to and including the `->`.
pub open spec fn rule_guards(t: Seq<Lexeme>, s: Symbols, p: int) -> Result<
    ((Seq<Seq<char>>, Seq<Seq<char>>, Seq<Seq<char>>), int),
    Seq<char>,
> {
    match list_from(t, s, ListKind::States, p) {
        Err(e) => Err(e),
        Ok((states, pos1)) => match expect_list_end(t, pos1, TokenKind::Comma) {
            Err(e) => Err(e),
            Ok(pos2) => match list_from(t, s, ListKind::Blocks, pos2) {
                Err(e) => Err(e),
                Ok((blocks, pos3)) => match expect_list_end(t, pos3, TokenKind::Comma) {
                    Err(e) => Err(e),
                    Ok(pos4) => match list_from(t, s, ListKind::Directions, pos4) {
                        Err(e) => Err(e),
                        Ok((dirs, pos5)) => match expect_list_end(t, pos5, TokenKind::Arrow) {
                            Err(e) => Err(e),
                            Ok(pos6) => Ok(((states, blocks, dirs), pos6)),
                        },
                    },
                },
            },
        },
    }
}

/// An optional block name: absent where no identifier follows.
pub open spec fn optional_block(t: Seq<Lexeme>, s: Symbols, p: int) -> Result<(Option<crate::rules::Block>, int), Seq<char>> {
    if kind_at(t, p, TokenKind::Ident) {
        match expand(s, t[p].text) {
            Err(e) => Err(e),
            Ok(x) => match block_named(x) {
                None => Err(quoted("unknown block "@, x)),
                Some(b) => Ok((Some(b), p + 1)),
            },
        }
    } else {
        Ok((None, p))
    }
}

/// An optional direction name: absent where no identifier follows.
pub open spec fn optional_direction(t: Seq<Lexeme>, s: Symbols, p: int) -> Result<(Option<Direction>, int), Seq<char>> {
    if kind_at(t, p, TokenKind::Ident) {
        match expand(s, t[p].text) {
            Err(e) => Err(e),
            Ok(x) => match direction_named(x) {
                None => Err(quoted("unknown direction "@, x)),
                Some(d) => Ok((Some(d), p + 1)),
            },
        }
    } else {
        Ok((None, p))
    }
}

/// An optional `+ spawn ant ... end` clause.
pub open spec fn optional_spawn(t: Seq<Lexeme>, s: Symbols, p: int) -> Result<(Option<AntView>, int), Seq<char>> {
    if kind_at(t, p, TokenKind::Plus) {
        match expect_kind(t, p + 1, TokenKind::KwSpawn) {
            Err(e) => Err(e),
            Ok((_, q)) => match try_ant(t, s, q) {
                Err(e) => Err(e),
                Ok((None, _)) => Err("expected "@ + kind_text(TokenKind::KwAnt)),
                Ok((Some(a), r)) => Ok((Some(a), r)),
            },
        }
    } else {
        Ok((None, p))
    }
}

/// What a rule does, after its `->`, up to and including its `;`.
pub open spec fn rule_targets(t: Seq<Lexeme>, s: Symbols, p: int) -> Result<
    ((Seq<char>, Option<crate::rules::Block>, Option<Direction>, Option<AntView>), int),
    Seq<char>,
> {
    match expect_ident(t, s, p) {
        Err(e) => Err(e),
        Ok((to_state, pos1)) => match expect_list_end(t, pos1, TokenKind::Comma) {
            Err(e) => Err(e),
            Ok(pos2) => match optional_block(t, s, pos2) {
                Err(e) => Err(e),
                Ok((to_block, pos3)) => match expect_list_end(t, pos3, TokenKind::Comma) {
                    Err(e) => Err(e),
                    Ok(pos4) => match optional_direction(t, s, pos4) {
                        Err(e) => Err(e),
                        Ok((to_facing, pos5)) => match optional_spawn(t, s, pos5) {
                            Err(e) => Err(e),
                            Ok((spawn, pos6)) => match expect_list_end(t, pos6, TokenKind::Semicolon) {
                                Err(e) => Err(e),
                                Ok(pos7) => Ok(((to_state, to_block, to_facing, spawn), pos7)),
                            },
                        },
                    },
                },
            },
        },
    }
}

pub open spec fn blocks_of(names: Seq<Seq<char>>) -> Seq<crate::rules::Block> {
    names.map_values(|x: Seq<char>| block_named(x)->0)
}

pub open spec fn directions_of(names: Seq<Seq<char>>) -> Seq<Direction> {
    names.map_values(|x: Seq<char>| direction_named(x)->0)
}

/// One rule statement.
pub open spec fn rule_at(t: Seq<Lexeme>, s: Symbols, p: int) -> Result<(RuleView, int), Seq<char>> {
    match rule_guards(t, s, p) {
        Err(e) => Err(e),
        Ok(((states, blocks, dirs), q)) => match rule_targets(t, s, q) {
            Err(e) => Err(e),
            Ok(((to_state, to_block, to_facing, spawn), r)) => Ok(
                (
                    RuleView {
                        from_state: states,
                        from_block: blocks_of(blocks),
                        from_facing: directions_of(dirs),
                        to_state,
                        to_block,
                        to_facing,
                        spawn,
                    },
                    r,
                ),
            ),
        },
    }
}

/// A list that was read stops at or after where it started.
proof fn lemma_list_rest_advances(t: Seq<Lexeme>, s: Symbols, kind: ListKind, p: int, first: bool, end: bool)
    requires
        0 <= p,
    ensures
        list_rest(t, s, kind, p, first, end) matches Ok((_, q)) ==> p <= q,
    decreases t.len() - p, if end { 0int } else { 1int },
{
    let (item, q, f, e) = list_step(t, s, p, first, end);
    if item matches Some(Ok(x)) {
        lemma_list_rest_advances(t, s, kind, q, f, e);
    }
}

/// An `ant` block that was read ends after where it started.
proof fn lemma_ant_body_advances(
    t: Seq<Lexeme>,
    s: Symbols,
    p: int,
    ruleset: Option<Seq<char>>,
    offset: Option<Coordinate>,
    facing: Option<Direction>,
)
    requires
        0 <= p,
    ensures
        ant_body(t, s, p, ruleset, offset, facing) matches Ok((_, q)) ==> p < q <= t.len(),
    decreases t.len() - p,
{
    if 0 <= p < t.len() && t[p].kind != TokenKind::KwEnd {
        if t[p].kind == TokenKind::KwUse {
            if let Ok((name, q)) = name_clause(t, p + 1) {
                lemma_ant_body_advances(t, s, q, Some(name), offset, facing);
            }
        } else if t[p].kind == TokenKind::KwOffset {
            if let Ok((o, q)) = offset_clause(t, s, p + 1) {
                lemma_ant_body_advances(t, s, q, ruleset, Some(o), facing);
            }
        } else if t[p].kind == TokenKind::KwFacing {
            if let Ok((name, q)) = name_clause(t, p + 1) {
                if let Some(d) = direction_named(name) {
                    lemma_ant_body_advances(t, s, q, ruleset, offset, Some(d));
                }
            }
        }
    }
}

/// A rule statement that was read ends after where it started.
proof fn lemma_rule_at_advances(t: Seq<Lexeme>, s: Symbols, p: int)
    requires
        0 <= p,
    ensures
        rule_at(t, s, p) matches Ok((_, q)) ==> p < q <= t.len(),
{
    lemma_list_rest_advances(t, s, ListKind::States, p, true, false);
    if let Ok((_, pos1)) = list_from(t, s, ListKind::States, p) {
        if let Ok(pos2) = expect_list_end(t, pos1, TokenKind::Comma) {
            lemma_list_rest_advances(t, s, ListKind::Blocks, pos2, true, false);
            if let Ok((_, pos3)) = list_from(t, s, ListKind::Blocks, pos2) {
                if let Ok(pos4) = expect_list_end(t, pos3, TokenKind::Comma) {
                    lemma_list_rest_advances(t, s, ListKind::Directions, pos4, true, false);
                }
            }
        }
    }
    if let Ok((_, q)) = rule_guards(t, s, p) {
        if let Ok((_, pos1)) = expect_ident(t, s, q) {
            if let Ok(pos2) = expect_list_end(t, pos1, TokenKind::Comma) {
                if let Ok((_, pos3)) = optional_block(t, s, pos2) {
                    if let Ok(pos4) = expect_list_end(t, pos3, TokenKind::Comma) {
                        if let Ok((_, pos5)) = optional_direction(t, s, pos4) {
                            if kind_at(t, pos5, TokenKind::Plus) {
                                if let Ok((_, q2)) = expect_kind(t, pos5 + 1, TokenKind::KwSpawn) {
                                    lemma_ant_body_advances(t, s, q2 + 1, None, None, None);
                                }
                            }
                        }
                    }
                }
            }
        }
    }
}

#[via_fn]
proof fn rules_from_decreases(t: Seq<Lexeme>, s: Symbols, p: int) {
    if 0 <= p {
        lemma_rule_at_advances(t, s, p);
    }
}

/// The rules of a ruleset, once read, end after where they started.
proof fn lemma_rules_from_advances(t: Seq<Lexeme>, s: Symbols, p: int)
    requires
        0 <= p,
    ensures
        rules_from(t, s, p) matches Ok((_, q)) ==> p < q <= t.len(),
    decreases t.len() - p,
{
    if 0 <= p < t.len() && t[p].kind != TokenKind::KwEnd {
        lemma_rule_at_advances(t, s, p);
        if let Ok((_, q)) = rule_at(t, s, p) {
            lemma_rules_from_advances(t, s, q);
        }
    }
}

/// The rules of a ruleset up to and including its `end`.
pub open spec fn rules_from(t: Seq<Lexeme>, s: Symbols, p: int) -> Result<(Seq<RuleView>, int), Seq<char>>
    decreases t.len() - p,
    via rules_from_decreases
{
    if p < 0 || p >= t.len() || t[p].kind == TokenKind::KwEnd {
        match expect_kind(t, p, TokenKind::KwEnd) {
            Err(e) => Err(e),
            Ok((_, q)) => Ok((Seq::empty(), q)),
        }
    } else {
        match rule_at(t, s, p) {
            Err(e) => Err(e),
            Ok((r, q)) => match rules_from(t, s, q) {
                Err(e) => Err(e),
                Ok((rs, q2)) => Ok((seq![r] + rs, q2)),
            },
        }
    }
}

/// A `ruleset name ... end` block, if one starts at `p`.
pub open spec fn try_ruleset(t: Seq<Lexeme>, s: Symbols, p: int) -> Result<(Option<RulesetView>, int), Seq<char>> {
    if kind_at(t, p, TokenKind::KwRuleset) {
        match expect_kind(t, p + 1, TokenKind::Ident) {
            Err(e) => Err(e),
            Ok((name, q)) => match rules_from(t, s, q) {
                Err(e) => Err(e),
                Ok((rules, r)) => Ok((Some(RulesetView { name, rules }), r)),
            },
        }
    } else {
        Ok((None, p))
    }
}

/// A `set name value` statement, if one starts at `p`.
pub open spec fn try_property_set(t: Seq<Lexeme>, s: Symbols, p: int) -> Result<
    (Option<(Seq<char>, Seq<char>)>, int),
    Seq<char>,
> {
    if kind_at(t, p, TokenKind::KwSet) {
        match expect_kind(t, p + 1, TokenKind::Ident) {
            Err(e) => Err(e),
            Ok((name, q)) => match expect_ident(t, s, q) {
                Err(e) => Err(e),
                Ok((value, r)) => Ok((Some((name, value)), r)),
            },
        }
    } else {
        Ok((None, p))
    }
}

/// A `define $name value` statement, if one starts at `p`: the name without
/// its `$`, and the value.
pub open spec fn try_symbol_define(t: Seq<Lexeme>, s: Symbols, p: int) -> Result<
    (Option<(Seq<char>, Seq<char>)>, int),
    Seq<char>,
> {
    if kind_at(t, p, TokenKind::KwDefine) {
        match expect_kind(t, p + 1, TokenKind::Ident) {
            Err(e) => Err(e),
            Ok((name, q)) => if !(name.len() > 0 && name[0] == '$') {
                Err("symbol name must begin with `$`"@)
            } else {
                match expect_ident(t, s, q) {
                    Err(e) => Err(e),
                    Ok((value, r)) => Ok((Some((name.drop_first(), value)), r)),
                }
            },
        }
    } else {
        Ok((None, p))
    }
}

/// The properties after a `set name value` statement.
pub open spec fn update_property(props: Properties, name: Seq<char>, value: Seq<char>) -> Result<
    Properties,
    Seq<char>,
> {
    if eq_ignore_case(name, "delay"@) {
        match int_in(value, false, 0, u64::MAX as int) {
            None => Err(numeric_error(value)),
            Some(v) => if props.delay.is_some() {
                Err(quoted("duplicate property "@, name))
            } else {
                Ok(Properties { delay: Some(v as u64), ..props })
            },
        }
    } else if eq_ignore_case(name, "cap"@) {
        match int_in(value, false, 0, usize::MAX as int) {
            None => Err(numeric_error(value)),
            Some(v) => if props.cap.is_some() {
                Err(quoted("duplicate property "@, name))
            } else {
                Ok(Properties { cap: Some(v as usize), ..props })
            },
        }
    } else {
        Err(quoted("unknown property "@, name))
    }
}

/// Whether some ruleset is called `name` (ASCII case ignored).
pub open spec fn has_ruleset(rulesets: Seq<RulesetView>, name: Seq<char>) -> bool {
    exists|i: int| 0 <= i < rulesets.len() && eq_ignore_case(#[trigger] rulesets[i].name, name)
}

/// Some ruleset is called `name` exactly when the lookup by name finds one.
pub proof fn lemma_has_ruleset(rulesets: Seq<RulesetView>, name: Seq<char>)
    ensures
        has_ruleset(rulesets, name) <==> ruleset_named(rulesets, name).is_some(),
        ruleset_named(rulesets, name) matches Some(i) ==> 0 <= i < rulesets.len() && eq_ignore_case(
            rulesets[i].name,
            name,
        ),
{
    lemma_ruleset_from(rulesets, name, 0);
}

proof fn lemma_ruleset_from(rulesets: Seq<RulesetView>, name: Seq<char>, i: int)
    requires
        0 <= i,
    ensures
        ruleset_from(rulesets, name, i) matches Some(k) ==> i <= k < rulesets.len() && eq_ignore_case(
            rulesets[k].name,
            name,
        ),
        ruleset_from(rulesets, name, i).is_none() ==> forall|j: int|
            i <= j < rulesets.len() ==> !eq_ignore_case(#[trigger] rulesets[j].name, name),
    decreases rulesets.len() - i,
{
    if i < rulesets.len() {
        lemma_ruleset_from(rulesets, name, i + 1);
    }
}

/// The rulesets that the spawn clauses of `rules` name, in order.
pub open spec fn rule_spawn_targets(rules: Seq<RuleView>) -> Seq<Seq<char>>
    decreases rules.len(),
{
    if rules.len() == 0 {
        Seq::empty()
    } else {
        rule_spawn_targets(rules.drop_last()) + match rules.last().spawn {
            Some(a) => seq![a.ruleset],
            None => Seq::empty(),
        }
    }
}

/// The rulesets that all spawn clauses name, in order.
pub open spec fn spawn_targets(rulesets: Seq<RulesetView>) -> Seq<Seq<char>>
    decreases rulesets.len(),
{
    if rulesets.len() == 0 {
        Seq::empty()
    } else {
        spawn_targets(rulesets.drop_last()) + rule_spawn_targets(rulesets.last().rules)
    }
}

/// Every ruleset reference that must resolve: those of the ants, then those
/// of the spawn clauses.
pub open spec fn references(ants: Seq<AntView>, rulesets: Seq<RulesetView>) -> Seq<Seq<char>> {
    ants.map_values(|a: AntView| a.ruleset) + spawn_targets(rulesets)
}

/// `k` is the first reference that names no ruleset.
pub open spec fn first_dangling(refs: Seq<Seq<char>>, rulesets: Seq<RulesetView>, k: int) -> bool {
    &&& 0 <= k < refs.len()
    &&& !has_ruleset(rulesets, refs[k])
    &&& forall|j: int| 0 <= j < k ==> has_ruleset(rulesets, #[trigger] refs[j])
}

/// The schema, once every reference is checked.
pub open spec fn validate(ants: Seq<AntView>, rulesets: Seq<RulesetView>, props: Properties) -> Result<
    SchemaView,
    Seq<char>,
> {
    let refs = references(ants, rulesets);
    if exists|k: int| first_dangling(refs, rulesets, k) {
        let k = choose|k: int| first_dangling(refs, rulesets, k);
        Err(quoted("unknown ruleset "@, refs[k]))
    } else {
        Ok(SchemaView { ants, rulesets, properties: props })
    }
}

#[via_fn]
proof fn schema_from_decreases(
    t: Seq<Lexeme>,
    s: Symbols,
    p: int,
    ants: Seq<AntView>,
    rulesets: Seq<RulesetView>,
    props: Properties,
) {
    if 0 <= p {
        lemma_ant_body_advances(t, s, p + 1, None, None, None);
        lemma_rules_from_advances(t, s, p + 2);
    }
}

/// A whole program from `p` on, with the macros, ants, rulesets and
/// properties read before `p`.
pub open spec fn schema_from(
    t: Seq<Lexeme>,
    s: Symbols,
    p: int,
    ants: Seq<AntView>,
    rulesets: Seq<RulesetView>,
    props: Properties,
) -> Result<SchemaView, Seq<char>>
    decreases t.len() - p,
    via schema_from_decreases
{
    if p < 0 || p >= t.len() {
        validate(ants, rulesets, props)
    } else {
        match try_property_set(t, s, p) {
            Err(e) => Err(e),
            Ok((Some((name, value)), q)) => match update_property(props, name, value) {
                Err(e) => Err(e),
                Ok(props2) => schema_from(t, s, q, ants, rulesets, props2),
            },
            Ok((None, _)) => match try_symbol_define(t, s, p) {
                Err(e) => Err(e),
                Ok((Some((name, value)), q)) => if lookup(s, name).is_some() {
                    Err(quoted("redefinition of symbol "@, name))
                } else {
                    schema_from(t, s.push((name, value)), q, ants, rulesets, props)
                },
                Ok((None, _)) => match try_ant(t, s, p) {
                    Err(e) => Err(e),
                    Ok((Some(a), q)) => schema_from(t, s, q, ants.push(a), rulesets, props),
                    Ok((None, _)) => match try_ruleset(t, s, p) {
                        Err(e) => Err(e),
                        Ok((Some(rs), q)) => if has_ruleset(rulesets, rs.name) {
                            Err(quoted("duplicate ruleset "@, rs.name))
                        } else {
                            schema_from(t, s, q, ants, rulesets.push(rs), props)
                        },
                        Ok((None, _)) => Err("expected "@ + kind_text(TokenKind::KwRuleset) + " or "@
                            + kind_text(TokenKind::KwAnt) + ", found "@ + kind_text(t[p].kind)),
                    },
                },
            },
        }
    }
}

/// The schema a token sequence describes, or the message of its first error.
pub open spec fn schema_of(t: Seq<Lexeme>) -> Result<SchemaView, Seq<char>> {
    schema_from(t, Seq::empty(), 0, Seq::empty(), Seq::empty(), Properties { delay: None, cap: None })
}

/// Macro names are matched exactly, case included.
pub proof fn lemma_macro_names_exact(name: Seq<char>, value: Seq<char>, other: Seq<char>)
    ensures
        lookup(seq![(name, value)], other) == if name == other {
            Some(value)
        } else {
            None
        },
{
    let one = seq![(name, value)];
    assert(one.drop_first() =~= Seq::<(Seq<char>, Seq<char>)>::empty());
    assert(one[0] == (name, value));
    assert(lookup(one.drop_first(), other).is_none());
}

/// Macro references are resolved by exact, case-sensitive name: with one
/// macro defined, `$other` reads as its text only where `other` is its very
/// name, and is an undefined symbol otherwise.
pub proof fn lemma_macro_reference_case_sensitive(name: Seq<char>, text: Seq<char>, other: Seq<char>)
    ensures
        expand(seq![(name, text)], seq!['$'] + other) == if other == name {
            Ok::<Seq<char>, Seq<char>>(text)
        } else {
            Err::<Seq<char>, Seq<char>>(quoted("undefined symbol "@, other))
        },
{
    lemma_macro_names_exact(name, text, other);
    assert((seq!['$'] + other).drop_first() =~= other);
}

/// A reference to a defined macro reads exactly as the macro's text written
/// in its place.
pub proof fn lemma_macro_expands_to_literal(syms: Symbols, name: Seq<char>, text: Seq<char>)
    requires
        lookup(syms, name) == Some(text),
        !(text.len() > 0 && text[0] == '$'),
    ensures
        expand(syms, seq!['$'] + name) == expand(syms, text),
        expand(syms, text) == Ok::<Seq<char>, Seq<char>>(text),
{
    assert((seq!['$'] + name).drop_first() =~= name);
}

/// Defining a macro a second time is an error.
pub proof fn lemma_macro_redefinition_fails(
    t: Seq<Lexeme>,
    s: Symbols,
    p: int,
    ants: Seq<AntView>,
    rulesets: Seq<RulesetView>,
    props: Properties,
    name: Seq<char>,
    value: Seq<char>,
    q: int,
)
    requires
        0 <= p,
        try_symbol_define(t, s, p) == Ok::<(Option<(Seq<char>, Seq<char>)>, int), Seq<char>>(
            (Some((name, value)), q),
        ),
        lookup(s, name).is_some(),
    ensures
        schema_from(t, s, p, ants, rulesets, props) == Err::<SchemaView, Seq<char>>(
            quoted("redefinition of symbol "@, name),
        ),
{
}

/// Ruleset names are pairwise different, ASCII case ignored.
pub open spec fn names_distinct(rulesets: Seq<RulesetView>) -> bool {
    forall|i: int, j: int|
        0 <= i < j < rulesets.len() ==> !eq_ignore_case(
            #[trigger] rulesets[i].name,
            #[trigger] rulesets[j].name,
        )
}

/// A valid schema: ruleset names are unique (ASCII case ignored), and every
/// ruleset that an ant or a spawn clause names exists.
pub open spec fn schema_wf(schema: SchemaView) -> bool {
    &&& names_distinct(schema.rulesets)
    &&& forall|k: int|
        0 <= k < references(schema.ants, schema.rulesets).len() ==> has_ruleset(
            schema.rulesets,
            #[trigger] references(schema.ants, schema.rulesets)[k],
        )
}

proof fn lemma_first_dangling_exists(refs: Seq<Seq<char>>, rulesets: Seq<RulesetView>, k: int)
    requires
        0 <= k < refs.len(),
        !has_ruleset(rulesets, refs[k]),
    ensures
        exists|c: int| first_dangling(refs, rulesets, c),
    decreases k,
{
    if exists|j: int| 0 <= j < k && !has_ruleset(rulesets, #[trigger] refs[j]) {
        let j = choose|j: int| 0 <= j < k && !has_ruleset(rulesets, #[trigger] refs[j]);
        lemma_first_dangling_exists(refs, rulesets, j);
    } else {
        assert(first_dangling(refs, rulesets, k));
    }
}

proof fn lemma_schema_from_wf(
    t: Seq<Lexeme>,
    s: Symbols,
    p: int,
    ants: Seq<AntView>,
    rulesets: Seq<RulesetView>,
    props: Properties,
)
    requires
        names_distinct(rulesets),
    ensures
        schema_from(t, s, p, ants, rulesets, props) matches Ok(sc) ==> schema_wf(sc),
    decreases t.len() - p,
{
    if p < 0 || p >= t.len() {
        let refs = references(ants, rulesets);
        if !(exists|k: int| first_dangling(refs, rulesets, k)) {
            assert forall|k: int| 0 <= k < refs.len() implies has_ruleset(rulesets, #[trigger] refs[k]) by {
                if !has_ruleset(rulesets, refs[k]) {
                    lemma_first_dangling_exists(refs, rulesets, k);
                }
            }
        }
    } else {
        lemma_ant_body_advances(t, s, p + 1, None, None, None);
        lemma_rules_from_advances(t, s, p + 2);
        match try_property_set(t, s, p) {
            Ok((Some((name, value)), q)) => {
                if let Ok(props2) = update_property(props, name, value) {
                    lemma_schema_from_wf(t, s, q, ants, rulesets, props2);
                }
            },
            Ok((None, _)) => match try_symbol_define(t, s, p) {
                Ok((Some((name, value)), q)) => {
                    lemma_schema_from_wf(t, s.push((name, value)), q, ants, rulesets, props);
                },
                Ok((None, _)) => match try_ant(t, s, p) {
                    Ok((Some(a), q)) => {
                        lemma_schema_from_wf(t, s, q, ants.push(a), rulesets, props);
                    },
                    Ok((None, _)) => match try_ruleset(t, s, p) {
                        Ok((Some(rs), q)) => {
                            if !has_ruleset(rulesets, rs.name) {
                                let more = rulesets.push(rs);
                                assert forall|i: int, j: int| 0 <= i < j < more.len() implies !eq_ignore_case(
                                    #[trigger] more[i].name,
                                    #[trigger] more[j].name,
                                ) by {
                                    if j == rulesets.len() {
                                        assert(more[i] == rulesets[i]);
                                    } else {
                                        assert(more[i] == rulesets[i] && more[j] == rulesets[j]);
                                    }
                                }
                                lemma_schema_from_wf(t, s, q, ants, more, props);
                            }
                        },
                        _ => {},
                    },
                    _ => {},
                },
                _ => {},
            },
            _ => {},
        }
    }
}

/// Every schema read from a token sequence is valid: ruleset names are
/// unique and every ruleset reference resolves.
pub proof fn lemma_parsed_schema_wf(t: Seq<Lexeme>, s: Symbols, p: int)
    ensures
        schema_from(t, s, p, Seq::empty(), Seq::empty(), Properties { delay: None, cap: None }) matches Ok(
            sc,
        ) ==> schema_wf(sc),
{
    lemma_schema_from_wf(t, s, p, Seq::empty(), Seq::empty(), Properties { delay: None, cap: None });
}

} // verus!

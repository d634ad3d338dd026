//! The recursive-descent parser: reads the token sequence of a program and
//! builds a validated schema, or reports the first error.
use vstd::prelude::*;
use vstd::string::StringExecFns;
use crate::blocks::parse_block;
use crate::grammar::{
    ant_body, blocks_of, direction_named, directions_of, expand, expect_i32, expect_ident, expect_kind, expect_list_end, found,
    first_dangling, has_ruleset, lemma_lookup_none, symbols_distinct, item_error, lemma_has_ruleset, references, rule_spawn_targets,
    spawn_targets, kind_at, list_rest, list_step, lookup, offset_clause, name_clause,
    optional_spawn, quoted, rule_at, rule_guards, rule_targets,
    rules_from, schema_from, schema_of, schema_wf, lemma_parsed_schema_wf, try_ant, try_property_set, try_ruleset, try_symbol_define,
    update_property, validate, ListKind, Symbols,
};
use crate::numeric::{parse_i32, parse_u64, parse_usize};
use crate::rules::{
    ant_views, rule_views, ruleset_position, ruleset_views, Ant, AntView, Block, Coordinate, Direction, INITIAL_STATE, Properties, Rule, RuleView, Ruleset,
    RulesetView, Schema, SchemaView,
};
use crate::text::{eq_ignore_ascii_case, remove_first_char, starts_with_char, str_equal};
use crate::tokens::{lex, tokenize, Lexeme, Token, TokenKind};

verus! {

/// `a` followed by `b`.
fn cat(a: &str, b: &str) -> (r: String)
    ensures
        r@ == a@ + b@,
{
    let mut r = String::from_str(a);
    r.append(b);
    r
}

/// `prefix` followed by `name` in backquotes.
fn quote(prefix: &str, name: &str) -> (r: String)
    ensures
        r@ == quoted(prefix@, name@),
{
    let mut r = String::from_str(prefix);
    r.append("`");
    r.append(name);
    r.append("`");
    r
}

/// The message "expected <what>, found <found>".
fn expected_found(what: &str, found: &str) -> (r: String)
    ensures
        r@ == "expected "@ + what@ + ", found "@ + found@,
{
    let mut r = String::from_str("expected ");
    r.append(what);
    r.append(", found ");
    r.append(found);
    r
}

/// The direction called `s`, ASCII case ignored.
pub fn parse_direction(s: &str) -> (r: Option<Direction>)
    ensures
        r == direction_named(s@),
{
    if eq_ignore_ascii_case(s, "east") {
        Some(Direction::East)
    } else if eq_ignore_ascii_case(s, "west") {
        Some(Direction::West)
    } else if eq_ignore_ascii_case(s, "south") {
        Some(Direction::South)
    } else if eq_ignore_ascii_case(s, "north") {
        Some(Direction::North)
    } else if eq_ignore_ascii_case(s, "up") {
        Some(Direction::Up)
    } else if eq_ignore_ascii_case(s, "down") {
        Some(Direction::Down)
    } else {
        None
    }
}

/// `xs` put in front of the items of a list result.
pub open spec fn with_prefix(xs: Seq<Seq<char>>, r: Result<(Seq<Seq<char>>, int), Seq<char>>) -> Result<
    (Seq<Seq<char>>, int),
    Seq<char>,
> {
    match r {
        Ok((ys, q)) => Ok((xs + ys, q)),
        Err(e) => Err(e),
    }
}

pub open spec fn opt_text<'a>(o: Option<&'a str>) -> Option<Seq<char>> {
    match o {
        Some(x) => Some(x@),
        None => None,
    }
}

pub open spec fn opt_ant(a: Option<Ant>) -> Option<AntView> {
    match a {
        Some(a) => Some(a@),
        None => None,
    }
}

pub open spec fn texts<'a>(v: Seq<&'a str>) -> Seq<Seq<char>> {
    v.map_values(|x: &'a str| x@)
}

/// Reads the items of one `/`-separated list from a parser, one at a time.
pub struct ListParser {
    first: bool,
    end: bool,
}

impl ListParser {
    /// Whether no separator has been read yet.
    pub closed spec fn at_first(&self) -> bool {
        self.first
    }

    /// Whether the last item has been read.
    pub closed spec fn at_end(&self) -> bool {
        self.end
    }

    pub fn new() -> (r: ListParser)
        ensures
            r.at_first(),
            !r.at_end(),
    {
        ListParser { first: true, end: false }
    }

    /// The next item of the list (macro references expanded), an error, or
    /// `None` where the list has ended.
    pub fn next<'a>(&mut self, parser: &mut Parser<'a>) -> (r: Option<Result<&'a str, String>>)
        requires
            old(parser).wf(),
        ensures
            old(parser).same_input(final(parser)),
            ({
                let (item, q, f, e) = list_step(
                    old(parser).toks(),
                    old(parser).syms(),
                    old(parser).pos(),
                    old(self).at_first(),
                    old(self).at_end(),
                );
                &&& q == final(parser).pos()
                &&& f == final(self).at_first()
                &&& e == final(self).at_end()
                &&& match item {
                    None => r.is_none(),
                    Some(Ok(x)) => r matches Some(Ok(v)) && v@ == x,
                    Some(Err(m)) => r matches Some(Err(v)) && v@ == m,
                }
            }),
    {
        if self.end {
            return None;
        }
        let kind = match parser.peek_kind() {
            None => {
                return Some(Err(String::from_str("expected token, found eof")));
            },
            Some(k) => k,
        };
        if kind != TokenKind::Ident {
            if self.first {
                return None;
            }
            let mut m = String::from_str("expected ");
            m.append(TokenKind::Ident.describe());
            m.append(" or ");
            m.append(TokenKind::Comma.describe());
            m.append(", found ");
            m.append(kind.describe());
            return Some(Err(m));
        }
        let next = parser.tokens[parser.cursor];
        assert(parser.toks()[parser.pos()] == parser.tokens@[parser.pos()]@);
        parser.advance();
        match parser.peek_kind() {
            None => {
                return None;
            },
            Some(k) => {
                if k == TokenKind::Slash {
                    self.first = false;
                    parser.advance();
                } else {
                    self.end = true;
                }
            },
        }
        Some(parser.expand_ident(next.string))
    }
}

/// A parser over the tokens of one program text, with the macros defined so far.
pub struct Parser<'a> {
    tokens: Vec<Token<'a>>,
    cursor: usize,
    symbols: Vec<(&'a str, &'a str)>,
}

impl<'a> Parser<'a> {
    /// The tokens being parsed.
    pub closed spec fn toks(&self) -> Seq<Lexeme> {
        self.tokens@.map_values(|t: Token<'a>| t@)
    }

    /// The index of the next token.
    pub closed spec fn pos(&self) -> int {
        self.cursor as int
    }

    /// The macros defined so far, in order of definition.
    pub closed spec fn syms(&self) -> Symbols {
        self.symbols@.map_values(|e: (&'a str, &'a str)| (e.0@, e.1@))
    }

    /// The cursor lies within the tokens, and no two macros share a name.
    pub closed spec fn wf(&self) -> bool {
        &&& self.cursor <= self.tokens.len()
        &&& symbols_distinct(self.syms())
    }

    /// `next` reads the same tokens with the same macros as `self`.
    pub open spec fn same_input(&self, next: &Parser<'a>) -> bool {
        &&& next.wf()
        &&& next.toks() == self.toks()
        &&& next.syms() == self.syms()
        &&& self.pos() <= next.pos()
    }

    pub fn new(text: &'a str) -> (r: Parser<'a>)
        ensures
            r.wf(),
            r.toks() == lex(text@),
            r.pos() == 0,
            r.syms() == Seq::<(Seq<char>, Seq<char>)>::empty(),
    {
        let r = Parser { tokens: tokenize(text), cursor: 0, symbols: Vec::new() };
        assert(r.syms() =~= Seq::<(Seq<char>, Seq<char>)>::empty());
        r
    }

    fn is_end(&self) -> (r: bool)
        requires
            self.wf(),
        ensures
            r == (self.pos() >= self.toks().len()),
    {
        self.cursor >= self.tokens.len()
    }

    /// The kind of the next token, if any.
    fn peek_kind(&self) -> (r: Option<TokenKind>)
        requires
            self.wf(),
        ensures
            self.pos() < self.toks().len() ==> r == Some(self.toks()[self.pos()].kind),
            self.pos() >= self.toks().len() ==> r.is_none(),
    {
        if self.cursor < self.tokens.len() {
            Some(self.tokens[self.cursor].kind)
        } else {
            None
        }
    }

    /// How the next token is named in messages (`eof` at the end).
    fn found_text(&self) -> (r: &'static str)
        requires
            self.wf(),
        ensures
            r@ == found(self.toks(), self.pos()),
    {
        if self.cursor < self.tokens.len() {
            self.tokens[self.cursor].kind.describe()
        } else {
            "eof"
        }
    }

    /// Steps over the next token.
    fn advance(&mut self)
        requires
            old(self).wf(),
            old(self).pos() < old(self).toks().len(),
        ensures
            old(self).same_input(final(self)),
            final(self).pos() == old(self).pos() + 1,
    {
        self.cursor = self.cursor + 1;
    }

    /// Takes the next token if it is of kind `kind`.
    fn try_token_kind(&mut self, kind: TokenKind) -> (r: Option<Token<'a>>)
        requires
            old(self).wf(),
        ensures
            old(self).same_input(final(self)),
            kind_at(old(self).toks(), old(self).pos(), kind) ==> r.is_some() && r.unwrap()@
                == old(self).toks()[old(self).pos()] && final(self).pos() == old(self).pos() + 1,
            !kind_at(old(self).toks(), old(self).pos(), kind) ==> r.is_none() && final(self).pos()
                == old(self).pos(),
    {
        if self.cursor < self.tokens.len() && self.tokens[self.cursor].kind == kind {
            let t = self.tokens[self.cursor];
            self.cursor = self.cursor + 1;
            Some(t)
        } else {
            None
        }
    }

    /// Takes the next token, which must be of kind `kind`.
    fn expect_token_kind(&mut self, kind: TokenKind) -> (r: Result<Token<'a>, String>)
        requires
            old(self).wf(),
        ensures
            old(self).same_input(final(self)),
            match r {
                Ok(t) => expect_kind(old(self).toks(), old(self).pos(), kind) == Ok::<
                    (Seq<char>, int),
                    Seq<char>,
                >((t@.text, final(self).pos())) && t.kind == kind,
                Err(e) => expect_kind(old(self).toks(), old(self).pos(), kind) == Err::<
                    (Seq<char>, int),
                    Seq<char>,
                >(e@),
            },
    {
        if self.cursor < self.tokens.len() && self.tokens[self.cursor].kind == kind {
            let t = self.tokens[self.cursor];
            self.cursor = self.cursor + 1;
            Ok(t)
        } else {
            Err(expected_found(kind.describe(), self.found_text()))
        }
    }

    /// The replacement text of macro `name`, if defined.
    fn lookup_symbol(&self, name: &str) -> (r: Option<&'a str>)
        ensures
            match r {
                Some(v) => lookup(self.syms(), name@) == Some(v@),
                None => lookup(self.syms(), name@).is_none(),
            },
    {
        let mut i: usize = 0;
        assert(self.syms().skip(0) =~= self.syms());
        while i < self.symbols.len()
            invariant
                i <= self.symbols@.len(),
                lookup(self.syms(), name@) == lookup(self.syms().skip(i as int), name@),
            decreases self.symbols@.len() - i,
        {
            let ghost rest = self.syms().skip(i as int);
            assert(rest[0] == (self.symbols@[i as int].0@, self.symbols@[i as int].1@));
            if str_equal(self.symbols[i].0, name) {
                return Some(self.symbols[i].1);
            }
            assert(rest.drop_first() =~= self.syms().skip(i + 1));
            i = i + 1;
        }
        None
    }

    /// Replaces a macro reference (`$name`) by its text.
    fn expand_ident(&self, ident: &'a str) -> (r: Result<&'a str, String>)
        ensures
            match r {
                Ok(v) => expand(self.syms(), ident@) == Ok::<Seq<char>, Seq<char>>(v@),
                Err(e) => expand(self.syms(), ident@) == Err::<Seq<char>, Seq<char>>(e@),
            },
    {
        if !starts_with_char(ident, '$') {
            return Ok(ident);
        }
        let symbol = remove_first_char(ident);
        match self.lookup_symbol(symbol) {
            Some(v) => Ok(v),
            None => Err(quote("undefined symbol ", symbol)),
        }
    }

    /// Takes an identifier, without expanding it.
    fn expect_ident_no_expand(&mut self) -> (r: Result<&'a str, String>)
        requires
            old(self).wf(),
        ensures
            old(self).same_input(final(self)),
            match r {
                Ok(v) => expect_kind(old(self).toks(), old(self).pos(), TokenKind::Ident) == Ok::<
                    (Seq<char>, int),
                    Seq<char>,
                >((v@, final(self).pos())),
                Err(e) => expect_kind(old(self).toks(), old(self).pos(), TokenKind::Ident) == Err::<
                    (Seq<char>, int),
                    Seq<char>,
                >(e@),
            },
    {
        match self.expect_token_kind(TokenKind::Ident) {
            Ok(t) => Ok(t.string),
            Err(e) => Err(e),
        }
    }

    /// Takes an identifier and expands it.
    fn expect_ident(&mut self) -> (r: Result<&'a str, String>)
        requires
            old(self).wf(),
        ensures
            old(self).same_input(final(self)),
            match r {
                Ok(v) => expect_ident(old(self).toks(), old(self).syms(), old(self).pos()) == Ok::<
                    (Seq<char>, int),
                    Seq<char>,
                >((v@, final(self).pos())),
                Err(e) => expect_ident(old(self).toks(), old(self).syms(), old(self).pos())
                    == Err::<(Seq<char>, int), Seq<char>>(e@),
            },
    {
        let ident = self.expect_ident_no_expand()?;
        self.expand_ident(ident)
    }

    /// Takes an identifier, if the next token is one, and expands it.
    fn try_ident(&mut self) -> (r: Option<Result<&'a str, String>>)
        requires
            old(self).wf(),
        ensures
            old(self).same_input(final(self)),
            !kind_at(old(self).toks(), old(self).pos(), TokenKind::Ident) ==> r.is_none()
                && final(self).pos() == old(self).pos(),
            kind_at(old(self).toks(), old(self).pos(), TokenKind::Ident) ==> r.is_some()
                && final(self).pos() == old(self).pos() + 1 && match r.unwrap() {
                Ok(v) => expand(old(self).syms(), old(self).toks()[old(self).pos()].text) == Ok::<
                    Seq<char>,
                    Seq<char>,
                >(v@),
                Err(e) => expand(old(self).syms(), old(self).toks()[old(self).pos()].text) == Err::<
                    Seq<char>,
                    Seq<char>,
                >(e@),
            },
    {
        let t = self.try_token_kind(TokenKind::Ident)?;
        Some(self.expand_ident(t.string))
    }

    /// Takes an identifier that denotes a signed 32-bit integer.
    fn expect_i32(&mut self) -> (r: Result<i32, String>)
        requires
            old(self).wf(),
        ensures
            old(self).same_input(final(self)),
            match r {
                Ok(v) => expect_i32(old(self).toks(), old(self).syms(), old(self).pos()) == Ok::<
                    (i32, int),
                    Seq<char>,
                >((v, final(self).pos())),
                Err(e) => expect_i32(old(self).toks(), old(self).syms(), old(self).pos()) == Err::<
                    (i32, int),
                    Seq<char>,
                >(e@),
            },
    {
        let v = self.expect_ident()?;
        parse_i32(v)
    }

    /// Takes the token that closes a list, which must be of kind `end`.
    fn expect_list_end(&mut self, end: TokenKind) -> (r: Result<(), String>)
        requires
            old(self).wf(),
        ensures
            old(self).same_input(final(self)),
            match r {
                Ok(_) => expect_list_end(old(self).toks(), old(self).pos(), end) == Ok::<
                    int,
                    Seq<char>,
                >(final(self).pos()),
                Err(e) => expect_list_end(old(self).toks(), old(self).pos(), end) == Err::<
                    int,
                    Seq<char>,
                >(e@),
            },
    {
        if self.cursor < self.tokens.len() && self.tokens[self.cursor].kind == end {
            assert(self.toks()[self.pos()] == self.tokens@[self.pos()]@);
            self.cursor = self.cursor + 1;
            Ok(())
        } else {
            let mut m = String::from_str("expected ");
            m.append(end.describe());
            m.append(" or ");
            m.append(TokenKind::Slash.describe());
            m.append(", found ");
            m.append(self.found_text());
            Err(m)
        }
    }
}

impl<'a> Parser<'a> {
    /// Reads a `/`-separated list whose items must name things of `kind`;
    /// gives the items with macro references expanded.
    fn expect_list(&mut self, kind: ListKind) -> (r: Result<Vec<&'a str>, String>)
        requires
            old(self).wf(),
        ensures
            old(self).same_input(final(self)),
            match r {
                Ok(v) => list_rest(old(self).toks(), old(self).syms(), kind, old(self).pos(), true, false)
                    == Ok::<(Seq<Seq<char>>, int), Seq<char>>((texts(v@), final(self).pos())),
                Err(e) => list_rest(old(self).toks(), old(self).syms(), kind, old(self).pos(), true, false)
                    == Err::<(Seq<Seq<char>>, int), Seq<char>>(e@),
            },
    {
        let ghost t = self.toks();
        let ghost s = self.syms();
        let ghost pos0 = self.pos();
        let mut items: Vec<&'a str> = Vec::new();
        let mut lp = ListParser::new();
        assert(with_prefix(Seq::empty(), list_rest(t, s, kind, pos0, true, false)) == list_rest(t, s, kind, pos0, true, false)) by {
            match list_rest(t, s, kind, pos0, true, false) {
                Ok((ys, q)) => { assert(Seq::<Seq<char>>::empty() + ys =~= ys); },
                Err(_) => {},
            }
        }
        loop
            invariant
                old(self).same_input(self),
                t == self.toks(),
                s == self.syms(),
                t == old(self).toks(),
                s == old(self).syms(),
                pos0 == old(self).pos(),
                list_rest(t, s, kind, pos0, true, false) == with_prefix(
                    texts(items@),
                    list_rest(t, s, kind, self.pos(), lp.at_first(), lp.at_end()),
                ),
            decreases t.len() - self.pos(),
        {
            let ghost pos = self.pos();
            let ghost first = lp.at_first();
            let ghost end = lp.at_end();
            match lp.next(self) {
                None => {
                    assert(list_rest(t, s, kind, pos, first, end) == Ok::<(Seq<Seq<char>>, int), Seq<char>>((Seq::empty(), self.pos())));
                    assert(texts(items@) + Seq::<Seq<char>>::empty() =~= texts(items@));
                    return Ok(items);
                },
                Some(Err(e)) => {
                    assert(list_rest(t, s, kind, pos, first, end) == Err::<(Seq<Seq<char>>, int), Seq<char>>(e@));
                    return Err(e);
                },
                Some(Ok(x)) => {
                    match kind {
                        ListKind::States => {},
                        ListKind::Blocks => {
                            if parse_block(x).is_none() {
                                return Err(quote("unknown block ", x));
                            }
                        },
                        ListKind::Directions => {
                            if parse_direction(x).is_none() {
                                return Err(quote("unknown direction ", x));
                            }
                        },
                    }
                    assert(item_error(kind, x@).is_none());
                    let ghost before = items@;
                    items.push(x);
                    assert(texts(items@) =~= texts(before).push(x@));
                    proof {
                        match list_rest(t, s, kind, self.pos(), lp.at_first(), lp.at_end()) {
                            Ok((ys, q)) => {
                                assert(texts(before) + (seq![x@] + ys) =~= texts(items@) + ys);
                            },
                            Err(_) => {},
                        }
                    }
                },
            }
        }
    }
}

impl<'a> Parser<'a> {
    /// Reads the `x, y, z;` of an `offset` clause.
    fn expect_offset(&mut self) -> (r: Result<Coordinate, String>)
        requires
            old(self).wf(),
        ensures
            old(self).same_input(final(self)),
            match r {
                Ok(c) => offset_clause(old(self).toks(), old(self).syms(), old(self).pos()) == Ok::<
                    (Coordinate, int),
                    Seq<char>,
                >((c, final(self).pos())),
                Err(e) => offset_clause(old(self).toks(), old(self).syms(), old(self).pos())
                    == Err::<(Coordinate, int), Seq<char>>(e@),
            },
    {
        let x = self.expect_i32()?;
        self.expect_token_kind(TokenKind::Comma)?;
        let y = self.expect_i32()?;
        self.expect_token_kind(TokenKind::Comma)?;
        let z = self.expect_i32()?;
        self.expect_token_kind(TokenKind::Semicolon)?;
        Ok(Coordinate::new(x, y, z))
    }

    /// Reads the `name;` of a `use` or `facing` clause.
    fn expect_name_clause(&mut self) -> (r: Result<&'a str, String>)
        requires
            old(self).wf(),
        ensures
            old(self).same_input(final(self)),
            match r {
                Ok(v) => name_clause(old(self).toks(), old(self).pos()) == Ok::<
                    (Seq<char>, int),
                    Seq<char>,
                >((v@, final(self).pos())),
                Err(e) => name_clause(old(self).toks(), old(self).pos()) == Err::<
                    (Seq<char>, int),
                    Seq<char>,
                >(e@),
            },
    {
        let name = self.expect_token_kind(TokenKind::Ident)?;
        self.expect_token_kind(TokenKind::Semicolon)?;
        Ok(name.string)
    }

    /// Reads an `ant ... end` block, if one comes next.
    fn try_ant(&mut self) -> (r: Result<Option<Ant>, String>)
        requires
            old(self).wf(),
        ensures
            old(self).same_input(final(self)),
            match r {
                Ok(a) => try_ant(old(self).toks(), old(self).syms(), old(self).pos()) == Ok::<
                    (Option<AntView>, int),
                    Seq<char>,
                >((opt_ant(a), final(self).pos())),
                Err(e) => try_ant(old(self).toks(), old(self).syms(), old(self).pos()) == Err::<
                    (Option<AntView>, int),
                    Seq<char>,
                >(e@),
            },
            r matches Ok(Some(_)) ==> final(self).pos() > old(self).pos(),
    {
        if self.try_token_kind(TokenKind::KwAnt).is_none() {
            return Ok(None);
        }
        let ghost t = self.toks();
        let ghost s = self.syms();
        let ghost pos1 = self.pos();
        let mut ruleset: Option<&'a str> = None;
        let mut offset: Option<Coordinate> = None;
        let mut facing: Option<Direction> = None;
        loop
            invariant
                old(self).same_input(self),
                t == self.toks(),
                s == self.syms(),
                t == old(self).toks(),
                s == old(self).syms(),
                pos1 == old(self).pos() + 1,
                pos1 <= self.pos(),
                kind_at(t, old(self).pos(), TokenKind::KwAnt),
                ant_body(t, s, pos1, None, None, None) == ant_body(
                    t,
                    s,
                    self.pos(),
                    opt_text(ruleset),
                    offset,
                    facing,
                ),
            ensures
                self.pos() >= t.len() || t[self.pos()].kind == TokenKind::KwEnd,
            decreases t.len() - self.pos(),
        {
            let kind = match self.peek_kind() {
                None => break,
                Some(k) => k,
            };
            if kind == TokenKind::KwEnd {
                break;
            }
            self.advance();
            match kind {
                TokenKind::KwUse => {
                    let name = self.expect_name_clause()?;
                    if ruleset.is_some() {
                        return Err(String::from_str("cannot use multiple rulesets for ant"));
                    }
                    ruleset = Some(name);
                },
                TokenKind::KwOffset => {
                    let o = self.expect_offset()?;
                    if offset.is_some() {
                        return Err(String::from_str("duplicate attribute `offset` for ant"));
                    }
                    offset = Some(o);
                },
                TokenKind::KwFacing => {
                    let name = self.expect_name_clause()?;
                    if facing.is_some() {
                        return Err(String::from_str("duplicate attribute `facing` for ant"));
                    }
                    match parse_direction(name) {
                        None => {
                            return Err(quote("unknown direction ", name));
                        },
                        Some(d) => {
                            facing = Some(d);
                        },
                    }
                },
                _ => {
                    let mut m = String::from_str("expected attribute or ");
                    m.append(TokenKind::KwEnd.describe());
                    m.append(", found ");
                    m.append(kind.describe());
                    return Err(m);
                },
            }
        }
        let ghost pe = self.pos();
        assert(pe >= t.len() || t[pe].kind == TokenKind::KwEnd);
        match self.expect_token_kind(TokenKind::KwEnd) {
            Err(e) => {
                assert(ant_body(t, s, pe, opt_text(ruleset), offset, facing) == Err::<(AntView, int), Seq<char>>(e@));
                return Err(e);
            },
            Ok(_) => {},
        }
        let name = match ruleset {
            None => {
                return Err(String::from_str("missing ruleset for ant"));
            },
            Some(name) => name,
        };
        let ant = Ant {
            ruleset: String::from_str(name),
            offset: match offset {
                Some(o) => o,
                None => Coordinate::new(0, 0, 0),
            },
            position: Coordinate::new(0, 0, 0),
            facing: match facing {
                Some(f) => f,
                None => Direction::East,
            },
            state: String::from_str(INITIAL_STATE),
            halted: false,
            id: 0,
        };
        Ok(Some(ant))
    }
}

/// Every item of a list that was read without error names a thing of its kind.
proof fn lemma_list_items_valid(
    t: Seq<Lexeme>,
    s: Symbols,
    kind: ListKind,
    p: int,
    first: bool,
    end: bool,
)
    ensures
        list_rest(t, s, kind, p, first, end) matches Ok((xs, _)) ==> forall|i: int|
            0 <= i < xs.len() ==> (#[trigger] item_error(kind, xs[i])).is_none(),
    decreases t.len() - p, if end { 0int } else { 1int },
{
    let (item, q, f, e) = list_step(t, s, p, first, end);
    match item {
        Some(Ok(x)) => {
            if item_error(kind, x).is_none() {
                lemma_list_items_valid(t, s, kind, q, f, e);
                match list_rest(t, s, kind, q, f, e) {
                    Ok((ys, _)) => {
                        let xs = seq![x] + ys;
                        assert forall|i: int| 0 <= i < xs.len() implies (#[trigger] item_error(
                            kind,
                            xs[i],
                        )).is_none() by {
                            if i > 0 {
                                assert(xs[i] == ys[i - 1]);
                            }
                        }
                    },
                    Err(_) => {},
                }
            }
        },
        _ => {},
    }
}

/// Owned copies of the texts.
fn owned_texts(v: &Vec<&str>) -> (r: Vec<String>)
    ensures
        r@.map_values(|x: String| x@) == texts(v@),
{
    let mut r: Vec<String> = Vec::new();
    let mut i: usize = 0;
    while i < v.len()
        invariant
            i <= v@.len(),
            r@.map_values(|x: String| x@) == texts(v@).take(i as int),
        decreases v@.len() - i,
    {
        let owned = String::from_str(v[i]);
        let ghost before = r@;
        r.push(owned);
        assert(r@.map_values(|x: String| x@) =~= before.map_values(|x: String| x@).push(owned@));
        i = i + 1;
        assert(r@.map_values(|x: String| x@) =~= texts(v@).take(i as int));
    }
    assert(texts(v@).take(i as int) =~= texts(v@));
    r
}

/// The blocks the texts name.
fn blocks_named(v: &Vec<&str>) -> (r: Vec<Block>)
    requires
        forall|i: int| 0 <= i < v@.len() ==> (#[trigger] item_error(ListKind::Blocks, v@[i]@)).is_none(),
    ensures
        r@ == blocks_of(texts(v@)),
{
    let mut r: Vec<Block> = Vec::new();
    let mut i: usize = 0;
    while i < v.len()
        invariant
            i <= v@.len(),
            forall|i: int| 0 <= i < v@.len() ==> (#[trigger] item_error(ListKind::Blocks, v@[i]@)).is_none(),
            r@ == blocks_of(texts(v@)).take(i as int),
        decreases v@.len() - i,
    {
        assert(item_error(ListKind::Blocks, v@[i as int]@).is_none());
        let b = parse_block(v[i]).unwrap();
        r.push(b);
        i = i + 1;
        assert(r@ =~= blocks_of(texts(v@)).take(i as int));
    }
    assert(blocks_of(texts(v@)).take(i as int) =~= blocks_of(texts(v@)));
    r
}

/// The directions the texts name.
fn directions_named(v: &Vec<&str>) -> (r: Vec<Direction>)
    requires
        forall|i: int| 0 <= i < v@.len() ==> (#[trigger] item_error(ListKind::Directions, v@[i]@)).is_none(),
    ensures
        r@ == directions_of(texts(v@)),
{
    let mut r: Vec<Direction> = Vec::new();
    let mut i: usize = 0;
    while i < v.len()
        invariant
            i <= v@.len(),
            forall|i: int| 0 <= i < v@.len() ==> (#[trigger] item_error(ListKind::Directions, v@[i]@)).is_none(),
            r@ == directions_of(texts(v@)).take(i as int),
        decreases v@.len() - i,
    {
        assert(item_error(ListKind::Directions, v@[i as int]@).is_none());
        let d = parse_direction(v[i]).unwrap();
        r.push(d);
        i = i + 1;
        assert(r@ =~= directions_of(texts(v@)).take(i as int));
    }
    assert(directions_of(texts(v@)).take(i as int) =~= directions_of(texts(v@)));
    r
}

impl<'a> Parser<'a> {
    /// Reads the three guard lists of a rule and the `->` after them.
    fn expect_rule_guards(&mut self) -> (r: Result<(Vec<&'a str>, Vec<&'a str>, Vec<&'a str>), String>)
        requires
            old(self).wf(),
        ensures
            old(self).same_input(final(self)),
            match r {
                Ok((a, b, c)) => rule_guards(old(self).toks(), old(self).syms(), old(self).pos()) == Ok::<
                    ((Seq<Seq<char>>, Seq<Seq<char>>, Seq<Seq<char>>), int),
                    Seq<char>,
                >(((texts(a@), texts(b@), texts(c@)), final(self).pos())),
                Err(e) => rule_guards(old(self).toks(), old(self).syms(), old(self).pos()) == Err::<
                    ((Seq<Seq<char>>, Seq<Seq<char>>, Seq<Seq<char>>), int),
                    Seq<char>,
                >(e@),
            },
            r.is_ok() ==> final(self).pos() > old(self).pos(),
    {
        let states = self.expect_list(ListKind::States)?;
        self.expect_list_end(TokenKind::Comma)?;
        let blocks = self.expect_list(ListKind::Blocks)?;
        self.expect_list_end(TokenKind::Comma)?;
        let directions = self.expect_list(ListKind::Directions)?;
        self.expect_list_end(TokenKind::Arrow)?;
        Ok((states, blocks, directions))
    }

    /// Reads an optional `+ spawn ant ... end` clause.
    fn optional_spawn(&mut self) -> (r: Result<Option<Ant>, String>)
        requires
            old(self).wf(),
        ensures
            old(self).same_input(final(self)),
            match r {
                Ok(a) => optional_spawn(old(self).toks(), old(self).syms(), old(self).pos()) == Ok::<
                    (Option<AntView>, int),
                    Seq<char>,
                >((opt_ant(a), final(self).pos())),
                Err(e) => optional_spawn(old(self).toks(), old(self).syms(), old(self).pos())
                    == Err::<(Option<AntView>, int), Seq<char>>(e@),
            },
    {
        if self.try_token_kind(TokenKind::Plus).is_none() {
            return Ok(None);
        }
        self.expect_token_kind(TokenKind::KwSpawn)?;
        match self.try_ant()? {
            None => Err(cat("expected ", TokenKind::KwAnt.describe())),
            Some(a) => Ok(Some(a)),
        }
    }

    /// Reads what a rule does, after its `->`, up to and including its `;`.
    fn expect_rule_targets(&mut self) -> (r: Result<(&'a str, Option<Block>, Option<Direction>, Option<Ant>), String>)
        requires
            old(self).wf(),
        ensures
            old(self).same_input(final(self)),
            match r {
                Ok((a, b, c, d)) => rule_targets(old(self).toks(), old(self).syms(), old(self).pos()) == Ok::<
                    ((Seq<char>, Option<Block>, Option<Direction>, Option<AntView>), int),
                    Seq<char>,
                >(((a@, b, c, opt_ant(d)), final(self).pos())),
                Err(e) => rule_targets(old(self).toks(), old(self).syms(), old(self).pos()) == Err::<
                    ((Seq<char>, Option<Block>, Option<Direction>, Option<AntView>), int),
                    Seq<char>,
                >(e@),
            },
    {
        let to_state = self.expect_ident()?;
        self.expect_list_end(TokenKind::Comma)?;
        let to_block = match self.try_ident() {
            None => None,
            Some(x) => {
                let x = x?;
                match parse_block(x) {
                    None => {
                        return Err(quote("unknown block ", x));
                    },
                    Some(b) => Some(b),
                }
            },
        };
        self.expect_list_end(TokenKind::Comma)?;
        let to_facing = match self.try_ident() {
            None => None,
            Some(x) => {
                let x = x?;
                match parse_direction(x) {
                    None => {
                        return Err(quote("unknown direction ", x));
                    },
                    Some(d) => Some(d),
                }
            },
        };
        let spawn = self.optional_spawn()?;
        self.expect_list_end(TokenKind::Semicolon)?;
        Ok((to_state, to_block, to_facing, spawn))
    }

    /// Reads one rule statement.
    fn expect_rule(&mut self) -> (r: Result<Rule, String>)
        requires
            old(self).wf(),
        ensures
            old(self).same_input(final(self)),
            match r {
                Ok(rule) => rule_at(old(self).toks(), old(self).syms(), old(self).pos()) == Ok::<
                    (RuleView, int),
                    Seq<char>,
                >((rule@, final(self).pos())),
                Err(e) => rule_at(old(self).toks(), old(self).syms(), old(self).pos()) == Err::<
                    (RuleView, int),
                    Seq<char>,
                >(e@),
            },
            r.is_ok() ==> final(self).pos() > old(self).pos(),
    {
        let ghost t = self.toks();
        let ghost s = self.syms();
        let ghost p = self.pos();
        let (states, blocks, directions) = self.expect_rule_guards()?;
        proof {
            let pos1 = list_rest(t, s, ListKind::States, p, true, false)->Ok_0.1;
            let pos2 = expect_list_end(t, pos1, TokenKind::Comma)->Ok_0;
            let pos3 = list_rest(t, s, ListKind::Blocks, pos2, true, false)->Ok_0.1;
            let pos4 = expect_list_end(t, pos3, TokenKind::Comma)->Ok_0;
            lemma_list_items_valid(t, s, ListKind::Blocks, pos2, true, false);
            lemma_list_items_valid(t, s, ListKind::Directions, pos4, true, false);
            assert forall|i: int| 0 <= i < blocks@.len() implies (#[trigger] item_error(ListKind::Blocks, blocks@[i]@)).is_none() by {
                assert(texts(blocks@)[i] == blocks@[i]@);
            }
            assert forall|i: int| 0 <= i < directions@.len() implies (#[trigger] item_error(ListKind::Directions, directions@[i]@)).is_none() by {
                assert(texts(directions@)[i] == directions@[i]@);
            }
        }
        let (to_state, to_block, to_facing, spawn) = self.expect_rule_targets()?;
        let rule = Rule {
            from_state: owned_texts(&states),
            from_block: blocks_named(&blocks),
            from_facing: directions_named(&directions),
            to_state: String::from_str(to_state),
            to_block,
            to_facing,
            spawn,
        };
        Ok(rule)
    }
}

pub open spec fn opt_pair<'a>(o: Option<(&'a str, &'a str)>) -> Option<(Seq<char>, Seq<char>)> {
    match o {
        Some((a, b)) => Some((a@, b@)),
        None => None,
    }
}

pub open spec fn rules_with_prefix(xs: Seq<RuleView>, r: Result<(Seq<RuleView>, int), Seq<char>>) -> Result<
    (Seq<RuleView>, int),
    Seq<char>,
> {
    match r {
        Ok((ys, q)) => Ok((xs + ys, q)),
        Err(e) => Err(e),
    }
}

impl<'a> Parser<'a> {
    /// Reads a `ruleset name ... end` block, if one comes next.
    fn try_ruleset(&mut self) -> (r: Result<Option<Ruleset>, String>)
        requires
            old(self).wf(),
        ensures
            old(self).same_input(final(self)),
            match r {
                Ok(rs) => try_ruleset(old(self).toks(), old(self).syms(), old(self).pos()) == Ok::<
                    (Option<RulesetView>, int),
                    Seq<char>,
                >((
                    match rs {
                        Some(rs) => Some(rs@),
                        None => None,
                    },
                    final(self).pos(),
                )),
                Err(e) => try_ruleset(old(self).toks(), old(self).syms(), old(self).pos()) == Err::<
                    (Option<RulesetView>, int),
                    Seq<char>,
                >(e@),
            },
            r matches Ok(Some(_)) ==> final(self).pos() > old(self).pos(),
    {
        if self.try_token_kind(TokenKind::KwRuleset).is_none() {
            return Ok(None);
        }
        let name = self.expect_token_kind(TokenKind::Ident)?.string;
        let ghost t = self.toks();
        let ghost s = self.syms();
        let ghost q0 = self.pos();
        let mut rules: Vec<Rule> = Vec::new();
        assert(rules_with_prefix(Seq::empty(), rules_from(t, s, q0)) == rules_from(t, s, q0)) by {
            match rules_from(t, s, q0) {
                Ok((ys, q)) => {
                    assert(Seq::<RuleView>::empty() + ys =~= ys);
                },
                Err(_) => {},
            }
        }
        loop
            invariant
                old(self).same_input(self),
                t == self.toks(),
                s == self.syms(),
                t == old(self).toks(),
                s == old(self).syms(),
                q0 == old(self).pos() + 2,
                q0 <= self.pos(),
                kind_at(t, old(self).pos(), TokenKind::KwRuleset),
                expect_kind(t, old(self).pos() + 1, TokenKind::Ident) == Ok::<(Seq<char>, int), Seq<char>>((name@, q0)),
                rules_from(t, s, q0) == rules_with_prefix(rule_views(rules@), rules_from(t, s, self.pos())),
            ensures
                self.pos() >= t.len() || t[self.pos()].kind == TokenKind::KwEnd,
            decreases t.len() - self.pos(),
        {
            match self.peek_kind() {
                None => break,
                Some(k) => {
                    if k == TokenKind::KwEnd {
                        break;
                    }
                },
            }
            let rule = self.expect_rule()?;
            let ghost before = rules@;
            rules.push(rule);
            proof {
                assert(rule_views(rules@) =~= rule_views(before).push(rule@));
                match rules_from(t, s, self.pos()) {
                    Ok((ys, q)) => {
                        assert(rule_views(before) + (seq![rule@] + ys) =~= rule_views(rules@) + ys);
                    },
                    Err(_) => {},
                }
            }
        }
        let ghost pe = self.pos();
        match self.expect_token_kind(TokenKind::KwEnd) {
            Err(e) => {
                assert(rules_from(t, s, pe) == Err::<(Seq<RuleView>, int), Seq<char>>(e@));
                return Err(e);
            },
            Ok(_) => {},
        }
        assert(rules_from(t, s, pe) == Ok::<(Seq<RuleView>, int), Seq<char>>((Seq::empty(), self.pos())));
        assert(rule_views(rules@) + Seq::<RuleView>::empty() =~= rule_views(rules@));
        Ok(Some(Ruleset { name: String::from_str(name), rules }))
    }

    /// Reads a `set name value` statement, if one comes next.
    fn try_property_set(&mut self) -> (r: Result<Option<(&'a str, &'a str)>, String>)
        requires
            old(self).wf(),
        ensures
            old(self).same_input(final(self)),
            match r {
                Ok(o) => try_property_set(old(self).toks(), old(self).syms(), old(self).pos())
                    == Ok::<(Option<(Seq<char>, Seq<char>)>, int), Seq<char>>((opt_pair(o), final(self).pos())),
                Err(e) => try_property_set(old(self).toks(), old(self).syms(), old(self).pos())
                    == Err::<(Option<(Seq<char>, Seq<char>)>, int), Seq<char>>(e@),
            },
    {
        if self.try_token_kind(TokenKind::KwSet).is_none() {
            return Ok(None);
        }
        let property = self.expect_ident_no_expand()?;
        let value = self.expect_ident()?;
        Ok(Some((property, value)))
    }

    /// Reads a `define $name value` statement, if one comes next; gives the
    /// name without its `$`.
    fn try_symbol_define(&mut self) -> (r: Result<Option<(&'a str, &'a str)>, String>)
        requires
            old(self).wf(),
        ensures
            old(self).same_input(final(self)),
            match r {
                Ok(o) => try_symbol_define(old(self).toks(), old(self).syms(), old(self).pos())
                    == Ok::<(Option<(Seq<char>, Seq<char>)>, int), Seq<char>>((opt_pair(o), final(self).pos())),
                Err(e) => try_symbol_define(old(self).toks(), old(self).syms(), old(self).pos())
                    == Err::<(Option<(Seq<char>, Seq<char>)>, int), Seq<char>>(e@),
            },
    {
        if self.try_token_kind(TokenKind::KwDefine).is_none() {
            return Ok(None);
        }
        let symbol = self.expect_ident_no_expand()?;
        if !starts_with_char(symbol, '$') {
            return Err(String::from_str("symbol name must begin with `$`"));
        }
        let symbol = remove_first_char(symbol);
        let definition = self.expect_ident()?;
        Ok(Some((symbol, definition)))
    }

    /// Applies a `set` statement to the properties read so far.
    fn update_property(properties: &mut Properties, property: &str, value: &str) -> (r: Result<(), String>)
        ensures
            match r {
                Ok(_) => update_property(*old(properties), property@, value@) == Ok::<Properties, Seq<char>>(
                    *final(properties),
                ),
                Err(e) => update_property(*old(properties), property@, value@) == Err::<
                    Properties,
                    Seq<char>,
                >(e@) && *final(properties) == *old(properties),
            },
    {
        if eq_ignore_ascii_case(property, "delay") {
            let millis = parse_u64(value)?;
            if properties.delay.is_some() {
                return Err(quote("duplicate property ", property));
            }
            properties.delay = Some(millis);
            return Ok(());
        }
        if eq_ignore_ascii_case(property, "cap") {
            let count = parse_usize(value)?;
            if properties.cap.is_some() {
                return Err(quote("duplicate property ", property));
            }
            properties.cap = Some(count);
            return Ok(());
        }
        Err(quote("unknown property ", property))
    }
}

/// Checks that some ruleset is called `name` (ASCII case ignored).
fn ensure_ruleset_exists(rulesets: &Vec<Ruleset>, name: &str) -> (r: Result<(), String>)
    ensures
        match r {
            Ok(_) => has_ruleset(ruleset_views(rulesets@), name@),
            Err(e) => !has_ruleset(ruleset_views(rulesets@), name@) && e@ == quoted(
                "unknown ruleset "@,
                name@,
            ),
        },
{
    proof {
        lemma_has_ruleset(ruleset_views(rulesets@), name@);
    }
    match ruleset_position(rulesets, name) {
        Some(_) => Ok(()),
        None => Err(quote("unknown ruleset ", name)),
    }
}

/// The ruleset names that ants and spawn clauses refer to, in order.
fn reference_list<'b>(ants: &'b Vec<Ant>, rulesets: &'b Vec<Ruleset>) -> (r: Vec<&'b str>)
    ensures
        texts(r@) == references(ant_views(ants@), ruleset_views(rulesets@)),
{
    let ghost av = ant_views(ants@);
    let ghost rv = ruleset_views(rulesets@);
    let ghost names = av.map_values(|a: AntView| a.ruleset);
    let mut r: Vec<&'b str> = Vec::new();
    let mut i: usize = 0;
    while i < ants.len()
        invariant
            i <= ants@.len(),
            av == ant_views(ants@),
            names == av.map_values(|a: AntView| a.ruleset),
            texts(r@) == names.take(i as int),
        decreases ants@.len() - i,
    {
        let ghost before = r@;
        r.push(ants[i].ruleset.as_str());
        assert(texts(r@) =~= texts(before).push(ants@[i as int].ruleset@));
        i = i + 1;
        assert(texts(r@) =~= names.take(i as int));
    }
    assert(names.take(i as int) =~= names);
    assert(rv.take(0) =~= Seq::<RulesetView>::empty());
    assert(names + Seq::<Seq<char>>::empty() =~= names);
    let mut i: usize = 0;
    while i < rulesets.len()
        invariant
            i <= rulesets@.len(),
            rv == ruleset_views(rulesets@),
            texts(r@) == names + spawn_targets(rv.take(i as int)),
        decreases rulesets@.len() - i,
    {
        let rules = &rulesets[i].rules;
        let ghost rules_v = rule_views(rules@);
        assert(rules_v.take(0) =~= Seq::<RuleView>::empty());
        assert(texts(r@) + Seq::<Seq<char>>::empty() =~= texts(r@));
        let mut j: usize = 0;
        while j < rules.len()
            invariant
                i < rulesets@.len(),
                j <= rules@.len(),
                rules == &rulesets@[i as int].rules,
                rules_v == rule_views(rules@),
                texts(r@) == names + spawn_targets(rv.take(i as int)) + rule_spawn_targets(
                    rules_v.take(j as int),
                ),
            decreases rules@.len() - j,
        {
            let ghost before = r@;
            assert(rules_v.take(j + 1).drop_last() =~= rules_v.take(j as int));
            assert(rules_v.take(j + 1).last() == rules@[j as int]@);
            match &rules[j].spawn {
                Some(a) => {
                    r.push(a.ruleset.as_str());
                    assert(texts(r@) =~= texts(before).push(a.ruleset@));
                },
                None => {},
            }
            j = j + 1;
            assert(texts(r@) =~= names + spawn_targets(rv.take(i as int)) + rule_spawn_targets(
                rules_v.take(j as int),
            ));
        }
        assert(rules_v.take(j as int) =~= rules_v);
        assert(rv.take(i + 1).drop_last() =~= rv.take(i as int));
        assert(rv.take(i + 1).last() == rulesets@[i as int]@);
        i = i + 1;
        assert(texts(r@) =~= names + spawn_targets(rv.take(i as int)));
    }
    assert(rv.take(i as int) =~= rv);
    r
}

/// At most one reference is the first that names no ruleset.
proof fn lemma_first_dangling_unique(refs: Seq<Seq<char>>, rulesets: Seq<RulesetView>, k: int, l: int)
    requires
        first_dangling(refs, rulesets, k),
        first_dangling(refs, rulesets, l),
    ensures
        k == l,
{
    if k < l {
        assert(has_ruleset(rulesets, refs[k]));
    } else if l < k {
        assert(has_ruleset(rulesets, refs[l]));
    }
}

/// Checks every reference of the ants and spawn clauses; the error names
/// the first one that no ruleset answers.
fn check_references(ants: &Vec<Ant>, rulesets: &Vec<Ruleset>, properties: Properties) -> (r: Result<(), String>)
    ensures
        match r {
            Ok(_) => validate(ant_views(ants@), ruleset_views(rulesets@), properties) == Ok::<
                SchemaView,
                Seq<char>,
            >(SchemaView { ants: ant_views(ants@), rulesets: ruleset_views(rulesets@), properties }),
            Err(e) => validate(ant_views(ants@), ruleset_views(rulesets@), properties) == Err::<
                SchemaView,
                Seq<char>,
            >(e@),
        },
{
    let ghost rv = ruleset_views(rulesets@);
    let refs = reference_list(ants, rulesets);
    let ghost rs = texts(refs@);
    let mut k: usize = 0;
    while k < refs.len()
        invariant
            k <= refs@.len(),
            rs == texts(refs@),
            rv == ruleset_views(rulesets@),
            rs == references(ant_views(ants@), rv),
            forall|j: int| 0 <= j < k ==> has_ruleset(rv, #[trigger] rs[j]),
        decreases refs@.len() - k,
    {
        assert(rs[k as int] == refs@[k as int]@);
        match ensure_ruleset_exists(rulesets, refs[k]) {
            Err(e) => {
                assert(first_dangling(rs, rv, k as int));
                proof {
                    let c = choose|c: int| first_dangling(rs, rv, c);
                    lemma_first_dangling_unique(rs, rv, k as int, c);
                    assert(references(ant_views(ants@), rv) == rs);
                }
                return Err(e);
            },
            Ok(_) => {},
        }
        k = k + 1;
    }
    assert(!exists|c: int| first_dangling(rs, rv, c));
    Ok(())
}

impl<'a> Parser<'a> {
    /// Reads the whole program from the current position, then checks that
    /// every ruleset reference resolves.
    pub fn parse_schema(&mut self) -> (r: Result<Schema, String>)
        requires
            old(self).wf(),
        ensures
            final(self).wf(),
            match r {
                Ok(sc) => schema_from(
                    old(self).toks(),
                    old(self).syms(),
                    old(self).pos(),
                    Seq::empty(),
                    Seq::empty(),
                    Properties { delay: None, cap: None },
                ) == Ok::<SchemaView, Seq<char>>(sc@),
                Err(e) => schema_from(
                    old(self).toks(),
                    old(self).syms(),
                    old(self).pos(),
                    Seq::empty(),
                    Seq::empty(),
                    Properties { delay: None, cap: None },
                ) == Err::<SchemaView, Seq<char>>(e@),
            },
            r matches Ok(sc) ==> schema_wf(sc@),
    {
        proof {
            lemma_parsed_schema_wf(self.toks(), self.syms(), self.pos());
        }
        let ghost t = self.toks();
        let mut ants: Vec<Ant> = Vec::new();
        let mut rulesets: Vec<Ruleset> = Vec::new();
        let mut properties = Properties::default();
        assert(ant_views(ants@) =~= Seq::<AntView>::empty());
        assert(ruleset_views(rulesets@) =~= Seq::<RulesetView>::empty());
        loop
            invariant
                self.wf(),
                t == self.toks(),
                t == old(self).toks(),
                schema_from(
                    old(self).toks(),
                    old(self).syms(),
                    old(self).pos(),
                    Seq::empty(),
                    Seq::empty(),
                    Properties { delay: None, cap: None },
                ) == schema_from(
                    t,
                    self.syms(),
                    self.pos(),
                    ant_views(ants@),
                    ruleset_views(rulesets@),
                    properties,
                ),
            ensures
                self.pos() >= t.len(),
            decreases t.len() - self.pos(),
        {
            if self.is_end() {
                break;
            }
            let ghost s = self.syms();
            match self.try_property_set()? {
                Some((property, value)) => {
                    Self::update_property(&mut properties, property, value)?;
                    continue;
                },
                None => {},
            }
            match self.try_symbol_define()? {
                Some((symbol, definition)) => {
                    if self.lookup_symbol(symbol).is_some() {
                        return Err(quote("redefinition of symbol ", symbol));
                    }
                    proof {
                        lemma_lookup_none(s, symbol@);
                    }
                    self.symbols.push((symbol, definition));
                    assert(self.syms() =~= s.push((symbol@, definition@)));
                    continue;
                },
                None => {},
            }
            match self.try_ant()? {
                Some(ant) => {
                    let ghost before = ants@;
                    ants.push(ant);
                    assert(ant_views(ants@) =~= ant_views(before).push(ant@));
                    continue;
                },
                None => {},
            }
            match self.try_ruleset()? {
                Some(ruleset) => {
                    proof {
                        lemma_has_ruleset(ruleset_views(rulesets@), ruleset.name@);
                    }
                    if ruleset_position(&rulesets, ruleset.name.as_str()).is_some() {
                        return Err(quote("duplicate ruleset ", ruleset.name.as_str()));
                    }
                    let ghost before = rulesets@;
                    rulesets.push(ruleset);
                    assert(ruleset_views(rulesets@) =~= ruleset_views(before).push(ruleset@));
                    continue;
                },
                None => {},
            }
            let kind = self.tokens[self.cursor].kind;
            let mut m = String::from_str("expected ");
            m.append(TokenKind::KwRuleset.describe());
            m.append(" or ");
            m.append(TokenKind::KwAnt.describe());
            m.append(", found ");
            m.append(kind.describe());
            return Err(m);
        }
        check_references(&ants, &rulesets, properties)?;
        Ok(Schema { ants, rulesets, properties })
    }
}

/// Parses a whole program text: its schema, or the message of its first error.
pub fn parse_text(text: &str) -> (r: Result<Schema, String>)
    ensures
        match r {
            Ok(sc) => schema_of(lex(text@)) == Ok::<SchemaView, Seq<char>>(sc@),
            Err(e) => schema_of(lex(text@)) == Err::<SchemaView, Seq<char>>(e@),
        },
        r matches Ok(sc) ==> schema_wf(sc@),
{
    let mut parser = Parser::new(text);
    parser.parse_schema()
}

} // verus!

//! The lexer: turns program text into a sequence of tokens.
use vstd::prelude::*;
use vstd::string::StrSliceExecFns;
use crate::numeric::chars_of;
use crate::text::str_equal;

verus! {

/// The kind of a token, derived from its exact text.
#[derive(Clone, Copy, Debug, PartialEq, Eq, Structural)]
pub enum TokenKind {
    Slash,
    Comma,
    Arrow,
    Semicolon,
    Plus,
    KwEnd,
    KwSet,
    KwDefine,
    KwAnt,
    KwRuleset,
    KwUse,
    KwOffset,
    KwFacing,
    KwSpawn,
    Ident,
}

/// The kind of a token with text `s`: a structural symbol, a keyword, or an identifier.
pub open spec fn kind_of(s: Seq<char>) -> TokenKind {
    if s == "/"@ {
        TokenKind::Slash
    } else if s == ","@ {
        TokenKind::Comma
    } else if s == "->"@ {
        TokenKind::Arrow
    } else if s == "+"@ {
        TokenKind::Plus
    } else if s == ";"@ {
        TokenKind::Semicolon
    } else if s == "end"@ {
        TokenKind::KwEnd
    } else if s == "set"@ {
        TokenKind::KwSet
    } else if s == "define"@ {
        TokenKind::KwDefine
    } else if s == "ant"@ {
        TokenKind::KwAnt
    } else if s == "ruleset"@ {
        TokenKind::KwRuleset
    } else if s == "use"@ {
        TokenKind::KwUse
    } else if s == "offset"@ {
        TokenKind::KwOffset
    } else if s == "facing"@ {
        TokenKind::KwFacing
    } else if s == "spawn"@ {
        TokenKind::KwSpawn
    } else {
        TokenKind::Ident
    }
}

/// How a token kind is named in messages.
pub open spec fn kind_text(k: TokenKind) -> Seq<char> {
    match k {
        TokenKind::Slash => "`/`"@,
        TokenKind::Comma => "`,`"@,
        TokenKind::Arrow => "`->`"@,
        TokenKind::Plus => "`+`"@,
        TokenKind::Semicolon => "`;`"@,
        TokenKind::KwEnd => "`end`"@,
        TokenKind::KwSet => "`set`"@,
        TokenKind::KwDefine => "`define`"@,
        TokenKind::KwAnt => "`ant`"@,
        TokenKind::KwRuleset => "`ruleset`"@,
        TokenKind::KwUse => "`use`"@,
        TokenKind::KwOffset => "`offset`"@,
        TokenKind::KwFacing => "`facing`"@,
        TokenKind::KwSpawn => "`spawn`"@,
        TokenKind::Ident => "<identifier>"@,
    }
}

impl TokenKind {
    pub fn from(string: &str) -> (r: TokenKind)
        ensures
            r == kind_of(string@),
    {
        if str_equal(string, "/") {
            TokenKind::Slash
        } else if str_equal(string, ",") {
            TokenKind::Comma
        } else if str_equal(string, "->") {
            TokenKind::Arrow
        } else if str_equal(string, "+") {
            TokenKind::Plus
        } else if str_equal(string, ";") {
            TokenKind::Semicolon
        } else if str_equal(string, "end") {
            TokenKind::KwEnd
        } else if str_equal(string, "set") {
            TokenKind::KwSet
        } else if str_equal(string, "define") {
            TokenKind::KwDefine
        } else if str_equal(string, "ant") {
            TokenKind::KwAnt
        } else if str_equal(string, "ruleset") {
            TokenKind::KwRuleset
        } else if str_equal(string, "use") {
            TokenKind::KwUse
        } else if str_equal(string, "offset") {
            TokenKind::KwOffset
        } else if str_equal(string, "facing") {
            TokenKind::KwFacing
        } else if str_equal(string, "spawn") {
            TokenKind::KwSpawn
        } else {
            TokenKind::Ident
        }
    }

    /// The name of this kind as it appears in messages.
    pub fn describe(self) -> (r: &'static str)
        ensures
            r@ == kind_text(self),
    {
        match self {
            TokenKind::Slash => "`/`",
            TokenKind::Comma => "`,`",
            TokenKind::Arrow => "`->`",
            TokenKind::Plus => "`+`",
            TokenKind::Semicolon => "`;`",
            TokenKind::KwEnd => "`end`",
            TokenKind::KwSet => "`set`",
            TokenKind::KwDefine => "`define`",
            TokenKind::KwAnt => "`ant`",
            TokenKind::KwRuleset => "`ruleset`",
            TokenKind::KwUse => "`use`",
            TokenKind::KwOffset => "`offset`",
            TokenKind::KwFacing => "`facing`",
            TokenKind::KwSpawn => "`spawn`",
            TokenKind::Ident => "<identifier>",
        }
    }
}

/// A token: a slice of the program text and its kind.
#[derive(Clone, Copy, Debug)]
pub struct Token<'a> {
    pub string: &'a str,
    pub kind: TokenKind,
}

/// The mathematical view of a token.
pub struct Lexeme {
    pub text: Seq<char>,
    pub kind: TokenKind,
}

impl<'a> View for Token<'a> {
    type V = Lexeme;

    open spec fn view(&self) -> Lexeme {
        Lexeme { text: self.string@, kind: self.kind }
    }
}

impl<'a> Token<'a> {
    pub fn from(string: &'a str) -> (r: Token<'a>)
        ensures
            r.string@ == string@,
            r@ == (Lexeme { text: string@, kind: kind_of(string@) }),
    {
        Token { string, kind: TokenKind::from(string) }
    }
}

/// The class of a character for the lexer, on its own. Within a run, a `-`
/// right before a digit counts as a word character (it begins a number).
#[derive(Clone, Copy, Debug, PartialEq, Eq, Structural)]
pub enum CharKind {
    Whitespace,
    Atomic,
    Combining { is_symbol: bool },
}

pub open spec fn is_ascii_space(c: char) -> bool {
    c == ' ' || c == '\t' || c == '\n' || c == '\x0C' || c == '\r'
}

pub open spec fn is_atomic_char(c: char) -> bool {
    c == ',' || c == ';' || c == '(' || c == ')' || c == '[' || c == ']' || c == '{' || c == '}'
}

pub open spec fn is_word_char(c: char) -> bool {
    ('a' <= c && c <= 'z') || ('A' <= c && c <= 'Z') || ('0' <= c && c <= '9') || c == '_' || c
        == '$'
}

pub open spec fn char_kind(c: char) -> CharKind {
    if is_ascii_space(c) {
        CharKind::Whitespace
    } else if is_atomic_char(c) {
        CharKind::Atomic
    } else {
        CharKind::Combining { is_symbol: !is_word_char(c) }
    }
}

impl CharKind {
    pub fn from(ch: char) -> (r: CharKind)
        ensures
            r == char_kind(ch),
    {
        if ch == ' ' || ch == '\t' || ch == '\n' || ch == '\x0C' || ch == '\r' {
            CharKind::Whitespace
        } else if ch == ',' || ch == ';' || ch == '(' || ch == ')' || ch == '[' || ch == ']' || ch
            == '{' || ch == '}' {
            CharKind::Atomic
        } else {
            let word = ('a' <= ch && ch <= 'z') || ('A' <= ch && ch <= 'Z') || ('0' <= ch && ch
                <= '9') || ch == '_' || ch == '$';
            CharKind::Combining { is_symbol: !word }
        }
    }
}

/// Whether the character at `i` belongs to a symbol run rather than a word
/// run: any character other than a word character, except a `-` directly
/// followed by a digit, which starts a number.
pub open spec fn symbol_at(s: Seq<char>, i: int) -> bool {
    if s[i] == '-' && i + 1 < s.len() && '0' <= s[i + 1] && s[i + 1] <= '9' {
        false
    } else {
        !is_word_char(s[i])
    }
}

/// Whether the character at `i` can continue a run of class `is_symbol`.
pub open spec fn continues_run(s: Seq<char>, i: int, is_symbol: bool) -> bool {
    !is_ascii_space(s[i]) && !is_atomic_char(s[i]) && symbol_at(s, i) == is_symbol
}

/// Where a run of class `is_symbol` that continues at `i` ends: the run is
/// maximal, and all of one class.
pub open spec fn run_end(s: Seq<char>, i: int, is_symbol: bool) -> int
    decreases s.len() - i,
{
    if i < 0 || i >= s.len() {
        s.len() as int
    } else if continues_run(s, i, is_symbol) {
        run_end(s, i + 1, is_symbol)
    } else {
        i
    }
}

/// Whether a comment (`--`, up to the end of the line) starts at `i`.
pub open spec fn comment_at(s: Seq<char>, i: int) -> bool {
    0 <= i && i + 1 < s.len() && s[i] == '-' && s[i + 1] == '-'
}

/// The span `(start, end)` of the next token at or after `i`, where
/// `in_comment` says that `i` lies inside a comment. Whitespace and comments
/// are skipped; an atomic character is a token of its own; anything else
/// starts a run.
pub open spec fn next_span(s: Seq<char>, i: int, in_comment: bool) -> Option<(int, int)>
    decreases s.len() - i,
{
    if i < 0 || i >= s.len() {
        None
    } else if in_comment {
        next_span(s, i + 1, s[i] != '\n')
    } else if is_ascii_space(s[i]) {
        next_span(s, i + 1, false)
    } else if comment_at(s, i) {
        next_span(s, i + 1, true)
    } else if is_atomic_char(s[i]) {
        Some((i, i + 1))
    } else {
        Some((i, run_end(s, i + 1, symbol_at(s, i))))
    }
}

pub proof fn lemma_run_end_bounds(s: Seq<char>, i: int, is_symbol: bool)
    requires
        0 <= i <= s.len(),
    ensures
        i <= run_end(s, i, is_symbol) <= s.len(),
        forall|k: int| i <= k < run_end(s, i, is_symbol) ==> continues_run(s, k, is_symbol),
        run_end(s, i, is_symbol) < s.len() ==> !continues_run(s, run_end(s, i, is_symbol), is_symbol),
    decreases s.len() - i,
{
    if i < s.len() && continues_run(s, i, is_symbol) {
        lemma_run_end_bounds(s, i + 1, is_symbol);
    }
}

pub proof fn lemma_next_span_bounds(s: Seq<char>, i: int, in_comment: bool)
    requires
        0 <= i,
    ensures
        next_span(s, i, in_comment) matches Some((a, b)) ==> i <= a < b <= s.len(),
    decreases s.len() - i,
{
    if 0 <= i < s.len() {
        if in_comment {
            lemma_next_span_bounds(s, i + 1, s[i] != '\n');
        } else if is_ascii_space(s[i]) {
            lemma_next_span_bounds(s, i + 1, false);
        } else if comment_at(s, i) {
            lemma_next_span_bounds(s, i + 1, true);
        } else if !is_atomic_char(s[i]) {
            lemma_run_end_bounds(s, i + 1, symbol_at(s, i));
        }
    }
}

/// The token that spans `s[a..b]`.
pub open spec fn lexeme_at(s: Seq<char>, a: int, b: int) -> Lexeme {
    Lexeme { text: s.subrange(a, b), kind: kind_of(s.subrange(a, b)) }
}

#[via_fn]
proof fn lex_from_decreases(s: Seq<char>, i: int) {
    if 0 <= i {
        lemma_next_span_bounds(s, i, false);
    }
}

/// The tokens of `s` from position `i` on.
pub open spec fn lex_from(s: Seq<char>, i: int) -> Seq<Lexeme>
    decreases s.len() - i,
    via lex_from_decreases
{
    if i < 0 {
        Seq::empty()
    } else {
        match next_span(s, i, false) {
            None => Seq::empty(),
            Some((a, b)) => seq![lexeme_at(s, a, b)] + lex_from(s, b),
        }
    }
}

/// The tokens of a program text.
pub open spec fn lex(s: Seq<char>) -> Seq<Lexeme> {
    lex_from(s, 0)
}

/// A cursor over a program text that yields its tokens one at a time.
pub struct Tokens<'a> {
    text: &'a str,
    chars: Vec<char>,
    cursor: usize,
}

impl<'a> Tokens<'a> {
    pub closed spec fn source(&self) -> Seq<char> {
        self.text@
    }

    pub closed spec fn position(&self) -> int {
        self.cursor as int
    }

    pub closed spec fn wf(&self) -> bool {
        self.chars@ == self.text@ && self.cursor <= self.chars@.len()
    }

    pub fn new(text: &'a str) -> (r: Tokens<'a>)
        ensures
            r.wf(),
            r.source() == text@,
            r.position() == 0,
    {
        Tokens { text, chars: chars_of(text), cursor: 0 }
    }

    fn is_end(&self) -> (r: bool)
        ensures
            r == (self.cursor >= self.chars@.len()),
    {
        self.cursor >= self.chars.len()
    }

    fn peek_char(&self) -> (r: Option<char>)
        ensures
            self.cursor < self.chars@.len() ==> r == Some(self.chars@[self.cursor as int]),
            self.cursor >= self.chars@.len() ==> r.is_none(),
    {
        if self.cursor < self.chars.len() {
            Some(self.chars[self.cursor])
        } else {
            None
        }
    }

    fn next_char(&mut self) -> (r: Option<char>)
        requires
            old(self).wf(),
        ensures
            final(self).wf(),
            final(self).text == old(self).text,
            final(self).chars == old(self).chars,
            old(self).cursor < old(self).chars@.len() ==> r == Some(
                old(self).chars@[old(self).cursor as int],
            ) && final(self).cursor == old(self).cursor + 1,
            old(self).cursor >= old(self).chars@.len() ==> r.is_none() && final(self).cursor
                == old(self).cursor,
    {
        if self.cursor < self.chars.len() {
            let ch = self.chars[self.cursor];
            self.cursor = self.cursor + 1;
            Some(ch)
        } else {
            None
        }
    }

    fn peek_is_comment(&self) -> (r: bool)
        requires
            self.wf(),
        ensures
            r == comment_at(self.chars@, self.cursor as int),
    {
        self.cursor < self.chars.len() && self.chars.len() - self.cursor > 1 && self.chars[self.cursor]
            == '-' && self.chars[self.cursor + 1] == '-'
    }

    fn is_linebreak(ch: char) -> (r: bool)
        ensures
            r == (ch == '\n'),
    {
        ch == '\n'
    }

    /// Skips the rest of the current line, its line break included.
    fn advance_until_next_line(&mut self)
        requires
            old(self).wf(),
        ensures
            final(self).wf(),
            final(self).text == old(self).text,
            final(self).chars == old(self).chars,
            next_span(old(self).chars@, old(self).cursor as int, true) == next_span(
                final(self).chars@,
                final(self).cursor as int,
                false,
            ),
            old(self).cursor < old(self).chars@.len() ==> final(self).cursor > old(self).cursor,
    {
        let ghost s = self.chars@;
        let ghost start = self.cursor as int;
        loop
            invariant_except_break
                next_span(s, start, true) == next_span(s, self.cursor as int, true),
            invariant
                self.wf(),
                self.text == old(self).text,
                self.chars == old(self).chars,
                s == self.chars@,
                start <= self.cursor <= s.len(),
            ensures
                next_span(s, start, true) == next_span(s, self.cursor as int, false),
                start < s.len() ==> self.cursor > start,
            decreases s.len() - self.cursor,
        {
            match self.next_char() {
                Some(ch) => {
                    if Self::is_linebreak(ch) {
                        break;
                    }
                },
                None => break,
            }
        }
    }

    /// Skips whitespace.
    fn advance_until_nonwhitespace(&mut self)
        requires
            old(self).wf(),
        ensures
            final(self).wf(),
            final(self).text == old(self).text,
            final(self).chars == old(self).chars,
            old(self).cursor <= final(self).cursor,
            next_span(old(self).chars@, old(self).cursor as int, false) == next_span(
                final(self).chars@,
                final(self).cursor as int,
                false,
            ),
            final(self).cursor < final(self).chars@.len() ==> !is_ascii_space(
                final(self).chars@[final(self).cursor as int],
            ),
    {
        let ghost s = self.chars@;
        let ghost start = self.cursor as int;
        loop
            invariant
                self.wf(),
                self.text == old(self).text,
                self.chars == old(self).chars,
                s == self.chars@,
                start <= self.cursor,
                next_span(s, start, false) == next_span(s, self.cursor as int, false),
            ensures
                self.cursor < s.len() ==> !is_ascii_space(s[self.cursor as int]),
            decreases s.len() - self.cursor,
        {
            match self.peek_char() {
                Some(ch) => {
                    if CharKind::from(ch) != CharKind::Whitespace {
                        break;
                    }
                },
                None => break,
            }
            self.next_char();
        }
    }

    /// Takes a one-character token, if the next character is atomic.
    fn try_atomic(&mut self) -> (r: Option<&'a str>)
        requires
            old(self).wf(),
            old(self).cursor < old(self).chars@.len(),
        ensures
            final(self).wf(),
            final(self).text == old(self).text,
            final(self).chars == old(self).chars,
            is_atomic_char(old(self).chars@[old(self).cursor as int]) ==> r.is_some() && r.unwrap()@
                == old(self).chars@.subrange(old(self).cursor as int, old(self).cursor + 1)
                && final(self).cursor == old(self).cursor + 1,
            !is_atomic_char(old(self).chars@[old(self).cursor as int]) ==> r.is_none()
                && final(self).cursor == old(self).cursor,
    {
        let first = self.chars[self.cursor];
        if !(CharKind::from(first) == CharKind::Atomic) {
            return None;
        }
        let start = self.cursor;
        self.next_char();
        Some(self.text.substring_char(start, self.cursor))
    }

    /// Whether the character at `i` belongs to a symbol run (see `symbol_at`).
    fn symbol_at(&self, i: usize) -> (r: bool)
        requires
            i < self.chars@.len(),
        ensures
            r == symbol_at(self.chars@, i as int),
    {
        let ch = self.chars[i];
        if ch == '-' && i < self.chars.len() - 1 && '0' <= self.chars[i + 1] && self.chars[i + 1]
            <= '9' {
            false
        } else {
            let word = ('a' <= ch && ch <= 'z') || ('A' <= ch && ch <= 'Z') || ('0' <= ch && ch
                <= '9') || ch == '_' || ch == '$';
            !word
        }
    }

    /// Takes a maximal run of characters of one class: all word characters or
    /// all symbol characters.
    fn expect_combination(&mut self) -> (r: &'a str)
        requires
            old(self).wf(),
            old(self).cursor < old(self).chars@.len(),
        ensures
            final(self).wf(),
            final(self).text == old(self).text,
            final(self).chars == old(self).chars,
            final(self).cursor == run_end(
                old(self).chars@,
                old(self).cursor + 1,
                symbol_at(old(self).chars@, old(self).cursor as int),
            ),
            old(self).cursor < final(self).cursor,
            forall|k: int|
                old(self).cursor < k < final(self).cursor ==> continues_run(
                    old(self).chars@,
                    k,
                    symbol_at(old(self).chars@, old(self).cursor as int),
                ),
            final(self).cursor < old(self).chars@.len() ==> !continues_run(
                old(self).chars@,
                final(self).cursor as int,
                symbol_at(old(self).chars@, old(self).cursor as int),
            ),
            r@ == old(self).chars@.subrange(old(self).cursor as int, final(self).cursor as int),
    {
        let ghost s = self.chars@;
        let start = self.cursor;
        let is_symbol = self.symbol_at(start);
        self.next_char();
        proof {
            lemma_run_end_bounds(s, start + 1, is_symbol);
        }
        while self.cursor < self.chars.len()
            invariant
                self.wf(),
                self.text == old(self).text,
                self.chars == old(self).chars,
                s == self.chars@,
                start < self.cursor <= s.len(),
                is_symbol == symbol_at(s, start as int),
                run_end(s, start + 1, is_symbol) == run_end(s, self.cursor as int, is_symbol),
            ensures
                run_end(s, start + 1, is_symbol) == self.cursor,
            decreases s.len() - self.cursor,
        {
            let ch = self.chars[self.cursor];
            if CharKind::from(ch) == CharKind::Whitespace || CharKind::from(ch) == CharKind::Atomic
                || self.symbol_at(self.cursor) != is_symbol {
                break;
            }
            self.cursor = self.cursor + 1;
        }
        self.text.substring_char(start, self.cursor)
    }

    /// The next token, if any remains.
    pub fn next_token(&mut self) -> (r: Option<Token<'a>>)
        requires
            old(self).wf(),
        ensures
            final(self).wf(),
            final(self).source() == old(self).source(),
            match next_span(old(self).source(), old(self).position(), false) {
                None => r.is_none() && final(self).position() == old(self).source().len(),
                Some((a, b)) => r.is_some() && r.unwrap()@ == lexeme_at(old(self).source(), a, b)
                    && final(self).position() == b,
            },
    {
        let ghost s = self.chars@;
        let ghost start = self.cursor as int;
        loop
            invariant
                self.wf(),
                self.text == old(self).text,
                s == self.chars@,
                s == self.text@,
                start == old(self).cursor,
                s == old(self).text@,
                next_span(s, start, false) == next_span(s, self.cursor as int, false),
            decreases s.len() - self.cursor,
        {
            self.advance_until_nonwhitespace();
            if self.is_end() {
                assert(next_span(s, self.cursor as int, false).is_none());
                return None;
            }
            if self.peek_is_comment() {
                let ghost c = self.cursor as int;
                assert(next_span(s, c, true) == next_span(s, c + 1, true));
                self.advance_until_next_line();
                continue;
            }
            let ghost c = self.cursor as int;
            assert(!is_ascii_space(s[c]) && !comment_at(s, c));
            let string = match self.try_atomic() {
                Some(string) => string,
                None => self.expect_combination(),
            };
            assert(next_span(s, c, false) == Some((c, self.cursor as int)));
            return Some(Token::from(string));
        }
    }
}

/// All tokens of a program text, in order.
pub fn tokenize<'a>(text: &'a str) -> (r: Vec<Token<'a>>)
    ensures
        r@.map_values(|t: Token<'a>| t@) == lex(text@),
{
    let mut tokens = Tokens::new(text);
    let mut r: Vec<Token<'a>> = Vec::new();
    loop
        invariant
            tokens.wf(),
            tokens.source() == text@,
            0 <= tokens.position(),
            lex(text@) == r@.map_values(|t: Token<'a>| t@) + lex_from(text@, tokens.position()),
        decreases text@.len() - tokens.position(),
    {
        let ghost before = tokens.position();
        proof {
            lemma_next_span_bounds(text@, before, false);
        }
        match tokens.next_token() {
            None => {
                assert(r@.map_values(|t: Token<'a>| t@) + lex_from(text@, before) =~= r@.map_values(
                    |t: Token<'a>| t@,
                ));
                return r;
            },
            Some(t) => {
                let ghost old_r = r@;
                r.push(t);
                assert(r@.map_values(|t: Token<'a>| t@) =~= old_r.map_values(|t: Token<'a>| t@).push(
                    t@,
                ));
                assert(lex(text@) == r@.map_values(|t: Token<'a>| t@) + lex_from(
                    text@,
                    tokens.position(),
                ));
            },
        }
    }
}

} // verus!

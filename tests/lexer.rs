use antsim::{tokenize, CharKind, Token, TokenKind, Tokens};

fn kinds(text: &str) -> Vec<TokenKind> {
    tokenize(text).iter().map(|t| t.kind).collect()
}

fn strings(text: &str) -> Vec<String> {
    tokenize(text).iter().map(|t| t.string.to_string()).collect()
}

#[test]
fn keywords_and_symbols() {
    assert_eq!(
        kinds("end set define ant ruleset use offset facing spawn / , -> ; + foo"),
        vec![
            TokenKind::KwEnd,
            TokenKind::KwSet,
            TokenKind::KwDefine,
            TokenKind::KwAnt,
            TokenKind::KwRuleset,
            TokenKind::KwUse,
            TokenKind::KwOffset,
            TokenKind::KwFacing,
            TokenKind::KwSpawn,
            TokenKind::Slash,
            TokenKind::Comma,
            TokenKind::Arrow,
            TokenKind::Semicolon,
            TokenKind::Plus,
            TokenKind::Ident,
        ]
    );
}

#[test]
fn runs_and_atomic_characters() {
    assert_eq!(strings("a/b,c;(x)"), vec!["a", "/", "b", ",", "c", ";", "(", "x", ")"]);
    assert_eq!(strings("x -> y"), vec!["x", "->", "y"]);
    assert_eq!(strings("x->y"), vec!["x", "->", "y"]);
    assert_eq!(strings("s->t"), vec!["s", "->", "t"]);
    assert_eq!(strings("-5 $sym"), vec!["-5", "$sym"]);
    assert_eq!(strings("a-b"), vec!["a", "-", "b"]);
    assert_eq!(strings("->-5"), vec!["->", "-5"]);
    assert_eq!(strings("x-1"), vec!["x-1"]);
    assert_eq!(strings("+-"), vec!["+-"]);
}

#[test]
fn whitespace_and_comments() {
    assert_eq!(strings("  a \t\r\n b -- c d\n e"), vec!["a", "b", "e"]);
    assert_eq!(strings("-- only a comment"), Vec::<String>::new());
    assert!(tokenize("").is_empty());
}

#[test]
fn tokens_one_at_a_time() {
    let mut tokens = Tokens::new("ant x");
    assert_eq!(tokens.next_token().unwrap().kind, TokenKind::KwAnt);
    assert_eq!(tokens.next_token().unwrap().string, "x");
    assert!(tokens.next_token().is_none());
    assert!(tokens.next_token().is_none());
}

#[test]
fn token_from_text() {
    let t = Token::from("ruleset");
    assert_eq!(t.kind, TokenKind::KwRuleset);
    assert_eq!(TokenKind::from("Ruleset"), TokenKind::Ident);
    assert_eq!(TokenKind::Arrow.describe(), "`->`");
    assert_eq!(TokenKind::Ident.describe(), "<identifier>");
}

#[test]
fn char_classes() {
    assert_eq!(CharKind::from(' '), CharKind::Whitespace);
    assert_eq!(CharKind::from(';'), CharKind::Atomic);
    assert_eq!(CharKind::from('-'), CharKind::Combining { is_symbol: true });
    assert_eq!(CharKind::from('$'), CharKind::Combining { is_symbol: false });
    assert_eq!(CharKind::from('>'), CharKind::Combining { is_symbol: true });
}

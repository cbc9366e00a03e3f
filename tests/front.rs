use imp::lexer::{tokenize, BadLex, Lexer, Spanned, Token};
use imp::parser::{parse, Kind, ParseError};
use imp::syntax::{Aexpr, Aop, Bexpr, Bop, Cmd, Cop};

fn kinds(src: &str) -> Vec<Kind> {
    tokenize(src).unwrap().iter().map(|t| t.1.kind()).collect()
}

fn program(src: &str) -> Cmd {
    parse(tokenize(src).unwrap()).unwrap()
}

fn lit(z: i32) -> Box<Aexpr> {
    Box::new(Aexpr::Int(z))
}

fn var(x: &str) -> Box<Aexpr> {
    Box::new(Aexpr::Var(x.to_string()))
}

fn op(o: Aop, a: Box<Aexpr>, b: Box<Aexpr>) -> Box<Aexpr> {
    Box::new(Aexpr::Op(o, a, b))
}

#[test]
fn lexes_every_symbol_and_keyword() {
    let k = kinds("{ } ( ) ; if else while := print skip or and =? <? + - * true false 42 abc");
    assert_eq!(
        k,
        vec![
            Kind::LBrace,
            Kind::RBrace,
            Kind::LParen,
            Kind::RParen,
            Kind::Semicolon,
            Kind::If,
            Kind::Else,
            Kind::While,
            Kind::Asgn,
            Kind::Print,
            Kind::Skip,
            Kind::Or,
            Kind::And,
            Kind::Eq,
            Kind::Lt,
            Kind::Add,
            Kind::Sub,
            Kind::Mul,
            Kind::Bool,
            Kind::Bool,
            Kind::Num,
            Kind::Var,
        ]
    );
}

#[test]
fn lexes_spans_and_values() {
    let toks = tokenize("x:=12;\n  iffy").unwrap();
    assert_eq!(toks.len(), 5);
    assert!(matches!(&toks[0], (0, Token::VAR(x), 1) if x == "x"));
    assert!(matches!(toks[1], (1, Token::ASGN, 3)));
    assert!(matches!(toks[2], (3, Token::NUM(12), 5)));
    assert!(matches!(toks[3], (5, Token::SEMICOLON, 6)));
    assert!(matches!(&toks[4], (9, Token::VAR(x), 13) if x == "iffy"));
}

#[test]
fn lexes_booleans_and_unicode_identifier() {
    let toks = tokenize("true false été2").unwrap();
    assert!(matches!(toks[0].1, Token::BOOL(true)));
    assert!(matches!(toks[1].1, Token::BOOL(false)));
    assert!(matches!(&toks[2].1, Token::VAR(x) if x == "été2"));
    assert_eq!(toks[2].0, 11);
    assert_eq!(toks[2].2, 17);
}

#[test]
fn lexes_largest_integer() {
    let toks = tokenize("2147483647").unwrap();
    assert!(matches!(toks[0].1, Token::NUM(2147483647)));
}

#[test]
fn lex_error_integer_overflow() {
    match tokenize("x := 2147483648") {
        Err((5, BadLex::Internal(d))) => assert_eq!(d, "2147483648"),
        other => panic!("unexpected {:?}", other),
    }
}

#[test]
fn spans_are_byte_offsets() {
    let toks = tokenize("é := 1;\nü := é").unwrap();
    assert!(matches!(&toks[0], (0, Token::VAR(x), 2) if x == "é"));
    assert!(matches!(toks[1], (3, Token::ASGN, 5)));
    assert!(matches!(toks[2], (6, Token::NUM(1), 7)));
    assert!(matches!(&toks[4], (9, Token::VAR(x), 11) if x == "ü"));
    assert!(matches!(&toks[6], (15, Token::VAR(x), 17) if x == "é"));
    assert!(matches!(tokenize("é # 1"), Err((3, BadLex::NonTokenChar('#')))));
}

#[test]
fn lex_error_non_token_char() {
    assert!(matches!(tokenize("x := 1 # 2"), Err((7, BadLex::NonTokenChar('#')))));
}

#[test]
fn lex_error_expected_pairs() {
    assert!(matches!(tokenize("x : 1"), Err((2, BadLex::ExpectedChar(':', '=')))));
    assert!(matches!(tokenize("x <= 1"), Err((2, BadLex::ExpectedChar('<', '?')))));
    assert!(matches!(tokenize("x == 1"), Err((2, BadLex::ExpectedChar('=', '?')))));
}

#[test]
fn lexer_yields_tokens_one_by_one() {
    let mut lx = Lexer::new("  skip ;");
    assert!(matches!(lx.next(), Some(Ok((2, Token::SKIP, 6)))));
    assert!(matches!(lx.next(), Some(Ok((7, Token::SEMICOLON, 8)))));
    assert!(lx.next().is_none());
}

#[test]
fn empty_source_has_no_tokens() {
    assert!(tokenize("").unwrap().is_empty());
    assert!(tokenize(" \n\t ").unwrap().is_empty());
}

#[test]
fn token_display_round_trip() {
    let toks: Vec<Spanned> = tokenize("if while else print skip and or := =? <? + - * ( ) { } ; true false 0 7 2147483647").unwrap();
    let text: Vec<String> = toks.iter().map(|t| t.1.text()).collect();
    let again = tokenize(&text.join(" ")).unwrap();
    assert_eq!(again.len(), toks.len());
    for (a, b) in toks.iter().zip(again.iter()) {
        assert_eq!(a.1.kind(), b.1.kind());
        assert_eq!(a.1, b.1);
    }
}

#[test]
fn token_text_of_numbers() {
    assert_eq!(Token::NUM(0).text(), "0");
    assert_eq!(Token::NUM(305).text(), "305");
    assert_eq!(Token::NUM(-12).text(), "-12");
    assert_eq!(Token::NUM(i32::MIN).text(), "-2147483648");
    assert_eq!(Token::VAR("abc".to_string()).text(), "abc");
    assert_eq!(Token::ASGN.text(), ":=");
}

#[test]
fn parses_precedence_and_grouping() {
    let c = program("x := 1 + 2 * 3 - 4");
    let want = Cmd::Ass(
        "x".to_string(),
        op(Aop::Sub, op(Aop::Add, lit(1), op(Aop::Mul, lit(2), lit(3))), lit(4)),
    );
    assert_eq!(c, want);
    let c = program("x := (1 + 2) * y");
    let want = Cmd::Ass("x".to_string(), op(Aop::Mul, op(Aop::Add, lit(1), lit(2)), var("y")));
    assert_eq!(c, want);
}

#[test]
fn parses_boolean_precedence() {
    let c = program("while true or x <? 1 and false { skip }");
    let want = Cmd::While(
        Box::new(Bexpr::Bop(
            Bop::Or,
            Box::new(Bexpr::Bool(true)),
            Box::new(Bexpr::Bop(
                Bop::And,
                Box::new(Bexpr::Cop(Cop::Lt, var("x"), lit(1))),
                Box::new(Bexpr::Bool(false)),
            )),
        )),
        Box::new(Cmd::Skip),
    );
    assert_eq!(c, want);
}

#[test]
fn parses_parenthesized_conditions() {
    let c = program("if ((x + 1) <? 3) and (true) { skip } else { print 1 }");
    let want = Cmd::If(
        Box::new(Bexpr::Bop(
            Bop::And,
            Box::new(Bexpr::Cop(Cop::Lt, op(Aop::Add, var("x"), lit(1)), lit(3))),
            Box::new(Bexpr::Bool(true)),
        )),
        Box::new(Cmd::Skip),
        Box::new(Cmd::Print(lit(1))),
    );
    assert_eq!(c, want);
}

#[test]
fn sequences_nest_to_the_right() {
    let c = program("skip; print 1; x := 2");
    let want = Cmd::Sequence(
        Box::new(Cmd::Skip),
        Box::new(Cmd::Sequence(Box::new(Cmd::Print(lit(1))), Box::new(Cmd::Ass("x".to_string(), lit(2))))),
    );
    assert_eq!(c, want);
}

#[test]
fn parse_failure_at_semicolon() {
    let toks = tokenize("x := ;").unwrap();
    match parse(toks) {
        Err(ParseError::UnrecognizedToken { token, expected }) => {
            assert!(matches!(token, (5, Token::SEMICOLON, 6)));
            assert!(expected.contains(&Kind::Var));
            assert!(expected.contains(&Kind::Num));
            assert!(expected.contains(&Kind::LParen));
        }
        other => panic!("unexpected {:?}", other),
    }
}

#[test]
fn parse_failure_at_end_of_input() {
    let toks = tokenize("x := 1;").unwrap();
    match parse(toks) {
        Err(ParseError::UnrecognizedEOF { location, expected }) => {
            assert_eq!(location, 7);
            assert_eq!(expected, vec![Kind::If, Kind::While, Kind::Var, Kind::Print, Kind::Skip]);
        }
        other => panic!("unexpected {:?}", other),
    }
}

#[test]
fn parse_failure_on_extra_input() {
    let toks = tokenize("skip skip").unwrap();
    match parse(toks) {
        Err(ParseError::ExtraToken { token }) => assert!(matches!(token, (5, Token::SKIP, 9))),
        other => panic!("unexpected {:?}", other),
    }
}

#[test]
fn parse_failure_missing_else() {
    let toks = tokenize("if true { skip }").unwrap();
    assert!(matches!(parse(toks), Err(ParseError::UnrecognizedEOF { location: 16, .. })));
}

#[test]
fn token_lengths_and_spans() {
    assert_eq!(Token::WHILE.len(), 5);
    assert_eq!(Token::BOOL(true).len(), 4);
    assert_eq!(Token::BOOL(false).len(), 5);
    assert_eq!(Token::NUM(-305).len(), 4);
    assert_eq!(Token::VAR("été".to_string()).len(), 5);
    assert_eq!(Token::ASGN.len(), 2);
    let sp = imp::lexer::spanned(7, Token::NUM(1234));
    assert!(matches!(sp, (7, Token::NUM(1234), 11)));
}

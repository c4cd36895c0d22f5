use feo::tokenise::{BinOp, LexError, Token, Tokens};

fn lex(src: &str) -> Vec<Token> {
    let mut stream = Tokens::from_str(src);
    let mut out = Vec::new();
    loop {
        match stream.next() {
            Ok(Some(tok)) => out.push(tok),
            Ok(None) => return out,
            Err(e) => panic!("tokenising failed: {:?}", e),
        }
    }
}

fn lex_err(src: &str) -> LexError {
    let mut stream = Tokens::from_str(src);
    loop {
        match stream.next() {
            Ok(Some(_)) => {}
            Ok(None) => panic!("tokenising unexpectedly succeeded"),
            Err(e) => return e,
        }
    }
}

#[test]
fn brackets() {
    assert_eq!(
        lex("(\r[{  \t} ] \n)"),
        vec![
            Token::LParen,
            Token::LSqbr,
            Token::LBrace,
            Token::RBrace,
            Token::RSqbr,
            Token::RParen,
        ]
    );
}

#[test]
fn cmp() {
    assert_eq!(
        lex("= = ==< << == = => ==<== == >= > >>"),
        vec![
            Token::Eq,
            Token::Eq,
            Token::EqEq,
            Token::Lt,
            Token::BinOp(BinOp::ShiftLeft),
            Token::EqEq,
            Token::Eq,
            Token::FatArrow,
            Token::EqEq,
            Token::Le,
            Token::Eq,
            Token::EqEq,
            Token::Ge,
            Token::Gt,
            Token::BinOp(BinOp::ShiftRight),
        ]
    );
}

#[test]
fn boolean() {
    assert_eq!(
        lex("& &&^ || |^^ !"),
        vec![
            Token::BinOp(BinOp::And),
            Token::AndAnd,
            Token::BinOp(BinOp::Xor),
            Token::OrOr,
            Token::BinOp(BinOp::Or),
            Token::XorXor,
            Token::Not,
        ]
    );
}

#[test]
fn augment() {
    assert_eq!(
        lex("+ = += -= *= /= %= >>= <<= |= &= ^= ^^="),
        vec![
            Token::BinOp(BinOp::Plus),
            Token::Eq,
            Token::BinOpEq(BinOp::Plus),
            Token::BinOpEq(BinOp::Minus),
            Token::BinOpEq(BinOp::Times),
            Token::BinOpEq(BinOp::Divide),
            Token::BinOpEq(BinOp::Modulo),
            Token::BinOpEq(BinOp::ShiftRight),
            Token::BinOpEq(BinOp::ShiftLeft),
            Token::BinOpEq(BinOp::Or),
            Token::BinOpEq(BinOp::And),
            Token::BinOpEq(BinOp::Xor),
            Token::XorXor,
            Token::Eq,
        ]
    );
}

#[test]
fn miscellaneous() {
    assert_eq!(
        lex("@..... .. . ...~ $# ; , :::: : :: ."),
        vec![
            Token::At,
            Token::DotDotDot,
            Token::DotDot,
            Token::DotDot,
            Token::Dot,
            Token::DotDotDot,
            Token::Tilde,
            Token::Dollar,
            Token::Octothorpe,
            Token::Semicolon,
            Token::Comma,
            Token::T_PAAMAYIM_NEKUDOTAYIM,
            Token::T_PAAMAYIM_NEKUDOTAYIM,
            Token::Colon,
            Token::T_PAAMAYIM_NEKUDOTAYIM,
            Token::Dot,
        ]
    );
}

#[test]
fn ident() {
    assert_eq!(
        lex("$éllo_36a /false true _"),
        vec![
            Token::Dollar,
            Token::Ident("éllo_36a".to_string()),
            Token::BinOp(BinOp::Divide),
            Token::LitBool(false),
            Token::LitBool(true),
            Token::Ident("_".to_string()),
        ]
    );
}

#[test]
fn char() {
    assert_eq!(
        lex("/'h'$ 'e'"),
        vec![
            Token::BinOp(BinOp::Divide),
            Token::LitChar('h'),
            Token::Dollar,
            Token::LitChar('e'),
        ]
    );
}

#[test]
fn string() {
    assert_eq!(
        lex(" \"hello\" $ \"wórld\"~ "),
        vec![
            Token::LitStr("hello".to_string()),
            Token::Dollar,
            Token::LitStr("wórld".to_string()),
            Token::Tilde,
        ]
    );
}

#[test]
fn num() {
    assert_eq!(
        lex("5 1. 3.4"),
        vec![
            Token::LitNum("5".to_string(), "".to_string()),
            Token::LitNum("1".to_string(), "".to_string()),
            Token::LitNum("3".to_string(), "4".to_string()),
        ]
    );
}

#[test]
fn longest_match() {
    assert_eq!(
        lex(">>= >> > >="),
        vec![
            Token::BinOpEq(BinOp::ShiftRight),
            Token::BinOp(BinOp::ShiftRight),
            Token::Gt,
            Token::Ge,
        ]
    );
}

#[test]
fn number_literal_split() {
    assert_eq!(
        lex("3.4"),
        vec![Token::LitNum("3".to_string(), "4".to_string())]
    );
    assert_eq!(
        lex("5"),
        vec![Token::LitNum("5".to_string(), "".to_string())]
    );
}

#[test]
fn number_underscores_and_extra_dots() {
    assert_eq!(
        lex("1_0.2_0.3"),
        vec![Token::LitNum("1_0".to_string(), "2_0.3".to_string())]
    );
}

#[test]
fn one_char_string() {
    assert_eq!(lex("\"h\""), vec![Token::LitStr("h".to_string())]);
}

#[test]
fn empty_string() {
    assert_eq!(lex("\"\""), vec![Token::LitStr("".to_string())]);
}

#[test]
fn unterminated_string() {
    assert_eq!(lex_err("\"abc"), LexError::UnterminatedString);
}

#[test]
fn unterminated_char() {
    assert_eq!(lex_err("'a"), LexError::UnterminatedChar);
    assert_eq!(lex_err("'"), LexError::UnterminatedChar);
}

#[test]
fn wrong_char_close() {
    assert_eq!(lex_err("'ab"), LexError::WrongCharClose('b'));
}

#[test]
fn uncovered_char() {
    assert_eq!(lex_err("?"), LexError::UnexpectedChar('?'));
}

#[test]
fn stream_is_exhausted_after_failure() {
    let mut stream = Tokens::from_str("1 \"x");
    assert_eq!(stream.next(), Ok(Some(Token::LitNum("1".to_string(), "".to_string()))));
    assert_eq!(stream.next(), Err(LexError::UnterminatedString));
    assert_eq!(stream.next(), Ok(None));
}

#[test]
fn failure_messages() {
    assert_eq!(
        lex_err("\"abc").message(),
        "unterminated string literal".to_string()
    );
    assert_eq!(
        lex_err("'ab").message(),
        "expected `'`, found `b`".to_string()
    );
    assert_eq!(
        lex_err("'").message(),
        "unterminated char literal".to_string()
    );
    assert_eq!(lex_err("?").message(), "unexpected char `?`".to_string());
}

#[test]
fn char_lookup() {
    let stream = Tokens::from_str("aé");
    assert_eq!(stream.char_at(0), Some('a'));
    assert_eq!(stream.char_at(1), Some('é'));
    assert_eq!(stream.char_at(2), None);
    assert_eq!(stream.char_range_at(1), Some(('é', 2)));
    assert_eq!(stream.char_range_at(2), None);
}

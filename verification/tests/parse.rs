use feo::ast::FeOExpr;
use feo::parser::parse;

fn num(i: &str, f: &str) -> FeOExpr {
    FeOExpr::NumLiteral(i.to_string(), f.to_string())
}

fn ident(s: &str) -> FeOExpr {
    FeOExpr::Identifier(s.to_string())
}

fn unit() -> FeOExpr {
    FeOExpr::TupleLiteral(vec![])
}

#[test]
fn parse_int() {
    assert_eq!(parse("1.2"), Ok(FeOExpr::Block(vec![num("1", "2")])));
}

#[test]
fn parse_multiple_exprs() {
    assert_eq!(
        parse("1.2; 3.4"),
        Ok(FeOExpr::Block(vec![num("1", "2"), num("3", "4")]))
    );
}

#[test]
fn parse_block() {
    assert_eq!(
        parse("1.2; {3.4; 5.6}"),
        Ok(FeOExpr::Block(vec![
            num("1", "2"),
            FeOExpr::Block(vec![num("3", "4"), num("5", "6")]),
        ]))
    );
}

#[test]
fn parse_whitespace() {
    assert_eq!(
        parse("  \n 1.2  ; \t  {  \r 3.4  ;  5.6  \n\n  } \r\n  "),
        parse("1.2;{3.4;5.6}")
    );
    assert_eq!(
        parse(" \n f   (   3  \t , \r  5   );    hello ; world  "),
        parse("f(3,5);hello;world")
    );
}

#[test]
fn parse_identifier() {
    assert_eq!(
        parse("ifhello; world"),
        Ok(FeOExpr::Block(vec![ident("ifhello"), ident("world")]))
    );
}

#[test]
fn parse_trailing_semicolon() {
    assert_eq!(
        parse("{1; 2;}"),
        Ok(FeOExpr::Block(vec![FeOExpr::Block(vec![
            num("1", ""),
            num("2", ""),
            unit(),
        ])]))
    );
}

#[test]
fn parse_if() {
    assert_eq!(
        parse("if 1 { 2 }"),
        Ok(FeOExpr::Block(vec![FeOExpr::Conditional(
            Box::new(num("1", "")),
            Box::new(FeOExpr::Block(vec![num("2", "")])),
            Box::new(unit()),
        )]))
    );
}

#[test]
fn parse_if_else() {
    assert_eq!(
        parse("if 1 { 2 } else { 3 }"),
        Ok(FeOExpr::Block(vec![FeOExpr::Conditional(
            Box::new(num("1", "")),
            Box::new(FeOExpr::Block(vec![num("2", "")])),
            Box::new(FeOExpr::Block(vec![num("3", "")])),
        )]))
    );
}

#[test]
fn parse_if_else_if_else() {
    assert_eq!(
        parse("if 1 { 2 } else if 2 { 3 } else { 4 }"),
        Ok(FeOExpr::Block(vec![FeOExpr::Conditional(
            Box::new(num("1", "")),
            Box::new(FeOExpr::Block(vec![num("2", "")])),
            Box::new(FeOExpr::Conditional(
                Box::new(num("2", "")),
                Box::new(FeOExpr::Block(vec![num("3", "")])),
                Box::new(FeOExpr::Block(vec![num("4", "")])),
            )),
        )]))
    );
}

#[test]
fn parse_if_else_expr() {
    assert_eq!(
        parse("if 1 { 2 } else 3"),
        Err("pos 17: `else` should be followed by `if` or a block".to_string())
    );
}

#[test]
fn parse_paren_expr() {
    assert_eq!(
        parse("(((3))); (4); ((5)); 6; ((7));"),
        parse("3; 4; 5; 6; 7;")
    );
}

#[test]
fn parse_fn_call() {
    assert_eq!(
        parse("1.3 ( )"),
        Ok(FeOExpr::Block(vec![FeOExpr::Call(
            Box::new(num("1", "3")),
            vec![],
        )]))
    );
    assert_eq!(
        parse("f ( 3 , 4 )"),
        Ok(FeOExpr::Block(vec![FeOExpr::Call(
            Box::new(ident("f")),
            vec![num("3", ""), num("4", "")],
        )]))
    );
}

#[test]
fn parse_same_text_twice() {
    let src = "if 1 { f(2, 3); } else { g }";
    assert_eq!(parse(src), parse(src));
}

#[test]
fn parse_no_trailing_semicolon_keeps_tail() {
    assert_eq!(
        parse("{1; 2}"),
        Ok(FeOExpr::Block(vec![FeOExpr::Block(vec![
            num("1", ""),
            num("2", ""),
        ])]))
    );
}

#[test]
fn parse_top_level_trailing_semicolon() {
    assert_eq!(parse("3;"), Ok(FeOExpr::Block(vec![num("3", ""), unit()])));
}

#[test]
fn parse_empty_input() {
    assert_eq!(parse(""), Ok(FeOExpr::Block(vec![])));
    assert_eq!(parse("   \n\t "), Ok(FeOExpr::Block(vec![])));
}

#[test]
fn parse_empty_block() {
    assert_eq!(
        parse("{}"),
        Ok(FeOExpr::Block(vec![FeOExpr::Block(vec![unit()])]))
    );
}

#[test]
fn parse_redundant_parens() {
    assert_eq!(parse("(((3)));"), parse("3;"));
}

#[test]
fn parse_booleans() {
    assert_eq!(
        parse("true; false"),
        Ok(FeOExpr::Block(vec![
            FeOExpr::BoolLiteral(true),
            FeOExpr::BoolLiteral(false),
        ]))
    );
}

#[test]
fn parse_trailing_comma_call() {
    assert_eq!(
        parse("f(3,)"),
        Ok(FeOExpr::Block(vec![FeOExpr::Call(
            Box::new(ident("f")),
            vec![num("3", "")],
        )]))
    );
}

#[test]
fn parse_paren_inner_whitespace() {
    assert_eq!(parse("( 3);"), parse("(3);"));
    assert_eq!(
        parse("( 3 );"),
        Ok(FeOExpr::Block(vec![num("3", ""), unit()]))
    );
    assert_eq!(
        parse("( f(x) )"),
        Ok(FeOExpr::Block(vec![FeOExpr::Call(
            Box::new(ident("f")),
            vec![ident("x")],
        )]))
    );
}

#[test]
fn parse_chained_calls() {
    assert_eq!(
        parse("f(x)(y)"),
        Ok(FeOExpr::Block(vec![FeOExpr::Call(
            Box::new(FeOExpr::Call(Box::new(ident("f")), vec![ident("x")])),
            vec![ident("y")],
        )]))
    );
    assert_eq!(
        parse("1(2)(3)"),
        Ok(FeOExpr::Block(vec![FeOExpr::Call(
            Box::new(FeOExpr::Call(Box::new(num("1", "")), vec![num("2", "")])),
            vec![num("3", "")],
        )]))
    );
    assert_eq!(parse("f (x) (y)"), parse("f(x)(y)"));
}

#[test]
fn parse_underscore_identifier() {
    assert_eq!(parse("a_b"), Ok(FeOExpr::Block(vec![ident("a_b")])));
    assert_eq!(
        parse("_x1; y_"),
        Ok(FeOExpr::Block(vec![ident("_x1"), ident("y_")]))
    );
}

#[test]
fn parse_trailing_whitespace() {
    assert_eq!(parse("1.2 \n"), parse("1.2"));
    assert_eq!(parse("f(3,5)\t"), parse("f(3,5)"));
    assert_eq!(parse("{1; 2;} "), parse("{1; 2;}"));
}

#[test]
fn parse_bare_if_is_identifier() {
    // `if` begins a conditional only when whitespace follows it, so the bare
    // word is an identifier -- and appending whitespace to it changes the
    // parse to a failed conditional.
    assert_eq!(parse("if"), Ok(FeOExpr::Block(vec![ident("if")])));
    assert_eq!(parse("if "), Err("pos 3: unexpected EOF".to_string()));
}

#[test]
fn parse_error_unexpected_char() {
    assert_eq!(parse("?"), Err("pos 0: unexpected char `?`".to_string()));
}

#[test]
fn parse_error_trailing_char() {
    assert_eq!(parse("1}"), Err("pos 1: unexpected char }".to_string()));
}

#[test]
fn parse_error_expected_paren() {
    assert_eq!(parse("(3;"), Err("pos 2: expected `)`, found `;`".to_string()));
}

#[test]
fn parse_error_expected_paren_eof() {
    assert_eq!(parse("(3"), Err("pos 2: expected `)`, found EOF".to_string()));
}

#[test]
fn parse_error_expected_brace() {
    assert_eq!(parse("1 2"), Err("pos 2: expected `}`, found `2`".to_string()));
}

#[test]
fn parse_error_unclosed_block() {
    assert_eq!(parse("{1"), Err("pos 2: expected `}`, found EOF".to_string()));
}

#[test]
fn parse_error_malformed_number() {
    assert_eq!(parse("1.2.3"), Err("pos 3: malformed number literal".to_string()));
}

#[test]
fn parse_error_unexpected_end() {
    assert_eq!(parse("("), Err("pos 1: unexpected EOF".to_string()));
}

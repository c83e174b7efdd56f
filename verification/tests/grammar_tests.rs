use tred::grammar::{parse, Token};

fn show(input: &str) -> String {
    format!("{:?}", parse(input))
}

#[test]
fn grammar_stat_line() {
    assert_eq!(
        show("stat x \"a\";"),
        "Ok([Expr(Some(Name(\"stat\")), [Name(\"x\"), StrLiteral(\"a\")])])"
    );
}

#[test]
fn grammar_comment_and_blank_lines() {
    assert_eq!(show("  // hello world\n\n"), "Ok([Comment(\"hello world\")])");
    assert_eq!(show(""), "Ok([])");
}

#[test]
fn grammar_regex_and_block() {
    assert_eq!(
        show("some /[a-z]+/ { \"x\"; };"),
        "Ok([Expr(Some(Name(\"some\")), [Regex(\"[a-z]+\"), Block([Expr(Some(StrLiteral(\"x\")), [])])])])"
    );
}

#[test]
fn grammar_tuple() {
    assert_eq!(
        show("export Pair(a \"b\");"),
        "Ok([Expr(Some(Name(\"export\")), [Tuple(Some(Name(\"Pair\")), [Name(\"a\"), StrLiteral(\"b\")])])])"
    );
}

#[test]
fn grammar_error_position() {
    let e = parse("x;\n@").unwrap_err();
    assert_eq!(e.at, 3);
    assert_eq!(e.cause.len(), 3);
}

#[test]
fn grammar_name_may_not_start_with_underscore() {
    assert!(parse("_x;").is_err());
    match parse("x_1;").unwrap().pop().map(|b| *b) {
        Some(Token::Expr(Some(op), args)) => {
            assert_eq!(format!("{:?}", op), "Name(\"x_1\")");
            assert!(args.is_empty());
        }
        other => panic!("unexpected {:?}", other),
    }
}

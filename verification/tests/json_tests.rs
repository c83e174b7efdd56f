use tred::json::{parse, Token};

fn show(input: &str) -> String {
    format!("{:?}", parse(input))
}

#[test]
fn json_scalars() {
    assert_eq!(show("true"), "Ok([True])");
    assert_eq!(show("null"), "Ok([Null])");
    assert_eq!(show("-12.5e+3"), "Ok([Number(\"-12.5e+3\")])");
    assert_eq!(show("\"a\\nb\""), "Ok([String(\"a\\\\nb\")])");
}

#[test]
fn json_nested() {
    let r = parse("{\"k\": [1, 2], \"z\": {}}").unwrap();
    assert_eq!(r.len(), 1);
    match &*r[0] {
        Token::Mapping(entries) => assert_eq!(entries.len(), 2),
        other => panic!("unexpected {:?}", other),
    }
}

#[test]
fn json_error() {
    let e = parse("@").unwrap_err();
    assert_eq!(e.at, 0);
    assert_eq!(e.cause.len(), 5);
}

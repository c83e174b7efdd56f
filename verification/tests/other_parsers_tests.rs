use tred::boot::{Item, Parse};

#[test]
fn boot_reads_pieces_of_five() {
    let p = Parse::new().unwrap();
    let (n, items) = p.parse("abcdefghijkl").unwrap();
    assert_eq!(n, 2);
    assert_eq!(items.len(), 2);
    match (&*items[0], &*items[1]) {
        (Item::Comment(a), Item::Comment(b)) => {
            assert_eq!(a, "abcde");
            assert_eq!(b, "fghij");
        }
        other => panic!("unexpected {:?}", other),
    }
    let (n, items) = p.parse("abc").unwrap();
    assert_eq!(n, 0);
    assert!(items.is_empty());
}

#[test]
fn newparse_gives_nothing() {
    assert!(tred::newparse::parse("stat x \"y\";").unwrap().is_empty());
    assert!(tred::newparse::parse("").unwrap().is_empty());
}

#[test]
fn json_syntax_accepts_what_json_parses() {
    assert!(tred::json_syntax::parse("[1, {\"a\": null}]").unwrap().is_empty());
    let e = tred::json_syntax::parse("@").unwrap_err();
    let f = tred::json::parse("@").unwrap_err();
    assert_eq!(e.at, f.at);
    assert_eq!(format!("{:?}", e), format!("{:?}", f));
}

#[test]
fn boot_counts_whole_pieces() {
    let p = Parse::new().unwrap();
    for (text, n) in [("", 0), ("abcd", 0), ("abcde", 1), ("abcdefghij", 2), ("abcdefghijk", 2)] {
        let (count, items) = p.parse(text).unwrap();
        assert_eq!(count, n);
        assert_eq!(items.len(), n);
    }
}

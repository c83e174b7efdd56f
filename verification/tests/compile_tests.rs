use tred::compile::{compile, sanitize_regex, DefPart, SecNext};
use tred::compile::{gen_token_output, gen_value, BlockDat, CompileData};
use tred::grammar::{parse, Token};

fn compiled(src: &str) -> Result<String, String> {
    let toks = parse(src).unwrap();
    compile(&toks[..]).map(|t| t.as_str().to_string())
}

const VBT: &str = "::std::vec::Vec<::std::boxed::Box<Token>>";

fn parse_fn() -> String {
    format!(
        "pub fn parse ( input : & str ) -> Result < {} , :: tredlib :: ParseErr > {{ match _blockfn_0 ( 0usize , input ) {{ Result :: Ok ( ( _ , tree ) ) => Result :: Ok ( tree ) , Result :: Err ( err ) => Result :: Err ( err ) , }} }}",
        VBT
    )
}

fn block_fn(index: usize, body: &str) -> String {
    format!(
        "fn _blockfn_{} ( _start : usize , _text : & str ) -> Result < ( usize , {} ) , :: tredlib :: ParseErr > {{ let mut _at = _start ; let mut _out = :: std :: vec :: Vec :: new ( ) ;{}Ok ( ( _at , _out ) ) }}",
        index, VBT, body
    )
}

#[test]
fn compile_string_match() {
    let expected = format!(
        "# [ derive ( Clone , Debug ) ] pub enum Token {{ }} {} lazy_static ! {{ }} {}",
        parse_fn(),
        block_fn(
            0,
            " _tredgen_append ! ( _at , _resvec_0 , { } , _tredgen_match_str ! ( _at , _text , \"a\" ) ? ) ; "
        )
    );
    assert_eq!(compiled("\"a\";").unwrap(), expected);
}

#[test]
fn compile_regex_static() {
    let out = compiled("stat ws /\\s*/;\nws;").unwrap();
    assert!(out.contains(
        "lazy_static ! { static ref _REGEX_0 : :: tredlib :: regex :: Regex = :: tredlib :: regex :: Regex :: new ( \"^\\\\s*\" ) . unwrap ( ) ; }"
    ));
    assert!(out.contains(
        "_tredgen_append ! ( _at , _resvec_1 , { } , _tredgen_match_regex ! ( _at , _text , _REGEX_0 ) ? ) ;"
    ));
}

#[test]
fn compile_same_regex_once() {
    let out = compiled("/a/;\n/a/;").unwrap();
    assert_eq!(out.matches("static ref").count(), 1);
    assert_eq!(out.matches("_REGEX_0").count(), 3);
}

#[test]
fn compile_def_capture_export() {
    let out = compiled("def Word str;\ncapture w;\n/[a-z]+/;\nstop w;\nexport Word(w);").unwrap();
    assert!(out.starts_with(
        "# [ derive ( Clone , Debug ) ] pub enum Token { Word ( ::std::string::String ) , }"
    ));
    assert!(out.contains("let mut _start_0 : usize ; _start_0 = _at ;"));
    assert!(out.contains("let mut _acc_3 = _text [ _start_0 .. _at ] . to_owned ( ) ;"));
    assert!(out.contains(
        "_out . extend ( Some ( :: std :: boxed :: Box :: new ( Token :: Word ( _acc_3 . clone ( ) ) ) ) ) ;"
    ));
}

#[test]
fn compile_blocks_and_into() {
    let out = compiled("def List list;\ninto items;\nsome { \"x\"; };\nstop items;\nexport List(items);").unwrap();
    assert!(out.contains("let mut _intolist_0 = :: std :: vec :: Vec :: new ( ) ;"));
    assert!(out.contains(
        "_tredgen_some ! ( _at , _text , _resvec_1 , { _intolist_0 . append ( _resvec_1 ) ; } , _blockfn_1 ( _at , _text ) ) ;"
    ));
    assert!(out.contains(&block_fn(
        1,
        " _tredgen_append ! ( _at , _resvec_2 , { } , _tredgen_match_str ! ( _at , _text , \"x\" ) ? ) ; "
    )));
    assert!(out.contains("Token :: List ( _intolist_0 . clone ( ) )"));
}

#[test]
fn compile_errors() {
    assert_eq!(compiled("foo;").unwrap_err(), "Unknown operation: foo");
    assert_eq!(compiled("def A str;\ndef A str;").unwrap_err(), "A is already defined");
    assert!(compiled("def A thing;").is_err());
    assert!(compiled("stop nothing;").is_err());
    assert!(compiled("export Missing;").is_err());
    assert!(compiled("capture c;\ncapture c;").is_ok());
    assert!(compiled("into x;\ninto x;").is_err());
}

#[test]
fn sanitize_regex_unescapes_slashes() {
    assert_eq!(sanitize_regex("a\\/b"), "a/b");
    assert_eq!(sanitize_regex("\\d+\\/"), "\\d+/");
    assert_eq!(sanitize_regex("x\\"), "x");
    assert_eq!(sanitize_regex(""), "");
}

#[test]
fn sec_next_counts_up() {
    let mut s = SecNext::new(5);
    assert_eq!(s.next(), 5);
    assert_eq!(s.next(), 6);
    assert_eq!(s.next_name("_v_"), "_v_7");
    let mut t = SecNext::new(usize::MAX);
    assert_eq!(t.next(), usize::MAX);
    assert_eq!(t.next(), 0);
}

#[test]
fn def_part_types() {
    assert_eq!(DefPart::STR.ty(), "::std::string::String");
    assert_eq!(DefPart::ITEM.ty(), "::std::option::Option<::std::boxed::Box<Token>>");
    assert_eq!(DefPart::LIST.ty(), "::std::vec::Vec<::std::boxed::Box<Token>>");
}

#[test]
fn fresh_names_are_distinct() {
    let mut s = SecNext::new(9);
    let a = s.next_name("_resvec_");
    let b = s.next_name("_resvec_");
    assert_eq!(a, "_resvec_9");
    assert_eq!(b, "_resvec_10");
    assert_ne!(a, b);
}

#[test]
fn sanitize_regex_keeps_plain_sources() {
    assert_eq!(sanitize_regex("[a-z]+"), "[a-z]+");
    assert_eq!(sanitize_regex("^x*$"), "^x*$");
}

#[test]
fn compile_into_then_stop_restores_targets() {
    // After `stop`, the next match goes to no target: its append block is empty.
    let out = compiled("into items;\nstop items;\n\"a\";").unwrap();
    assert!(out.contains(
        "_tredgen_append ! ( _at , _resvec_1 , { } , _tredgen_match_str ! ( _at , _text , \"a\" ) ? ) ;"
    ));
}

#[test]
fn compile_capture_in_match_and_static_strings() {
    let out = compiled("def S str;\nstat greeting \"hi\";\ncapture c;\n/x/;\nc;\nexport S(greeting);").unwrap();
    assert!(out.contains("let _cap_3 = & _text [ _start_0 .. _at ] ;"));
    assert!(out.contains("_tredgen_match_str ! ( _at , _text , _cap_3 )"));
    assert!(out.contains("Token :: S ( \"hi\" )"));
}

#[test]
fn compile_unescapes_string_literals() {
    let out = compiled("\"a\\tb\";").unwrap();
    assert!(out.contains("_tredgen_match_str ! ( _at , _text , \"a\\tb\" )"));
    assert!(compiled("\"a\\qb\";").is_err());
}

#[test]
fn compile_def_types_in_any_case() {
    let out = compiled("def Pair STR Item LIST;").unwrap();
    assert!(out.starts_with(
        "# [ derive ( Clone , Debug ) ] pub enum Token { Pair ( ::std::string::String , ::std::option::Option<::std::boxed::Box<Token>> , ::std::vec::Vec<::std::boxed::Box<Token>> ) , }"
    ));
}

#[test]
fn compile_error_messages_name_the_arguments() {
    assert_eq!(
        compiled("stat x;").unwrap_err(),
        "\"stat\" expr \"stat <name> <value>\" has invalid args: [Name(\"x\")]"
    );
    assert_eq!(compiled("\"a\\qb\";").unwrap_err(), "invalid escape in string literal: a\\qb");
}

#[test]
fn token_output_error_messages() {
    let mut dat = CompileData::new();
    dat.blocks.push(BlockDat::new(0, None));
    dat.defs.push(("P".to_string(), vec![DefPart::STR]));
    let name = |s: &str| Box::new(Token::Name(s.to_string()));
    let e = gen_token_output(&dat, 0, DefPart::ITEM, &Token::Tuple(Some(name("Foo")), vec![])).unwrap_err();
    assert_eq!(e, "Foo is an unknown definition");
    let e = gen_token_output(&dat, 0, DefPart::ITEM, &Token::Tuple(Some(name("P")), vec![])).unwrap_err();
    assert_eq!(e, "P has 1 members, only 0 were supplied");
    let e = gen_token_output(&dat, 0, DefPart::ITEM, &Token::Regex("x".to_string())).unwrap_err();
    assert_eq!(e, "Regex(\"x\") is not a valid as a ITEM member");
    let e = gen_token_output(&dat, 0, DefPart::LIST, &Token::Name("x".to_string())).unwrap_err();
    assert_eq!(e, "x does not name a value");
    let ok = gen_token_output(&dat, 0, DefPart::ITEM, &Token::Tuple(Some(name("P")), vec![Box::new(Token::StrLiteral("s".to_string()))])).unwrap();
    assert_eq!(ok.as_str(), "Some ( :: std :: boxed :: Box :: new ( Token :: P ( \"s\" ) ) )");
    let mut prefix = quote::Tokens::new();
    let e = gen_value(&mut dat, 0, &Token::Name("nothing".to_string()), &mut prefix).err().unwrap();
    assert_eq!(e, "Name(\"nothing\") is not a static or local value");
}

#[test]
fn sanitize_regex_is_idempotent_and_never_longer() {
    for s in ["a\\/b", "\\\\/", "\\\\\\/", "x\\", "\\/\\/", "\\d+", ""] {
        let once = sanitize_regex(s);
        assert_eq!(sanitize_regex(&once), once);
        assert!(once.len() <= s.len());
    }
}

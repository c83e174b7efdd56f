//! A JSON parser.
//!
//! `parse` reads one JSON value from the start of the text and gives back
//! its node: maps hold their entries, an entry holds its key and value,
//! arrays hold their elements, strings and numbers hold their source text.
use vstd::prelude::*;
use vstd::string::StringSliceAdditionalSpecFns;
use crate::runtime::{
    ParseErr, Failure, failure_of, failures_of, choice_failure, is_position, lit_step,
    regex_step, text_between, lemma_lit_advances, match_str, match_regex, capture, choice_fail,
    step_of, step_ok,
};

verus! {

/// Optional whitespace.
pub const SPACE_OPT: &'static str = "^[\\s\\n\\r]*";

/// A character of a string that needs no escape.
pub const PLAIN_CHAR: &'static str = "^[^\\\\\"]";

/// The rest of a `\u` escape.
pub const UNICODE_ESCAPE: &'static str = "^u[\\da-fA-F]{6}";

/// The first digit of a number that does not start with 0.
pub const NONZERO_DIGIT: &'static str = "^[1-9]";

/// A digit.
pub const DIGIT: &'static str = "^\\d";

/// A node of a JSON document.
#[derive(Debug)]
pub enum Token {
    True,
    Mapping(Vec<Box<Token>>),
    MapEntry(String, Option<Box<Token>>),
    String(String),
    Null,
    False,
    Array(Vec<Box<Token>>),
    Number(String),
}

/// The mathematical value of a `Token`.
pub enum Tok {
    True,
    Mapping(Seq<Tok>),
    MapEntry(Seq<char>, Option<Box<Tok>>),
    String(Seq<char>),
    Null,
    False,
    Array(Seq<Tok>),
    Number(Seq<char>),
}

pub open spec fn tok_of(t: Token) -> Tok
    decreases t,
{
    match t {
        Token::True => Tok::True,
        Token::Mapping(entries) => Tok::Mapping(
            Seq::new(
                entries.len() as nat,
                |i: int|
                    if 0 <= i < entries.len() {
                        tok_of(*entries[i])
                    } else {
                        Tok::Null
                    },
            ),
        ),
        Token::MapEntry(k, v) => Tok::MapEntry(
            k@,
            match v {
                Some(b) => Some(Box::new(tok_of(*b))),
                None => None,
            },
        ),
        Token::String(s) => Tok::String(s@),
        Token::Null => Tok::Null,
        Token::False => Tok::False,
        Token::Array(elems) => Tok::Array(
            Seq::new(
                elems.len() as nat,
                |i: int|
                    if 0 <= i < elems.len() {
                        tok_of(*elems[i])
                    } else {
                        Tok::Null
                    },
            ),
        ),
        Token::Number(s) => Tok::Number(s@),
    }
}

pub open spec fn head_of(h: Option<Box<Token>>) -> Option<Box<Tok>> {
    match h {
        Some(b) => Some(Box::new(tok_of(*b))),
        None => None,
    }
}

pub open spec fn toks_of(v: Seq<Box<Token>>) -> Seq<Tok> {
    Seq::new(v.len(), |i: int| tok_of(*v[i]))
}

/// What a rule gives back: the position after what it matched and the nodes
/// it produced, or the failure.
pub type Outcome = Result<(int, Seq<Tok>), Failure>;

pub type Parsed = Result<(usize, Vec<Box<Token>>), ParseErr>;

pub open spec fn outcome_of(r: Parsed) -> Outcome {
    match r {
        Ok((p, v)) => Ok((p as int, toks_of(v@))),
        Err(e) => Err(failure_of(e)),
    }
}

/// A rule that succeeded ends inside the text, no earlier than it started.
pub open spec fn parsed_ok(b: Seq<u8>, start: int, r: Parsed) -> bool {
    r matches Ok((p, _)) ==> start <= p && is_position(b, p as int)
}

/// The last node of a rule's nodes, if any.
pub open spec fn last_of(v: Seq<Tok>) -> Option<Box<Tok>> {
    if v.len() > 0 {
        Some(Box::new(v.last()))
    } else {
        None
    }
}

// ---- the rules, as functions of the text's bytes and a start position ----

/// Digits, for as long as they match and the text advances.
pub open spec fn spec_digits(b: Seq<u8>, pos: int) -> int
    decreases b.len() - pos,
{
    match regex_step(b, pos, DIGIT@) {
        Err(_) => pos,
        Ok(p) => if pos < p <= b.len() {
            spec_digits(b, p)
        } else {
            p
        },
    }
}

/// One digit or more: like `spec_digits`, but the first digit must match.
pub open spec fn spec_some_digits(b: Seq<u8>, pos: int) -> Result<int, Failure> {
    match regex_step(b, pos, DIGIT@) {
        Err(e) => Err(choice_failure(pos, seq![e])),
        Ok(p) => if pos < p <= b.len() {
            Ok(spec_digits(b, p))
        } else {
            Ok(p)
        },
    }
}

pub open spec fn spec_int_part(b: Seq<u8>, at: int) -> Result<int, Failure> {
    match regex_step(b, at, NONZERO_DIGIT@) {
        Err(e) => Err(e),
        Ok(p) => Ok(spec_digits(b, p)),
    }
}

pub open spec fn spec_fraction(b: Seq<u8>, at: int) -> Result<int, Failure> {
    match lit_step(b, at, "."@) {
        Err(e) => Err(e),
        Ok(p) => spec_some_digits(b, p),
    }
}

pub open spec fn spec_exponent(b: Seq<u8>, at: int) -> Result<int, Failure> {
    let p1 = match lit_step(b, at, "e"@) {
        Ok(p) => Ok(p),
        Err(e1) => match lit_step(b, at, "E"@) {
            Ok(p) => Ok(p),
            Err(e2) => Err(choice_failure(at, seq![e1, e2])),
        },
    };
    match p1 {
        Err(e) => Err(e),
        Ok(p1) => {
            let p2 = match lit_step(b, p1, "+"@) {
                Ok(p) => Ok(p),
                Err(e1) => match lit_step(b, p1, "-"@) {
                    Ok(p) => Ok(p),
                    Err(e2) => match lit_step(b, p1, ""@) {
                        Ok(p) => Ok(p),
                        Err(e3) => Err(choice_failure(p1, seq![e1, e2, e3])),
                    },
                },
            };
            match p2 {
                Err(e) => Err(e),
                Ok(p2) => spec_some_digits(b, p2),
            }
        },
    }
}

/// A number: an optional `-`, `0` or an integer part, then an optional
/// fraction and an optional exponent; the node holds the matched text.
pub open spec fn spec_number(b: Seq<u8>, at: int) -> Outcome {
    let p1 = match lit_step(b, at, "-"@) {
        Ok(p) => p,
        Err(_) => at,
    };
    let p2 = match lit_step(b, p1, "0"@) {
        Ok(p) => Ok(p),
        Err(e1) => match spec_int_part(b, p1) {
            Ok(p) => Ok(p),
            Err(e2) => Err(choice_failure(p1, seq![e1, e2])),
        },
    };
    match p2 {
        Err(e) => Err(e),
        Ok(p2) => {
            let p3 = match spec_fraction(b, p2) {
                Ok(p) => p,
                Err(_) => p2,
            };
            let p4 = match spec_exponent(b, p3) {
                Ok(p) => p,
                Err(_) => p3,
            };
            Ok((p4, seq![Tok::Number(text_between(b, at, p4))]))
        },
    }
}

/// The rest of an escape, after the backslash.
pub open spec fn spec_escape(b: Seq<u8>, at: int) -> Result<int, Failure> {
    match lit_step(b, at, "\\"@) {
        Err(e) => Err(e),
        Ok(p) => match lit_step(b, p, "\""@) {
            Ok(q) => Ok(q),
            Err(e1) => match lit_step(b, p, "\\"@) {
                Ok(q) => Ok(q),
                Err(e2) => match lit_step(b, p, "/"@) {
                    Ok(q) => Ok(q),
                    Err(e3) => match lit_step(b, p, "b"@) {
                        Ok(q) => Ok(q),
                        Err(e4) => match lit_step(b, p, "n"@) {
                            Ok(q) => Ok(q),
                            Err(e5) => match lit_step(b, p, "f"@) {
                                Ok(q) => Ok(q),
                                Err(e6) => match lit_step(b, p, "n"@) {
                                    Ok(q) => Ok(q),
                                    Err(e7) => match lit_step(b, p, "r"@) {
                                        Ok(q) => Ok(q),
                                        Err(e8) => match lit_step(b, p, "t"@) {
                                            Ok(q) => Ok(q),
                                            Err(e9) => match regex_step(b, p, UNICODE_ESCAPE@) {
                                                Ok(q) => Ok(q),
                                                Err(e10) => Err(
                                                    choice_failure(
                                                        p,
                                                        seq![e1, e2, e3, e4, e5, e6, e7, e8, e9, e10],
                                                    ),
                                                ),
                                            },
                                        },
                                    },
                                },
                            },
                        },
                    },
                },
            },
        },
    }
}

/// A character of a string: a plain character or an escape.
pub open spec fn spec_string_char(b: Seq<u8>, at: int) -> Result<int, Failure> {
    match regex_step(b, at, PLAIN_CHAR@) {
        Ok(p) => Ok(p),
        Err(e1) => match spec_escape(b, at) {
            Ok(p) => Ok(p),
            Err(e2) => Err(choice_failure(at, seq![e1, e2])),
        },
    }
}

/// The characters of a string, for as long as they match and the text
/// advances.
pub open spec fn spec_string_body(b: Seq<u8>, pos: int) -> int
    decreases b.len() - pos,
{
    match spec_string_char(b, pos) {
        Err(_) => pos,
        Ok(p) => if pos < p <= b.len() {
            spec_string_body(b, p)
        } else {
            p
        },
    }
}

/// A string `"..."`; the node holds the text between the quotes.
pub open spec fn spec_string(b: Seq<u8>, at: int) -> Outcome {
    match lit_step(b, at, "\""@) {
        Err(e) => Err(e),
        Ok(p1) => {
            let p2 = spec_string_body(b, p1);
            match lit_step(b, p2, "\""@) {
                Err(e) => Err(e),
                Ok(p3) => Ok((p3, seq![Tok::String(text_between(b, p1, p2))])),
            }
        },
    }
}

/// `,` with optional whitespace around it.
pub open spec fn spec_separator(b: Seq<u8>, at: int) -> Result<int, Failure> {
    match regex_step(b, at, SPACE_OPT@) {
        Err(e) => Err(e),
        Ok(p1) => match lit_step(b, p1, ","@) {
            Err(e) => Err(e),
            Ok(p2) => regex_step(b, p2, SPACE_OPT@),
        },
    }
}

/// An entry `"key" : value`; the node holds the key's text and the value.
pub open spec fn spec_entry(b: Seq<u8>, at: int) -> Outcome
    decreases b.len() - at, 0int,
{
    match lit_step(b, at, "\""@) {
        Err(e) => Err(e),
        Ok(p1) => {
            let p2 = spec_string_body(b, p1);
            match lit_step(b, p2, "\""@) {
                Err(e) => Err(e),
                Ok(p3) => match regex_step(b, p3, SPACE_OPT@) {
                    Err(e) => Err(e),
                    Ok(p4) => match lit_step(b, p4, ":"@) {
                        Err(e) => Err(e),
                        Ok(p5) => match regex_step(b, p5, SPACE_OPT@) {
                            Err(e) => Err(e),
                            Ok(p6) => {
                                proof {
                                    reveal_strlit("\"");
                                    lemma_lit_advances(b, at, "\""@);
                                    reveal_strlit(":");
                                    lemma_lit_advances(b, p4, ":"@);
                                    lemma_string_body_bounds(b, p1);
                                }
                                match spec_value(b, p6) {
                                    Err(e) => Err(e),
                                    Ok((p7, v)) => Ok(
                                        (p7, seq![Tok::MapEntry(text_between(b, p1, p2), last_of(v))]),
                                    ),
                                }
                            },
                        },
                    },
                },
            }
        },
    }
}

/// Entries, each but the first after a separator, for as long as they match
/// and the text advances.
pub open spec fn spec_entries(b: Seq<u8>, pos: int, acc: Seq<Tok>) -> (int, Seq<Tok>)
    decreases b.len() - pos, 1int,
{
    match spec_entry(b, pos) {
        Err(_) => (pos, acc),
        Ok((p1, v1)) => match spec_separator(b, p1) {
            Err(_) => (p1, acc + v1),
            Ok(p2) => if pos < p2 <= b.len() {
                spec_entries(b, p2, acc + v1)
            } else {
                (p2, acc + v1)
            },
        },
    }
}

/// A map `{ entry, ... }`.
pub open spec fn spec_map(b: Seq<u8>, at: int) -> Outcome
    decreases b.len() - at, 0int,
{
    match lit_step(b, at, "{"@) {
        Err(e) => Err(e),
        Ok(p1) => match regex_step(b, p1, SPACE_OPT@) {
            Err(e) => Err(e),
            Ok(p2) => {
                proof {
                    reveal_strlit("{");
                    lemma_lit_advances(b, at, "{"@);
                }
                let (p3, entries) = spec_entries(b, p2, Seq::empty());
                match regex_step(b, p3, SPACE_OPT@) {
                    Err(e) => Err(e),
                    Ok(p4) => match lit_step(b, p4, "}"@) {
                        Err(e) => Err(e),
                        Ok(p5) => Ok((p5, seq![Tok::Mapping(entries)])),
                    },
                }
            },
        },
    }
}

/// Elements, each but the first after a separator, for as long as they
/// match and the text advances.
pub open spec fn spec_elements(b: Seq<u8>, pos: int, acc: Seq<Tok>) -> (int, Seq<Tok>)
    decreases b.len() - pos, 4int,
{
    match spec_value(b, pos) {
        Err(_) => (pos, acc),
        Ok((p1, v1)) => match spec_separator(b, p1) {
            Err(_) => (p1, acc + v1),
            Ok(p2) => if pos < p2 <= b.len() {
                spec_elements(b, p2, acc + v1)
            } else {
                (p2, acc + v1)
            },
        },
    }
}

/// An array `[ value, ... ]`.
pub open spec fn spec_array(b: Seq<u8>, at: int) -> Outcome
    decreases b.len() - at, 0int,
{
    match lit_step(b, at, "["@) {
        Err(e) => Err(e),
        Ok(p1) => match regex_step(b, p1, SPACE_OPT@) {
            Err(e) => Err(e),
            Ok(p2) => {
                proof {
                    reveal_strlit("[");
                    lemma_lit_advances(b, at, "["@);
                }
                let (p3, elems) = spec_elements(b, p2, Seq::empty());
                match regex_step(b, p3, SPACE_OPT@) {
                    Err(e) => Err(e),
                    Ok(p4) => match lit_step(b, p4, "]"@) {
                        Err(e) => Err(e),
                        Ok(p5) => Ok((p5, seq![Tok::Array(elems)])),
                    },
                }
            },
        },
    }
}

/// `true`, `false` or `null`.
pub open spec fn spec_literal(b: Seq<u8>, at: int) -> Outcome {
    match lit_step(b, at, "true"@) {
        Ok(p) => Ok((p, seq![Tok::True])),
        Err(e1) => match lit_step(b, at, "false"@) {
            Ok(p) => Ok((p, seq![Tok::False])),
            Err(e2) => match lit_step(b, at, "null"@) {
                Ok(p) => Ok((p, seq![Tok::Null])),
                Err(e3) => Err(choice_failure(at, seq![e1, e2, e3])),
            },
        },
    }
}

/// A value: the first of a string, a map, an array, a literal and a number
/// that matches.
pub open spec fn spec_value(b: Seq<u8>, at: int) -> Outcome
    decreases b.len() - at, 3int,
{
    match spec_string(b, at) {
        Ok(r) => Ok(r),
        Err(e1) => match spec_map(b, at) {
            Ok(r) => Ok(r),
            Err(e2) => match spec_array(b, at) {
                Ok(r) => Ok(r),
                Err(e3) => match spec_literal(b, at) {
                    Ok(r) => Ok(r),
                    Err(e4) => match spec_number(b, at) {
                        Ok(r) => Ok(r),
                        Err(e5) => Err(choice_failure(at, seq![e1, e2, e3, e4, e5])),
                    },
                },
            },
        },
    }
}

/// The result of parsing a JSON text: the nodes of the value at its start.
pub open spec fn spec_parse(b: Seq<u8>) -> Result<Seq<Tok>, Failure> {
    match spec_value(b, 0) {
        Ok((_, tree)) => Ok(tree),
        Err(e) => Err(e),
    }
}

/// Text of ASCII characters is encoded one byte per character, the
/// character's code.
proof fn lemma_ascii_encoding(s: Seq<char>)
    requires
        forall|i: int| 0 <= i < s.len() ==> (s[i] as u32) < 0x80,
    ensures
        vstd::utf8::encode_utf8(s).len() == s.len(),
        forall|i: int| 0 <= i < s.len() ==> vstd::utf8::encode_utf8(s)[i] == (s[i] as u32) as u8,
    decreases s.len(),
{
    if s.len() > 0 {
        let t = s.drop_first();
        assert forall|i: int| 0 <= i < t.len() implies (t[i] as u32) < 0x80 by {
            assert(t[i] == s[i + 1]);
        }
        lemma_ascii_encoding(t);
        let v: u32 = s[0] as u32;
        assert((v & 0x7F) == v) by (bit_vector)
            requires
                v < 0x80,
        ;
        let e = vstd::utf8::encode_scalar(v);
        assert(vstd::utf8::has_width_1_encoding(v));
        assert(vstd::utf8::leading_byte_width_1(v) == (v & 0x7F) as u8);
        assert((v & 0x7F) as u8 == v as u8);
        assert(e == seq![v as u8]);
        assert(vstd::utf8::encode_utf8(s) == e + vstd::utf8::encode_utf8(t));
        assert forall|i: int| 0 <= i < s.len() implies vstd::utf8::encode_utf8(s)[i] == (s[i] as u32) as u8 by {
            if i > 0 {
                assert(t[i - 1] == s[i]);
            }
        }
    }
}

/// The JSON literals: a value that starts with the text `true` is the node
/// `True`, one that starts with `false` is `False`, and one that starts with
/// `null` is `Null`; each ends right after its word.
pub proof fn lemma_literal_words(b: Seq<u8>, at: int)
    requires
        0 <= at,
    ensures
        at + 4 <= b.len() && b.subrange(at, at + 4) == vstd::utf8::encode_utf8("true"@) ==> spec_value(b, at)
            == Ok::<(int, Seq<Tok>), Failure>((at + 4, seq![Tok::True])),
        at + 5 <= b.len() && b.subrange(at, at + 5) == vstd::utf8::encode_utf8("false"@) ==> spec_value(
            b,
            at,
        ) == Ok::<(int, Seq<Tok>), Failure>((at + 5, seq![Tok::False])),
        at + 4 <= b.len() && b.subrange(at, at + 4) == vstd::utf8::encode_utf8("null"@) ==> spec_value(b, at)
            == Ok::<(int, Seq<Tok>), Failure>((at + 4, seq![Tok::Null])),
{
    reveal_strlit("true");
    reveal_strlit("false");
    reveal_strlit("null");
    reveal_strlit("\"");
    reveal_strlit("{");
    reveal_strlit("[");
    lemma_ascii_encoding("true"@);
    lemma_ascii_encoding("false"@);
    lemma_ascii_encoding("null"@);
    lemma_ascii_encoding("\""@);
    lemma_ascii_encoding("{"@);
    lemma_ascii_encoding("["@);
    assert(vstd::utf8::encode_utf8("\""@) =~= seq![34u8]);
    assert(vstd::utf8::encode_utf8("{"@) =~= seq![123u8]);
    assert(vstd::utf8::encode_utf8("["@) =~= seq![91u8]);
    assert(vstd::utf8::encode_utf8("true"@) =~= seq![116u8, 114u8, 117u8, 101u8]);
    assert(vstd::utf8::encode_utf8("false"@) =~= seq![102u8, 97u8, 108u8, 115u8, 101u8]);
    assert(vstd::utf8::encode_utf8("null"@) =~= seq![110u8, 117u8, 108u8, 108u8]);
    if at + 4 <= b.len() {
        assert(b.subrange(at, at + 1)[0] == b[at]);
        assert(b.subrange(at, at + 4)[0] == b[at]);
        if at + 5 <= b.len() {
            assert(b.subrange(at, at + 5)[0] == b[at]);
        }
    }
}

pub open spec fn parse_view(r: Result<Vec<Box<Token>>, ParseErr>) -> Result<Seq<Tok>, Failure> {
    match r {
        Ok(tree) => Ok(toks_of(tree@)),
        Err(e) => Err(failure_of(e)),
    }
}

/// The body of a string ends no earlier than it starts.
pub proof fn lemma_string_body_bounds(b: Seq<u8>, pos: int)
    ensures
        spec_string_body(b, pos) >= pos,
    decreases b.len() - pos,
{
    if let Ok(p) = spec_string_char(b, pos) {
        if pos < p <= b.len() {
            lemma_string_body_bounds(b, p);
        }
    }
}


proof fn lemma_view_list(v: Vec<Box<Token>>)
    ensures
        tok_of(Token::Mapping(v)) == Tok::Mapping(toks_of(v@)),
        tok_of(Token::Array(v)) == Tok::Array(toks_of(v@)),
{
    if let Tok::Mapping(s) = tok_of(Token::Mapping(v)) {
        assert(s =~= toks_of(v@));
    }
    if let Tok::Array(s) = tok_of(Token::Array(v)) {
        assert(s =~= toks_of(v@));
    }
}

proof fn lemma_toks_append(a: Seq<Box<Token>>, c: Seq<Box<Token>>)
    ensures
        toks_of(a + c) == toks_of(a) + toks_of(c),
{
    assert(toks_of(a + c) =~= toks_of(a) + toks_of(c));
}

/// One node.
fn single(t: Token) -> (v: Vec<Box<Token>>)
    ensures
        toks_of(v@) == seq![tok_of(t)],
{
    let mut v: Vec<Box<Token>> = Vec::new();
    v.push(Box::new(t));
    assert(toks_of(v@) =~= seq![tok_of(t)]);
    v
}

/// Digits from `start`, for as long as they match and the text advances.
fn digits(text: &str, start: usize) -> (p: usize)
    requires
        is_position(text.spec_bytes(), start as int),
    ensures
        p == spec_digits(text.spec_bytes(), start as int),
        start <= p,
        is_position(text.spec_bytes(), p as int),
{
    let ghost b = text.spec_bytes();
    let mut at = start;
    let mut more = true;
    while more
        invariant
            b == text.spec_bytes(),
            start <= at,
            is_position(b, at as int),
            more ==> spec_digits(b, at as int) == spec_digits(b, start as int),
            !more ==> at == spec_digits(b, start as int),
        decreases b.len() - at, if more { 1int } else { 0int },
    {
        match match_regex(text, at, DIGIT) {
            Err(_) => {
                more = false;
            },
            Ok(p) => {
                if p <= at {
                    more = false;
                }
                at = p;
            },
        }
    }
    at
}

/// One digit or more from `start`.
fn some_digits(text: &str, start: usize) -> (r: Result<usize, ParseErr>)
    requires
        is_position(text.spec_bytes(), start as int),
    ensures
        step_of(r) == spec_some_digits(text.spec_bytes(), start as int),
        step_ok(text.spec_bytes(), start as int, r),
{
    match match_regex(text, start, DIGIT) {
        Err(e) => {
            let mut causes: Vec<ParseErr> = Vec::new();
            causes.push(e);
            assert(failures_of(causes@) =~= seq![failure_of(causes@[0])]);
            Err(choice_fail(start, causes))
        },
        Ok(p) => {
            if p <= start {
                Ok(p)
            } else {
                Ok(digits(text, p))
            }
        },
    }
}

/// An integer part that does not start with 0.
fn int_part(text: &str, start: usize) -> (r: Result<usize, ParseErr>)
    requires
        is_position(text.spec_bytes(), start as int),
    ensures
        step_of(r) == spec_int_part(text.spec_bytes(), start as int),
        step_ok(text.spec_bytes(), start as int, r),
{
    match match_regex(text, start, NONZERO_DIGIT) {
        Err(e) => Err(e),
        Ok(p) => Ok(digits(text, p)),
    }
}

/// A fraction `.digits`.
fn fraction(text: &str, start: usize) -> (r: Result<usize, ParseErr>)
    requires
        is_position(text.spec_bytes(), start as int),
    ensures
        step_of(r) == spec_fraction(text.spec_bytes(), start as int),
        step_ok(text.spec_bytes(), start as int, r),
{
    match match_str(text, start, ".") {
        Err(e) => Err(e),
        Ok(p) => some_digits(text, p),
    }
}

/// An exponent: `e` or `E`, a sign or none, digits.
fn exponent(text: &str, start: usize) -> (r: Result<usize, ParseErr>)
    requires
        is_position(text.spec_bytes(), start as int),
    ensures
        step_of(r) == spec_exponent(text.spec_bytes(), start as int),
        step_ok(text.spec_bytes(), start as int, r),
{
    let mut causes: Vec<ParseErr> = Vec::new();
    let p1 = match match_str(text, start, "e") {
        Ok(p) => p,
        Err(e) => {
            causes.push(e);
            match match_str(text, start, "E") {
                Ok(p) => p,
                Err(e) => {
                    causes.push(e);
                    assert(failures_of(causes@) =~= seq![failure_of(causes@[0]), failure_of(causes@[1])]);
                    return Err(choice_fail(start, causes));
                },
            }
        },
    };
    let mut causes: Vec<ParseErr> = Vec::new();
    let p2 = match match_str(text, p1, "+") {
        Ok(p) => p,
        Err(e) => {
            causes.push(e);
            match match_str(text, p1, "-") {
                Ok(p) => p,
                Err(e) => {
                    causes.push(e);
                    match match_str(text, p1, "") {
                        Ok(p) => p,
                        Err(e) => {
                            causes.push(e);
                            assert(failures_of(causes@) =~= seq![
                                failure_of(causes@[0]),
                                failure_of(causes@[1]),
                                failure_of(causes@[2]),
                            ]);
                            return Err(choice_fail(p1, causes));
                        },
                    }
                },
            }
        },
    };
    some_digits(text, p2)
}

/// A number; the node holds its text.
fn number(text: &str, start: usize) -> (r: Parsed)
    requires
        is_position(text.spec_bytes(), start as int),
    ensures
        outcome_of(r) == spec_number(text.spec_bytes(), start as int),
        parsed_ok(text.spec_bytes(), start as int, r),
{
    let p1 = match match_str(text, start, "-") {
        Ok(p) => p,
        Err(_) => start,
    };
    let mut causes: Vec<ParseErr> = Vec::new();
    let p2 = match match_str(text, p1, "0") {
        Ok(p) => p,
        Err(e) => {
            causes.push(e);
            match int_part(text, p1) {
                Ok(p) => p,
                Err(e) => {
                    causes.push(e);
                    assert(failures_of(causes@) =~= seq![failure_of(causes@[0]), failure_of(causes@[1])]);
                    return Err(choice_fail(p1, causes));
                },
            }
        },
    };
    let p3 = match fraction(text, p2) {
        Ok(p) => p,
        Err(_) => p2,
    };
    let p4 = match exponent(text, p3) {
        Ok(p) => p,
        Err(_) => p3,
    };
    Ok((p4, single(Token::Number(capture(text, start, p4)))))
}

/// An escape: a backslash and what it escapes.
fn escape(text: &str, start: usize) -> (r: Result<usize, ParseErr>)
    requires
        is_position(text.spec_bytes(), start as int),
    ensures
        step_of(r) == spec_escape(text.spec_bytes(), start as int),
        step_ok(text.spec_bytes(), start as int, r),
{
    let p = match match_str(text, start, "\\") {
        Ok(p) => p,
        Err(e) => return Err(e),
    };
    let mut causes: Vec<ParseErr> = Vec::new();
    match match_str(text, p, "\"") {
        Ok(q) => return Ok(q),
        Err(e) => causes.push(e),
    }
    match match_str(text, p, "\\") {
        Ok(q) => return Ok(q),
        Err(e) => causes.push(e),
    }
    match match_str(text, p, "/") {
        Ok(q) => return Ok(q),
        Err(e) => causes.push(e),
    }
    match match_str(text, p, "b") {
        Ok(q) => return Ok(q),
        Err(e) => causes.push(e),
    }
    match match_str(text, p, "n") {
        Ok(q) => return Ok(q),
        Err(e) => causes.push(e),
    }
    match match_str(text, p, "f") {
        Ok(q) => return Ok(q),
        Err(e) => causes.push(e),
    }
    match match_str(text, p, "n") {
        Ok(q) => return Ok(q),
        Err(e) => causes.push(e),
    }
    match match_str(text, p, "r") {
        Ok(q) => return Ok(q),
        Err(e) => causes.push(e),
    }
    match match_str(text, p, "t") {
        Ok(q) => return Ok(q),
        Err(e) => causes.push(e),
    }
    match match_regex(text, p, UNICODE_ESCAPE) {
        Ok(q) => return Ok(q),
        Err(e) => causes.push(e),
    }
    assert(failures_of(causes@) =~= seq![
        failure_of(causes@[0]),
        failure_of(causes@[1]),
        failure_of(causes@[2]),
        failure_of(causes@[3]),
        failure_of(causes@[4]),
        failure_of(causes@[5]),
        failure_of(causes@[6]),
        failure_of(causes@[7]),
        failure_of(causes@[8]),
        failure_of(causes@[9]),
    ]);
    Err(choice_fail(p, causes))
}

/// A character of a string.
fn string_char(text: &str, start: usize) -> (r: Result<usize, ParseErr>)
    requires
        is_position(text.spec_bytes(), start as int),
    ensures
        step_of(r) == spec_string_char(text.spec_bytes(), start as int),
        step_ok(text.spec_bytes(), start as int, r),
{
    let mut causes: Vec<ParseErr> = Vec::new();
    match match_regex(text, start, PLAIN_CHAR) {
        Ok(p) => return Ok(p),
        Err(e) => causes.push(e),
    }
    match escape(text, start) {
        Ok(p) => return Ok(p),
        Err(e) => causes.push(e),
    }
    assert(failures_of(causes@) =~= seq![failure_of(causes@[0]), failure_of(causes@[1])]);
    Err(choice_fail(start, causes))
}

/// The characters of a string.
fn string_body(text: &str, start: usize) -> (p: usize)
    requires
        is_position(text.spec_bytes(), start as int),
    ensures
        p == spec_string_body(text.spec_bytes(), start as int),
        start <= p,
        is_position(text.spec_bytes(), p as int),
{
    let ghost b = text.spec_bytes();
    let mut at = start;
    let mut more = true;
    while more
        invariant
            b == text.spec_bytes(),
            start <= at,
            is_position(b, at as int),
            more ==> spec_string_body(b, at as int) == spec_string_body(b, start as int),
            !more ==> at == spec_string_body(b, start as int),
        decreases b.len() - at, if more { 1int } else { 0int },
    {
        match string_char(text, at) {
            Err(_) => {
                more = false;
            },
            Ok(p) => {
                if p <= at {
                    more = false;
                }
                at = p;
            },
        }
    }
    at
}

/// A string; the node holds the text between the quotes.
fn string(text: &str, start: usize) -> (r: Parsed)
    requires
        is_position(text.spec_bytes(), start as int),
    ensures
        outcome_of(r) == spec_string(text.spec_bytes(), start as int),
        parsed_ok(text.spec_bytes(), start as int, r),
{
    let p1 = match match_str(text, start, "\"") {
        Ok(p) => p,
        Err(e) => return Err(e),
    };
    let p2 = string_body(text, p1);
    let out = single(Token::String(capture(text, p1, p2)));
    let p3 = match match_str(text, p2, "\"") {
        Ok(p) => p,
        Err(e) => return Err(e),
    };
    Ok((p3, out))
}

/// A separator `,` with optional whitespace around it.
fn separator(text: &str, start: usize) -> (r: Result<usize, ParseErr>)
    requires
        is_position(text.spec_bytes(), start as int),
    ensures
        step_of(r) == spec_separator(text.spec_bytes(), start as int),
        step_ok(text.spec_bytes(), start as int, r),
{
    let p1 = match match_regex(text, start, SPACE_OPT) {
        Ok(p) => p,
        Err(e) => return Err(e),
    };
    let p2 = match match_str(text, p1, ",") {
        Ok(p) => p,
        Err(e) => return Err(e),
    };
    match_regex(text, p2, SPACE_OPT)
}

/// An entry of a map; the node holds the key's text and the value.
fn entry(text: &str, start: usize) -> (r: Parsed)
    requires
        is_position(text.spec_bytes(), start as int),
    ensures
        outcome_of(r) == spec_entry(text.spec_bytes(), start as int),
        parsed_ok(text.spec_bytes(), start as int, r),
    decreases text.spec_bytes().len() - start, 0int,
{
    let ghost b = text.spec_bytes();
    let p1 = match match_str(text, start, "\"") {
        Ok(p) => p,
        Err(e) => return Err(e),
    };
    let p2 = string_body(text, p1);
    let key = capture(text, p1, p2);
    let p3 = match match_str(text, p2, "\"") {
        Ok(p) => p,
        Err(e) => return Err(e),
    };
    let p4 = match match_regex(text, p3, SPACE_OPT) {
        Ok(p) => p,
        Err(e) => return Err(e),
    };
    let p5 = match match_str(text, p4, ":") {
        Ok(p) => p,
        Err(e) => return Err(e),
    };
    let p6 = match match_regex(text, p5, SPACE_OPT) {
        Ok(p) => p,
        Err(e) => return Err(e),
    };
    proof {
        reveal_strlit("\"");
        lemma_lit_advances(b, start as int, "\""@);
    }
    let (p7, v) = match value(text, p6) {
        Ok(r) => r,
        Err(e) => return Err(e),
    };
    let ghost got = toks_of(v@);
    let mut v = v;
    let val = v.pop();
    assert(head_of(val) == last_of(got));
    Ok((p7, single(Token::MapEntry(key, val))))
}

/// A map; the node holds the entries.
fn map(text: &str, start: usize) -> (r: Parsed)
    requires
        is_position(text.spec_bytes(), start as int),
    ensures
        outcome_of(r) == spec_map(text.spec_bytes(), start as int),
        parsed_ok(text.spec_bytes(), start as int, r),
    decreases text.spec_bytes().len() - start, 0int,
{
    let ghost b = text.spec_bytes();
    let p1 = match match_str(text, start, "{") {
        Ok(p) => p,
        Err(e) => return Err(e),
    };
    let p2 = match match_regex(text, p1, SPACE_OPT) {
        Ok(p) => p,
        Err(e) => return Err(e),
    };
    proof {
        reveal_strlit("{");
        lemma_lit_advances(b, start as int, "{"@);
    }
    let mut entries: Vec<Box<Token>> = Vec::new();
    let mut at = p2;
    let mut more = true;
    while more
        invariant
            b == text.spec_bytes(),
            start < p2 <= at <= b.len(),
            is_position(b, at as int),
            more ==> spec_entries(b, at as int, toks_of(entries@)) == spec_entries(
                b,
                p2 as int,
                Seq::empty(),
            ),
            !more ==> (at as int, toks_of(entries@)) == spec_entries(b, p2 as int, Seq::empty()),
        decreases b.len() - at, if more { 1int } else { 0int },
    {
        match entry(text, at) {
            Err(_) => {
                more = false;
            },
            Ok((p, v)) => {
                let ghost before = entries@;
                let ghost got = v@;
                let mut v = v;
                entries.append(&mut v);
                proof {
                    lemma_toks_append(before, got);
                }
                match separator(text, p) {
                    Err(_) => {
                        at = p;
                        more = false;
                    },
                    Ok(q) => {
                        if q <= at {
                            more = false;
                        }
                        at = q;
                    },
                }
            },
        }
    }
    proof {
        lemma_view_list(entries);
    }
    let out = single(Token::Mapping(entries));
    let p4 = match match_regex(text, at, SPACE_OPT) {
        Ok(p) => p,
        Err(e) => return Err(e),
    };
    let p5 = match match_str(text, p4, "}") {
        Ok(p) => p,
        Err(e) => return Err(e),
    };
    Ok((p5, out))
}

/// An array; the node holds the elements.
fn array(text: &str, start: usize) -> (r: Parsed)
    requires
        is_position(text.spec_bytes(), start as int),
    ensures
        outcome_of(r) == spec_array(text.spec_bytes(), start as int),
        parsed_ok(text.spec_bytes(), start as int, r),
    decreases text.spec_bytes().len() - start, 0int,
{
    let ghost b = text.spec_bytes();
    let p1 = match match_str(text, start, "[") {
        Ok(p) => p,
        Err(e) => return Err(e),
    };
    let p2 = match match_regex(text, p1, SPACE_OPT) {
        Ok(p) => p,
        Err(e) => return Err(e),
    };
    proof {
        reveal_strlit("[");
        lemma_lit_advances(b, start as int, "["@);
    }
    let mut elems: Vec<Box<Token>> = Vec::new();
    let mut at = p2;
    let mut more = true;
    while more
        invariant
            b == text.spec_bytes(),
            start < p2 <= at <= b.len(),
            is_position(b, at as int),
            more ==> spec_elements(b, at as int, toks_of(elems@)) == spec_elements(
                b,
                p2 as int,
                Seq::empty(),
            ),
            !more ==> (at as int, toks_of(elems@)) == spec_elements(b, p2 as int, Seq::empty()),
        decreases b.len() - at, if more { 1int } else { 0int },
    {
        match value(text, at) {
            Err(_) => {
                more = false;
            },
            Ok((p, v)) => {
                let ghost before = elems@;
                let ghost got = v@;
                let mut v = v;
                elems.append(&mut v);
                proof {
                    lemma_toks_append(before, got);
                }
                match separator(text, p) {
                    Err(_) => {
                        at = p;
                        more = false;
                    },
                    Ok(q) => {
                        if q <= at {
                            more = false;
                        }
                        at = q;
                    },
                }
            },
        }
    }
    proof {
        lemma_view_list(elems);
    }
    let out = single(Token::Array(elems));
    let p4 = match match_regex(text, at, SPACE_OPT) {
        Ok(p) => p,
        Err(e) => return Err(e),
    };
    let p5 = match match_str(text, p4, "]") {
        Ok(p) => p,
        Err(e) => return Err(e),
    };
    Ok((p5, out))
}

/// `true`, `false` or `null`.
fn literal(text: &str, start: usize) -> (r: Parsed)
    requires
        is_position(text.spec_bytes(), start as int),
    ensures
        outcome_of(r) == spec_literal(text.spec_bytes(), start as int),
        parsed_ok(text.spec_bytes(), start as int, r),
{
    let mut causes: Vec<ParseErr> = Vec::new();
    match match_str(text, start, "true") {
        Ok(p) => return Ok((p, single(Token::True))),
        Err(e) => causes.push(e),
    }
    match match_str(text, start, "false") {
        Ok(p) => return Ok((p, single(Token::False))),
        Err(e) => causes.push(e),
    }
    match match_str(text, start, "null") {
        Ok(p) => return Ok((p, single(Token::Null))),
        Err(e) => causes.push(e),
    }
    assert(failures_of(causes@) =~= seq![
        failure_of(causes@[0]),
        failure_of(causes@[1]),
        failure_of(causes@[2]),
    ]);
    Err(choice_fail(start, causes))
}

/// A value.
#[verifier::rlimit(30)]
fn value(text: &str, start: usize) -> (r: Parsed)
    requires
        is_position(text.spec_bytes(), start as int),
    ensures
        outcome_of(r) == spec_value(text.spec_bytes(), start as int),
        parsed_ok(text.spec_bytes(), start as int, r),
    decreases text.spec_bytes().len() - start, 3int,
{
    let mut causes: Vec<ParseErr> = Vec::new();
    match string(text, start) {
        Ok(r) => return Ok(r),
        Err(e) => causes.push(e),
    }
    match map(text, start) {
        Ok(r) => return Ok(r),
        Err(e) => causes.push(e),
    }
    match array(text, start) {
        Ok(r) => return Ok(r),
        Err(e) => causes.push(e),
    }
    match literal(text, start) {
        Ok(r) => return Ok(r),
        Err(e) => causes.push(e),
    }
    match number(text, start) {
        Ok(r) => return Ok(r),
        Err(e) => causes.push(e),
    }
    assert(failures_of(causes@) =~= seq![
        failure_of(causes@[0]),
        failure_of(causes@[1]),
        failure_of(causes@[2]),
        failure_of(causes@[3]),
        failure_of(causes@[4]),
    ]);
    Err(choice_fail(start, causes))
}

/// Parses the JSON value at the start of `input`; what follows the value is
/// not looked at.
pub fn parse(input: &str) -> (r: Result<Vec<Box<Token>>, ParseErr>)
    ensures
        parse_view(r) == spec_parse(input.spec_bytes()),
{
    proof {
        vstd::utf8::encode_utf8_valid_utf8(input@);
        vstd::utf8::is_char_boundary_start_end_of_seq(input.spec_bytes());
    }
    match value(input, 0) {
        Ok((_, tree)) => Ok(tree),
        Err(err) => Err(err),
    }
}

} // verus!

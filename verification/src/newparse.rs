//! The parser of the reduced grammar language: its program is empty, so
//! every text parses to no nodes. Its other rules (names, tuples without
//! members, string literals) are kept; names and string literals are the
//! rules of `crate::grammar`.
use vstd::prelude::*;
use vstd::string::StringSliceAdditionalSpecFns;
use crate::runtime::{
    ParseErr, plain_failure, is_position, lit_step, regex_step, text_between, lemma_lit_advances,
    match_str, match_regex, capture, fail_at,
};
pub use crate::grammar::Token;
use crate::grammar::{Tok, Outcome, Parsed, outcome_of, parsed_ok, tok_of, toks_of, SPACE_OPT, SPACE, WORD};

verus! {

/// The program: it matches nothing and produces no nodes.
pub open spec fn spec_program(b: Seq<u8>, at: int) -> Outcome {
    Ok((at, Seq::empty()))
}

/// The empty rule: it matches nothing and produces no nodes.
pub open spec fn spec_empty(b: Seq<u8>, at: int) -> Outcome {
    Ok((at, Seq::empty()))
}

/// The position after the runs of whitespace that the members of a tuple
/// are made of: each member is the empty rule followed by whitespace, for as
/// long as the whitespace matches and the text advances.
pub open spec fn spec_blank_members(b: Seq<u8>, pos: int) -> int
    decreases b.len() - pos,
{
    match regex_step(b, pos, SPACE@) {
        Err(_) => pos,
        Ok(p) => if pos < p <= b.len() {
            spec_blank_members(b, p)
        } else {
            p
        },
    }
}

/// A tuple `name( )`: a name that does not start with `_`, then `(`, then
/// members that are only whitespace, then `)`. The node holds the name and
/// no members.
pub open spec fn spec_tuple(b: Seq<u8>, at: int) -> Outcome {
    if lit_step(b, at, "_"@) is Ok {
        Err(plain_failure(at))
    } else {
        match regex_step(b, at, WORD@) {
            Err(e) => Err(e),
            Ok(p1) => match lit_step(b, p1, "("@) {
                Err(e) => Err(e),
                Ok(p2) => match regex_step(b, p2, SPACE_OPT@) {
                    Err(e) => Err(e),
                    Ok(p3) => match regex_step(b, spec_blank_members(b, p3), SPACE_OPT@) {
                        Err(e) => Err(e),
                        Ok(p5) => match lit_step(b, p5, ")"@) {
                            Err(e) => Err(e),
                            Ok(p6) => Ok(
                                (
                                    p6,
                                    seq![
                                        Tok::Tuple(
                                            Some(Box::new(Tok::Name(text_between(b, at, p1)))),
                                            Seq::empty(),
                                        ),
                                    ],
                                ),
                            ),
                        },
                    },
                },
            },
        }
    }
}

/// The program rule.
fn program(text: &str, start: usize) -> (r: Parsed)
    requires
        is_position(text.spec_bytes(), start as int),
    ensures
        outcome_of(r) == spec_program(text.spec_bytes(), start as int),
        parsed_ok(text.spec_bytes(), start as int, r),
{
    let out: Vec<Box<Token>> = Vec::new();
    assert(toks_of(out@) =~= Seq::<Tok>::empty());
    Ok((start, out))
}

/// The empty rule.
fn empty(text: &str, start: usize) -> (r: Parsed)
    requires
        is_position(text.spec_bytes(), start as int),
    ensures
        outcome_of(r) == spec_empty(text.spec_bytes(), start as int),
        parsed_ok(text.spec_bytes(), start as int, r),
{
    let out: Vec<Box<Token>> = Vec::new();
    assert(toks_of(out@) =~= Seq::<Tok>::empty());
    Ok((start, out))
}

/// The tuple rule.
fn tuple(text: &str, start: usize) -> (r: Parsed)
    requires
        is_position(text.spec_bytes(), start as int),
    ensures
        outcome_of(r) == spec_tuple(text.spec_bytes(), start as int),
        parsed_ok(text.spec_bytes(), start as int, r),
{
    let ghost b = text.spec_bytes();
    if let Ok(_) = match_str(text, start, "_") {
        return Err(fail_at(start));
    }
    let p1 = match match_regex(text, start, WORD) {
        Ok(p) => p,
        Err(e) => return Err(e),
    };
    let head = capture(text, start, p1);
    let p2 = match match_str(text, p1, "(") {
        Ok(p) => p,
        Err(e) => return Err(e),
    };
    let p3 = match match_regex(text, p2, SPACE_OPT) {
        Ok(p) => p,
        Err(e) => return Err(e),
    };
    proof {
        reveal_strlit("(");
        lemma_lit_advances(b, p1 as int, "("@);
    }
    let mut at = p3;
    let mut more = true;
    while more
        invariant
            b == text.spec_bytes(),
            start < p3 <= at <= b.len(),
            is_position(b, at as int),
            more ==> spec_blank_members(b, at as int) == spec_blank_members(b, p3 as int),
            !more ==> at as int == spec_blank_members(b, p3 as int),
        decreases b.len() - at, if more { 1int } else { 0int },
    {
        let _ = empty(text, at);
        match match_regex(text, at, SPACE) {
            Err(_) => {
                more = false;
            },
            Ok(q) => {
                if q <= at {
                    more = false;
                }
                at = q;
            },
        }
    }
    let p5 = match match_regex(text, at, SPACE_OPT) {
        Ok(p) => p,
        Err(e) => return Err(e),
    };
    let p6 = match match_str(text, p5, ")") {
        Ok(p) => p,
        Err(e) => return Err(e),
    };
    let parts: Vec<Box<Token>> = Vec::new();
    let name_node = Token::Name(head);
    assert(tok_of(name_node) == Tok::Name(text_between(b, start as int, p1 as int)));
    let node = Token::Tuple(Some(Box::new(name_node)), parts);
    let mut out: Vec<Box<Token>> = Vec::new();
    out.push(Box::new(node));
    proof {
        assert(toks_of(parts@) =~= Seq::<Tok>::empty());
        assert(tok_of(node)->Tuple_1 =~= Seq::<Tok>::empty());
        assert(tok_of(node) == Tok::Tuple(
            Some(Box::new(Tok::Name(text_between(b, start as int, p1 as int)))),
            Seq::empty(),
        ));
        assert(toks_of(out@) =~= seq![tok_of(node)]);
    }
    Ok((p6, out))
}

/// Parses a text: the program matches nothing, so the result is always an
/// empty list of nodes.
pub fn parse(input: &str) -> (r: Result<Vec<Box<Token>>, ParseErr>)
    ensures
        r matches Ok(v) && v@.len() == 0,
{
    proof {
        vstd::utf8::encode_utf8_valid_utf8(input@);
    }
    match program(input, 0) {
        Ok((_, tree)) => {
            assert(toks_of(tree@).len() == tree@.len());
            Ok(tree)
        },
        Err(err) => Err(err),
    }
}

} // verus!

//! The parser of grammar sources.
//!
//! A grammar source is a sequence of lines; a line is whitespace, a `//`
//! comment, or an expression `item [item ...];`. An item is a string literal
//! `"..."`, a regular expression `/.../`, a block `{ lines }`, a tuple
//! `name(item item ...)`, or a name.
use vstd::prelude::*;
use vstd::string::StringSliceAdditionalSpecFns;
use crate::runtime::{
    ParseErr, Failure, failure_of, failures_of, plain_failure, choice_failure, is_position,
    lit_step, regex_step, text_between, lemma_lit_advances, match_str, match_regex, capture,
    fail_at, choice_fail,
};

verus! {

/// Optional whitespace.
pub const SPACE_OPT: &'static str = "^[\\s\\n\\r]*";

/// Mandatory whitespace.
pub const SPACE: &'static str = "^[\\s\\n\\r]+";

/// A name.
pub const WORD: &'static str = "^[\\w_]+";

/// The body of a string literal.
pub const STR_BODY: &'static str = "^([^\"\\\\]|(\\\\.))*";

/// The body of a regular expression literal.
pub const REGEX_BODY: &'static str = "^([^/\\\\]|(\\\\.))*";

/// Whitespace after the `//` of a comment.
pub const COMMENT_SPACE: &'static str = "^\\s*";

/// The rest of a line.
pub const LINE_REST: &'static str = "^[^\\n]*";

/// A node of a parsed grammar source.
#[derive(Debug)]
pub enum Token {
    Tuple(Option<Box<Token>>, Vec<Box<Token>>),
    Regex(String),
    Block(Vec<Box<Token>>),
    Comment(String),
    Expr(Option<Box<Token>>, Vec<Box<Token>>),
    StrLiteral(String),
    Name(String),
}

/// The mathematical value of a `Token`.
pub enum Tok {
    Tuple(Option<Box<Tok>>, Seq<Tok>),
    Regex(Seq<char>),
    Block(Seq<Tok>),
    Comment(Seq<char>),
    Expr(Option<Box<Tok>>, Seq<Tok>),
    StrLiteral(Seq<char>),
    Name(Seq<char>),
}

pub open spec fn tok_of(t: Token) -> Tok
    decreases t,
{
    match t {
        Token::Tuple(h, parts) => Tok::Tuple(
            match h {
                Some(b) => Some(Box::new(tok_of(*b))),
                None => None,
            },
            Seq::new(
                parts.len() as nat,
                |i: int|
                    if 0 <= i < parts.len() {
                        tok_of(*parts[i])
                    } else {
                        Tok::Name(Seq::empty())
                    },
            ),
        ),
        Token::Regex(s) => Tok::Regex(s@),
        Token::Block(lines) => Tok::Block(
            Seq::new(
                lines.len() as nat,
                |i: int|
                    if 0 <= i < lines.len() {
                        tok_of(*lines[i])
                    } else {
                        Tok::Name(Seq::empty())
                    },
            ),
        ),
        Token::Comment(s) => Tok::Comment(s@),
        Token::Expr(h, args) => Tok::Expr(
            match h {
                Some(b) => Some(Box::new(tok_of(*b))),
                None => None,
            },
            Seq::new(
                args.len() as nat,
                |i: int|
                    if 0 <= i < args.len() {
                        tok_of(*args[i])
                    } else {
                        Tok::Name(Seq::empty())
                    },
            ),
        ),
        Token::StrLiteral(s) => Tok::StrLiteral(s@),
        Token::Name(s) => Tok::Name(s@),
    }
}

pub open spec fn head_of(h: Option<Box<Token>>) -> Option<Box<Tok>> {
    match h {
        Some(b) => Some(Box::new(tok_of(*b))),
        None => None,
    }
}

pub open spec fn toks_of(v: Seq<Box<Token>>) -> Seq<Tok> {
    Seq::new(v.len(), |i: int| tok_of(*v[i]))
}

/// What a rule gives back: the position after what it matched and the nodes
/// it produced, or the failure.
pub type Outcome = Result<(int, Seq<Tok>), Failure>;

pub type Parsed = Result<(usize, Vec<Box<Token>>), ParseErr>;

pub open spec fn outcome_of(r: Parsed) -> Outcome {
    match r {
        Ok((p, v)) => Ok((p as int, toks_of(v@))),
        Err(e) => Err(failure_of(e)),
    }
}

/// A rule that succeeded ends inside the text, no earlier than it started.
pub open spec fn parsed_ok(b: Seq<u8>, start: int, r: Parsed) -> bool {
    r matches Ok((p, _)) ==> start <= p && is_position(b, p as int)
}

// ---- the rules, as functions of the text's bytes and a start position ----

pub open spec fn spec_name(b: Seq<u8>, at: int) -> Outcome {
    if lit_step(b, at, "_"@) is Ok {
        Err(plain_failure(at))
    } else {
        match regex_step(b, at, WORD@) {
            Err(e) => Err(e),
            Ok(p) => Ok((p, seq![Tok::Name(text_between(b, at, p))])),
        }
    }
}

pub open spec fn spec_tuple(b: Seq<u8>, at: int) -> Outcome
    decreases b.len() - at, 0int,
{
    if lit_step(b, at, "_"@) is Ok {
        Err(plain_failure(at))
    } else {
        match regex_step(b, at, WORD@) {
            Err(e) => Err(e),
            Ok(p1) => match lit_step(b, p1, "("@) {
                Err(e) => Err(e),
                Ok(p2) => match regex_step(b, p2, SPACE_OPT@) {
                    Err(e) => Err(e),
                    Ok(p3) => {
                        proof {
                            reveal_strlit("(");
                            lemma_lit_advances(b, p1, "("@);
                        }
                        let (p4, parts) = spec_tuple_members(b, p3, Seq::empty());
                        match regex_step(b, p4, SPACE_OPT@) {
                            Err(e) => Err(e),
                            Ok(p5) => match lit_step(b, p5, ")"@) {
                                Err(e) => Err(e),
                                Ok(p6) => Ok(
                                    (
                                        p6,
                                        seq![
                                            Tok::Tuple(
                                                Some(Box::new(Tok::Name(text_between(b, at, p1)))),
                                                parts,
                                            ),
                                        ],
                                    ),
                                ),
                            },
                        }
                    },
                },
            },
        }
    }
}

/// The members of a tuple: items separated by whitespace, for as long as
/// they match and the text advances.
pub open spec fn spec_tuple_members(b: Seq<u8>, pos: int, acc: Seq<Tok>) -> (int, Seq<Tok>)
    decreases b.len() - pos, 3int,
{
    match spec_tuple_member(b, pos) {
        Err(_) => (pos, acc),
        Ok((p1, v1)) => match regex_step(b, p1, SPACE@) {
            Err(_) => (p1, acc + v1),
            Ok(p2) => if pos < p2 <= b.len() {
                spec_tuple_members(b, p2, acc + v1)
            } else {
                (p2, acc + v1)
            },
        },
    }
}

pub open spec fn spec_str_literal(b: Seq<u8>, at: int) -> Outcome {
    match lit_step(b, at, "\""@) {
        Err(e) => Err(e),
        Ok(p1) => match regex_step(b, p1, STR_BODY@) {
            Err(e) => Err(e),
            Ok(p2) => match lit_step(b, p2, "\""@) {
                Err(e) => Err(e),
                Ok(p3) => Ok((p3, seq![Tok::StrLiteral(text_between(b, p1, p2))])),
            },
        },
    }
}

pub open spec fn spec_regex_literal(b: Seq<u8>, at: int) -> Outcome {
    match lit_step(b, at, "/"@) {
        Err(e) => Err(e),
        Ok(p1) => match regex_step(b, p1, REGEX_BODY@) {
            Err(e) => Err(e),
            Ok(p2) => match lit_step(b, p2, "/"@) {
                Err(e) => Err(e),
                Ok(p3) => Ok((p3, seq![Tok::Regex(text_between(b, p1, p2))])),
            },
        },
    }
}

pub open spec fn spec_block(b: Seq<u8>, at: int) -> Outcome
    decreases b.len() - at, 0int,
{
    match lit_step(b, at, "{"@) {
        Err(e) => Err(e),
        Ok(p1) => {
            proof {
                reveal_strlit("{");
                lemma_lit_advances(b, at, "{"@);
            }
            let (p2, lines) = spec_block_lines(b, p1, Seq::empty());
            match lit_step(b, p2, "}"@) {
                Err(e) => Err(e),
                Ok(p3) => Ok((p3, seq![Tok::Block(lines)])),
            }
        },
    }
}

/// The lines of a block, for as long as they match and the text advances.
pub open spec fn spec_block_lines(b: Seq<u8>, pos: int, acc: Seq<Tok>) -> (int, Seq<Tok>)
    decreases b.len() - pos, 6int,
{
    match spec_line(b, pos) {
        Err(_) => (pos, acc),
        Ok((p, v)) => if pos < p <= b.len() {
            spec_block_lines(b, p, acc + v)
        } else {
            (p, acc + v)
        },
    }
}

/// The lines of a block keep the order of the source: what the lines from
/// `pos` on give comes after the nodes gathered so far, and when a line
/// matches at `pos` and the text advances, its nodes come first, followed by
/// those of the lines after it, in order.
pub proof fn lemma_block_lines_in_order(b: Seq<u8>, pos: int, acc: Seq<Tok>)
    ensures
        spec_block_lines(b, pos, acc) == (
            spec_block_lines(b, pos, Seq::empty()).0,
            acc + spec_block_lines(b, pos, Seq::empty()).1,
        ),
        spec_line(b, pos) matches Ok((p, v)) ==> (pos < p <= b.len() ==> spec_block_lines(b, pos, acc)
            == (spec_block_lines(b, p, Seq::empty()).0, acc + v + spec_block_lines(b, p, Seq::empty()).1)),
    decreases b.len() - pos,
{
    match spec_line(b, pos) {
        Err(_) => {
            assert(acc + Seq::<Tok>::empty() =~= acc);
        },
        Ok((p, v)) => {
            if pos < p <= b.len() {
                lemma_block_lines_in_order(b, p, acc + v);
                lemma_block_lines_in_order(b, p, v);
                lemma_block_lines_in_order(b, p, Seq::empty());
                let rest = spec_block_lines(b, p, Seq::empty()).1;
                assert(acc + (v + rest) =~= acc + v + rest);
                assert(Seq::<Tok>::empty() + v =~= v);
            } else {
                assert(Seq::<Tok>::empty() + v =~= v);
            }
        },
    }
}

pub open spec fn spec_comment(b: Seq<u8>, at: int) -> Outcome {
    match lit_step(b, at, "//"@) {
        Err(e) => Err(e),
        Ok(p1) => match regex_step(b, p1, COMMENT_SPACE@) {
            Err(e) => Err(e),
            Ok(p2) => match regex_step(b, p2, LINE_REST@) {
                Err(e) => Err(e),
                Ok(p3) => Ok((p3, seq![Tok::Comment(text_between(b, p2, p3))])),
            },
        },
    }
}

/// An item: the first of a string literal, a regular expression, a block, a
/// tuple and a name that matches.
pub open spec fn spec_item(b: Seq<u8>, at: int) -> Outcome
    decreases b.len() - at, 1int,
{
    match spec_str_literal(b, at) {
        Ok(r) => Ok(r),
        Err(e1) => match spec_regex_literal(b, at) {
            Ok(r) => Ok(r),
            Err(e2) => match spec_block(b, at) {
                Ok(r) => Ok(r),
                Err(e3) => match spec_tuple(b, at) {
                    Ok(r) => Ok(r),
                    Err(e4) => match spec_name(b, at) {
                        Ok(r) => Ok(r),
                        Err(e5) => Err(choice_failure(at, seq![e1, e2, e3, e4, e5])),
                    },
                },
            },
        },
    }
}

pub open spec fn spec_tuple_member(b: Seq<u8>, at: int) -> Outcome
    decreases b.len() - at, 2int,
{
    spec_item(b, at)
}

pub open spec fn spec_expr_arg(b: Seq<u8>, at: int) -> Outcome
    decreases b.len() - at, 2int,
{
    match regex_step(b, at, SPACE@) {
        Err(e) => Err(e),
        Ok(p) => spec_item(b, p),
    }
}

/// The arguments of an expression, each after whitespace, for as long as
/// they match and the text advances.
pub open spec fn spec_expr_args(b: Seq<u8>, pos: int, acc: Seq<Tok>) -> (int, Seq<Tok>)
    decreases b.len() - pos, 3int,
{
    match spec_expr_arg(b, pos) {
        Err(_) => (pos, acc),
        Ok((p, v)) => if pos < p <= b.len() {
            spec_expr_args(b, p, acc + v)
        } else {
            (p, acc + v)
        },
    }
}

/// An expression: an item (its operator), the arguments, optional
/// whitespace, and `;`.
pub open spec fn spec_expr(b: Seq<u8>, at: int) -> Outcome
    decreases b.len() - at, 4int,
{
    match spec_item(b, at) {
        Err(e) => Err(e),
        Ok((p1, v1)) => if at <= p1 <= b.len() {
            let op = if v1.len() > 0 {
                Some(Box::new(v1.last()))
            } else {
                None
            };
            let (p2, args) = spec_expr_args(b, p1, Seq::empty());
            match regex_step(b, p2, SPACE_OPT@) {
                Err(e) => Err(e),
                Ok(p3) => match lit_step(b, p3, ";"@) {
                    Err(e) => Err(e),
                    Ok(p4) => Ok((p4, seq![Tok::Expr(op, args)])),
                },
            }
        } else {
            Err(plain_failure(at))
        },
    }
}

/// A line: the first of whitespace, a comment and an expression that
/// matches.
pub open spec fn spec_line(b: Seq<u8>, at: int) -> Outcome
    decreases b.len() - at, 5int,
{
    match regex_step(b, at, SPACE@) {
        Ok(p) => Ok((p, Seq::empty())),
        Err(e1) => match spec_comment(b, at) {
            Ok(r) => Ok(r),
            Err(e2) => match spec_expr(b, at) {
                Ok(r) => Ok(r),
                Err(e3) => Err(choice_failure(at, seq![e1, e2, e3])),
            },
        },
    }
}

/// The lines of a program, up to the end of the text; the first line that
/// fails makes the program fail, and a line that matches without advancing
/// ends it.
pub open spec fn spec_program_lines(b: Seq<u8>, pos: int, acc: Seq<Tok>) -> Outcome
    decreases b.len() - pos, 6int,
{
    if pos < b.len() {
        match spec_line(b, pos) {
            Err(e) => Err(e),
            Ok((p, v)) => if pos < p <= b.len() {
                spec_program_lines(b, p, acc + v)
            } else {
                Ok((p, acc + v))
            },
        }
    } else {
        Ok((pos, acc))
    }
}

pub open spec fn spec_program(b: Seq<u8>, at: int) -> Outcome
    decreases b.len() - at, 7int,
{
    spec_program_lines(b, at, Seq::empty())
}

/// The result of parsing a whole grammar source.
pub open spec fn spec_parse(b: Seq<u8>) -> Result<Seq<Tok>, Failure> {
    match spec_program(b, 0) {
        Ok((_, tree)) => Ok(tree),
        Err(e) => Err(e),
    }
}

pub open spec fn parse_view(r: Result<Vec<Box<Token>>, ParseErr>) -> Result<Seq<Tok>, Failure> {
    match r {
        Ok(tree) => Ok(toks_of(tree@)),
        Err(e) => Err(failure_of(e)),
    }
}


proof fn lemma_view_block(v: Vec<Box<Token>>)
    ensures
        tok_of(Token::Block(v)) == Tok::Block(toks_of(v@)),
{
    if let Tok::Block(s) = tok_of(Token::Block(v)) {
        assert(s =~= toks_of(v@));
    }
}

proof fn lemma_view_tuple(h: Option<Box<Token>>, v: Vec<Box<Token>>)
    ensures
        tok_of(Token::Tuple(h, v)) == Tok::Tuple(
            head_of(h),
            toks_of(v@),
        ),
{
    if let Tok::Tuple(_, s) = tok_of(Token::Tuple(h, v)) {
        assert(s =~= toks_of(v@));
    }
}

proof fn lemma_view_expr(h: Option<Box<Token>>, v: Vec<Box<Token>>)
    ensures
        tok_of(Token::Expr(h, v)) == Tok::Expr(
            head_of(h),
            toks_of(v@),
        ),
{
    if let Tok::Expr(_, s) = tok_of(Token::Expr(h, v)) {
        assert(s =~= toks_of(v@));
    }
}

proof fn lemma_toks_append(a: Seq<Box<Token>>, c: Seq<Box<Token>>)
    ensures
        toks_of(a + c) == toks_of(a) + toks_of(c),
{
    assert(toks_of(a + c) =~= toks_of(a) + toks_of(c));
}

/// A name that does not start with `_`.
fn name(text: &str, start: usize) -> (r: Parsed)
    requires
        is_position(text.spec_bytes(), start as int),
    ensures
        outcome_of(r) == spec_name(text.spec_bytes(), start as int),
        parsed_ok(text.spec_bytes(), start as int, r),
{
    if let Ok(_) = match_str(text, start, "_") {
        return Err(fail_at(start));
    }
    let end = match match_regex(text, start, WORD) {
        Ok(p) => p,
        Err(e) => return Err(e),
    };
    let mut out: Vec<Box<Token>> = Vec::new();
    out.push(Box::new(Token::Name(capture(text, start, end))));
    assert(toks_of(out@) =~= seq![Tok::Name(text_between(text.spec_bytes(), start as int, end as int))]);
    Ok((end, out))
}

/// A tuple `name(item item ...)`.
fn tuple(text: &str, start: usize) -> (r: Parsed)
    requires
        is_position(text.spec_bytes(), start as int),
    ensures
        outcome_of(r) == spec_tuple(text.spec_bytes(), start as int),
        parsed_ok(text.spec_bytes(), start as int, r),
    decreases text.spec_bytes().len() - start, 0int,
{
    let ghost b = text.spec_bytes();
    if let Ok(_) = match_str(text, start, "_") {
        return Err(fail_at(start));
    }
    let p1 = match match_regex(text, start, WORD) {
        Ok(p) => p,
        Err(e) => return Err(e),
    };
    let head = capture(text, start, p1);
    let p2 = match match_str(text, p1, "(") {
        Ok(p) => p,
        Err(e) => return Err(e),
    };
    let p3 = match match_regex(text, p2, SPACE_OPT) {
        Ok(p) => p,
        Err(e) => return Err(e),
    };
    proof {
        reveal_strlit("(");
        lemma_lit_advances(b, p1 as int, "("@);
    }
    let mut parts: Vec<Box<Token>> = Vec::new();
    let mut at = p3;
    let mut more = true;
    while more
        invariant
            b == text.spec_bytes(),
            start < p3 <= at <= b.len(),
            is_position(b, at as int),
            more ==> spec_tuple_members(b, at as int, toks_of(parts@)) == spec_tuple_members(
                b,
                p3 as int,
                Seq::empty(),
            ),
            !more ==> (at as int, toks_of(parts@)) == spec_tuple_members(b, p3 as int, Seq::empty()),
        decreases b.len() - at, if more { 1int } else { 0int },
    {
        match tuple_member(text, at) {
            Err(_) => {
                more = false;
            },
            Ok((p, v)) => {
                let ghost before = parts@;
                let ghost got = v@;
                let mut v = v;
                parts.append(&mut v);
                proof {
                    lemma_toks_append(before, got);
                }
                match match_regex(text, p, SPACE) {
                    Err(_) => {
                        at = p;
                        more = false;
                    },
                    Ok(q) => {
                        if q <= at {
                            more = false;
                        }
                        at = q;
                    },
                }
            },
        }
    }
    let p5 = match match_regex(text, at, SPACE_OPT) {
        Ok(p) => p,
        Err(e) => return Err(e),
    };
    let p6 = match match_str(text, p5, ")") {
        Ok(p) => p,
        Err(e) => return Err(e),
    };
    let ghost parts_view = toks_of(parts@);
    let node = Token::Tuple(Some(Box::new(Token::Name(head))), parts);
    proof {
        lemma_view_tuple(Some(Box::new(Token::Name(head))), parts);
    }
    let mut out: Vec<Box<Token>> = Vec::new();
    out.push(Box::new(node));
    assert(toks_of(out@) =~= seq![tok_of(node)]);
    Ok((p6, out))
}

/// A string literal `"..."`; the node holds the text between the quotes.
fn str_literal(text: &str, start: usize) -> (r: Parsed)
    requires
        is_position(text.spec_bytes(), start as int),
    ensures
        outcome_of(r) == spec_str_literal(text.spec_bytes(), start as int),
        parsed_ok(text.spec_bytes(), start as int, r),
{
    let p1 = match match_str(text, start, "\"") {
        Ok(p) => p,
        Err(e) => return Err(e),
    };
    let p2 = match match_regex(text, p1, STR_BODY) {
        Ok(p) => p,
        Err(e) => return Err(e),
    };
    let mut out: Vec<Box<Token>> = Vec::new();
    out.push(Box::new(Token::StrLiteral(capture(text, p1, p2))));
    let p3 = match match_str(text, p2, "\"") {
        Ok(p) => p,
        Err(e) => return Err(e),
    };
    assert(toks_of(out@) =~= seq![Tok::StrLiteral(text_between(text.spec_bytes(), p1 as int, p2 as int))]);
    Ok((p3, out))
}

/// A regular expression literal `/.../`; the node holds the text between
/// the slashes.
fn regex_literal(text: &str, start: usize) -> (r: Parsed)
    requires
        is_position(text.spec_bytes(), start as int),
    ensures
        outcome_of(r) == spec_regex_literal(text.spec_bytes(), start as int),
        parsed_ok(text.spec_bytes(), start as int, r),
{
    let p1 = match match_str(text, start, "/") {
        Ok(p) => p,
        Err(e) => return Err(e),
    };
    let p2 = match match_regex(text, p1, REGEX_BODY) {
        Ok(p) => p,
        Err(e) => return Err(e),
    };
    let mut out: Vec<Box<Token>> = Vec::new();
    out.push(Box::new(Token::Regex(capture(text, p1, p2))));
    let p3 = match match_str(text, p2, "/") {
        Ok(p) => p,
        Err(e) => return Err(e),
    };
    assert(toks_of(out@) =~= seq![Tok::Regex(text_between(text.spec_bytes(), p1 as int, p2 as int))]);
    Ok((p3, out))
}

/// A block `{ lines }`.
fn block(text: &str, start: usize) -> (r: Parsed)
    requires
        is_position(text.spec_bytes(), start as int),
    ensures
        outcome_of(r) == spec_block(text.spec_bytes(), start as int),
        parsed_ok(text.spec_bytes(), start as int, r),
    decreases text.spec_bytes().len() - start, 0int,
{
    let ghost b = text.spec_bytes();
    let p1 = match match_str(text, start, "{") {
        Ok(p) => p,
        Err(e) => return Err(e),
    };
    proof {
        reveal_strlit("{");
        lemma_lit_advances(b, start as int, "{"@);
    }
    let mut lines: Vec<Box<Token>> = Vec::new();
    let mut at = p1;
    let mut more = true;
    while more
        invariant
            b == text.spec_bytes(),
            start < p1 <= at <= b.len(),
            is_position(b, at as int),
            more ==> spec_block_lines(b, at as int, toks_of(lines@)) == spec_block_lines(
                b,
                p1 as int,
                Seq::empty(),
            ),
            !more ==> (at as int, toks_of(lines@)) == spec_block_lines(b, p1 as int, Seq::empty()),
        decreases b.len() - at, if more { 1int } else { 0int },
    {
        match line(text, at) {
            Err(_) => {
                more = false;
            },
            Ok((p, v)) => {
                let ghost before = lines@;
                let ghost got = v@;
                let mut v = v;
                lines.append(&mut v);
                proof {
                    lemma_toks_append(before, got);
                }
                if p <= at {
                    more = false;
                }
                at = p;
            },
        }
    }
    let p3 = match match_str(text, at, "}") {
        Ok(p) => p,
        Err(e) => return Err(e),
    };
    let node = Token::Block(lines);
    proof {
        lemma_view_block(lines);
    }
    let mut out: Vec<Box<Token>> = Vec::new();
    out.push(Box::new(node));
    assert(toks_of(out@) =~= seq![tok_of(node)]);
    Ok((p3, out))
}

/// A comment `// ...`; the node holds the rest of the line after the
/// whitespace that follows `//`.
fn comment(text: &str, start: usize) -> (r: Parsed)
    requires
        is_position(text.spec_bytes(), start as int),
    ensures
        outcome_of(r) == spec_comment(text.spec_bytes(), start as int),
        parsed_ok(text.spec_bytes(), start as int, r),
{
    let p1 = match match_str(text, start, "//") {
        Ok(p) => p,
        Err(e) => return Err(e),
    };
    let p2 = match match_regex(text, p1, COMMENT_SPACE) {
        Ok(p) => p,
        Err(e) => return Err(e),
    };
    let p3 = match match_regex(text, p2, LINE_REST) {
        Ok(p) => p,
        Err(e) => return Err(e),
    };
    let mut out: Vec<Box<Token>> = Vec::new();
    out.push(Box::new(Token::Comment(capture(text, p2, p3))));
    assert(toks_of(out@) =~= seq![Tok::Comment(text_between(text.spec_bytes(), p2 as int, p3 as int))]);
    Ok((p3, out))
}

/// An item: the first alternative that matches, or a failure that lists
/// why each one failed.
fn item(text: &str, start: usize) -> (r: Parsed)
    requires
        is_position(text.spec_bytes(), start as int),
    ensures
        outcome_of(r) == spec_item(text.spec_bytes(), start as int),
        parsed_ok(text.spec_bytes(), start as int, r),
    decreases text.spec_bytes().len() - start, 1int,
{
    let mut causes: Vec<ParseErr> = Vec::new();
    match str_literal(text, start) {
        Ok(r) => return Ok(r),
        Err(e) => causes.push(e),
    }
    match regex_literal(text, start) {
        Ok(r) => return Ok(r),
        Err(e) => causes.push(e),
    }
    match block(text, start) {
        Ok(r) => return Ok(r),
        Err(e) => causes.push(e),
    }
    match tuple(text, start) {
        Ok(r) => return Ok(r),
        Err(e) => causes.push(e),
    }
    match name(text, start) {
        Ok(r) => return Ok(r),
        Err(e) => causes.push(e),
    }
    assert(failures_of(causes@) =~= seq![
        failure_of(causes@[0]),
        failure_of(causes@[1]),
        failure_of(causes@[2]),
        failure_of(causes@[3]),
        failure_of(causes@[4]),
    ]);
    Err(choice_fail(start, causes))
}

/// An item as a member of a tuple.
fn tuple_member(text: &str, start: usize) -> (r: Parsed)
    requires
        is_position(text.spec_bytes(), start as int),
    ensures
        outcome_of(r) == spec_tuple_member(text.spec_bytes(), start as int),
        parsed_ok(text.spec_bytes(), start as int, r),
    decreases text.spec_bytes().len() - start, 2int,
{
    item(text, start)
}

/// An argument of an expression: whitespace, then an item.
fn expr_arg(text: &str, start: usize) -> (r: Parsed)
    requires
        is_position(text.spec_bytes(), start as int),
    ensures
        outcome_of(r) == spec_expr_arg(text.spec_bytes(), start as int),
        parsed_ok(text.spec_bytes(), start as int, r),
    decreases text.spec_bytes().len() - start, 2int,
{
    let p = match match_regex(text, start, SPACE) {
        Ok(p) => p,
        Err(e) => return Err(e),
    };
    item(text, p)
}

/// An expression `op arg ... ;`; the node holds the operator and the
/// arguments.
fn expr(text: &str, start: usize) -> (r: Parsed)
    requires
        is_position(text.spec_bytes(), start as int),
    ensures
        outcome_of(r) == spec_expr(text.spec_bytes(), start as int),
        parsed_ok(text.spec_bytes(), start as int, r),
    decreases text.spec_bytes().len() - start, 4int,
{
    let ghost b = text.spec_bytes();
    let (p1, v1) = match item(text, start) {
        Ok(r) => r,
        Err(e) => return Err(e),
    };
    let ghost v1_view = toks_of(v1@);
    let mut v1 = v1;
    let op = v1.pop();
    assert(head_of(op) == (if v1_view.len() > 0 { Some(Box::new(v1_view.last())) } else { None }));
    let mut args: Vec<Box<Token>> = Vec::new();
    let mut at = p1;
    let mut more = true;
    while more
        invariant
            b == text.spec_bytes(),
            start <= p1 <= at <= b.len(),
            is_position(b, at as int),
            more ==> spec_expr_args(b, at as int, toks_of(args@)) == spec_expr_args(
                b,
                p1 as int,
                Seq::empty(),
            ),
            !more ==> (at as int, toks_of(args@)) == spec_expr_args(b, p1 as int, Seq::empty()),
        decreases b.len() - at, if more { 1int } else { 0int },
    {
        match expr_arg(text, at) {
            Err(_) => {
                more = false;
            },
            Ok((p, v)) => {
                let ghost before = args@;
                let ghost got = v@;
                let mut v = v;
                args.append(&mut v);
                proof {
                    lemma_toks_append(before, got);
                }
                if p <= at {
                    more = false;
                }
                at = p;
            },
        }
    }
    let p3 = match match_regex(text, at, SPACE_OPT) {
        Ok(p) => p,
        Err(e) => return Err(e),
    };
    let p4 = match match_str(text, p3, ";") {
        Ok(p) => p,
        Err(e) => return Err(e),
    };
    let node = Token::Expr(op, args);
    proof {
        lemma_view_expr(op, args);
    }
    let mut out: Vec<Box<Token>> = Vec::new();
    out.push(Box::new(node));
    assert(toks_of(out@) =~= seq![tok_of(node)]);
    Ok((p4, out))
}

/// A line: whitespace, a comment or an expression.
fn line(text: &str, start: usize) -> (r: Parsed)
    requires
        is_position(text.spec_bytes(), start as int),
    ensures
        outcome_of(r) == spec_line(text.spec_bytes(), start as int),
        parsed_ok(text.spec_bytes(), start as int, r),
    decreases text.spec_bytes().len() - start, 5int,
{
    let mut causes: Vec<ParseErr> = Vec::new();
    match match_regex(text, start, SPACE) {
        Ok(p) => {
            let out: Vec<Box<Token>> = Vec::new();
            assert(toks_of(out@) =~= Seq::<Tok>::empty());
            return Ok((p, out));
        },
        Err(e) => causes.push(e),
    }
    match comment(text, start) {
        Ok(r) => return Ok(r),
        Err(e) => causes.push(e),
    }
    match expr(text, start) {
        Ok(r) => return Ok(r),
        Err(e) => causes.push(e),
    }
    assert(failures_of(causes@) =~= seq![
        failure_of(causes@[0]),
        failure_of(causes@[1]),
        failure_of(causes@[2]),
    ]);
    Err(choice_fail(start, causes))
}

/// Lines up to the end of the text.
fn program(text: &str, start: usize) -> (r: Parsed)
    requires
        is_position(text.spec_bytes(), start as int),
    ensures
        outcome_of(r) == spec_program(text.spec_bytes(), start as int),
        parsed_ok(text.spec_bytes(), start as int, r),
    decreases text.spec_bytes().len() - start, 7int,
{
    let ghost b = text.spec_bytes();
    let tl = text.as_bytes().len();
    let mut out: Vec<Box<Token>> = Vec::new();
    let mut at = start;
    let mut more = true;
    assert(toks_of(out@) =~= Seq::<Tok>::empty());
    while more && at < tl
        invariant
            b == text.spec_bytes(),
            tl == b.len(),
            start <= at <= b.len(),
            is_position(b, at as int),
            more ==> spec_program_lines(b, at as int, toks_of(out@)) == spec_program_lines(
                b,
                start as int,
                Seq::empty(),
            ),
            !more ==> Ok::<(int, Seq<Tok>), Failure>((at as int, toks_of(out@)))
                == spec_program_lines(b, start as int, Seq::empty()),
        decreases b.len() - at, if more { 1int } else { 0int },
    {
        match line(text, at) {
            Err(e) => return Err(e),
            Ok((p, v)) => {
                let ghost before = out@;
                let ghost got = v@;
                let mut v = v;
                out.append(&mut v);
                proof {
                    lemma_toks_append(before, got);
                }
                if p <= at {
                    more = false;
                }
                at = p;
            },
        }
    }
    Ok((at, out))
}

/// Parses a whole grammar source into its lines' nodes.
pub fn parse(input: &str) -> (r: Result<Vec<Box<Token>>, ParseErr>)
    ensures
        parse_view(r) == spec_parse(input.spec_bytes()),
{
    proof {
        vstd::utf8::encode_utf8_valid_utf8(input@);
        vstd::utf8::is_char_boundary_start_end_of_seq(input.spec_bytes());
    }
    match program(input, 0) {
        Ok((_, tree)) => Ok(tree),
        Err(err) => Err(err),
    }
}

} // verus!

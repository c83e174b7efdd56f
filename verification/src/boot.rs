//! The first, hand-made stage of the grammar parser. Its only rule reads
//! the text in pieces of five bytes, each as a comment, for as long as five
//! bytes are left.
use vstd::prelude::*;
use vstd::utf8::*;
use vstd::string::StringSliceAdditionalSpecFns;
use regex::Regex;
use crate::runtime::{is_position, text_between, regex_accepts, new_regex};

verus! {

broadcast use vstd::utf8::encode_utf8_valid_utf8, vstd::utf8::encode_utf8_decode_utf8;

#[verifier::external_type_specification]
#[verifier::external_body]
pub struct ExRegex(Regex);

/// A node of a parsed grammar source.
#[derive(Debug)]
pub enum Item {
    Expr(Box<Item>, Vec<Box<Item>>),
    Comment(String),
    Name(String),
    Tuple(Box<Item>, Vec<Box<Item>>),
    Regex(String),
    StrLiteral(String),
    Block(Vec<Box<Item>>),
}

/// A parse failure at a byte offset.
#[derive(Debug)]
pub struct ParseErr {
    at: usize,
}

/// The parser, with its compiled regular expressions.
pub struct Parse {
    white_regex: Regex,
    blank_regex: Regex,
    name_regex: Regex,
    comment_regex: Regex,
}

/// Optional whitespace.
pub const WHITE: &'static str = "^[\\s\\n\\r]*";

/// Mandatory whitespace.
pub const BLANK: &'static str = "^[\\s\\n\\r]+";

/// A name.
pub const NAME: &'static str = "^[\\w_]+";

/// The rest of a line.
pub const COMMENT: &'static str = "^[^\\n]*";

/// Every fifth byte from `pos` on, as far as whole pieces of five bytes
/// go, is a character boundary.
pub open spec fn fives_on_boundaries(b: Seq<u8>, pos: int) -> bool
    decreases b.len() - pos,
{
    if pos < 0 || b.len() - pos < 5 {
        true
    } else {
        is_char_boundary(b, pos + 5) && fives_on_boundaries(b, pos + 5)
    }
}

/// The pieces of five bytes from `pos` on, as text.
pub open spec fn pieces(b: Seq<u8>, pos: int) -> Seq<Seq<char>>
    decreases b.len() - pos,
{
    if pos < 0 || b.len() - pos < 5 {
        Seq::empty()
    } else {
        seq![text_between(b, pos, pos + 5)] + pieces(b, pos + 5)
    }
}

/// The nodes are the comments `texts`, in order.
pub open spec fn comments(items: Seq<Box<Item>>, texts: Seq<Seq<char>>) -> bool {
    &&& items.len() == texts.len()
    &&& forall|i: int| 0 <= i < items.len() ==> (*(#[trigger] items[i]) matches Item::Comment(s) && s@ == texts[i])
}

/// A text of `n` bytes, from `pos` on, has `(n - pos) / 5` whole pieces.
pub proof fn lemma_pieces_count(b: Seq<u8>, pos: int)
    requires
        0 <= pos <= b.len(),
    ensures
        pieces(b, pos).len() == (b.len() - pos) / 5,
    decreases b.len() - pos,
{
    if b.len() - pos >= 5 {
        lemma_pieces_count(b, pos + 5);
    }
}

/// `text_between` as a `String`: the five bytes from `pos`.
fn piece(text: &str, pos: usize) -> (s: String)
    requires
        pos + 5 <= text.spec_bytes().len(),
        is_position(text.spec_bytes(), pos as int),
        is_position(text.spec_bytes(), pos + 5),
    ensures
        s@ == text_between(text.spec_bytes(), pos as int, pos + 5),
{
    let n = text.as_bytes().len();
    assert(pos + 5 <= n);
    crate::runtime::capture(text, pos, pos + 5)
}

/// One line: the next five bytes as a comment.
fn block_line_m(text: &str, pos: usize) -> (r: Result<(usize, Item), ParseErr>)
    requires
        is_position(text.spec_bytes(), pos as int),
        fives_on_boundaries(text.spec_bytes(), pos as int),
    ensures
        text.spec_bytes().len() - pos < 5 ==> (r matches Err(e) && e.at == pos),
        text.spec_bytes().len() - pos >= 5 ==> (r matches Ok((n, Item::Comment(s))) && n == pos + 5
            && s@ == text_between(text.spec_bytes(), pos as int, pos + 5)),
{
    let n = text.as_bytes().len();
    if n - pos < 5 {
        return Err(ParseErr { at: pos });
    }
    Ok((pos + 5, Item::Comment(piece(text, pos))))
}

/// The lines from `start` on, for as long as they match: where the rest of
/// the text starts, how many lines there were, and their nodes.
fn block_main(text: &str, start: usize) -> (r: (usize, usize, Vec<Box<Item>>))
    requires
        is_position(text.spec_bytes(), start as int),
        fives_on_boundaries(text.spec_bytes(), start as int),
    ensures
        r.0 == start + 5 * r.1,
        is_position(text.spec_bytes(), r.0 as int),
        text.spec_bytes().len() - r.0 < 5,
        r.1 == pieces(text.spec_bytes(), start as int).len(),
        comments(r.2@, pieces(text.spec_bytes(), start as int)),
{
    let ghost b = text.spec_bytes();
    let mut into: Vec<Box<Item>> = Vec::new();
    let mut total: usize = 0;
    let mut pos = start;
    while pos <= text.as_bytes().len()
        invariant
            b == text.spec_bytes(),
            start <= pos <= b.len(),
            is_position(b, pos as int),
            fives_on_boundaries(b, pos as int),
            total == into@.len(),
            into@.len() <= pos,
            pos == start + 5 * total,
            comments(into@, pieces(b, start as int).subrange(0, into@.len() as int)),
            pieces(b, start as int) == pieces(b, start as int).subrange(0, into@.len() as int)
                + pieces(b, pos as int),
        decreases b.len() - pos,
    {
        match block_line_m(text, pos) {
            Ok((next, item)) => {
                let ghost before = into@;
                let ghost ps = pieces(b, start as int);
                into.push(Box::new(item));
                total = total + 1;
                proof {
                    assert(pieces(b, pos as int) == seq![text_between(b, pos as int, pos + 5)]
                        + pieces(b, pos + 5));
                    assert(ps.subrange(0, into@.len() as int) =~= ps.subrange(0, before.len() as int).push(
                        text_between(b, pos as int, pos + 5),
                    ));
                    assert(ps =~= ps.subrange(0, into@.len() as int) + pieces(b, next as int));
                }
                pos = next;
            },
            Err(_) => {
                assert(pieces(b, pos as int) =~= Seq::<Seq<char>>::empty());
                assert(pieces(b, start as int) =~= pieces(b, start as int).subrange(0, into@.len() as int));
                return (pos, total, into);
            },
        }
    }
    (pos, total, into)
}

impl Parse {
    /// Parses a text: the number of pieces of five bytes it begins with and
    /// their nodes. The text must split into whole characters at every fifth
    /// byte, as far as whole pieces go.
    pub fn parse(&self, input: &str) -> (r: Result<(usize, Vec<Box<Item>>), ParseErr>)
        requires
            fives_on_boundaries(input.spec_bytes(), 0),
        ensures
            r matches Ok((n, items)) && n == pieces(input.spec_bytes(), 0).len() && comments(
                items@,
                pieces(input.spec_bytes(), 0),
            ),
            r matches Ok((n, _)) && n == input.spec_bytes().len() / 5,
    {
        proof {
            lemma_pieces_count(input.spec_bytes(), 0);
        }
        let res = block_main(input, 0);
        Ok((res.1, res.2))
    }

    /// A parser with its regular expressions compiled; `None` when the
    /// `regex` crate refuses one of them.
    pub fn new() -> (r: Option<Parse>)
        ensures
            r is Some <==> (regex_accepts(WHITE@) && regex_accepts(BLANK@) && regex_accepts(NAME@)
                && regex_accepts(COMMENT@)),
    {
        let white_regex = new_regex(WHITE)?;
        let blank_regex = new_regex(BLANK)?;
        let name_regex = new_regex(NAME)?;
        let comment_regex = new_regex(COMMENT)?;
        Some(Parse { white_regex, blank_regex, name_regex, comment_regex })
    }
}

} // verus!

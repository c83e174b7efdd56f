//! The matching primitives that every generated parser is built from.
//!
//! A parser works on the UTF-8 bytes of its input text. A position is a byte
//! offset that falls on a character boundary; every primitive takes one and,
//! when it succeeds, returns a later one. When a primitive fails it reports a
//! `ParseErr` that says where it failed, optionally why, and which failures of
//! alternatives led to it.
use vstd::prelude::*;
use vstd::utf8::*;
use vstd::string::*;
use regex::Regex;

verus! {

broadcast use vstd::utf8::encode_utf8_valid_utf8, vstd::utf8::encode_utf8_decode_utf8;

/// A parse failure: the byte offset at which it happened, an optional
/// message, and the failures of the alternatives that were tried there.
#[derive(Debug)]
pub struct ParseErr {
    pub at: usize,
    pub msg: Option<String>,
    pub cause: Vec<ParseErr>,
}

/// The mathematical value of a `ParseErr`.
pub struct Failure {
    pub at: int,
    pub msg: Option<Seq<char>>,
    pub cause: Seq<Failure>,
}

pub open spec fn failure_of(e: ParseErr) -> Failure
    decreases e,
{
    Failure {
        at: e.at as int,
        msg: match e.msg {
            Some(m) => Some(m@),
            None => None,
        },
        cause: Seq::new(
            e.cause.len() as nat,
            |i: int|
                if 0 <= i < e.cause.len() {
                    failure_of(e.cause[i])
                } else {
                    Failure { at: 0, msg: None, cause: Seq::empty() }
                },
        ),
    }
}

pub open spec fn failures_of(es: Seq<ParseErr>) -> Seq<Failure> {
    Seq::new(es.len(), |i: int| failure_of(es[i]))
}

/// A failure with no message and no causes.
pub open spec fn plain_failure(at: int) -> Failure {
    Failure { at, msg: None, cause: Seq::empty() }
}

/// The failure of an ordered choice at `at`, after every alternative failed.
pub open spec fn choice_failure(at: int, causes: Seq<Failure>) -> Failure {
    Failure { at, msg: None, cause: causes }
}

/// The outcome of a primitive match: the position after it, or the failure.
pub open spec fn step_of(r: Result<usize, ParseErr>) -> Result<int, Failure> {
    match r {
        Ok(p) => Ok(p as int),
        Err(e) => Err(failure_of(e)),
    }
}

/// `pos` is a position of the text whose bytes are `bytes`: an offset into
/// it that starts a character or ends the text.
pub open spec fn is_position(bytes: Seq<u8>, pos: int) -> bool {
    0 <= pos <= bytes.len() && is_char_boundary(bytes, pos)
}

/// A step that succeeded stays inside the text and moves forward.
pub open spec fn step_ok(bytes: Seq<u8>, start: int, r: Result<usize, ParseErr>) -> bool {
    r matches Ok(p) ==> start <= p && is_position(bytes, p as int)
}

pub open spec fn str_mismatch_message(lit: Seq<char>) -> Seq<char> {
    "String \""@ + lit + "\" did not match"@
}

pub open spec fn regex_mismatch_message() -> Seq<char> {
    "Regex did not match"@
}

/// Matching the literal `lit` at `pos`: the bytes of the text from `pos` on
/// begin with the UTF-8 encoding of `lit`.
pub open spec fn lit_step(bytes: Seq<u8>, pos: int, lit: Seq<char>) -> Result<int, Failure> {
    let l = encode_utf8(lit);
    if pos + l.len() <= bytes.len() && bytes.subrange(pos, pos + l.len()) == l {
        Ok(pos + l.len())
    } else {
        Err(Failure { at: pos, msg: Some(str_mismatch_message(lit)), cause: Seq::empty() })
    }
}

/// Whether the `regex` crate accepts a pattern.
pub uninterp spec fn regex_accepts(pattern: Seq<char>) -> bool;

/// The end offset, relative to the start of `haystack`, of the leftmost match
/// of the regular expression `pattern` in the UTF-8 text `haystack`, or `None`
/// when there is no match.
pub uninterp spec fn regex_match_end(pattern: Seq<char>, haystack: Seq<u8>) -> Option<usize>;

/// Matching the regular expression `pattern` against the rest of the text
/// from `pos`; the pattern must be valid and the match must end inside the
/// text at a character boundary.
pub open spec fn regex_step(bytes: Seq<u8>, pos: int, pattern: Seq<char>) -> Result<int, Failure> {
    let fail = Failure { at: pos, msg: Some(regex_mismatch_message()), cause: Seq::empty() };
    if !regex_accepts(pattern) {
        Err(fail)
    } else {
        match regex_match_end(pattern, bytes.subrange(pos, bytes.len() as int)) {
            Some(e) => if pos + e <= bytes.len() && is_char_boundary(bytes, pos + e) {
                Ok(pos + e)
            } else {
                Err(fail)
            },
            None => Err(fail),
        }
    }
}

/// The text between two positions.
pub open spec fn text_between(bytes: Seq<u8>, from: int, to: int) -> Seq<char> {
    decode_utf8(bytes.subrange(from, to))
}

/// `regex::Regex::new`. Claims that it succeeds exactly on the patterns
/// that the named predicate accepts, a function of the pattern alone.
#[verifier::external_body]
pub(crate) fn new_regex(pattern: &str) -> (r: Option<Regex>)
    ensures
        r is Some <==> regex_accepts(pattern@),
{
    match Regex::new(pattern) {
        Ok(re) => Some(re),
        Err(_) => None,
    }
}

/// A compiled regular expression together with its source.
pub struct Pattern {
    source: String,
    re: Regex,
}

impl View for Pattern {
    type V = Seq<char>;

    /// The source of the regular expression.
    closed spec fn view(&self) -> Seq<char> {
        self.source@
    }
}

impl Pattern {
    /// Compiles a regular expression; `None` when the `regex` crate refuses
    /// the source.
    pub fn new(source: &str) -> (r: Option<Pattern>)
        ensures
            r is Some <==> regex_accepts(source@),
            r matches Some(p) ==> p@ == source@,
    {
        match new_regex(source) {
            Some(re) => Some(Pattern { source: String::from_str(source), re }),
            None => None,
        }
    }
}

/// `Regex::find` on the text from `pos`, giving the end of the match
/// relative to `pos` (`Match::end`). Claims: the result is the named
/// function of the pattern's source and of the searched bytes, and a match
/// ends inside the text on a character boundary, as the crate documents for
/// matches on `&str`.
#[verifier::external_body]
fn find_end(p: &Pattern, text: &str, pos: usize) -> (r: Option<usize>)
    requires
        is_position(text.spec_bytes(), pos as int),
    ensures
        r == regex_match_end(p@, text.spec_bytes().subrange(pos as int, text.spec_bytes().len() as int)),
        r matches Some(e) ==> pos + e <= text.spec_bytes().len() && is_char_boundary(
            text.spec_bytes(),
            pos + e,
        ),
{
    match p.re.find(&text[pos..]) {
        Some(m) => Some(m.end()),
        None => None,
    }
}

/// `String::from(&text[from..to])`. Claims that the bytes of the result are
/// the bytes of the text between the two offsets.
#[verifier::external_body]
fn string_between(text: &str, from: usize, to: usize) -> (r: String)
    requires
        from <= to,
        is_position(text.spec_bytes(), from as int),
        is_position(text.spec_bytes(), to as int),
    ensures
        encode_utf8(r@) == text.spec_bytes().subrange(from as int, to as int),
{
    String::from(&text[from..to])
}

/// If a valid UTF-8 text starts, at a character boundary, with a complete
/// UTF-8 encoding, the encoding ends at a character boundary too.
pub proof fn lemma_prefix_ends_at_boundary(bytes: Seq<u8>, l: Seq<u8>)
    requires
        valid_utf8(bytes),
        valid_utf8(l),
        l.len() <= bytes.len(),
        bytes.subrange(0, l.len() as int) == l,
    ensures
        is_char_boundary(bytes, l.len() as int),
    decreases l.len(),
{
    if l.len() > 0 {
        let k = length_of_first_scalar(l);
        assert(bytes[0] == l[0]) by {
            assert(bytes.subrange(0, l.len() as int)[0] == bytes[0]);
        }
        assert(length_of_first_scalar(bytes) == k);
        let pb = pop_first_scalar(bytes);
        let pl = pop_first_scalar(l);
        assert(valid_utf8(pb));
        assert(valid_utf8(pl));
        assert(pb.subrange(0, pl.len() as int) =~= pl) by {
            assert forall|j: int| 0 <= j < pl.len() implies pb.subrange(0, pl.len() as int)[j] == pl[j] by {
                assert(pl[j] == l[j + k]);
                assert(l[j + k] == bytes.subrange(0, l.len() as int)[j + k]);
            }
        }
        lemma_prefix_ends_at_boundary(pb, pl);
    }
}

/// Character boundaries of a text, counted from a boundary `i`, are
/// character boundaries of the whole text.
pub proof fn lemma_boundary_shift(bytes: Seq<u8>, i: int, j: int)
    requires
        valid_utf8(bytes),
        0 <= i <= bytes.len(),
        is_char_boundary(bytes, i),
        is_char_boundary(bytes.subrange(i, bytes.len() as int), j),
        valid_utf8(bytes.subrange(i, bytes.len() as int)),
    ensures
        is_char_boundary(bytes, i + j),
    decreases bytes.len(),
{
    if i == 0 {
        assert(bytes.subrange(0, bytes.len() as int) =~= bytes);
    } else {
        let k = length_of_first_scalar(bytes);
        let pb = pop_first_scalar(bytes);
        assert(is_char_boundary(pb, i - k));
        assert(pb.subrange(i - k, pb.len() as int) =~= bytes.subrange(i, bytes.len() as int));
        lemma_boundary_shift(pb, i - k, j);
        let s = bytes.subrange(i, bytes.len() as int);
        assert(0 <= j <= s.len()) by {
            if j != 0 {
                lemma_boundary_in_range(s, j);
            }
        }
    }
}

/// A character boundary lies inside the text.
pub proof fn lemma_boundary_in_range(bytes: Seq<u8>, j: int)
    requires
        valid_utf8(bytes),
        is_char_boundary(bytes, j),
    ensures
        0 <= j <= bytes.len(),
    decreases bytes.len(),
{
    if j != 0 && 0 <= j <= bytes.len() {
    }
}

/// A UTF-8 encoding has at least one byte per character.
pub proof fn lemma_encoded_len(s: Seq<char>)
    ensures
        encode_utf8(s).len() >= s.len(),
    decreases s.len(),
{
    if s.len() > 0 {
        lemma_encoded_len(s.drop_first());
    }
}

/// Matching a nonempty literal moves forward and stays inside the text.
pub proof fn lemma_lit_advances(bytes: Seq<u8>, pos: int, lit: Seq<char>)
    requires
        lit.len() > 0,
    ensures
        lit_step(bytes, pos, lit) matches Ok(p) ==> pos < p <= bytes.len(),
{
    lemma_encoded_len(lit);
}

/// Matches the string `lit` at `pos` of `text`; on success the position
/// after it, else a failure at `pos` that names the string.
pub fn match_str(text: &str, pos: usize, lit: &str) -> (r: Result<usize, ParseErr>)
    requires
        is_position(text.spec_bytes(), pos as int),
    ensures
        step_of(r) == lit_step(text.spec_bytes(), pos as int, lit@),
        step_ok(text.spec_bytes(), pos as int, r),
{
    let tb = text.as_bytes();
    let lb = lit.as_bytes();
    let n = lb.len();
    let tl = tb.len();
    let ghost bytes = text.spec_bytes();
    let ghost l = encode_utf8(lit@);
    assert(lb@ == l);
    if n <= tl - pos {
        let mut i: usize = 0;
        while i < n
            invariant
                0 <= i <= n,
                n == l.len(),
                pos + n <= tl,
                tl == bytes.len(),
                tb@ == bytes,
                lb@ == l,
                l == encode_utf8(lit@),
                bytes == text.spec_bytes(),
                forall|j: int| 0 <= j < i ==> bytes[pos + j] == l[j],
            decreases n - i,
        {
            if tb[pos + i] != lb[i] {
                let r = Err(str_mismatch(pos, lit));
                proof {
                    assert(bytes.subrange(pos as int, pos + n)[i as int] != l[i as int]);
                    assert(bytes.subrange(pos as int, pos + l.len()) != l);
                }
                return r;
            }
            i = i + 1;
        }
        proof {
            assert(bytes.subrange(pos as int, pos + n) =~= l);
            let rest = bytes.subrange(pos as int, bytes.len() as int);
            vstd::utf8::valid_utf8_split(bytes, pos as int);
            assert(rest.subrange(0, l.len() as int) =~= l);
            lemma_prefix_ends_at_boundary(rest, l);
            lemma_boundary_shift(bytes, pos as int, n as int);
        }
        Ok(pos + n)
    } else {
        Err(str_mismatch(pos, lit))
    }
}

fn str_mismatch(pos: usize, lit: &str) -> (e: ParseErr)
    ensures
        failure_of(e) == (Failure { at: pos as int, msg: Some(str_mismatch_message(lit@)), cause: Seq::empty() }),
{
    let mut m = String::from_str("String \"");
    m.append(lit);
    m.append("\" did not match");
    let e = ParseErr { at: pos, msg: Some(m), cause: Vec::new() };
    assert(failure_of(e).cause =~= Seq::<Failure>::empty());
    e
}

/// Matches the regular expression `pattern` against the text from `pos`;
/// on success the position where the match ends, else a failure at `pos`.
pub fn match_regex(text: &str, pos: usize, pattern: &str) -> (r: Result<usize, ParseErr>)
    requires
        is_position(text.spec_bytes(), pos as int),
    ensures
        step_of(r) == regex_step(text.spec_bytes(), pos as int, pattern@),
        step_ok(text.spec_bytes(), pos as int, r),
{
    let tl = text.as_bytes().len();
    let found = match Pattern::new(pattern) {
        Some(p) => find_end(&p, text, pos),
        None => None,
    };
    match found {
        Some(e) => Ok(pos + e),
        None => {
            let e = ParseErr { at: pos, msg: Some(String::from_str("Regex did not match")), cause: Vec::new() };
            assert(failure_of(e).cause =~= Seq::<Failure>::empty());
            Err(e)
        },
    }
}

/// The text between two positions, as an owned string.
pub fn capture(text: &str, from: usize, to: usize) -> (s: String)
    requires
        from <= to,
        is_position(text.spec_bytes(), from as int),
        is_position(text.spec_bytes(), to as int),
    ensures
        s@ == text_between(text.spec_bytes(), from as int, to as int),
{
    let s = string_between(text, from, to);
    proof {
        vstd::utf8::encode_utf8_decode_utf8(s@);
    }
    s
}

/// A failure at `at` with no message and no causes.
pub fn fail_at(at: usize) -> (e: ParseErr)
    ensures
        failure_of(e) == plain_failure(at as int),
{
    let e = ParseErr { at, msg: None, cause: Vec::new() };
    assert(failure_of(e).cause =~= Seq::<Failure>::empty());
    e
}

/// The failure of an ordered choice at `at`, whose alternatives failed with
/// `causes`, in order.
pub fn choice_fail(at: usize, causes: Vec<ParseErr>) -> (e: ParseErr)
    ensures
        failure_of(e) == choice_failure(at as int, failures_of(causes@)),
{
    let e = ParseErr { at, msg: None, cause: causes };
    assert(failure_of(e).cause =~= failures_of(causes@));
    e
}

} // verus!

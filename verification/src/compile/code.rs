//! The code text that the compiler writes, and the string helpers it needs.
use vstd::prelude::*;
use vstd::utf8::encode_utf8;
use quote::Tokens;
use quote::ToTokens;
use unescape::unescape;
use crate::grammar::{Token, Tok, tok_of, toks_of};

verus! {

// ---- code text ----

#[verifier::external_type_specification]
#[verifier::external_body]
pub struct ExTokens(Tokens);

/// The code text that a `Tokens` holds.
pub uninterp spec fn tokens_text(t: Tokens) -> Seq<char>;

/// The text after appending the token `s`: a space separates it from what
/// comes before when neither is empty.
pub open spec fn appended(text: Seq<char>, s: Seq<char>) -> Seq<char> {
    if text.len() != 0 && s.len() != 0 {
        text + seq![' '] + s
    } else {
        text + s
    }
}

pub open spec fn toks1(a: Seq<char>) -> Seq<char> {
    appended(Seq::empty(), a)
}

pub open spec fn toks2(a: Seq<char>, b: Seq<char>) -> Seq<char> {
    appended(toks1(a), b)
}

pub open spec fn toks3(a: Seq<char>, b: Seq<char>, c: Seq<char>) -> Seq<char> {
    appended(toks2(a, b), c)
}

pub open spec fn toks4(a: Seq<char>, b: Seq<char>, c: Seq<char>, d: Seq<char>) -> Seq<char> {
    appended(toks3(a, b, c), d)
}

pub open spec fn toks5(a: Seq<char>, b: Seq<char>, c: Seq<char>, d: Seq<char>, e: Seq<char>) -> Seq<
    char,
> {
    appended(toks4(a, b, c, d), e)
}

/// `Tokens::new()`. Claims that the new value holds no text.
#[verifier::external_body]
pub(crate) fn new_tokens() -> (t: Tokens)
    ensures
        tokens_text(t) == Seq::<char>::empty(),
{
    Tokens::new()
}

/// `Tokens::append`. Claims what its source does: a space goes between the
/// old text and `s` when neither is empty, then `s`.
#[verifier::external_body]
pub(crate) fn put(t: &mut Tokens, s: &str)
    ensures
        tokens_text(*final(t)) == appended(tokens_text(*old(t)), s@),
{
    t.append(s)
}

/// The Rust string literal that `quote` writes for a string.
pub uninterp spec fn rust_str_literal(s: Seq<char>) -> Seq<char>;

/// `ToTokens::to_tokens` for `str`, which appends the string as a Rust
/// string literal. Claims that what is appended is the named literal text.
#[verifier::external_body]
pub(crate) fn put_str_literal(t: &mut Tokens, s: &str)
    ensures
        tokens_text(*final(t)) == appended(tokens_text(*old(t)), rust_str_literal(s@)),
{
    s.to_tokens(t)
}

/// `Tokens::as_str`. Claims that it gives the text.
#[verifier::external_body]
pub(crate) fn text_of(t: &Tokens) -> (s: &str)
    ensures
        s@ == tokens_text(*t),
{
    t.as_str()
}

/// Appends the whole text of `code` as one token, as interpolating a
/// `Tokens` into a `quote!` does.
pub(crate) fn put_code(t: &mut Tokens, code: &Tokens)
    ensures
        tokens_text(*final(t)) == appended(tokens_text(*old(t)), tokens_text(*code)),
{
    put(t, text_of(code))
}

// ---- strings ----

pub open spec fn string_opt_view(o: Option<String>) -> Option<Seq<char>> {
    match o {
        Some(s) => Some(s@),
        None => None,
    }
}

pub open spec fn no_backslash(s: Seq<char>) -> bool {
    forall|i: int| 0 <= i < s.len() ==> s[i] != '\\'
}

/// What `unescape::unescape` gives back for a string.
pub uninterp spec fn unescaped(s: Seq<char>) -> Option<Seq<char>>;

/// `unescape::unescape`. Claims: the result is the named function of the
/// input, and a string without backslashes comes back unchanged, as the
/// crate's source shows (every other character is copied).
#[verifier::external_body]
pub(crate) fn unescape_str(s: &str) -> (r: Option<String>)
    ensures
        string_opt_view(r) == unescaped(s@),
        no_backslash(s@) ==> string_opt_view(r) == Some(s@),
{
    unescape(s)
}

/// The decimal digit for `d`, below ten.
pub open spec fn digit_char(d: nat) -> char {
    if d == 0 {
        '0'
    } else if d == 1 {
        '1'
    } else if d == 2 {
        '2'
    } else if d == 3 {
        '3'
    } else if d == 4 {
        '4'
    } else if d == 5 {
        '5'
    } else if d == 6 {
        '6'
    } else if d == 7 {
        '7'
    } else if d == 8 {
        '8'
    } else {
        '9'
    }
}

/// The decimal digits of `n`.
pub open spec fn decimal_text(n: nat) -> Seq<char>
    decreases n,
{
    if n < 10 {
        seq![digit_char(n)]
    } else {
        decimal_text(n / 10) + seq![digit_char(n % 10)]
    }
}

/// `usize::to_string`. Claims the decimal digits, as the documentation of
/// `Display` for integers says.
#[verifier::external_body]
pub(crate) fn decimal(n: usize) -> (s: String)
    ensures
        s@ == decimal_text(n as nat),
{
    n.to_string()
}

/// `prefix` followed by the decimal digits of `n`.
pub(crate) fn numbered(prefix: &str, n: usize) -> (s: String)
    ensures
        s@ == prefix@ + decimal_text(n as nat),
{
    let mut s = String::from_str(prefix);
    let d = decimal(n);
    s.append(d.as_str());
    s
}

/// The source of a regular expression literal with `\/` turned into `/`:

pub(crate) fn code1(a: &str) -> (t: Tokens)
    ensures
        tokens_text(t) == toks1(a@),
{
    let mut t = new_tokens();
    put(&mut t, a);
    t
}

/// Code of two tokens.
pub(crate) fn code2(a: &str, b: &str) -> (t: Tokens)
    ensures
        tokens_text(t) == toks2(a@, b@),
{
    let mut t = code1(a);
    put(&mut t, b);
    t
}

/// Code of four tokens.
pub(crate) fn code4(a: &str, b: &str, c: &str, d: &str) -> (t: Tokens)
    ensures
        tokens_text(t) == toks4(a@, b@, c@, d@),
{
    let mut t = code2(a, b);
    put(&mut t, c);
    put(&mut t, d);
    t
}

/// `format!("{:?}", v)`, for messages.
#[verifier::external_body]
pub(crate) fn debug_text<T: std::fmt::Debug>(v: &T) -> String {
    format!("{:?}", v)
}

pub fn same_text(a: &str, b: &str) -> (r: bool)
    ensures
        r == (a@ == b@),
{
    let x = a.as_bytes();
    let y = b.as_bytes();
    proof {
        vstd::utf8::encode_utf8_decode_utf8(a@);
        vstd::utf8::encode_utf8_decode_utf8(b@);
    }
    if x.len() != y.len() {
        return false;
    }
    let mut i: usize = 0;
    while i < x.len()
        invariant
            x@ == encode_utf8(a@),
            y@ == encode_utf8(b@),
            x@.len() == y@.len(),
            i <= x@.len(),
            forall|j: int| 0 <= j < i ==> x@[j] == y@[j],
        decreases x.len() - i,
    {
        if x[i] != y[i] {
            assert(x@ != y@);
            return false;
        }
        i = i + 1;
    }
    assert(x@ =~= y@);
    true
}


/// Text in lower case.
pub uninterp spec fn lowercased(s: Seq<char>) -> Seq<char>;

/// `str::to_lowercase`. Claims that the result is the named function of the
/// input.
#[verifier::external_body]
pub(crate) fn to_lowercase(s: &str) -> (r: String)
    ensures
        r@ == lowercased(s@),
{
    s.to_lowercase()
}


/// The message of a string literal with an invalid escape.
pub(crate) fn bad_escape(value: &String) -> (m: String)
    ensures
        m@ == "invalid escape in string literal: "@ + value@,
{
    let mut m = String::from_str("invalid escape in string literal: ");
    m.append(value.as_str());
    m
}

/// The `Debug` text of a list of nodes.
pub uninterp spec fn tokens_debug(args: Seq<Tok>) -> Seq<char>;

/// `format!("{:?}", args)` for a list of nodes. Claims that the text is the
/// named function of the nodes' values (the derived `Debug` prints each
/// node's variant and contents, and nothing else).
#[verifier::external_body]
pub(crate) fn debug_tokens(args: &Vec<Box<Token>>) -> (s: String)
    ensures
        s@ == tokens_debug(toks_of(args@)),
{
    format!("{:?}", args)
}

/// The `Debug` text of a node.
pub uninterp spec fn token_debug(t: Tok) -> Seq<char>;

/// `format!("{:?}", t)` for a node. Claims that the text is the named
/// function of the node's value (the derived `Debug` prints the node's
/// variant and contents, and nothing else).
#[verifier::external_body]
pub(crate) fn debug_token(t: &Token) -> (s: String)
    ensures
        s@ == token_debug(tok_of(*t)),
{
    format!("{:?}", t)
}

/// The message about the arguments of an expression: the operation, its
/// usage, and the arguments it was given.
pub open spec fn expr_args_text(op: Seq<char>, usage: Seq<char>, args: Seq<Box<Token>>) -> Seq<char> {
    "\""@ + op + "\" expr \""@ + op + usage + tokens_debug(toks_of(args))
}

/// The message about the arguments of an expression.
pub(crate) fn expr_args_error(op: &str, usage: &str, args: &Vec<Box<Token>>) -> (m: String)
    ensures
        m@ == expr_args_text(op@, usage@, args@),
{
    let mut m = String::from_str("\"");
    m.append(op);
    m.append("\" expr \"");
    m.append(op);
    m.append(usage);
    let d = debug_tokens(args);
    m.append(d.as_str());
    proof {
        reveal_strlit("\"");
        reveal_strlit("\" expr \"");
    }
    m
}

/// The code of a result, or `None` for an error.
pub open spec fn code_view(r: Result<Tokens, String>) -> Option<Seq<char>> {
    match r {
        Ok(t) => Some(tokens_text(t)),
        Err(_) => None,
    }
}

} // verus!

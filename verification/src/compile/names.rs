//! Regular expression sources, and the source of fresh names.
use vstd::prelude::*;
use crate::compile::code::{decimal_text, digit_char, numbered};

verus! {

/// The source of a regular expression literal with `\/` turned into `/`:
/// a backslash escapes the character after it, and a backslash at the end
/// is dropped.
pub open spec fn sanitized(s: Seq<char>) -> Seq<char>
    decreases s.len(),
{
    if s.len() == 0 {
        Seq::empty()
    } else if s[0] == '\\' {
        if s.len() == 1 {
            Seq::empty()
        } else if s[1] == '/' {
            seq!['/'] + sanitized(s.subrange(2, s.len() as int))
        } else {
            seq!['\\', s[1]] + sanitized(s.subrange(2, s.len() as int))
        }
    } else {
        seq![s[0]] + sanitized(s.subrange(1, s.len() as int))
    }
}

/// `String::push`. Claims that the character is added at the end.
#[verifier::external_body]
pub(crate) fn push_char(s: &mut String, c: char)
    ensures
        final(s)@ == old(s)@.push(c),
{
    s.push(c)
}

/// Turns the source of a regular expression literal into the source of the
/// regular expression: `\/` becomes `/`, other escapes stay.
pub fn sanitize_regex(source: &str) -> (out: String)
    ensures
        out@ == sanitized(source@),
{
    let n = source.unicode_len();
    let mut out = String::new();
    let mut i: usize = 0;
    assert(source@.subrange(0, n as int) =~= source@);
    assert(out@ + sanitized(source@) =~= sanitized(source@));
    while i < n
        invariant
            n == source@.len(),
            i <= n,
            out@ + sanitized(source@.subrange(i as int, n as int)) == sanitized(source@),
        decreases n - i,
    {
        let c = source.get_char(i);
        let ghost rest = source@.subrange(i as int, n as int);
        if c == '\\' {
            if i + 1 < n {
                let e = source.get_char(i + 1);
                assert(rest.subrange(2, rest.len() as int) =~= source@.subrange(i + 2, n as int));
                if e == '/' {
                    push_char(&mut out, '/');
                } else {
                    push_char(&mut out, '\\');
                    push_char(&mut out, e);
                }
                i = i + 2;
            } else {
                assert(sanitized(rest) =~= Seq::<char>::empty());
                i = n;
            }
        } else {
            assert(rest.subrange(1, rest.len() as int) =~= source@.subrange(i + 1, n as int));
            push_char(&mut out, c);
            i = i + 1;
        }
        assert(out@ + sanitized(source@.subrange(i as int, n as int)) =~= sanitized(source@));
    }
    assert(source@.subrange(n as int, n as int) =~= Seq::<char>::empty());
    out
}

// ---- fresh names ----

/// The number after `n`, wrapping around at the largest `usize`.
pub open spec fn succ(n: usize) -> usize {
    if n == usize::MAX {
        0
    } else {
        (n + 1) as usize
    }
}

/// A source of fresh numbers: each call of `next` gives the current number
/// and counts up by one.
#[derive(Debug)]
pub struct SecNext {
    num: usize,
    wrapped: bool,
}

/// `n` is `o` after one number was taken: the next number follows, and the
/// source has wrapped around once it gave the largest `usize`.
pub open spec fn advanced(o: SecNext, n: SecNext) -> bool {
    &&& n.current() == succ(o.current())
    &&& n.wrapped() == (o.wrapped() || o.current() == usize::MAX)
}

impl SecNext {
    /// The number that `next` gives back next.
    pub closed spec fn current(&self) -> usize {
        self.num
    }

    /// Whether the numbers have wrapped around: some number was given after
    /// the largest `usize`, so later numbers may repeat earlier ones.
    pub closed spec fn wrapped(&self) -> bool {
        self.wrapped
    }

    pub fn new(first: usize) -> (s: SecNext)
        ensures
            s.current() == first,
            !s.wrapped(),
    {
        SecNext { num: first, wrapped: false }
    }

    pub fn next(&mut self) -> (n: usize)
        ensures
            n == old(self).current(),
            advanced(*old(self), *final(self)),
    {
        let n = self.num;
        if self.num == usize::MAX {
            self.wrapped = true;
        }
        self.num = self.num.wrapping_add(1);
        n
    }

    /// A fresh name: `prefix` followed by the next number.
    pub fn next_name(&mut self, prefix: &str) -> (name: String)
        ensures
            name@ == prefix@ + decimal_text(old(self).current() as nat),
            advanced(*old(self), *final(self)),
    {
        let n = self.next();
        numbered(prefix, n)
    }
}

/// A decimal numeral has at least one digit, and one digit only below ten.
pub proof fn lemma_decimal_len(n: nat)
    ensures
        decimal_text(n).len() >= 1,
        n < 10 <==> decimal_text(n).len() == 1,
    decreases n,
{
    if n >= 10 {
        lemma_decimal_len(n / 10);
    }
}

/// Different numbers have different decimal numerals.
pub proof fn lemma_decimal_injective(a: nat, b: nat)
    requires
        decimal_text(a) == decimal_text(b),
    ensures
        a == b,
    decreases a,
{
    lemma_decimal_len(a);
    lemma_decimal_len(b);
    let da = decimal_text(a);
    let db = decimal_text(b);
    if a < 10 && b < 10 {
        assert(da[0] == digit_char(a));
        assert(db[0] == digit_char(b));
    } else if a >= 10 && b >= 10 {
        assert(da.drop_last() =~= decimal_text(a / 10));
        assert(db.drop_last() =~= decimal_text(b / 10));
        lemma_decimal_injective(a / 10, b / 10);
        assert(da.last() == digit_char(a % 10));
        assert(db.last() == digit_char(b % 10));
        assert(a % 10 == b % 10);
        vstd::arithmetic::div_mod::lemma_fundamental_div_mod(a as int, 10);
        vstd::arithmetic::div_mod::lemma_fundamental_div_mod(b as int, 10);
    }
}

/// Fresh names differ: with the same prefix, the names made from two
/// different numbers are different.
pub proof fn lemma_fresh_names_differ(prefix: Seq<char>, a: nat, b: nat)
    requires
        a != b,
    ensures
        prefix + decimal_text(a) != prefix + decimal_text(b),
{
    if prefix + decimal_text(a) == prefix + decimal_text(b) {
        assert(decimal_text(a) =~= (prefix + decimal_text(a)).subrange(
            prefix.len() as int,
            (prefix + decimal_text(a)).len() as int,
        ));
        assert(decimal_text(b) =~= (prefix + decimal_text(b)).subrange(
            prefix.len() as int,
            (prefix + decimal_text(b)).len() as int,
        ));
        lemma_decimal_injective(a, b);
    }
}

/// Two names taken one after the other from a source of fresh numbers, with
/// the same prefix, differ.
pub proof fn lemma_next_names_differ(prefix: Seq<char>, n: usize)
    ensures
        prefix + decimal_text(n as nat) != prefix + decimal_text(succ(n) as nat),
{
    lemma_fresh_names_differ(prefix, n as nat, succ(n) as nat);
}

/// A source without backslashes is its own regular expression.
pub proof fn lemma_sanitized_plain(s: Seq<char>)
    requires
        forall|i: int| 0 <= i < s.len() ==> s[i] != '\\',
    ensures
        sanitized(s) == s,
    decreases s.len(),
{
    if s.len() > 0 {
        let rest = s.subrange(1, s.len() as int);
        assert forall|i: int| 0 <= i < rest.len() implies rest[i] != '\\' by {
            assert(rest[i] == s[i + 1]);
        }
        lemma_sanitized_plain(rest);
        assert(seq![s[0]] + rest =~= s);
    }
}


/// The shape of a sanitized source: characters other than a backslash, and
/// escapes `\c` of any character `c` but `/`.
pub open spec fn sanitized_form(s: Seq<char>) -> bool
    decreases s.len(),
{
    if s.len() == 0 {
        true
    } else if s[0] != '\\' {
        sanitized_form(s.subrange(1, s.len() as int))
    } else {
        s.len() >= 2 && s[1] != '/' && sanitized_form(s.subrange(2, s.len() as int))
    }
}

/// What `sanitize_regex` gives has the shape of a sanitized source, and is
/// no longer than its input.
pub proof fn lemma_sanitized_form(s: Seq<char>)
    ensures
        sanitized_form(sanitized(s)),
        sanitized(s).len() <= s.len(),
    decreases s.len(),
{
    if s.len() > 0 {
        if s[0] == '\\' {
            if s.len() > 1 {
                let rest = s.subrange(2, s.len() as int);
                lemma_sanitized_form(rest);
                let out = sanitized(s);
                if s[1] == '/' {
                    assert(out.subrange(1, out.len() as int) =~= sanitized(rest));
                } else {
                    assert(out.subrange(2, out.len() as int) =~= sanitized(rest));
                }
            }
        } else {
            let rest = s.subrange(1, s.len() as int);
            lemma_sanitized_form(rest);
            let out = sanitized(s);
            assert(out.subrange(1, out.len() as int) =~= sanitized(rest));
        }
    }
}

/// A source of the sanitized shape is its own regular expression.
pub proof fn lemma_sanitized_fixed(s: Seq<char>)
    requires
        sanitized_form(s),
    ensures
        sanitized(s) == s,
    decreases s.len(),
{
    if s.len() > 0 {
        if s[0] != '\\' {
            let rest = s.subrange(1, s.len() as int);
            lemma_sanitized_fixed(rest);
            assert(seq![s[0]] + rest =~= s);
        } else {
            let rest = s.subrange(2, s.len() as int);
            lemma_sanitized_fixed(rest);
            assert(seq!['\\', s[1]] + rest =~= s);
        }
    }
}

/// Sanitizing twice is sanitizing once, and never makes a source longer.
pub proof fn lemma_sanitized_idempotent(s: Seq<char>)
    ensures
        sanitized(sanitized(s)) == sanitized(s),
        sanitized(s).len() <= s.len(),
{
    lemma_sanitized_form(s);
    lemma_sanitized_fixed(sanitized(s));
}

} // verus!

//! What compiling does, step by step, as functions of the compiler's state
//! (its view) and the parsed grammar: each step gives the new state and the
//! code it writes, or `None` where the compiler reports an error.
use vstd::prelude::*;
use crate::grammar::{Token, tok_of};
use crate::compile::code::{
    appended, toks1, toks2, toks3, decimal_text, rust_str_literal, unescaped, token_debug,
};
use crate::compile::names::{sanitized, lemma_fresh_names_differ};
use crate::compile::values::{
    DefPart, IntoV, StaticV, ValueV, CaptureV, DynV, def_part_of, value_match_text, deref_model,
    capture_decl_text, capture_end_text, capture_ended, as_opt_text, as_vec_text, own_text,
    dyn_debug, static_debug, def_part_debug, not_matchable_text,
};
use crate::compile::state::{
    CState, vlookup, distinct_names, regex_numbers_fresh, state_wf, empty_block, append_block_text, static_in_scope, bump, put_dyn_model,
    put_static_model, set_active, set_body,
};

verus! {

// ---- sizes of nodes ----

/// The size of a node: how many nodes it is made of.
pub open spec fn tok_size(t: Token) -> nat
    decreases t,
{
    match t {
        Token::Tuple(h, parts) => 1 + match h {
            Some(b) => tok_size(*b),
            None => 0,
        } + toks_size(parts@),
        Token::Expr(h, args) => 1 + match h {
            Some(b) => tok_size(*b),
            None => 0,
        } + toks_size(args@),
        Token::Block(lines) => 1 + toks_size(lines@),
        _ => 1,
    }
}

pub open spec fn toks_size(s: Seq<Box<Token>>) -> nat
    decreases s,
{
    if s.len() == 0 {
        0
    } else {
        tok_size(*s[0]) + toks_size(s.subrange(1, s.len() as int))
    }
}

pub proof fn lemma_toks_size(s: Seq<Box<Token>>, i: int)
    requires
        0 <= i < s.len(),
    ensures
        tok_size(*s[i]) <= toks_size(s),
    decreases i,
{
    if i > 0 {
        let rest = s.subrange(1, s.len() as int);
        lemma_toks_size(rest, i - 1);
        assert(rest[i - 1] == s[i]);
    }
}

// ---- arguments ----

/// The name that is the only argument, if that is what the arguments are.
pub open spec fn name_arg(args: Seq<Box<Token>>) -> Option<Seq<char>> {
    if args.len() == 1 {
        match *args[0] {
            Token::Name(n) => Some(n@),
            _ => None,
        }
    } else {
        None
    }
}

/// The member kinds named by `args[1..n]`, each a name of a kind.
pub open spec fn def_parts_model(args: Seq<Box<Token>>, n: int) -> Option<Seq<DefPart>>
    decreases n,
{
    if n <= 1 {
        Some(Seq::empty())
    } else if n > args.len() {
        None
    } else {
        match def_parts_model(args, n - 1) {
            Some(parts) => match *args[n - 1] {
                Token::Name(ty) => match def_part_of(ty@) {
                    Some(p) => Some(parts.push(p)),
                    None => None,
                },
                _ => None,
            },
            None => None,
        }
    }
}

/// The lines of a block node; no lines for other nodes.
pub open spec fn block_lines(t: Token) -> Seq<Box<Token>> {
    match t {
        Token::Block(lines) => lines@,
        _ => Seq::empty(),
    }
}

/// The lines of the block that the `stat` line `t` names; no lines when it
/// names no block.
pub open spec fn stat_lines(t: Token) -> Seq<Box<Token>> {
    match t {
        Token::Expr(_, args) => if args@.len() == 2 {
            block_lines(*args@[1])
        } else {
            Seq::empty()
        },
        _ => Seq::empty(),
    }
}

pub proof fn lemma_block_lines_size(t: Token)
    ensures
        toks_size(block_lines(t)) < tok_size(t),
{
}

pub proof fn lemma_stat_lines_size(t: Token)
    ensures
        toks_size(stat_lines(t)) < tok_size(t),
{
    if let Token::Expr(h, args) = t {
        if args@.len() == 2 {
            lemma_toks_size(args@, 1);
            lemma_block_lines_size(*args@[1]);
        }
    }
}

// ---- static values ----

/// The static value that a node stands for, and the block to compile
/// later: a block is added to the blocks (to be compiled later), a regular
/// expression is added to the table of regular expressions unless its
/// source is there already (a fresh number is taken either way), a string
/// literal stands for itself, and a name for the static value of that name
/// in scope.
pub open spec fn delayed_model(s: CState, block: int, t: Token) -> Option<
    (CState, Option<usize>, StaticV),
> {
    match t {
        Token::Block(_) => {
            let index = s.blocks.len() as usize;
            Some(
                (
                    CState { blocks: s.blocks.push(empty_block(index, Some(block as usize))), ..s },
                    Some(index),
                    StaticV::Block(index),
                ),
            )
        },
        Token::Regex(source) => {
            let src = sanitized(source@);
            let fresh = s.vars;
            let s1 = bump(s);
            match regex_index(s.regexs, src) {
                Some(k) => Some((s1, None, StaticV::Regex("_REGEX_"@ + decimal_text(k as nat)))),
                None => Some(
                    (
                        CState { regexs: s.regexs.push((src, fresh)), ..s1 },
                        None,
                        StaticV::Regex("_REGEX_"@ + decimal_text(fresh as nat)),
                    ),
                ),
            }
        },
        Token::StrLiteral(value) => Some((s, None, StaticV::Str(value@))),
        Token::Name(id) => match static_in_scope(s.blocks, block, id@) {
            Some(v) => Some((s, None, v)),
            None => None,
        },
        _ => None,
    }
}

/// The number of the static of a regular expression source.
pub open spec fn regex_index(regexs: Seq<(Seq<char>, usize)>, src: Seq<char>) -> Option<usize> {
    vlookup(regexs, src)
}

/// The code that declares a new target of `into` (a list) or `into_once`.
pub open spec fn into_decl_text(id: Seq<char>, list: bool) -> Seq<char> {
    if list {
        toks3("let mut"@, id, "= :: std :: vec :: Vec :: new ( ) ;"@)
    } else {
        toks3("let mut"@, id, "= None ;"@)
    }
}

/// Whether a record is of the kind that `into` (a list) or `into_once`
/// (a single node) makes.
pub open spec fn into_kind(rec: IntoV, list: bool) -> bool {
    if list {
        rec is List
    } else {
        rec is Once
    }
}

/// The first position of `rec` among `active`.
pub open spec fn first_target(active: Seq<IntoV>, rec: IntoV) -> Option<int>
    decreases active.len(),
{
    if active.len() == 0 {
        None
    } else if active[0] == rec {
        Some(0)
    } else {
        match first_target(active.subrange(1, active.len() as int), rec) {
            Some(i) => Some(i + 1),
            None => None,
        }
    }
}

/// The local value named by the only argument, in block `b`.
pub open spec fn named_dyn(s: CState, b: int, n: Seq<char>) -> Option<DynV> {
    vlookup(s.blocks[b].dyns, n)
}

/// `capture <name>`: a new capture gets a fresh start mark, declared in
/// the code; an existing capture starts again from here.
pub open spec fn capture_model(s: CState, b: int, args: Seq<Box<Token>>) -> Option<(CState, Seq<char>)> {
    if !(0 <= b < s.blocks.len()) {
        None
    } else {
        match name_arg(args) {
            None => None,
            Some(n) => match named_dyn(s, b, n) {
                None => {
                    let start = "_start_"@ + decimal_text(s.vars as nat);
                    let c = CaptureV { acc: None, start, ended: false };
                    Some(
                        (
                            put_dyn_model(bump(s), b, n, DynV::Capture(c)),
                            appended(toks1(capture_decl_text(start)), toks2(start, "= _at ;"@)),
                        ),
                    )
                },
                Some(DynV::Capture(c)) => Some(
                    (
                        put_dyn_model(s, b, n, DynV::Capture(CaptureV { ended: false, ..c })),
                        toks2(c.start, "= _at ;"@),
                    ),
                ),
                Some(_) => None,
            },
        }
    }
}

/// `into <name>` (`list`) or `into_once <name>`: the nodes matched from
/// here also go to the target. A new target gets a fresh local, declared in
/// the code, except `export`, the block's own output; an existing target of
/// the same kind is made active again unless it is active.
pub open spec fn into_model(s: CState, b: int, args: Seq<Box<Token>>, list: bool) -> Option<
    (CState, Seq<char>),
> {
    if !(0 <= b < s.blocks.len()) {
        None
    } else {
        match name_arg(args) {
            None => None,
            Some(n) => match named_dyn(s, b, n) {
                Some(DynV::IntoVal(rec)) => if into_kind(rec, list) && first_target(
                    s.blocks[b].active,
                    rec,
                ) is None {
                    Some((set_active(s, b, s.blocks[b].active.push(rec)), Seq::empty()))
                } else {
                    None
                },
                Some(_) => None,
                None => {
                    let exporting = n == "export"@;
                    let id = if exporting {
                        "_out"@
                    } else if list {
                        "_intolist_"@ + decimal_text(s.vars as nat)
                    } else {
                        "_intoonce_"@ + decimal_text(s.vars as nat)
                    };
                    let s1 = if exporting {
                        s
                    } else {
                        bump(s)
                    };
                    let rec = if list {
                        IntoV::List(id)
                    } else {
                        IntoV::Once(id, exporting)
                    };
                    Some(
                        (
                            put_dyn_model(
                                set_active(s1, b, s1.blocks[b].active.push(rec)),
                                b,
                                n,
                                DynV::IntoVal(rec),
                            ),
                            if exporting {
                                Seq::empty()
                            } else {
                                into_decl_text(id, list)
                            },
                        ),
                    )
                },
            },
        }
    }
}

/// `stop <name>`: a capture is stopped (its text goes to its accumulator,
/// named afresh the first time); an active target stops taking nodes (the
/// last target takes its place among the active ones).
pub open spec fn stop_model(s: CState, b: int, args: Seq<Box<Token>>) -> Option<(CState, Seq<char>)> {
    if !(0 <= b < s.blocks.len()) {
        None
    } else {
        match name_arg(args) {
            None => None,
            Some(n) => match named_dyn(s, b, n) {
                Some(DynV::Capture(c)) => {
                    let e = capture_ended(c, s.vars);
                    let s1 = if c.acc is Some {
                        s
                    } else {
                        bump(s)
                    };
                    Some(
                        (
                            put_dyn_model(s1, b, n, DynV::Capture(e)),
                            capture_end_text(e.acc->0, c.start, c.acc is Some),
                        ),
                    )
                },
                Some(DynV::IntoVal(rec)) => {
                    let active = s.blocks[b].active;
                    match first_target(active, rec) {
                        Some(j) => Some(
                            (set_active(s, b, active.update(j, active.last()).drop_last()), Seq::empty()),
                        ),
                        None => None,
                    }
                },
                _ => None,
            },
        }
    }
}

// ---- output expressions ----

/// The start of the code that builds a node of a defined kind.
pub open spec fn node_head() -> Seq<char> {
    "Some ( :: std :: boxed :: Box :: new ( Token ::"@
}

/// The code that a block's output expression stands for, as a member of
/// kind `def`: a node of a defined kind built from its members, a target of
/// `into` or `into_once` (read without using it up), a capture, a static
/// string or a string literal. `None` where the expression does not fit.
pub open spec fn token_output(s: CState, b: int, def: DefPart, item: Token) -> Option<Seq<char>>
    decreases tok_size(item), 0int,
{
    match item {
        Token::Tuple(Some(h), parts) => if def == DefPart::ITEM {
            match *h {
                Token::Name(name) => match vlookup(s.defs, name@) {
                    Some(pd) => if pd.len() != parts@.len() {
                        None
                    } else if pd.len() == 0 {
                        Some(toks3(node_head(), name@, ") )"@))
                    } else {
                        match token_outputs(
                            s,
                            b,
                            pd,
                            parts@,
                            toks3(node_head(), name@, "("@),
                            parts@.len() as int,
                        ) {
                            Some(t) => Some(appended(t, ") ) )"@)),
                            None => None,
                        }
                    },
                    None => None,
                },
                _ => None,
            }
        } else {
            None
        },
        Token::Name(name) => {
            let found = if 0 <= b < s.blocks.len() {
                vlookup(s.blocks[b].dyns, name@)
            } else {
                None
            };
            match def {
                DefPart::ITEM => match found {
                    Some(DynV::IntoVal(into)) => Some(as_opt_text(into, true)),
                    _ => None,
                },
                DefPart::LIST => match found {
                    Some(DynV::IntoVal(into)) => Some(as_vec_text(into, true)),
                    _ => None,
                },
                DefPart::STR => match found {
                    Some(DynV::Capture(c)) => Some(own_text(c)),
                    Some(_) => None,
                    None => if 0 <= b < s.blocks.len() {
                        match vlookup(s.blocks[b].statics, name@) {
                            Some(StaticV::Str(value)) => match unescaped(value) {
                                Some(u) => Some(toks1(rust_str_literal(u))),
                                None => None,
                            },
                            _ => None,
                        }
                    } else {
                        None
                    },
                },
            }
        },
        Token::StrLiteral(value) => if def == DefPart::STR {
            match unescaped(value@) {
                Some(u) => Some(toks1(rust_str_literal(u))),
                None => None,
            }
        } else {
            None
        },
        _ => None,
    }
}

/// `t` followed by the code of the first `n` members, separated by commas.
pub open spec fn token_outputs(
    s: CState,
    b: int,
    defs: Seq<DefPart>,
    parts: Seq<Box<Token>>,
    t: Seq<char>,
    n: int,
) -> Option<Seq<char>>
    decreases toks_size(parts), n,
{
    if n <= 0 {
        Some(t)
    } else if n > parts.len() || n > defs.len() {
        None
    } else {
        match token_outputs(s, b, defs, parts, t, n - 1) {
            Some(prev) => {
                proof {
                    lemma_toks_size(parts, n - 1);
                }
                match token_output(s, b, defs[n - 1], *parts[n - 1]) {
                    Some(c) => Some(
                        appended(
                            if n > 1 {
                                appended(prev, ","@)
                            } else {
                                prev
                            },
                            c,
                        ),
                    ),
                    None => None,
                }
            },
            None => None,
        }
    }
}

/// The message of an output expression that does not fit as a member of
/// kind `def`, where `token_output` gives `None`: the first member that
/// does not fit gives its own message.
pub open spec fn token_output_error(s: CState, b: int, def: DefPart, item: Token) -> Seq<char>
    decreases tok_size(item), 0int,
{
    let misfit = token_debug(tok_of(item)) + " is not a valid as a "@ + def_part_debug(def) + " member"@;
    match item {
        Token::Tuple(Some(h), parts) => if def == DefPart::ITEM {
            match *h {
                Token::Name(name) => match vlookup(s.defs, name@) {
                    Some(pd) => if pd.len() != parts@.len() {
                        name@ + " has "@ + decimal_text(pd.len()) + " members, only "@ + decimal_text(
                            parts@.len(),
                        ) + " were supplied"@
                    } else {
                        token_outputs_error(
                            s,
                            b,
                            pd,
                            parts@,
                            toks3(node_head(), name@, "("@),
                            parts@.len() as int,
                        )
                    },
                    None => name@ + " is an unknown definition"@,
                },
                _ => misfit,
            }
        } else {
            misfit
        },
        Token::Name(name) => {
            let found = if 0 <= b < s.blocks.len() {
                vlookup(s.blocks[b].dyns, name@)
            } else {
                None
            };
            match def {
                DefPart::STR => match found {
                    Some(v) => name@ + " ("@ + dyn_debug(v) + ") is dynamic but not a capture"@,
                    None => match if 0 <= b < s.blocks.len() {
                        vlookup(s.blocks[b].statics, name@)
                    } else {
                        None
                    } {
                        Some(StaticV::Str(value)) => bad_escape_text(value),
                        Some(v) => name@ + " ("@ + static_debug(v) + ") is static but not a string"@,
                        None => name@ + " does not name a value"@,
                    },
                },
                _ => match found {
                    Some(v) => name@ + " ("@ + dyn_debug(v)
                        + ") is dynamic but has not received into or into_once"@,
                    None => name@ + " does not name a value"@,
                },
            }
        },
        Token::StrLiteral(value) => if def == DefPart::STR {
            bad_escape_text(value@)
        } else {
            misfit
        },
        _ => misfit,
    }
}

/// The message of the first of the first `n` members that does not fit.
pub open spec fn token_outputs_error(
    s: CState,
    b: int,
    defs: Seq<DefPart>,
    parts: Seq<Box<Token>>,
    t: Seq<char>,
    n: int,
) -> Seq<char>
    decreases toks_size(parts), n,
{
    if n <= 0 || n > parts.len() || n > defs.len() {
        Seq::empty()
    } else if token_outputs(s, b, defs, parts, t, n - 1) is None {
        token_outputs_error(s, b, defs, parts, t, n - 1)
    } else {
        proof {
            lemma_toks_size(parts, n - 1);
        }
        token_output_error(s, b, defs[n - 1], *parts[n - 1])
    }
}

/// The message of a string literal with an invalid escape.
pub open spec fn bad_escape_text(value: Seq<char>) -> Seq<char> {
    "invalid escape in string literal: "@ + value
}

/// The message of a node that stands for no value, where `value_model`
/// gives `None`: a target of `into` cannot be matched; anything else is
/// neither local nor static.
pub open spec fn value_error(s: CState, block: int, t: Token) -> Seq<char> {
    let found = match t {
        Token::Name(id) => if 0 <= block < s.blocks.len() {
            vlookup(s.blocks[block].dyns, id@)
        } else {
            None
        },
        _ => None,
    };
    match found {
        Some(d) => not_matchable_text(d),
        None => token_debug(tok_of(t)) + " is not a static or local value"@,
    }
}

/// The message of a node that stands for no static value, where
/// `delayed_model` gives `None`.
pub open spec fn delayed_error(t: Token) -> Seq<char> {
    match t {
        Token::Name(id) => id@ + " does not name a prior static value"@,
        _ => token_debug(tok_of(t)) + " is not a static value"@,
    }
}

/// `export <node>`: the node that the expression builds goes to the
/// block's output.
pub open spec fn export_model(s: CState, b: int, args: Seq<Box<Token>>) -> Option<(CState, Seq<char>)> {
    if args.len() != 1 {
        None
    } else {
        match token_output(s, b, DefPart::ITEM, *args[0]) {
            Some(e) => Some((s, toks3("_out . extend ("@, e, ") ;"@))),
            None => None,
        }
    }
}

// ---- calls of the matching macros ----

/// `code` after the prefix code `piece`, if any, was put to it.
pub open spec fn with_piece(code: Seq<char>, piece: Option<Seq<char>>) -> Seq<char> {
    match piece {
        Some(p) => appended(code, p),
        None => code,
    }
}

/// The head of a macro call: `mac ! ( _at , _text , res , block`.
pub open spec fn call_head(mac: Seq<char>, res: Seq<char>, blk: Seq<char>) -> Seq<char> {
    appended(appended(appended(toks2(mac, "! ( _at , _text ,"@), res), ","@), blk)
}

/// `t` followed by `, m` for each of the first `n` matches.
pub open spec fn call_args(t: Seq<char>, mats: Seq<Seq<char>>, n: int) -> Seq<char>
    decreases n,
{
    if n <= 0 || n > mats.len() {
        t
    } else {
        appended(appended(call_args(t, mats, n - 1), ","@), mats[n - 1])
    }
}

/// The call `mac!(_at, _text, res, block, m, ...);`.
pub open spec fn call_text(mac: Seq<char>, res: Seq<char>, blk: Seq<char>, mats: Seq<Seq<char>>) -> Seq<
    char,
> {
    appended(call_args(call_head(mac, res, blk), mats, mats.len() as int), ") ;"@)
}

/// The line that matches one value: `_tredgen_append!(_at, res, block, m?);`.
pub open spec fn append_call_text(res: Seq<char>, blk: Seq<char>, mat: Seq<char>) -> Seq<char> {
    appended(
        appended(
            appended(appended(appended(toks2("_tredgen_append ! ( _at ,"@, res), ","@), blk), ","@),
            mat,
        ),
        "? ) ;"@,
    )
}

/// The name of the list of results of a match.
pub open spec fn resvec_name(n: usize) -> Seq<char> {
    "_resvec_"@ + decimal_text(n as nat)
}

// ---- the compiler ----

/// The compiler's steps, over the state `s`:
/// - the static value that a node stands for (a block is compiled at once);
pub open spec fn static_model(s: CState, block: int, t: Token) -> Option<(CState, StaticV)>
    decreases tok_size(t), 0int, 0int,
{
    match delayed_model(s, block, t) {
        None => None,
        Some((s1, d, v)) => match d {
            None => Some((s1, v)),
            Some(index) => {
                proof {
                    lemma_block_lines_size(t);
                }
                match run_model(s1, index as int, block_lines(t)) {
                    Some(s2) => Some((s2, v)),
                    None => None,
                }
            },
        },
    }
}

/// - the value that a node stands for: a local value of the block (a
///   capture is first bound to a fresh local, whose declaration is the
///   returned code), else a static value;
pub open spec fn value_model(s: CState, block: int, t: Token) -> Option<
    (CState, ValueV, Option<Seq<char>>),
>
    decreases tok_size(t), 1int, 0int,
{
    if !(0 <= block < s.blocks.len()) {
        None
    } else {
        let found = match t {
            Token::Name(id) => vlookup(s.blocks[block].dyns, id@),
            _ => None,
        };
        match found {
            Some(d) => match deref_model(d, s.vars) {
                None => None,
                Some((v, piece)) => Some(
                    (
                        if piece is Some {
                            bump(s)
                        } else {
                            s
                        },
                        v,
                        piece,
                    ),
                ),
            },
            None => match static_model(s, block, t) {
                Some((s1, v)) => Some((s1, ValueV::Static(v), None)),
                None => None,
            },
        }
    }
}

/// - the values of the first `n` arguments, with the prefix code their
///   bindings need and the code that matches each;
pub open spec fn values_model(s: CState, block: int, args: Seq<Box<Token>>, n: int) -> Option<
    (CState, Seq<char>, Seq<Seq<char>>),
>
    decreases toks_size(args), 2int, n,
{
    if n <= 0 {
        Some((s, Seq::empty(), Seq::empty()))
    } else if n > args.len() {
        None
    } else {
        match values_model(s, block, args, n - 1) {
            None => None,
            Some((s1, out, mats)) => {
                proof {
                    lemma_toks_size(args, n - 1);
                }
                match value_model(s1, block, *args[n - 1]) {
                    None => None,
                    Some((s2, v, piece)) => match value_match_text(v) {
                        None => None,
                        Some(m) => Some((s2, with_piece(out, piece), mats.push(m))),
                    },
                }
            },
        }
    }
}

/// - an operation on one or more values (`some`, `many`, `all`, `option`,
///   `or`): the call of its macro;
pub open spec fn expr_vals_model(s: CState, block: int, mac: Seq<char>, args: Seq<Box<Token>>) -> Option<
    (CState, Seq<char>),
>
    decreases toks_size(args), 3int, 0int,
{
    if args.len() < 1 || !(0 <= block < s.blocks.len()) {
        None
    } else {
        let res = resvec_name(s.vars);
        match values_model(bump(s), block, args, args.len() as int) {
            None => None,
            Some((s2, out, mats)) => if 0 <= block < s2.blocks.len() {
                Some(
                    (
                        s2,
                        appended(
                            out,
                            call_text(mac, res, append_block_text(s2.blocks[block].active, res), mats),
                        ),
                    ),
                )
            } else {
                None
            },
        }
    }
}

/// - an operation on one value (`not`): the call of its macro;
pub open spec fn expr_val_model(s: CState, block: int, mac: Seq<char>, args: Seq<Box<Token>>) -> Option<
    (CState, Seq<char>),
>
    decreases toks_size(args), 3int, 0int,
{
    if args.len() != 1 {
        None
    } else {
        proof {
            lemma_toks_size(args, 0);
        }
        match value_model(s, block, *args[0]) {
            None => None,
            Some((s1, v, piece)) => {
                let res = resvec_name(s1.vars);
                let s2 = bump(s1);
                match value_match_text(v) {
                    None => None,
                    Some(mat) => if 0 <= block < s2.blocks.len() {
                        Some(
                            (
                                s2,
                                appended(
                                    with_piece(Seq::empty(), piece),
                                    call_text(
                                        mac,
                                        res,
                                        append_block_text(s2.blocks[block].active, res),
                                        seq![mat],
                                    ),
                                ),
                            ),
                        )
                    } else {
                        None
                    },
                }
            },
        }
    }
}

/// - a line that names an operation;
pub open spec fn name_expr_model(s: CState, block: int, op: Seq<char>, args: Seq<Box<Token>>) -> Option<
    (CState, Seq<char>),
>
    decreases toks_size(args), 4int, 0int,
{
    if op == "def"@ || op == "stat"@ {
        Some((s, Seq::empty()))
    } else if op == "not"@ {
        expr_val_model(s, block, "_tredgen_not"@, args)
    } else if op == "capture"@ {
        capture_model(s, block, args)
    } else if op == "into"@ {
        into_model(s, block, args, true)
    } else if op == "into_once"@ {
        into_model(s, block, args, false)
    } else if op == "stop"@ {
        stop_model(s, block, args)
    } else if op == "some"@ {
        expr_vals_model(s, block, "_tredgen_some"@, args)
    } else if op == "many"@ {
        expr_vals_model(s, block, "_tredgen_many"@, args)
    } else if op == "all"@ {
        expr_vals_model(s, block, "_tredgen_all"@, args)
    } else if op == "option"@ {
        expr_vals_model(s, block, "_tredgen_option"@, args)
    } else if op == "or"@ {
        expr_vals_model(s, block, "_tredgen_or"@, args)
    } else if op == "export"@ {
        export_model(s, block, args)
    } else {
        None
    }
}

/// - a line: a value to match (its nodes go to the active targets), else a
///   named operation;
pub open spec fn expr_model(s: CState, block: int, op: Token, args: Seq<Box<Token>>) -> Option<
    (CState, Seq<char>),
>
    decreases tok_size(op) + toks_size(args), 5int, 0int,
{
    match value_model(s, block, op) {
        Some((s1, v, piece)) => {
            let res = resvec_name(s1.vars);
            let s2 = bump(s1);
            match value_match_text(v) {
                None => None,
                Some(mat) => if 0 <= block < s2.blocks.len() {
                    Some(
                        (
                            s2,
                            appended(
                                with_piece(Seq::empty(), piece),
                                append_call_text(res, append_block_text(s2.blocks[block].active, res), mat),
                            ),
                        ),
                    )
                } else {
                    None
                },
            }
        },
        None => match op {
            Token::Name(n) => name_expr_model(s, block, n@, args),
            _ => None,
        },
    }
}

/// - the first `n` lines of a block, in order, after the code that starts
///   the block's function;
pub open spec fn lines_model(s: CState, block: int, toks: Seq<Box<Token>>, n: int) -> Option<
    (CState, Seq<char>),
>
    decreases toks_size(toks), 6int, n,
{
    if n <= 0 {
        Some((s, toks1(body_start())))
    } else if n > toks.len() {
        None
    } else {
        match lines_model(s, block, toks, n - 1) {
            None => None,
            Some((s1, code)) => {
                proof {
                    lemma_toks_size(toks, n - 1);
                }
                match *toks[n - 1] {
                    Token::Expr(Some(op), args) => match expr_model(s1, block, *op, args@) {
                        Some((s2, c)) => Some((s2, appended(code, c))),
                        None => None,
                    },
                    Token::Comment(_) => Some((s1, code)),
                    _ => None,
                }
            },
        }
    }
}

/// - the blocks that the `stat` lines named, compiled in order;
pub open spec fn later_model(s: CState, toks: Seq<Box<Token>>, later: Seq<(usize, int)>, j: int) -> Option<
    CState,
>
    decreases toks_size(toks), 6int, j,
{
    if j <= 0 {
        Some(s)
    } else if j > later.len() {
        None
    } else {
        match later_model(s, toks, later, j - 1) {
            None => None,
            Some(s1) => {
                let k = later[j - 1].1;
                if 0 <= k < toks.len() {
                    proof {
                        lemma_toks_size(toks, k);
                        lemma_stat_lines_size(*toks[k]);
                    }
                    run_model(s1, later[j - 1].0 as int, stat_lines(*toks[k]))
                } else {
                    None
                }
            },
        }
    }
}

/// - the lines of a block: first its `stat` and `def` lines, then the
///   blocks those named, then every line into the body of its function;
pub open spec fn from_iter_model(s: CState, block: int, toks: Seq<Box<Token>>) -> Option<
    (CState, Seq<char>),
>
    decreases toks_size(toks), 7int, 0int,
{
    if !(0 <= block < s.blocks.len()) {
        None
    } else {
        match decls_model(s, block, toks, toks.len() as int) {
            None => None,
            Some((s1, later)) => match later_model(s1, toks, later, later.len() as int) {
                None => None,
                Some(s2) => match lines_model(s2, block, toks, toks.len() as int) {
                    None => None,
                    Some((s3, code)) => Some((s3, appended(code, "Ok ( ( _at , _out ) )"@))),
                },
            },
        }
    }
}

/// - a block: its lines become the body of its function.
pub open spec fn run_model(s: CState, index: int, lines: Seq<Box<Token>>) -> Option<CState>
    decreases toks_size(lines), 8int, 0int,
{
    match from_iter_model(s, index, lines) {
        Some((s1, body)) => if 0 <= index < s1.blocks.len() {
            Some(set_body(s1, index, body))
        } else {
            None
        },
        None => None,
    }
}

/// The code that starts the function of a block.
pub open spec fn body_start() -> Seq<char> {
    "let mut _at = _start ; let mut _out = :: std :: vec :: Vec :: new ( ) ;"@
}

/// The `stat` and `def` lines among the first `n` lines of a block: a
/// `stat` puts a static value in front of the block's static values (a
/// block that it names is compiled later), a `def` defines a node kind.
/// Also the blocks to compile later, each with the line that named it.
pub open spec fn decls_model(s: CState, block: int, toks: Seq<Box<Token>>, n: int) -> Option<
    (CState, Seq<(usize, int)>),
>
    decreases n,
{
    if n <= 0 {
        Some((s, Seq::empty()))
    } else if n > toks.len() {
        None
    } else {
        match decls_model(s, block, toks, n - 1) {
            None => None,
            Some((s1, later)) => decl_model(s1, block, *toks[n - 1], n - 1, later),
        }
    }
}

/// One line of a block, in the pass over `stat` and `def` lines.
pub open spec fn decl_model(s: CState, block: int, t: Token, k: int, later: Seq<(usize, int)>) -> Option<
    (CState, Seq<(usize, int)>),
> {
    match t {
        Token::Expr(Some(op), args) => match *op {
            Token::Name(opname) => if opname@ == "stat"@ {
                if args@.len() != 2 {
                    None
                } else {
                    match *args@[0] {
                        Token::Name(name) => match delayed_model(s, block, *args@[1]) {
                            None => None,
                            Some((s1, d, v)) => Some(
                                (
                                    put_static_model(s1, block, name@, v),
                                    match d {
                                        Some(index) => later.push((index, k)),
                                        None => later,
                                    },
                                ),
                            ),
                        },
                        _ => None,
                    }
                }
            } else if opname@ == "def"@ {
                if args@.len() < 1 {
                    None
                } else {
                    match *args@[0] {
                        Token::Name(name) => match def_parts_model(args@, args@.len() as int) {
                            None => None,
                            Some(parts) => if vlookup(s.defs, name@) is Some {
                                None
                            } else {
                                Some((CState { defs: s.defs.push((name@, parts)), ..s }, later))
                            },
                        },
                        _ => None,
                    }
                }
            } else {
                Some((s, later))
            },
            _ => Some((s, later)),
        },
        _ => Some((s, later)),
    }
}

/// The state before anything is compiled: one block, for the lines of the
/// grammar.
pub open spec fn start_state() -> CState {
    CState {
        defs: Seq::empty(),
        regexs: Seq::empty(),
        blocks: seq![empty_block(0, None)],
        vars: 0,
        wrapped: false,
    }
}


// ---- laws of the matching operations ----

/// The code `c` holds a call of the macro `mac`: after the code before it,
/// the tokens `mac ! ( _at , _text ,` and the rest of the call.
pub open spec fn calls_macro(c: Seq<char>, mac: Seq<char>) -> bool {
    exists|pre: Seq<char>, rest: Seq<char>|
        c == #[trigger] appended(pre, toks2(mac, "! ( _at , _text ,"@) + rest)
}

/// Appending a token keeps what came before as a prefix.
proof fn lemma_prefix_of_appended(p: Seq<char>, t: Seq<char>, x: Seq<char>)
    requires
        p.is_prefix_of(t),
    ensures
        p.is_prefix_of(appended(t, x)),
{
    let a = appended(t, x);
    assert(a.subrange(0, t.len() as int) =~= t);
    assert(a.subrange(0, p.len() as int) =~= t.subrange(0, p.len() as int));
}

/// The arguments of a call come after its head.
proof fn lemma_call_args_prefix(p: Seq<char>, t: Seq<char>, mats: Seq<Seq<char>>, n: int)
    requires
        p.is_prefix_of(t),
    ensures
        p.is_prefix_of(call_args(t, mats, n)),
    decreases n,
{
    if !(n <= 0 || n > mats.len()) {
        lemma_call_args_prefix(p, t, mats, n - 1);
        lemma_prefix_of_appended(p, call_args(t, mats, n - 1), ","@);
        lemma_prefix_of_appended(p, appended(call_args(t, mats, n - 1), ","@), mats[n - 1]);
    }
}

/// A call text is `mac ! ( _at , _text ,` followed by the rest of the call.
proof fn lemma_call_text_opens(mac: Seq<char>, res: Seq<char>, blk: Seq<char>, mats: Seq<Seq<char>>)
    ensures
        toks2(mac, "! ( _at , _text ,"@).is_prefix_of(call_text(mac, res, blk, mats)),
{
    let h = toks2(mac, "! ( _at , _text ,"@);
    assert(h.is_prefix_of(h));
    lemma_prefix_of_appended(h, h, res);
    lemma_prefix_of_appended(h, appended(h, res), ","@);
    lemma_prefix_of_appended(h, appended(appended(h, res), ","@), blk);
    let head = call_head(mac, res, blk);
    lemma_call_args_prefix(h, head, mats, mats.len() as int);
    lemma_prefix_of_appended(h, call_args(head, mats, mats.len() as int), ") ;"@);
}

/// `appended(pre, call)` holds a call of `mac` when `call` opens with it.
proof fn lemma_calls_macro(pre: Seq<char>, call: Seq<char>, mac: Seq<char>)
    requires
        toks2(mac, "! ( _at , _text ,"@).is_prefix_of(call),
    ensures
        calls_macro(appended(pre, call), mac),
{
    let h = toks2(mac, "! ( _at , _text ,"@);
    let rest = call.subrange(h.len() as int, call.len() as int);
    assert(h + rest =~= call);
}

/// Each named matching operation is compiled into a call of its own macro:
/// `some` into `_tredgen_some`, `many` into `_tredgen_many`, `all` into
/// `_tredgen_all`, `option` into `_tredgen_option`, `or` into `_tredgen_or`
/// and `not` into `_tredgen_not`.
pub proof fn lemma_operations_call_their_macros(s: CState, block: int, args: Seq<Box<Token>>)
    ensures
        name_expr_model(s, block, "some"@, args) matches Some((_, c)) ==> calls_macro(c, "_tredgen_some"@),
        name_expr_model(s, block, "many"@, args) matches Some((_, c)) ==> calls_macro(c, "_tredgen_many"@),
        name_expr_model(s, block, "all"@, args) matches Some((_, c)) ==> calls_macro(c, "_tredgen_all"@),
        name_expr_model(s, block, "option"@, args) matches Some((_, c)) ==> calls_macro(
            c,
            "_tredgen_option"@,
        ),
        name_expr_model(s, block, "or"@, args) matches Some((_, c)) ==> calls_macro(c, "_tredgen_or"@),
        name_expr_model(s, block, "not"@, args) matches Some((_, c)) ==> calls_macro(c, "_tredgen_not"@),
{
    lemma_vals_call(s, block, "_tredgen_some"@, args);
    lemma_vals_call(s, block, "_tredgen_many"@, args);
    lemma_vals_call(s, block, "_tredgen_all"@, args);
    lemma_vals_call(s, block, "_tredgen_option"@, args);
    lemma_vals_call(s, block, "_tredgen_or"@, args);
    lemma_val_call(s, block, "_tredgen_not"@, args);
    lemma_operation_dispatch(s, block, args);
}

/// Which step each operation name reaches.
proof fn lemma_operation_dispatch(s: CState, block: int, args: Seq<Box<Token>>)
    ensures
        name_expr_model(s, block, "some"@, args) == expr_vals_model(s, block, "_tredgen_some"@, args),
        name_expr_model(s, block, "many"@, args) == expr_vals_model(s, block, "_tredgen_many"@, args),
        name_expr_model(s, block, "all"@, args) == expr_vals_model(s, block, "_tredgen_all"@, args),
        name_expr_model(s, block, "option"@, args) == expr_vals_model(s, block, "_tredgen_option"@, args),
        name_expr_model(s, block, "or"@, args) == expr_vals_model(s, block, "_tredgen_or"@, args),
        name_expr_model(s, block, "not"@, args) == expr_val_model(s, block, "_tredgen_not"@, args),
{
    lemma_dispatch_some(s, block, args);
    lemma_dispatch_many(s, block, args);
    lemma_dispatch_all(s, block, args);
    lemma_dispatch_option(s, block, args);
    lemma_dispatch_or(s, block, args);
    lemma_dispatch_not(s, block, args);
}

proof fn lemma_dispatch_some(s: CState, block: int, args: Seq<Box<Token>>)
    ensures
        name_expr_model(s, block, "some"@, args) == expr_vals_model(s, block, "_tredgen_some"@, args),
{
    assert("some"@ != "def"@) by {
        reveal_strlit("some");
        reveal_strlit("def");
        assert("some"@[0] != "def"@[0] || "some"@.len() != "def"@.len() || "some"@[1] != "def"@[1]);
    }
    assert("some"@ != "stat"@) by {
        reveal_strlit("some");
        reveal_strlit("stat");
        assert("some"@[0] != "stat"@[0] || "some"@.len() != "stat"@.len() || "some"@[1] != "stat"@[1]);
    }
    assert("some"@ != "not"@) by {
        reveal_strlit("some");
        reveal_strlit("not");
        assert("some"@[0] != "not"@[0] || "some"@.len() != "not"@.len() || "some"@[1] != "not"@[1]);
    }
    assert("some"@ != "capture"@) by {
        reveal_strlit("some");
        reveal_strlit("capture");
        assert("some"@[0] != "capture"@[0] || "some"@.len() != "capture"@.len() || "some"@[1] != "capture"@[1]);
    }
    assert("some"@ != "into"@) by {
        reveal_strlit("some");
        reveal_strlit("into");
        assert("some"@[0] != "into"@[0] || "some"@.len() != "into"@.len() || "some"@[1] != "into"@[1]);
    }
    assert("some"@ != "into_once"@) by {
        reveal_strlit("some");
        reveal_strlit("into_once");
        assert("some"@[0] != "into_once"@[0] || "some"@.len() != "into_once"@.len() || "some"@[1] != "into_once"@[1]);
    }
    assert("some"@ != "stop"@) by {
        reveal_strlit("some");
        reveal_strlit("stop");
        assert("some"@[0] != "stop"@[0] || "some"@.len() != "stop"@.len() || "some"@[1] != "stop"@[1]);
    }
}

proof fn lemma_dispatch_many(s: CState, block: int, args: Seq<Box<Token>>)
    ensures
        name_expr_model(s, block, "many"@, args) == expr_vals_model(s, block, "_tredgen_many"@, args),
{
    assert("many"@ != "def"@) by {
        reveal_strlit("many");
        reveal_strlit("def");
        assert("many"@[0] != "def"@[0] || "many"@.len() != "def"@.len() || "many"@[1] != "def"@[1]);
    }
    assert("many"@ != "stat"@) by {
        reveal_strlit("many");
        reveal_strlit("stat");
        assert("many"@[0] != "stat"@[0] || "many"@.len() != "stat"@.len() || "many"@[1] != "stat"@[1]);
    }
    assert("many"@ != "not"@) by {
        reveal_strlit("many");
        reveal_strlit("not");
        assert("many"@[0] != "not"@[0] || "many"@.len() != "not"@.len() || "many"@[1] != "not"@[1]);
    }
    assert("many"@ != "capture"@) by {
        reveal_strlit("many");
        reveal_strlit("capture");
        assert("many"@[0] != "capture"@[0] || "many"@.len() != "capture"@.len() || "many"@[1] != "capture"@[1]);
    }
    assert("many"@ != "into"@) by {
        reveal_strlit("many");
        reveal_strlit("into");
        assert("many"@[0] != "into"@[0] || "many"@.len() != "into"@.len() || "many"@[1] != "into"@[1]);
    }
    assert("many"@ != "into_once"@) by {
        reveal_strlit("many");
        reveal_strlit("into_once");
        assert("many"@[0] != "into_once"@[0] || "many"@.len() != "into_once"@.len() || "many"@[1] != "into_once"@[1]);
    }
    assert("many"@ != "stop"@) by {
        reveal_strlit("many");
        reveal_strlit("stop");
        assert("many"@[0] != "stop"@[0] || "many"@.len() != "stop"@.len() || "many"@[1] != "stop"@[1]);
    }
    assert("many"@ != "some"@) by {
        reveal_strlit("many");
        reveal_strlit("some");
        assert("many"@[0] != "some"@[0] || "many"@.len() != "some"@.len() || "many"@[1] != "some"@[1]);
    }
}

proof fn lemma_dispatch_all(s: CState, block: int, args: Seq<Box<Token>>)
    ensures
        name_expr_model(s, block, "all"@, args) == expr_vals_model(s, block, "_tredgen_all"@, args),
{
    assert("all"@ != "def"@) by {
        reveal_strlit("all");
        reveal_strlit("def");
        assert("all"@[0] != "def"@[0] || "all"@.len() != "def"@.len() || "all"@[1] != "def"@[1]);
    }
    assert("all"@ != "stat"@) by {
        reveal_strlit("all");
        reveal_strlit("stat");
        assert("all"@[0] != "stat"@[0] || "all"@.len() != "stat"@.len() || "all"@[1] != "stat"@[1]);
    }
    assert("all"@ != "not"@) by {
        reveal_strlit("all");
        reveal_strlit("not");
        assert("all"@[0] != "not"@[0] || "all"@.len() != "not"@.len() || "all"@[1] != "not"@[1]);
    }
    assert("all"@ != "capture"@) by {
        reveal_strlit("all");
        reveal_strlit("capture");
        assert("all"@[0] != "capture"@[0] || "all"@.len() != "capture"@.len() || "all"@[1] != "capture"@[1]);
    }
    assert("all"@ != "into"@) by {
        reveal_strlit("all");
        reveal_strlit("into");
        assert("all"@[0] != "into"@[0] || "all"@.len() != "into"@.len() || "all"@[1] != "into"@[1]);
    }
    assert("all"@ != "into_once"@) by {
        reveal_strlit("all");
        reveal_strlit("into_once");
        assert("all"@[0] != "into_once"@[0] || "all"@.len() != "into_once"@.len() || "all"@[1] != "into_once"@[1]);
    }
    assert("all"@ != "stop"@) by {
        reveal_strlit("all");
        reveal_strlit("stop");
        assert("all"@[0] != "stop"@[0] || "all"@.len() != "stop"@.len() || "all"@[1] != "stop"@[1]);
    }
    assert("all"@ != "some"@) by {
        reveal_strlit("all");
        reveal_strlit("some");
        assert("all"@[0] != "some"@[0] || "all"@.len() != "some"@.len() || "all"@[1] != "some"@[1]);
    }
    assert("all"@ != "many"@) by {
        reveal_strlit("all");
        reveal_strlit("many");
        assert("all"@[0] != "many"@[0] || "all"@.len() != "many"@.len() || "all"@[1] != "many"@[1]);
    }
}

proof fn lemma_dispatch_option(s: CState, block: int, args: Seq<Box<Token>>)
    ensures
        name_expr_model(s, block, "option"@, args) == expr_vals_model(s, block, "_tredgen_option"@, args),
{
    assert("option"@ != "def"@) by {
        reveal_strlit("option");
        reveal_strlit("def");
        assert("option"@[0] != "def"@[0] || "option"@.len() != "def"@.len() || "option"@[1] != "def"@[1]);
    }
    assert("option"@ != "stat"@) by {
        reveal_strlit("option");
        reveal_strlit("stat");
        assert("option"@[0] != "stat"@[0] || "option"@.len() != "stat"@.len() || "option"@[1] != "stat"@[1]);
    }
    assert("option"@ != "not"@) by {
        reveal_strlit("option");
        reveal_strlit("not");
        assert("option"@[0] != "not"@[0] || "option"@.len() != "not"@.len() || "option"@[1] != "not"@[1]);
    }
    assert("option"@ != "capture"@) by {
        reveal_strlit("option");
        reveal_strlit("capture");
        assert("option"@[0] != "capture"@[0] || "option"@.len() != "capture"@.len() || "option"@[1] != "capture"@[1]);
    }
    assert("option"@ != "into"@) by {
        reveal_strlit("option");
        reveal_strlit("into");
        assert("option"@[0] != "into"@[0] || "option"@.len() != "into"@.len() || "option"@[1] != "into"@[1]);
    }
    assert("option"@ != "into_once"@) by {
        reveal_strlit("option");
        reveal_strlit("into_once");
        assert("option"@[0] != "into_once"@[0] || "option"@.len() != "into_once"@.len() || "option"@[1] != "into_once"@[1]);
    }
    assert("option"@ != "stop"@) by {
        reveal_strlit("option");
        reveal_strlit("stop");
        assert("option"@[0] != "stop"@[0] || "option"@.len() != "stop"@.len() || "option"@[1] != "stop"@[1]);
    }
    assert("option"@ != "some"@) by {
        reveal_strlit("option");
        reveal_strlit("some");
        assert("option"@[0] != "some"@[0] || "option"@.len() != "some"@.len() || "option"@[1] != "some"@[1]);
    }
    assert("option"@ != "many"@) by {
        reveal_strlit("option");
        reveal_strlit("many");
        assert("option"@[0] != "many"@[0] || "option"@.len() != "many"@.len() || "option"@[1] != "many"@[1]);
    }
    assert("option"@ != "all"@) by {
        reveal_strlit("option");
        reveal_strlit("all");
        assert("option"@[0] != "all"@[0] || "option"@.len() != "all"@.len() || "option"@[1] != "all"@[1]);
    }
}

proof fn lemma_dispatch_or(s: CState, block: int, args: Seq<Box<Token>>)
    ensures
        name_expr_model(s, block, "or"@, args) == expr_vals_model(s, block, "_tredgen_or"@, args),
{
    assert("or"@ != "def"@) by {
        reveal_strlit("or");
        reveal_strlit("def");
        assert("or"@[0] != "def"@[0] || "or"@.len() != "def"@.len() || "or"@[1] != "def"@[1]);
    }
    assert("or"@ != "stat"@) by {
        reveal_strlit("or");
        reveal_strlit("stat");
        assert("or"@[0] != "stat"@[0] || "or"@.len() != "stat"@.len() || "or"@[1] != "stat"@[1]);
    }
    assert("or"@ != "not"@) by {
        reveal_strlit("or");
        reveal_strlit("not");
        assert("or"@[0] != "not"@[0] || "or"@.len() != "not"@.len() || "or"@[1] != "not"@[1]);
    }
    assert("or"@ != "capture"@) by {
        reveal_strlit("or");
        reveal_strlit("capture");
        assert("or"@[0] != "capture"@[0] || "or"@.len() != "capture"@.len() || "or"@[1] != "capture"@[1]);
    }
    assert("or"@ != "into"@) by {
        reveal_strlit("or");
        reveal_strlit("into");
        assert("or"@[0] != "into"@[0] || "or"@.len() != "into"@.len() || "or"@[1] != "into"@[1]);
    }
    assert("or"@ != "into_once"@) by {
        reveal_strlit("or");
        reveal_strlit("into_once");
        assert("or"@[0] != "into_once"@[0] || "or"@.len() != "into_once"@.len() || "or"@[1] != "into_once"@[1]);
    }
    assert("or"@ != "stop"@) by {
        reveal_strlit("or");
        reveal_strlit("stop");
        assert("or"@[0] != "stop"@[0] || "or"@.len() != "stop"@.len() || "or"@[1] != "stop"@[1]);
    }
    assert("or"@ != "some"@) by {
        reveal_strlit("or");
        reveal_strlit("some");
        assert("or"@[0] != "some"@[0] || "or"@.len() != "some"@.len() || "or"@[1] != "some"@[1]);
    }
    assert("or"@ != "many"@) by {
        reveal_strlit("or");
        reveal_strlit("many");
        assert("or"@[0] != "many"@[0] || "or"@.len() != "many"@.len() || "or"@[1] != "many"@[1]);
    }
    assert("or"@ != "all"@) by {
        reveal_strlit("or");
        reveal_strlit("all");
        assert("or"@[0] != "all"@[0] || "or"@.len() != "all"@.len() || "or"@[1] != "all"@[1]);
    }
    assert("or"@ != "option"@) by {
        reveal_strlit("or");
        reveal_strlit("option");
        assert("or"@[0] != "option"@[0] || "or"@.len() != "option"@.len() || "or"@[1] != "option"@[1]);
    }
}

proof fn lemma_dispatch_not(s: CState, block: int, args: Seq<Box<Token>>)
    ensures
        name_expr_model(s, block, "not"@, args) == expr_val_model(s, block, "_tredgen_not"@, args),
{
    assert("not"@ != "def"@) by {
        reveal_strlit("not");
        reveal_strlit("def");
        assert("not"@[0] != "def"@[0] || "not"@.len() != "def"@.len() || "not"@[1] != "def"@[1]);
    }
    assert("not"@ != "stat"@) by {
        reveal_strlit("not");
        reveal_strlit("stat");
        assert("not"@[0] != "stat"@[0] || "not"@.len() != "stat"@.len() || "not"@[1] != "stat"@[1]);
    }
}

/// An operation on one or more values writes a call of its macro.
proof fn lemma_vals_call(s: CState, block: int, mac: Seq<char>, args: Seq<Box<Token>>)
    ensures
        expr_vals_model(s, block, mac, args) matches Some((_, c)) ==> calls_macro(c, mac),
{
    if let Some((_, c)) = expr_vals_model(s, block, mac, args) {
        let res = resvec_name(s.vars);
        let r = values_model(bump(s), block, args, args.len() as int)->0;
        let s2 = r.0;
        let out = r.1;
        let mats = r.2;
        let blk = append_block_text(s2.blocks[block].active, res);
        lemma_call_text_opens(mac, res, blk, mats);
        lemma_calls_macro(out, call_text(mac, res, blk, mats), mac);
    }
}

/// An operation on one value writes a call of its macro.
proof fn lemma_val_call(s: CState, block: int, mac: Seq<char>, args: Seq<Box<Token>>)
    ensures
        expr_val_model(s, block, mac, args) matches Some((_, c)) ==> calls_macro(c, mac),
{
    if let Some((_, c)) = expr_val_model(s, block, mac, args) {
        let r = value_model(s, block, *args[0])->0;
        let s1 = r.0;
        let piece = r.2;
        let res = resvec_name(s1.vars);
        let s2 = bump(s1);
        let mat = value_match_text(r.1)->0;
        let blk = append_block_text(s2.blocks[block].active, res);
        lemma_call_text_opens(mac, res, blk, seq![mat]);
        lemma_calls_macro(with_piece(Seq::empty(), piece), call_text(mac, res, blk, seq![mat]), mac);
    }
}

// ---- laws of the operations on targets ----

/// The target that `into` (`list`) or `into_once` with the name `n` makes
/// active in block `b`: the existing one of that name, else a new one.
pub open spec fn into_target(s: CState, b: int, n: Seq<char>, list: bool) -> IntoV {
    match named_dyn(s, b, n) {
        Some(DynV::IntoVal(rec)) => rec,
        _ => {
            let exporting = n == "export"@;
            let id = if exporting {
                "_out"@
            } else if list {
                "_intolist_"@ + decimal_text(s.vars as nat)
            } else {
                "_intoonce_"@ + decimal_text(s.vars as nat)
            };
            if list {
                IntoV::List(id)
            } else {
                IntoV::Once(id, exporting)
            }
        },
    }
}

/// A target added after the targets that do not hold it is found last.
pub proof fn lemma_first_target_push(a: Seq<IntoV>, rec: IntoV)
    requires
        first_target(a, rec) is None,
    ensures
        first_target(a.push(rec), rec) == Some(a.len() as int),
    decreases a.len(),
{
    let p = a.push(rec);
    if a.len() > 0 {
        let rest = a.subrange(1, a.len() as int);
        assert(p.subrange(1, p.len() as int) =~= rest.push(rec));
        lemma_first_target_push(rest, rec);
    }
}

/// `stop` undoes `into`: stopping a target right after `into` or
/// `into_once` made it active gives back the active targets as they were,
/// when that target was not active before; the stop writes no code.
pub proof fn lemma_into_then_stop(s: CState, b: int, args: Seq<Box<Token>>, list: bool)
    requires
        into_model(s, b, args, list) is Some,
        name_arg(args) matches Some(n) && first_target(
            s.blocks[b].active,
            into_target(s, b, n, list),
        ) is None,
    ensures
        into_model(s, b, args, list) matches Some((s1, _)) && stop_model(s1, b, args) matches Some(
            (s2, c),
        ) && s2.blocks[b].active == s.blocks[b].active && c == Seq::<char>::empty(),
{
    let n = name_arg(args)->0;
    let rec = into_target(s, b, n, list);
    let first = into_model(s, b, args, list)->0;
    let s1 = first.0;
    let a = s.blocks[b].active;
    lemma_first_target_push(a, rec);
    assert(s1.blocks[b].active == a.push(rec));
    match named_dyn(s, b, n) {
        Some(DynV::IntoVal(r)) => {},
        _ => {
            crate::compile::state::lemma_vlookup_front(
                s1.blocks[b].dyns.subrange(1, s1.blocks[b].dyns.len() as int),
                n,
                DynV::IntoVal(rec),
                n,
            );
            assert(s1.blocks[b].dyns =~= seq![(n, DynV::IntoVal(rec))] + s1.blocks[b].dyns.subrange(1, s1.blocks[b].dyns.len() as int));
        },
    }
    assert(named_dyn(s1, b, n) == Some(DynV::IntoVal(rec)));
    assert(a.push(rec).update(a.len() as int, a.push(rec).last()).drop_last() =~= a);
}

/// Where `first_target` finds `rec`, `rec` is there; it finds nothing just
/// when `rec` is not among the targets.
proof fn lemma_first_target_found(a: Seq<IntoV>, rec: IntoV)
    ensures
        first_target(a, rec) matches Some(j) ==> 0 <= j < a.len() && a[j] == rec,
        first_target(a, rec) is None <==> !a.contains(rec),
    decreases a.len(),
{
    if a.len() > 0 {
        let rest = a.subrange(1, a.len() as int);
        lemma_first_target_found(rest, rec);
        if a[0] != rec {
            if a.contains(rec) {
                let k = choose|k: int| 0 <= k < a.len() && a[k] == rec;
                assert(rest[k - 1] == rec);
            }
            if rest.contains(rec) {
                let k = choose|k: int| 0 <= k < rest.len() && rest[k] == rec;
                assert(a[k + 1] == rec);
            }
        } else {
            assert(a.contains(rec)) by {
                assert(a[0] == rec);
            }
        }
    }
}

/// `stop` on a target takes exactly that target out of the block's active
/// targets: it succeeds just when the target is active; then the active
/// targets are those before, less one occurrence of the named target, every
/// other target stays active or inactive as it was, a target that was active
/// once is no longer active, and no code is written.
pub proof fn lemma_stop_removes_target(s: CState, b: int, args: Seq<Box<Token>>, n: Seq<char>, rec: IntoV)
    requires
        0 <= b < s.blocks.len(),
        name_arg(args) == Some(n),
        named_dyn(s, b, n) == Some(DynV::IntoVal(rec)),
    ensures
        stop_model(s, b, args) is Some <==> s.blocks[b].active.contains(rec),
        stop_model(s, b, args) matches Some((s2, c)) ==> {
            &&& s2.blocks.len() == s.blocks.len()
            &&& s2.blocks[b].active.len() == s.blocks[b].active.len() - 1
            &&& s2.blocks[b].active.to_multiset() == s.blocks[b].active.to_multiset().remove(rec)
            &&& forall|x: IntoV|
                x != rec ==> (#[trigger] s2.blocks[b].active.contains(x) <==> s.blocks[b].active.contains(x))
            &&& s.blocks[b].active.to_multiset().count(rec) == 1 ==> !s2.blocks[b].active.contains(rec)
            &&& c == Seq::<char>::empty()
        },
{
    broadcast use vstd::multiset::group_multiset_axioms, vstd::seq_lib::to_multiset_update,
        vstd::seq_lib::to_multiset_build, vstd::seq_lib::to_multiset_contains, vstd::seq_lib::to_multiset_len;

    let a = s.blocks[b].active;
    lemma_first_target_found(a, rec);
    if let Some(j) = first_target(a, rec) {
        let a2 = a.update(j, a.last());
        let a3 = a2.drop_last();
        assert(a2 =~= a3.push(a2.last()));
        assert(a2.last() == a.last());
        assert(a2.to_multiset() == a.to_multiset().insert(a.last()).remove(rec));
        assert(a2.to_multiset() == a3.to_multiset().insert(a.last()));
        assert(a.contains(rec)) by {
            assert(a[j] == rec);
        }
        assert(a.to_multiset().count(rec) > 0);
        assert forall|x: IntoV| #[trigger] a3.to_multiset().count(x) == a.to_multiset().remove(rec).count(x) by {
            assert(a2.to_multiset().count(x) == a3.to_multiset().insert(a.last()).count(x));
            assert(a2.to_multiset().count(x) == a.to_multiset().insert(a.last()).remove(rec).count(x));
        }
        assert(a3.to_multiset() =~= a.to_multiset().remove(rec));
        let r = stop_model(s, b, args)->0;
        let s2 = r.0;
        assert(s2.blocks[b].active == a3);
        assert forall|x: IntoV| x != rec implies (#[trigger] a3.contains(x) <==> a.contains(x)) by {
            assert(a3.to_multiset().count(x) == a.to_multiset().count(x));
        }
        if a.to_multiset().count(rec) == 1 {
            assert(a3.to_multiset().count(rec) == 0);
        }
    }
}


// ---- laws of the table of regular expressions ----

/// The name of the static of the regular expression numbered `k`.
pub open spec fn regex_id(k: usize) -> Seq<char> {
    "_REGEX_"@ + decimal_text(k as nat)
}

/// A lookup that succeeds found an entry of the table.
pub proof fn lemma_vlookup_entry<V>(list: Seq<(Seq<char>, V)>, id: Seq<char>)
    requires
        vlookup(list, id) is Some,
    ensures
        exists|i: int| 0 <= i < list.len() && list[i].0 == id && list[i].1 == vlookup(list, id)->0,
    decreases list.len(),
{
    if list[0].0 != id {
        let rest = list.subrange(1, list.len() as int);
        lemma_vlookup_entry(rest, id);
        let i = choose|i: int| 0 <= i < rest.len() && rest[i].0 == id && rest[i].1 == vlookup(rest, id)->0;
        assert(list[i + 1] == rest[i]);
    }
}

/// Two regular expressions of one table get the same static exactly when
/// their sources are the same.
pub proof fn lemma_regex_ids(s: CState, x: Seq<char>, y: Seq<char>)
    requires
        distinct_names(s.regexs),
        regex_numbers_fresh(s),
        vlookup(s.regexs, x) is Some,
        vlookup(s.regexs, y) is Some,
    ensures
        regex_id(vlookup(s.regexs, x)->0) == regex_id(vlookup(s.regexs, y)->0) <==> x == y,
{
    if x != y {
        lemma_vlookup_entry(s.regexs, x);
        lemma_vlookup_entry(s.regexs, y);
        let i = choose|i: int| 0 <= i < s.regexs.len() && s.regexs[i].0 == x && s.regexs[i].1 == vlookup(s.regexs, x)->0;
        let j = choose|j: int| 0 <= j < s.regexs.len() && s.regexs[j].0 == y && s.regexs[j].1 == vlookup(s.regexs, y)->0;
        assert(i != j);
        if i < j {
            assert(s.regexs[i].1 != s.regexs[j].1);
        } else {
            assert(s.regexs[j].1 != s.regexs[i].1);
        }
        lemma_fresh_names_differ("_REGEX_"@, s.regexs[i].1 as nat, s.regexs[j].1 as nat);
    }
}

/// A lookup in a table finds the same value after entries are added at
/// its end.
pub proof fn lemma_vlookup_extend<V>(list: Seq<(Seq<char>, V)>, more: Seq<(Seq<char>, V)>, id: Seq<char>)
    requires
        vlookup(list, id) is Some,
    ensures
        vlookup(list + more, id) == vlookup(list, id),
    decreases list.len(),
{
    let l = list + more;
    if list[0].0 != id {
        assert(l.subrange(1, l.len() as int) =~= list.subrange(1, list.len() as int) + more);
        lemma_vlookup_extend(list.subrange(1, list.len() as int), more, id);
    }
}

/// A regular expression literal: its static is the one of its sanitized
/// source in the table, which only grows by it when the source is new; the
/// table keeps its numbers fresh while the fresh numbers do not wrap
/// around.
pub proof fn lemma_regex_step(s: CState, block: int, t: Token)
    requires
        t is Regex,
        distinct_names(s.regexs),
        regex_numbers_fresh(s),
        s.vars < usize::MAX,
    ensures
        delayed_model(s, block, t) matches Some((s1, None, StaticV::Regex(id))) && {
            let src = sanitized(t->Regex_0@);
            &&& distinct_names(s1.regexs)
            &&& regex_numbers_fresh(s1)
            &&& s1.regexs.len() >= s.regexs.len()
            &&& s1.regexs.subrange(0, s.regexs.len() as int) == s.regexs
            &&& vlookup(s1.regexs, src) matches Some(k) && id == regex_id(k)
            &&& (vlookup(s.regexs, src) is Some ==> s1.regexs == s.regexs)
        },
{
    let src = sanitized(t->Regex_0@);
    if vlookup(s.regexs, src) is None {
        let l = s.regexs.push((src, s.vars));
        assert(l.subrange(0, s.regexs.len() as int) =~= s.regexs);
        assert forall|i: int, j: int| 0 <= i < j < l.len() implies l[i].0 != l[j].0 by {
            if j == s.regexs.len() && l[i].0 == src {
                lemma_vlookup_entry_at(s.regexs, src, i);
            }
        }
        assert(l =~= s.regexs + seq![(src, s.vars)]);
        lemma_vlookup_new_last(s.regexs, src, s.vars);
    }
}

/// An entry named `id` makes the lookup of `id` succeed.
pub proof fn lemma_vlookup_entry_at<V>(list: Seq<(Seq<char>, V)>, id: Seq<char>, i: int)
    requires
        0 <= i < list.len(),
        list[i].0 == id,
    ensures
        vlookup(list, id) is Some,
    decreases i,
{
    if i > 0 && list[0].0 != id {
        let rest = list.subrange(1, list.len() as int);
        assert(rest[i - 1] == list[i]);
        lemma_vlookup_entry_at(rest, id, i - 1);
    }
}

/// A name not in a table is found in the entry added for it at the end.
pub proof fn lemma_vlookup_new_last<V>(list: Seq<(Seq<char>, V)>, id: Seq<char>, v: V)
    requires
        vlookup(list, id) is None,
    ensures
        vlookup(list.push((id, v)), id) == Some(v),
    decreases list.len(),
{
    let l = list.push((id, v));
    if list.len() > 0 {
        assert(l.subrange(1, l.len() as int) =~= list.subrange(1, list.len() as int).push((id, v)));
        lemma_vlookup_new_last(list.subrange(1, list.len() as int), id, v);
    }
}


/// One regular expression source always gets the same static, and
/// different sources get different ones: for a state `s1` and a later state
/// `s2` whose table of regular expressions extends that of `s1` (as every
/// step of the compiler ensures, see `grows`), with `s2` consistent and its
/// fresh numbers not wrapped around, a source of `s1` keeps its number, and
/// two sources have the same static exactly when they are the same.
pub proof fn lemma_regex_ids_over_run(s1: CState, s2: CState, x: Seq<char>, y: Seq<char>)
    requires
        state_wf(s2),
        !s2.wrapped,
        s1.regexs.len() <= s2.regexs.len(),
        forall|i: int| 0 <= i < s1.regexs.len() ==> #[trigger] s2.regexs[i] == s1.regexs[i],
        vlookup(s1.regexs, x) is Some,
        vlookup(s2.regexs, y) is Some,
    ensures
        vlookup(s2.regexs, x) == vlookup(s1.regexs, x),
        regex_id(vlookup(s1.regexs, x)->0) == regex_id(vlookup(s2.regexs, y)->0) <==> x == y,
{
    let more = s2.regexs.subrange(s1.regexs.len() as int, s2.regexs.len() as int);
    assert(s2.regexs =~= s1.regexs + more);
    lemma_vlookup_extend(s1.regexs, more, x);
    lemma_regex_ids(s2, x, y);
}

} // verus!

//! The compiler's steps, each proved to do what `model` says of it.
use vstd::prelude::*;
use quote::Tokens;
use crate::grammar::{Token, tok_of};
use crate::compile::code::{
    tokens_text, appended, new_tokens, put, put_code, put_str_literal, code1, code2, code_view,
    decimal, numbered, debug_text, bad_escape, expr_args_error, same_text, unescape_str,
    debug_token, token_debug,
};
use crate::compile::names::sanitize_regex;
use crate::compile::values::{
    DefPart, IntoRec, IntoV, StaticValue, Value, CaptureDat, DynValue, dyn_wf, def_part,
    def_part_debug, debug_dyn, debug_static,
};
use crate::compile::state::{
    CompileData, CState, BlockDat, BlockV, vlookup, table_view, find_key, put_first, state_wf,
    distinct_names, with_block, bump, put_dyn_model, put_static_model, set_active, empty_block,
};
use crate::compile::model::{
    name_arg, def_parts_model, block_lines, stat_lines, delayed_model, first_target, capture_model,
    into_model, stop_model, token_output, token_outputs, export_model, with_piece, call_head,
    call_args, call_text, static_model, value_model, values_model, expr_vals_model, expr_val_model,
    name_expr_model, expr_model, lines_model, later_model, from_iter_model, run_model, decls_model,
    tok_size, toks_size, lemma_toks_size, lemma_block_lines_size, lemma_stat_lines_size,
    token_output_error, token_outputs_error, value_error, delayed_error,
};

verus! {

// ---- changing the state ----

/// Replacing a block by one with the same number, parent and consistent
/// local values keeps the state consistent.
proof fn lemma_with_block_wf(s: CState, b: int, blk: BlockV)
    requires
        state_wf(s),
        0 <= b < s.blocks.len(),
        blk.index == s.blocks[b].index,
        blk.parent == s.blocks[b].parent,
        forall|j: int| 0 <= j < blk.dyns.len() ==> dyn_wf(#[trigger] blk.dyns[j].1),
    ensures
        state_wf(with_block(s, b, blk)),
{
    let n = with_block(s, b, blk);
    assert forall|i: int| 0 <= i < n.blocks.len() implies {
        &&& (#[trigger] n.blocks[i]).index == i
        &&& (n.blocks[i].parent matches Some(p) ==> p < i)
        &&& forall|j: int| 0 <= j < n.blocks[i].dyns.len() ==> dyn_wf(#[trigger] n.blocks[i].dyns[j].1)
    } by {
        if i != b {
            assert(n.blocks[i] == s.blocks[i]);
        }
    }
}

/// The view of the blocks after block `b` was changed.
proof fn lemma_blocks_update(old_blocks: Seq<BlockDat>, b: int, nb: BlockDat)
    requires
        0 <= b < old_blocks.len(),
    ensures
        old_blocks.update(b, nb).map_values(|x: BlockDat| x@) == old_blocks.map_values(
            |x: BlockDat| x@,
        ).update(b, nb@),
{
    assert(old_blocks.update(b, nb).map_values(|x: BlockDat| x@) =~= old_blocks.map_values(
        |x: BlockDat| x@,
    ).update(b, nb@));
}

/// Puts a local value in front of the local values of block `b`.
pub(crate) fn put_dyn(dat: &mut CompileData, b: usize, name: &String, v: DynValue)
    requires
        old(dat).wf(),
        b < old(dat)@.blocks.len(),
        dyn_wf(v@),
    ensures
        final(dat)@ == put_dyn_model(old(dat)@, b as int, name@, v@),
        final(dat).wf(),
{
    let ghost vv = v@;
    let ghost o = old(dat)@;
    put_first(&mut dat.blocks[b].dyns, name, v);
    proof {
        lemma_blocks_update(old(dat).blocks@, b as int, dat.blocks@[b as int]);
        let blk = BlockV { dyns: seq![(name@, vv)] + o.blocks[b as int].dyns, ..o.blocks[b as int] };
        assert(dat.blocks@[b as int]@ =~= blk);
        assert(dat@ =~= put_dyn_model(o, b as int, name@, vv));
        assert forall|j: int| 0 <= j < blk.dyns.len() implies dyn_wf(#[trigger] blk.dyns[j].1) by {
            if j > 0 {
                assert(blk.dyns[j] == o.blocks[b as int].dyns[j - 1]);
            }
        }
        lemma_with_block_wf(o, b as int, blk);
    }
}

/// Puts a static value in front of the static values of block `b`.
pub(crate) fn put_static(dat: &mut CompileData, b: usize, name: &String, v: StaticValue)
    requires
        old(dat).wf(),
        b < old(dat)@.blocks.len(),
    ensures
        final(dat)@ == put_static_model(old(dat)@, b as int, name@, v@),
        final(dat).wf(),
{
    let ghost vv = v@;
    let ghost o = old(dat)@;
    put_first(&mut dat.blocks[b].statics, name, v);
    proof {
        lemma_blocks_update(old(dat).blocks@, b as int, dat.blocks@[b as int]);
        let blk = BlockV { statics: seq![(name@, vv)] + o.blocks[b as int].statics, ..o.blocks[b as int] };
        assert(dat.blocks@[b as int]@ =~= blk);
        assert(dat@ =~= put_static_model(o, b as int, name@, vv));
        lemma_with_block_wf(o, b as int, blk);
    }
}

/// Makes `rec` an active target of block `b`.
fn push_active(dat: &mut CompileData, b: usize, rec: IntoRec)
    requires
        old(dat).wf(),
        b < old(dat)@.blocks.len(),
    ensures
        final(dat)@ == set_active(old(dat)@, b as int, old(dat)@.blocks[b as int].active.push(rec@)),
        final(dat).wf(),
{
    let ghost rv = rec@;
    let ghost o = old(dat)@;
    dat.blocks[b].active_into.push(rec);
    proof {
        lemma_blocks_update(old(dat).blocks@, b as int, dat.blocks@[b as int]);
        let blk = BlockV { active: o.blocks[b as int].active.push(rv), ..o.blocks[b as int] };
        assert(dat.blocks@[b as int]@ =~= blk);
        assert(dat@ =~= set_active(o, b as int, o.blocks[b as int].active.push(rv)));
        lemma_with_block_wf(o, b as int, blk);
    }
}

/// Takes the active target at `j` of block `b` out; the last one takes its
/// place.
fn remove_active(dat: &mut CompileData, b: usize, j: usize)
    requires
        old(dat).wf(),
        b < old(dat)@.blocks.len(),
        j < old(dat)@.blocks[b as int].active.len(),
    ensures
        final(dat)@ == set_active(
            old(dat)@,
            b as int,
            old(dat)@.blocks[b as int].active.update(
                j as int,
                old(dat)@.blocks[b as int].active.last(),
            ).drop_last(),
        ),
        final(dat).wf(),
{
    let ghost o = old(dat)@;
    dat.blocks[b].active_into.swap_remove(j);
    proof {
        lemma_blocks_update(old(dat).blocks@, b as int, dat.blocks@[b as int]);
        let a = o.blocks[b as int].active;
        let blk = BlockV { active: a.update(j as int, a.last()).drop_last(), ..o.blocks[b as int] };
        assert(dat.blocks@[b as int]@ =~= blk);
        assert(dat@ =~= set_active(o, b as int, a.update(j as int, a.last()).drop_last()));
        lemma_with_block_wf(o, b as int, blk);
    }
}

// ---- arguments ----

/// The only argument as a name.
pub(crate) fn the_name(args: &Vec<Box<Token>>) -> (r: Option<&String>)
    ensures
        match r {
            Some(n) => name_arg(args@) == Some(n@),
            None => name_arg(args@) is None,
        },
{
    if args.len() != 1 {
        return None;
    }
    match &*args[0] {
        Token::Name(n) => Some(n),
        _ => None,
    }
}

/// The first position of `rec` among the active targets.
fn find_target(active: &Vec<IntoRec>, rec: &IntoRec) -> (r: Option<usize>)
    ensures
        match r {
            Some(j) => first_target(active@.map_values(|x: IntoRec| x@), rec@) == Some(j as int),
            None => first_target(active@.map_values(|x: IntoRec| x@), rec@) is None,
        },
{
    let ghost a = active@.map_values(|x: IntoRec| x@);
    let mut j: usize = 0;
    while j < active.len()
        invariant
            j <= active@.len(),
            a == active@.map_values(|x: IntoRec| x@),
            forall|k: int| 0 <= k < j ==> a[k] != rec@,
        decreases active@.len() - j,
    {
        if active[j].same(rec) {
            proof {
                lemma_first_target_at(a, rec@, j as int);
            }
            return Some(j);
        }
        j = j + 1;
    }
    proof {
        lemma_first_target_none(a, rec@);
    }
    None
}

proof fn lemma_first_target_at(a: Seq<IntoV>, rec: IntoV, j: int)
    requires
        0 <= j < a.len(),
        a[j] == rec,
        forall|k: int| 0 <= k < j ==> a[k] != rec,
    ensures
        first_target(a, rec) == Some(j),
    decreases j,
{
    if j > 0 {
        let rest = a.subrange(1, a.len() as int);
        assert forall|k: int| 0 <= k < j - 1 implies rest[k] != rec by {
            assert(rest[k] == a[k + 1]);
        }
        lemma_first_target_at(rest, rec, j - 1);
    }
}

proof fn lemma_first_target_none(a: Seq<IntoV>, rec: IntoV)
    requires
        forall|k: int| 0 <= k < a.len() ==> a[k] != rec,
    ensures
        first_target(a, rec) is None,
    decreases a.len(),
{
    if a.len() > 0 {
        let rest = a.subrange(1, a.len() as int);
        assert forall|k: int| 0 <= k < rest.len() implies rest[k] != rec by {
            assert(rest[k] == a[k + 1]);
        }
        lemma_first_target_none(rest, rec);
    }
}

proof fn lemma_first_target_bound(a: Seq<IntoV>, rec: IntoV)
    ensures
        first_target(a, rec) matches Some(j) ==> 0 <= j < a.len(),
    decreases a.len(),
{
    if a.len() > 0 {
        lemma_first_target_bound(a.subrange(1, a.len() as int), rec);
    }
}

/// The member kinds of a `def`: each type name after the first argument.
fn def_parts(args: &Vec<Box<Token>>) -> (r: Result<Vec<DefPart>, String>)
    requires
        args@.len() >= 1,
    ensures
        match def_parts_model(args@, args@.len() as int) {
            Some(parts) => r matches Ok(v) && v@ == parts,
            None => r is Err,
        },
{
    let mut parts: Vec<DefPart> = Vec::new();
    let mut i: usize = 1;
    assert(parts@ =~= Seq::<DefPart>::empty());
    while i < args.len()
        invariant
            1 <= i <= args@.len(),
            def_parts_model(args@, i as int) == Some(parts@),
        decreases args@.len() - i,
    {
        let p = match &*args[i] {
            Token::Name(ty) => def_part(ty.as_str()),
            _ => None,
        };
        match p {
            Some(p) => parts.push(p),
            None => {
                proof {
                    lemma_def_parts_none(args@, i as int + 1, args@.len() as int);
                }
                return Err(expr_args_error("def", " <name> [<str|item|list> ...]\" has invalid args: ", args));
            },
        }
        i = i + 1;
    }
    Ok(parts)
}

proof fn lemma_def_parts_none(args: Seq<Box<Token>>, n: int, m: int)
    requires
        2 <= n <= m,
        def_parts_model(args, n) is None,
    ensures
        def_parts_model(args, m) is None,
    decreases m - n,
{
    if n < m {
        lemma_def_parts_none(args, n, m - 1);
    }
}

// ---- static values ----

/// Regular expression sources stay distinct when a new one is added.
proof fn lemma_distinct_push<V>(list: Seq<(Seq<char>, V)>, name: Seq<char>, v: V)
    requires
        distinct_names(list),
        vlookup(list, name) is None,
    ensures
        distinct_names(list.push((name, v))),
{
    let l = list.push((name, v));
    assert forall|i: int, j: int| 0 <= i < j < l.len() implies l[i].0 != l[j].0 by {
        if j == list.len() {
            if l[i].0 == name {
                lemma_vlookup_found(list, name, i);
            }
        }
    }
}

/// An entry named `id` makes the lookup of `id` succeed.
proof fn lemma_vlookup_found<V>(list: Seq<(Seq<char>, V)>, id: Seq<char>, i: int)
    requires
        0 <= i < list.len(),
        list[i].0 == id,
    ensures
        vlookup(list, id) is Some,
    decreases i,
{
    if i > 0 && list[0].0 != id {
        let rest = list.subrange(1, list.len() as int);
        assert(rest[i - 1] == list[i]);
        lemma_vlookup_found(rest, id, i - 1);
    }
}

/// A compile step that has been put off: compiling the lines of a block
/// into the body of its function.
#[derive(Clone, Copy)]
pub struct DelayedCompile<'a> {
    pub block: usize,
    pub from: &'a [Box<Token>],
}

/// The static value that a node stands for, and the block to compile later
/// (see `delayed_model`).
pub fn gen_static_value_delayed<'a>(dat: &mut CompileData, block: usize, from: &'a Token) -> (r:
    Result<(Option<DelayedCompile<'a>>, StaticValue), String>)
    requires
        old(dat).wf(),
        block < old(dat)@.blocks.len(),
    ensures
        match delayed_model(old(dat)@, block as int, *from) {
            Some((s, d, v)) => {
                &&& r matches Ok((dc, sv))
                &&& final(dat)@ == s
                &&& final(dat).wf()
                &&& sv@ == v
                &&& match d {
                    Some(i) => dc matches Some(x) && x.block == i && x.from@ == block_lines(*from),
                    None => dc is None,
                }
            },
            None => r matches Err(m) && m@ == delayed_error(*from) && *final(dat) == *old(dat),
        },
{
    let ghost o = old(dat)@;
    match from {
        Token::Block(lines) => {
            let index = dat.blocks.len();
            dat.blocks.push(BlockDat::new(index, Some(block)));
            proof {
                assert(dat@.blocks =~= o.blocks.push(empty_block(index, Some(block))));
                assert(dat@ =~= CState { blocks: o.blocks.push(empty_block(index, Some(block))), ..o });
                let n = dat@;
                assert forall|i: int| 0 <= i < n.blocks.len() implies {
                    &&& (#[trigger] n.blocks[i]).index == i
                    &&& (n.blocks[i].parent matches Some(p) ==> p < i)
                    &&& forall|j: int| 0 <= j < n.blocks[i].dyns.len() ==> dyn_wf(#[trigger] n.blocks[i].dyns[j].1)
                } by {
                    if i < o.blocks.len() {
                        assert(n.blocks[i] == o.blocks[i]);
                    }
                }
            }
            Ok((Some(DelayedCompile { block: index, from: lines.as_slice() }), StaticValue::Block { index: index }))
        },
        Token::Regex(source) => {
            let source = sanitize_regex(source.as_str());
            let ghost src = source@;
            let fresh = dat.vars.next();
            let ghost s1 = dat@;
            assert(s1 =~= bump(o));
            let index = match find_key(&dat.regexs, source.as_str()) {
                Some(k) => {
                    proof {
                        assert(table_view(dat.regexs@) =~= o.regexs);
                    }
                    dat.regexs[k].1
                },
                None => {
                    proof {
                        assert(table_view(dat.regexs@) =~= o.regexs);
                        lemma_distinct_push(o.regexs, source@, fresh);
                    }
                    dat.regexs.push((source, fresh));
                    assert(dat@ =~= CState { regexs: o.regexs.push((src, fresh)), ..s1 });
                    fresh
                },
            };
            let id = numbered("_REGEX_", index);
            Ok((None, StaticValue::Regex { id: id }))
        },
        Token::StrLiteral(value) => Ok((None, StaticValue::Str { value: value.clone() })),
        Token::Name(id) => {
            match dat.get_static(block, id) {
                Some(value) => Ok((None, value.copy())),
                None => {
                    let mut m = String::from_str(id.as_str());
                    m.append(" does not name a prior static value");
                    Err(m)
                },
            }
        },
        _ => {
            let mut m = debug_token(from);
            m.append(" is not a static value");
            Err(m)
        },
    }
}


// ---- output expressions ----

proof fn lemma_outputs_none(
    s: CState,
    b: int,
    defs: Seq<DefPart>,
    parts: Seq<Box<Token>>,
    t: Seq<char>,
    n: int,
    m: int,
)
    requires
        0 <= n <= m,
        token_outputs(s, b, defs, parts, t, n) is None,
    ensures
        token_outputs(s, b, defs, parts, t, m) is None,
    decreases m - n,
{
    if n < m {
        lemma_outputs_none(s, b, defs, parts, t, n, m - 1);
    }
}

/// Once member `i` does not fit, after all before it did, its message is
/// the message of the members up to any later count.
proof fn lemma_outputs_error(
    s: CState,
    b: int,
    defs: Seq<DefPart>,
    parts: Seq<Box<Token>>,
    t: Seq<char>,
    i: int,
    m: int,
)
    requires
        0 <= i < m <= parts.len(),
        m <= defs.len(),
        token_outputs(s, b, defs, parts, t, i) is Some,
        token_output(s, b, defs[i], *parts[i]) is None,
    ensures
        token_outputs(s, b, defs, parts, t, m) is None,
        token_outputs_error(s, b, defs, parts, t, m) == token_output_error(s, b, defs[i], *parts[i]),
    decreases m - i,
{
    if m > i + 1 {
        lemma_outputs_error(s, b, defs, parts, t, i, m - 1);
    }
}

/// The message of an expression that does not fit as a member of kind
/// `def`: `{:?} is not a valid as a {:?} member`.
fn misfit(item: &Token, def: DefPart) -> (m: String)
    ensures
        m@ == token_debug(tok_of(*item)) + " is not a valid as a "@ + def_part_debug(def) + " member"@,
{
    let mut m = debug_token(item);
    m.append(" is not a valid as a ");
    m.append(def.debug_name());
    m.append(" member");
    m
}

/// The code of an output expression as a member of kind `def`; an error
/// where the expression does not fit (see `token_output` and
/// `token_output_error`).
pub fn gen_token_output(dat: &CompileData, block: usize, def: DefPart, item: &Token) -> (r: Result<
    Tokens,
    String,
>)
    requires
        dat.wf(),
        block < dat@.blocks.len(),
    ensures
        code_view(r) == token_output(dat@, block as int, def, *item),
        r matches Err(m) ==> m@ == token_output_error(dat@, block as int, def, *item),
    decreases tok_size(*item),
{
    match item {
        Token::Tuple(Some(h), parts) => {
            match def {
                DefPart::ITEM => {},
                _ => return Err(misfit(item, def)),
            }
            let name = match &**h {
                Token::Name(name) => name,
                _ => return Err(misfit(item, def)),
            };
            assert(table_view(dat.defs@) =~= dat@.defs);
            let k = match find_key(&dat.defs, name.as_str()) {
                Some(k) => k,
                None => {
                    let mut m = name.clone();
                    m.append(" is an unknown definition");
                    return Err(m);
                },
            };
            let pd = &dat.defs[k].1;
            if pd.len() != parts.len() {
                let mut m = name.clone();
                m.append(" has ");
                m.append(decimal(pd.len()).as_str());
                m.append(" members, only ");
                m.append(decimal(parts.len()).as_str());
                m.append(" were supplied");
                return Err(m);
            }
            if pd.len() == 0 {
                let mut t = code2("Some ( :: std :: boxed :: Box :: new ( Token ::", name.as_str());
                put(&mut t, ") )");
                return Ok(t);
            }
            let mut t = code2("Some ( :: std :: boxed :: Box :: new ( Token ::", name.as_str());
            put(&mut t, "(");
            let ghost start = tokens_text(t);
            let ghost whole = token_output(dat@, block as int, def, *item);
            let ghost whole_error = token_output_error(dat@, block as int, def, *item);
            assert(whole == match token_outputs(dat@, block as int, pd@, parts@, start, parts@.len() as int) {
                Some(t) => Some(appended(t, ") ) )"@)),
                None => None,
            });
            assert(whole_error == token_outputs_error(dat@, block as int, pd@, parts@, start, parts@.len() as int));
            let mut i: usize = 0;
            while i < parts.len()
                invariant
                    dat.wf(),
                    block < dat@.blocks.len(),
                    whole == token_output(dat@, block as int, def, *item),
                    whole == match token_outputs(dat@, block as int, pd@, parts@, start, parts@.len() as int) {
                        Some(t) => Some(appended(t, ") ) )"@)),
                        None => None,
                    },
                    whole_error == token_output_error(dat@, block as int, def, *item),
                    whole_error == token_outputs_error(dat@, block as int, pd@, parts@, start, parts@.len() as int),
                    toks_size(parts@) < tok_size(*item),
                    pd@.len() == parts@.len(),
                    i <= parts@.len(),
                    token_outputs(dat@, block as int, pd@, parts@, start, i as int) == Some(
                        tokens_text(t),
                    ),
                decreases parts@.len() - i,
            {
                proof {
                    lemma_toks_size(parts@, i as int);
                }
                let c = match gen_token_output(dat, block, pd[i], &*parts[i]) {
                    Ok(c) => c,
                    Err(e) => {
                        proof {
                            lemma_outputs_error(dat@, block as int, pd@, parts@, start, i as int, parts@.len() as int);
                        }
                        return Err(e);
                    },
                };
                if i > 0 {
                    put(&mut t, ",");
                }
                put_code(&mut t, &c);
                i = i + 1;
            }
            put(&mut t, ") ) )");
            Ok(t)
        },
        Token::Name(name) => {
            let b = &dat.blocks[block];
            assert(b@ == dat@.blocks[block as int]);
            match find_key(&b.dyns, name.as_str()) {
                Some(i) => {
                    match (def, &b.dyns[i].1) {
                        (DefPart::ITEM, DynValue::IntoVal(into)) => Ok(into.as_opt(true)),
                        (DefPart::LIST, DynValue::IntoVal(into)) => Ok(into.as_vec(true)),
                        (DefPart::STR, DynValue::Capture { dat: c }) => {
                            proof {
                                assert(dat@.blocks[block as int].dyns[i as int].1 == b.dyns@[i as int].1@);
                            }
                            Ok(c.eval_own())
                        },
                        (DefPart::STR, v) => {
                            let mut m = name.clone();
                            m.append(" (");
                            m.append(debug_dyn(v).as_str());
                            m.append(") is dynamic but not a capture");
                            Err(m)
                        },
                        (_, v) => {
                            let mut m = name.clone();
                            m.append(" (");
                            m.append(debug_dyn(v).as_str());
                            m.append(") is dynamic but has not received into or into_once");
                            Err(m)
                        },
                    }
                },
                None => {
                    if def != DefPart::STR {
                        let mut m = name.clone();
                        m.append(" does not name a value");
                        return Err(m);
                    }
                    match find_key(&b.statics, name.as_str()) {
                        Some(i) => match &b.statics[i].1 {
                            StaticValue::Str { value } => match unescape_str(value.as_str()) {
                                Some(u) => {
                                    let mut t = new_tokens();
                                    put_str_literal(&mut t, u.as_str());
                                    Ok(t)
                                },
                                None => Err(bad_escape(value)),
                            },
                            v => {
                                let mut m = name.clone();
                                m.append(" (");
                                m.append(debug_static(v).as_str());
                                m.append(") is static but not a string");
                                Err(m)
                            },
                        },
                        None => {
                            let mut m = name.clone();
                            m.append(" does not name a value");
                            Err(m)
                        },
                    }
                },
            }
        },
        Token::StrLiteral(value) => {
            if def != DefPart::STR {
                return Err(misfit(item, def));
            }
            match unescape_str(value.as_str()) {
                Some(u) => {
                    let mut t = new_tokens();
                    put_str_literal(&mut t, u.as_str());
                    Ok(t)
                },
                None => Err(bad_escape(value)),
            }
        },
        _ => Err(misfit(item, def)),
    }
}

// ---- operations on local values ----

/// `capture <name>` (see `capture_model`).
pub fn compile_capture(dat: &mut CompileData, b: usize, args: &Vec<Box<Token>>) -> (r: Result<
    Tokens,
    String,
>)
    requires
        old(dat).wf(),
        b < old(dat)@.blocks.len(),
    ensures
        match capture_model(old(dat)@, b as int, args@) {
            Some((s, c)) => r is Ok && code_view(r) == Some(c) && final(dat)@ == s && final(dat).wf(),
            None => r is Err && *final(dat) == *old(dat),
        },
{
    let ghost o = old(dat)@;
    let name = match the_name(args) {
        Some(n) => n,
        None => return Err(expr_args_error("capture", " <name>\" has invalid args: ", args)),
    };
    assert(dat.blocks@[b as int]@ == o.blocks[b as int]);
    match find_key(&dat.blocks[b].dyns, name.as_str()) {
        Some(i) => {
            match &dat.blocks[b].dyns[i].1 {
                DynValue::Capture { dat: cap } => {
                    let mut c = cap.copy();
                    let t = c.gen_start();
                    put_dyn(dat, b, name, DynValue::Capture { dat: c });
                    Ok(t)
                },
                v => {
                    let mut m = String::from_str("Can not use existing value ");
                    m.append(debug_dyn(v).as_str());
                    m.append(" for capture");
                    Err(m)
                },
            }
        },
        None => {
            let mut out = new_tokens();
            let mut c = CaptureDat::start(&mut dat.vars, &mut out);
            assert(dat@ =~= bump(o));
            let t = c.gen_start();
            put_code(&mut out, &t);
            put_dyn(dat, b, name, DynValue::Capture { dat: c });
            Ok(out)
        },
    }
}

/// `into <name>` (`list`) or `into_once <name>` (see `into_model`).
pub fn compile_into(dat: &mut CompileData, b: usize, args: &Vec<Box<Token>>, list: bool) -> (r:
    Result<Tokens, String>)
    requires
        old(dat).wf(),
        b < old(dat)@.blocks.len(),
    ensures
        match into_model(old(dat)@, b as int, args@, list) {
            Some((s, c)) => r is Ok && code_view(r) == Some(c) && final(dat)@ == s && final(dat).wf(),
            None => r is Err && *final(dat) == *old(dat),
        },
{
    let ghost o = old(dat)@;
    let op = if list {
        "into"
    } else {
        "into_once"
    };
    let name = match the_name(args) {
        Some(n) => n,
        None => return Err(expr_args_error(op, " <name>\" has invalid args: ", args)),
    };
    assert(dat.blocks@[b as int]@ == o.blocks[b as int]);
    match find_key(&dat.blocks[b].dyns, name.as_str()) {
        Some(i) => {
            let rec = match &dat.blocks[b].dyns[i].1 {
                DynValue::IntoVal(rec) => {
                    let fits = match rec {
                        IntoRec::List(_) => list,
                        IntoRec::Once(_, _) => !list,
                    };
                    if fits {
                        Some(rec.copy())
                    } else {
                        None
                    }
                },
                _ => None,
            };
            match rec {
                Some(rec) => {
                    if find_target(&dat.blocks[b].active_into, &rec).is_some() {
                        let mut m = String::from_str("Already appending into \"");
                        m.append(name.as_str());
                        m.append("\"");
                        return Err(m);
                    }
                    push_active(dat, b, rec);
                    Ok(new_tokens())
                },
                None => {
                    let mut m = String::from_str("Can not append into \"");
                    m.append(name.as_str());
                    m.append("\", already has value: ");
                    m.append(debug_dyn(&dat.blocks[b].dyns[i].1).as_str());
                    Err(m)
                },
            }
        },
        None => {
            proof {
                reveal_strlit("export");
                reveal_strlit("_out");
            }
            let exporting = same_text(name.as_str(), "export");
            let id = if exporting {
                String::from_str("_out")
            } else if list {
                dat.vars.next_name("_intolist_")
            } else {
                dat.vars.next_name("_intoonce_")
            };
            let ghost s1 = dat@;
            assert(s1 =~= if exporting { o } else { bump(o) });
            let code = if exporting {
                new_tokens()
            } else if list {
                let mut t = code2("let mut", id.as_str());
                put(&mut t, "= :: std :: vec :: Vec :: new ( ) ;");
                t
            } else {
                let mut t = code2("let mut", id.as_str());
                put(&mut t, "= None ;");
                t
            };
            let rec = if list {
                IntoRec::List(id)
            } else {
                IntoRec::Once(id, exporting)
            };
            push_active(dat, b, rec.copy());
            put_dyn(dat, b, name, DynValue::IntoVal(rec));
            Ok(code)
        },
    }
}

/// `stop <name>` (see `stop_model`).
pub fn compile_stop(dat: &mut CompileData, b: usize, args: &Vec<Box<Token>>) -> (r: Result<
    Tokens,
    String,
>)
    requires
        old(dat).wf(),
        b < old(dat)@.blocks.len(),
    ensures
        match stop_model(old(dat)@, b as int, args@) {
            Some((s, c)) => r is Ok && code_view(r) == Some(c) && final(dat)@ == s && final(dat).wf(),
            None => r is Err && *final(dat) == *old(dat),
        },
{
    let ghost o = old(dat)@;
    let name = match the_name(args) {
        Some(n) => n,
        None => return Err(expr_args_error("stop", " <name>\" has invalid args: ", args)),
    };
    assert(dat.blocks@[b as int]@ == o.blocks[b as int]);
    match find_key(&dat.blocks[b].dyns, name.as_str()) {
        Some(i) => {
            match &dat.blocks[b].dyns[i].1 {
                DynValue::Capture { dat: cap } => {
                    let mut c = cap.copy();
                    let t = c.gen_end(&mut dat.vars);
                    assert(dat@ =~= if o.blocks[b as int].dyns[i as int].1->Capture_0.acc is Some {
                        o
                    } else {
                        bump(o)
                    });
                    put_dyn(dat, b, name, DynValue::Capture { dat: c });
                    Ok(t)
                },
                DynValue::IntoVal(rec) => {
                    proof {
                        lemma_first_target_bound(o.blocks[b as int].active, rec@);
                    }
                    match find_target(&dat.blocks[b].active_into, rec) {
                        Some(j) => {
                            remove_active(dat, b, j);
                            Ok(new_tokens())
                        },
                        None => {
                            let mut m = String::from_str("Can not stop nonexistent value ");
                            m.append(name.as_str());
                            Err(m)
                        },
                    }
                },
                v => {
                    let mut m = String::from_str("Can not stop value ");
                    m.append(debug_dyn(v).as_str());
                    Err(m)
                },
            }
        },
        None => {
            let mut m = String::from_str("No local value named ");
            m.append(debug_text(name).as_str());
            Err(m)
        },
    }
}

/// `export <node>` (see `export_model`).
pub fn compile_export(dat: &CompileData, b: usize, args: &Vec<Box<Token>>) -> (r: Result<
    Tokens,
    String,
>)
    requires
        dat.wf(),
        b < dat@.blocks.len(),
    ensures
        code_view(r) == match export_model(dat@, b as int, args@) {
            Some((_, c)) => Some(c),
            None => None,
        },
{
    if args.len() != 1 {
        return Err(expr_args_error("export", " <enum>(<data>...)\" has invalid args: ", args));
    }
    match gen_token_output(dat, b, DefPart::ITEM, &*args[0]) {
        Ok(e) => {
            let mut t = code1("_out . extend (");
            put_code(&mut t, &e);
            put(&mut t, ") ;");
            Ok(t)
        },
        Err(_) => Err(expr_args_error("export", " <enum>(<data>...)\" has invalid args: ", args)),
    }
}


// ---- the compiler ----

/// The state only gained blocks, and its table of regular expressions only
/// gained entries at its end.
pub open spec fn grows(o: CState, n: CState) -> bool {
    &&& n.blocks.len() >= o.blocks.len()
    &&& n.regexs.len() >= o.regexs.len()
    &&& forall|i: int| 0 <= i < o.regexs.len() ==> #[trigger] n.regexs[i] == o.regexs[i]
}

/// Sets the body of block `b`.
pub(crate) fn set_block_body(dat: &mut CompileData, b: usize, body: Tokens)
    requires
        old(dat).wf(),
        b < old(dat)@.blocks.len(),
    ensures
        final(dat)@ == crate::compile::state::set_body(old(dat)@, b as int, tokens_text(body)),
        final(dat).wf(),
{
    let ghost o = old(dat)@;
    let ghost text = tokens_text(body);
    dat.blocks[b].block = Some(body);
    proof {
        lemma_blocks_update(old(dat).blocks@, b as int, dat.blocks@[b as int]);
        let blk = BlockV { body: Some(text), ..o.blocks[b as int] };
        assert(dat.blocks@[b as int]@ =~= blk);
        assert(dat@ =~= crate::compile::state::set_body(o, b as int, text));
        lemma_with_block_wf(o, b as int, blk);
    }
}

proof fn lemma_values_none(s: CState, block: int, args: Seq<Box<Token>>, n: int, m: int)
    requires
        0 <= n <= m,
        values_model(s, block, args, n) is None,
    ensures
        values_model(s, block, args, m) is None,
    decreases m - n,
{
    if n < m {
        lemma_values_none(s, block, args, n, m - 1);
    }
}

proof fn lemma_lines_none(s: CState, block: int, toks: Seq<Box<Token>>, n: int, m: int)
    requires
        0 <= n <= m,
        lines_model(s, block, toks, n) is None,
    ensures
        lines_model(s, block, toks, m) is None,
    decreases m - n,
{
    if n < m {
        lemma_lines_none(s, block, toks, n, m - 1);
    }
}

proof fn lemma_later_none(s: CState, toks: Seq<Box<Token>>, later: Seq<(usize, int)>, n: int, m: int)
    requires
        0 <= n <= m,
        later_model(s, toks, later, n) is None,
    ensures
        later_model(s, toks, later, m) is None,
    decreases m - n,
{
    if n < m {
        lemma_later_none(s, toks, later, n, m - 1);
    }
}

proof fn lemma_decls_none(s: CState, block: int, toks: Seq<Box<Token>>, n: int, m: int)
    requires
        0 <= n <= m,
        decls_model(s, block, toks, n) is None,
    ensures
        decls_model(s, block, toks, m) is None,
    decreases m - n,
{
    if n < m {
        lemma_decls_none(s, block, toks, n, m - 1);
    }
}

impl<'a> DelayedCompile<'a> {
    /// Compiles the block's lines into its function's body (see
    /// `run_model`).
    pub fn run(&self, dat: &mut CompileData) -> (r: Result<(), String>)
        requires
            old(dat).wf(),
            self.block < old(dat)@.blocks.len(),
        ensures
            match run_model(old(dat)@, self.block as int, self.from@) {
                Some(s) => r is Ok && final(dat)@ == s && final(dat).wf() && grows(old(dat)@, final(dat)@),
                None => r is Err,
            },
        decreases toks_size(self.from@), 8int, 0int,
    {
        let body = compile_from_iter(dat, self.block, self.from)?;
        set_block_body(dat, self.block, body);
        Ok(())
    }
}

/// The static value that a node stands for; a block is compiled at once
/// (see `static_model`).
pub fn gen_static_value(dat: &mut CompileData, block: usize, from: &Token) -> (r: Result<
    StaticValue,
    String,
>)
    requires
        old(dat).wf(),
        block < old(dat)@.blocks.len(),
    ensures
        match static_model(old(dat)@, block as int, *from) {
            Some((s, v)) => r matches Ok(sv) && sv@ == v && final(dat)@ == s && final(dat).wf() && grows(
                old(dat)@,
                final(dat)@,
            ),
            None => r is Err && (from is Name ==> *final(dat) == *old(dat)),
        },
    decreases tok_size(*from), 0int, 0int,
{
    let (d, v) = gen_static_value_delayed(dat, block, from)?;
    if let Some(d) = d {
        proof {
            lemma_block_lines_size(*from);
        }
        d.run(dat)?;
    }
    Ok(v)
}

/// The value that a node stands for: a local value of the block (a capture
/// is bound to a fresh local, declared in `prefix`), else a static value
/// (see `value_model`).
pub fn gen_value(dat: &mut CompileData, block: usize, from: &Token, prefix: &mut Tokens) -> (r:
    Result<Value, String>)
    requires
        old(dat).wf(),
        block < old(dat)@.blocks.len(),
    ensures
        match value_model(old(dat)@, block as int, *from) {
            Some((s, v, piece)) => {
                &&& r matches Ok(val) && val@ == v
                &&& final(dat)@ == s
                &&& final(dat).wf()
                &&& grows(old(dat)@, final(dat)@)
                &&& tokens_text(*final(prefix)) == with_piece(tokens_text(*old(prefix)), piece)
            },
            None => {
                &&& r matches Err(m) && m@ == value_error(old(dat)@, block as int, *from)
                &&& (from is Name ==> *final(dat) == *old(dat))
            },
        },
    decreases tok_size(*from), 1int, 0int,
{
    let ghost o = old(dat)@;
    if let Token::Name(id) = from {
        assert(dat.blocks@[block as int]@ == o.blocks[block as int]);
        if let Some(i) = find_key(&dat.blocks[block].dyns, id.as_str()) {
            proof {
                assert(o.blocks[block as int].dyns[i as int].1 == dat.blocks@[block as int].dyns@[i as int].1@);
            }
            let r = dat.blocks[block].dyns[i].1.deref(&mut dat.vars, prefix);
            assert(dat@ =~= bump(o) || dat@ =~= o);
            return r;
        }
    }
    match gen_static_value(dat, block, from) {
        Ok(stat) => Ok(Value::Static(stat)),
        Err(_) => {
            let mut m = debug_token(from);
            m.append(" is not a static or local value");
            Err(m)
        },
    }
}

/// The values of the arguments, with the code that matches each; the
/// prefix code their bindings need goes to `out` (see `values_model`).
fn gen_values(dat: &mut CompileData, blocki: usize, args: &Vec<Box<Token>>, out: &mut Tokens) -> (r:
    Result<Vec<Tokens>, String>)
    requires
        old(dat).wf(),
        blocki < old(dat)@.blocks.len(),
        tokens_text(*old(out)) == Seq::<char>::empty(),
    ensures
        match values_model(old(dat)@, blocki as int, args@, args@.len() as int) {
            Some((s, o, mats)) => {
                &&& r matches Ok(v) && v@.map_values(|t: Tokens| tokens_text(t)) == mats
                &&& final(dat)@ == s
                &&& final(dat).wf()
                &&& grows(old(dat)@, final(dat)@)
                &&& tokens_text(*final(out)) == o
            },
            None => r is Err,
        },
    decreases toks_size(args@), 2int, 0int,
{
    let ghost o = old(dat)@;
    let mut mats: Vec<Tokens> = Vec::new();
    let mut i: usize = 0;
    assert(mats@.map_values(|t: Tokens| tokens_text(t)) =~= Seq::<Seq<char>>::empty());
    while i < args.len()
        invariant
            o == old(dat)@,
            dat.wf(),
            blocki < dat@.blocks.len(),
            grows(o, dat@),
            i <= args@.len(),
            values_model(o, blocki as int, args@, i as int) == Some(
                (dat@, tokens_text(*out), mats@.map_values(|t: Tokens| tokens_text(t))),
            ),
        decreases args@.len() - i,
    {
        proof {
            lemma_toks_size(args@, i as int);
        }
        let ghost before = mats@.map_values(|t: Tokens| tokens_text(t));
        let val = match gen_value(dat, blocki, &*args[i], out) {
            Ok(v) => v,
            Err(e) => {
                proof {
                    lemma_values_none(o, blocki as int, args@, i as int + 1, args@.len() as int);
                }
                return Err(e);
            },
        };
        let mat = match val.gen_match(out) {
            Ok(m) => m,
            Err(e) => {
                proof {
                    lemma_values_none(o, blocki as int, args@, i as int + 1, args@.len() as int);
                }
                return Err(e);
            },
        };
        let ghost mt = tokens_text(mat);
        mats.push(mat);
        assert(mats@.map_values(|t: Tokens| tokens_text(t)) =~= before.push(mt));
        i = i + 1;
    }
    Ok(mats)
}

/// A macro call: `mac ! ( _at , _text , res , block , m , ... ) ;`.
fn gen_call(mac: &str, res: &str, block: &Tokens, mats: &Vec<Tokens>) -> (t: Tokens)
    ensures
        tokens_text(t) == call_text(mac@, res@, tokens_text(*block), mats@.map_values(|t: Tokens| tokens_text(t))),
{
    let ghost ms = mats@.map_values(|t: Tokens| tokens_text(t));
    let mut call = code2(mac, "! ( _at , _text ,");
    put(&mut call, res);
    put(&mut call, ",");
    put_code(&mut call, block);
    let ghost head = tokens_text(call);
    let mut j: usize = 0;
    while j < mats.len()
        invariant
            j <= mats@.len(),
            ms == mats@.map_values(|t: Tokens| tokens_text(t)),
            head == call_head(mac@, res@, tokens_text(*block)),
            tokens_text(call) == call_args(head, ms, j as int),
        decreases mats@.len() - j,
    {
        put(&mut call, ",");
        put_code(&mut call, &mats[j]);
        j = j + 1;
    }
    put(&mut call, ") ;");
    call
}

/// `mac!(_at, _text, resvec, append-block, match, match, ...);` for an
/// expression whose arguments are all values (see `expr_vals_model`).
pub fn gen_expr_vals(mac: &str, op: &str, dat: &mut CompileData, blocki: usize, args: &Vec<
    Box<Token>,
>) -> (r: Result<Tokens, String>)
    requires
        old(dat).wf(),
        blocki < old(dat)@.blocks.len(),
    ensures
        match expr_vals_model(old(dat)@, blocki as int, mac@, args@) {
            Some((s, c)) => r is Ok && code_view(r) == Some(c) && final(dat)@ == s && final(dat).wf()
                && grows(old(dat)@, final(dat)@),
            None => r is Err,
        },
    decreases toks_size(args@), 3int, 0int,
{
    let ghost o = old(dat)@;
    if args.len() < 1 {
        return Err(expr_args_error(op, " <value> [<value>...]\" has invalid args: ", args));
    }
    let mut out = new_tokens();
    let res_vec = dat.vars.next_name("_resvec_");
    assert(dat@ =~= bump(o));
    let mats = gen_values(dat, blocki, args, &mut out)?;
    let block = dat.blocks[blocki].gen_append(&dat.vars, res_vec.as_str());
    assert(dat.blocks@[blocki as int]@ == dat@.blocks[blocki as int]);
    let call = gen_call(mac, res_vec.as_str(), &block, &mats);
    put_code(&mut out, &call);
    Ok(out)
}

/// `mac!(_at, _text, resvec, append-block, match);` for an expression
/// with one value argument (see `expr_val_model`).
pub fn gen_expr_val(mac: &str, op: &str, dat: &mut CompileData, blocki: usize, args: &Vec<
    Box<Token>,
>) -> (r: Result<Tokens, String>)
    requires
        old(dat).wf(),
        blocki < old(dat)@.blocks.len(),
    ensures
        match expr_val_model(old(dat)@, blocki as int, mac@, args@) {
            Some((s, c)) => r is Ok && code_view(r) == Some(c) && final(dat)@ == s && final(dat).wf()
                && grows(old(dat)@, final(dat)@),
            None => r is Err,
        },
    decreases toks_size(args@), 3int, 0int,
{
    let ghost o = old(dat)@;
    if args.len() != 1 {
        return Err(expr_args_error(op, " <value>\" has invalid args: ", args));
    }
    let mut out = new_tokens();
    proof {
        lemma_toks_size(args@, 0);
    }
    let val = match gen_value(dat, blocki, &*args[0], &mut out) {
        Ok(v) => v,
        Err(_) => return Err(expr_args_error(op, " <value>\" has invalid args: ", args)),
    };
    let ghost s1 = dat@;
    let res_vec = dat.vars.next_name("_resvec_");
    assert(dat@ =~= bump(s1));
    let block = dat.blocks[blocki].gen_append(&dat.vars, res_vec.as_str());
    assert(dat.blocks@[blocki as int]@ == dat@.blocks[blocki as int]);
    let mat = val.gen_match(&mut out)?;
    let ghost mt = tokens_text(mat);
    let mut mats: Vec<Tokens> = Vec::new();
    mats.push(mat);
    assert(mats@.map_values(|t: Tokens| tokens_text(t)) =~= seq![mt]);
    let call = gen_call(mac, res_vec.as_str(), &block, &mats);
    put_code(&mut out, &call);
    Ok(out)
}

/// Compiles a line that names an operation (see `name_expr_model`).
pub fn compile_name_expr(dat: &mut CompileData, blocki: usize, op: &String, args: &Vec<Box<Token>>) -> (r:
    Result<Tokens, String>)
    requires
        old(dat).wf(),
        blocki < old(dat)@.blocks.len(),
    ensures
        match name_expr_model(old(dat)@, blocki as int, op@, args@) {
            Some((s, c)) => r is Ok && code_view(r) == Some(c) && final(dat)@ == s && final(dat).wf()
                && grows(old(dat)@, final(dat)@),
            None => r is Err,
        },
    decreases toks_size(args@), 4int, 0int,
{
    let o = op.as_str();
    if same_text(o, "def") || same_text(o, "stat") {
        Ok(new_tokens())
    } else if same_text(o, "not") {
        gen_expr_val("_tredgen_not", "not", dat, blocki, args)
    } else if same_text(o, "capture") {
        compile_capture(dat, blocki, args)
    } else if same_text(o, "into") {
        compile_into(dat, blocki, args, true)
    } else if same_text(o, "into_once") {
        compile_into(dat, blocki, args, false)
    } else if same_text(o, "stop") {
        compile_stop(dat, blocki, args)
    } else if same_text(o, "some") {
        gen_expr_vals("_tredgen_some", "some", dat, blocki, args)
    } else if same_text(o, "many") {
        gen_expr_vals("_tredgen_many", "many", dat, blocki, args)
    } else if same_text(o, "all") {
        gen_expr_vals("_tredgen_all", "all", dat, blocki, args)
    } else if same_text(o, "option") {
        gen_expr_vals("_tredgen_option", "option", dat, blocki, args)
    } else if same_text(o, "or") {
        gen_expr_vals("_tredgen_or", "option", dat, blocki, args)
    } else if same_text(o, "export") {
        compile_export(dat, blocki, args)
    } else {
        let mut m = String::from_str("Unknown operation: ");
        m.append(o);
        Err(m)
    }
}

/// Compiles one line: a value to match (its results go to the active
/// targets), or a named operation (see `expr_model`).
pub fn compile_expr(dat: &mut CompileData, block: usize, op: &Token, args: &Vec<Box<Token>>) -> (r:
    Result<Tokens, String>)
    requires
        old(dat).wf(),
        block < old(dat)@.blocks.len(),
    ensures
        match expr_model(old(dat)@, block as int, *op, args@) {
            Some((s, c)) => r is Ok && code_view(r) == Some(c) && final(dat)@ == s && final(dat).wf()
                && grows(old(dat)@, final(dat)@),
            None => r is Err,
        },
    decreases tok_size(*op) + toks_size(args@), 5int, 0int,
{
    let mut out = new_tokens();
    match gen_value(dat, block, op, &mut out) {
        Ok(val) => {
            let ghost s1 = dat@;
            let res_vec = dat.vars.next_name("_resvec_");
            assert(dat@ =~= bump(s1));
            let blk = dat.blocks[block].gen_append(&dat.vars, res_vec.as_str());
            assert(dat.blocks@[block as int]@ == dat@.blocks[block as int]);
            let mat = val.gen_match(&mut out)?;
            let mut call = code2("_tredgen_append ! ( _at ,", res_vec.as_str());
            put(&mut call, ",");
            put_code(&mut call, &blk);
            put(&mut call, ",");
            put_code(&mut call, &mat);
            put(&mut call, "? ) ;");
            put_code(&mut out, &call);
            Ok(out)
        },
        Err(_) => {
            match op {
                Token::Name(name) => compile_name_expr(dat, block, name, args),
                _ => {
                    let mut m = debug_token(op);
                    m.append(" is not a matchable value or operation");
                    Err(m)
                },
            }
        },
    }
}

/// The blocks to compile later agree with the model's list `lv`: block
/// numbers in range, each with the lines of the `stat` line that named it.
pub open spec fn later_ok(later: Seq<DelayedCompile>, lv: Seq<(usize, int)>, toks: Seq<Box<Token>>, s: CState) -> bool {
    &&& later.len() == lv.len()
    &&& forall|k: int|
        0 <= k < lv.len() ==> {
            &&& (#[trigger] later[k]).block == lv[k].0
            &&& 0 <= lv[k].1 < toks.len()
            &&& later[k].from@ == stat_lines(*toks[lv[k].1])
            &&& lv[k].0 < s.blocks.len()
        }
}

proof fn lemma_later_ok_grow(later: Seq<DelayedCompile>, lv: Seq<(usize, int)>, toks: Seq<Box<Token>>, s: CState, s2: CState)
    requires
        later_ok(later, lv, toks, s),
        s2.blocks.len() >= s.blocks.len(),
    ensures
        later_ok(later, lv, toks, s2),
{
}

proof fn lemma_later_ok_push(
    later: Seq<DelayedCompile>,
    lv: Seq<(usize, int)>,
    toks: Seq<Box<Token>>,
    s: CState,
    d: DelayedCompile,
    k: int,
)
    requires
        later_ok(later, lv, toks, s),
        0 <= k < toks.len(),
        d.from@ == stat_lines(*toks[k]),
        d.block < s.blocks.len(),
    ensures
        later_ok(later.push(d), lv.push((d.block, k)), toks, s),
{
    let l2 = later.push(d);
    let v2 = lv.push((d.block, k));
    assert forall|j: int| 0 <= j < v2.len() implies {
        &&& (#[trigger] l2[j]).block == v2[j].0
        &&& 0 <= v2[j].1 < toks.len()
        &&& l2[j].from@ == stat_lines(*toks[v2[j].1])
        &&& v2[j].0 < s.blocks.len()
    } by {
        if j < lv.len() {
            assert(l2[j] == later[j]);
            assert(v2[j] == lv[j]);
        }
    }
}

/// The `stat` and `def` lines of a block (see `decls_model`); gives the
/// blocks to compile later.
fn compile_decls<'a>(dat: &mut CompileData, block: usize, toks: &'a [Box<Token>]) -> (r: Result<
    (Vec<DelayedCompile<'a>>, Ghost<Seq<(usize, int)>>),
    String,
>)
    requires
        old(dat).wf(),
        block < old(dat)@.blocks.len(),
    ensures
        match decls_model(old(dat)@, block as int, toks@, toks@.len() as int) {
            Some((s, lv)) => {
                &&& r matches Ok((later, g)) && g@ == lv && later_ok(later@, lv, toks@, s)
                &&& final(dat)@ == s
                &&& final(dat).wf()
                &&& grows(old(dat)@, final(dat)@)
            },
            None => r is Err,
        },
{
    let ghost o = old(dat)@;
    let mut later: Vec<DelayedCompile> = Vec::new();
    let ghost mut lv: Seq<(usize, int)> = Seq::empty();
    let mut i: usize = 0;
    while i < toks.len()
        invariant
            o == old(dat)@,
            dat.wf(),
            block < dat@.blocks.len(),
            grows(o, dat@),
            i <= toks@.len(),
            decls_model(o, block as int, toks@, i as int) == Some((dat@, lv)),
            later_ok(later@, lv, toks@, dat@),
        decreases toks@.len() - i,
    {
        let ghost s0 = dat@;
        if let Token::Expr(Some(op), args) = &*toks[i] {
            if let Token::Name(opname) = &**op {
                if same_text(opname.as_str(), "stat") {
                    if args.len() != 2 {
                        proof {
                            lemma_decls_none(o, block as int, toks@, i as int + 1, toks@.len() as int);
                        }
                        return Err(expr_args_error("stat", " <name> <value>\" has invalid args: ", args));
                    }
                    let name = match &*args[0] {
                        Token::Name(name) => name,
                        _ => {
                            proof {
                                lemma_decls_none(o, block as int, toks@, i as int + 1, toks@.len() as int);
                            }
                            return Err(expr_args_error("stat", " <name> <value>\" has invalid args: ", args));
                        },
                    };
                    let (d, v) = match gen_static_value_delayed(dat, block, &*args[1]) {
                        Ok(x) => x,
                        Err(e) => {
                            proof {
                                lemma_decls_none(o, block as int, toks@, i as int + 1, toks@.len() as int);
                            }
                            return Err(e);
                        },
                    };
                    let ghost s1 = dat@;
                    proof {
                        lemma_later_ok_grow(later@, lv, toks@, s0, s1);
                    }
                    if let Some(d) = d {
                        proof {
                            assert(stat_lines(*toks@[i as int]) == block_lines(*args@[1]));
                            lemma_later_ok_push(later@, lv, toks@, s1, d, i as int);
                        }
                        later.push(d);
                        proof {
                            lv = lv.push((d.block, i as int));
                        }
                    }
                    put_static(dat, block, name, v);
                    proof {
                        lemma_later_ok_grow(later@, lv, toks@, s1, dat@);
                    }
                } else if same_text(opname.as_str(), "def") {
                    let name = if args.len() >= 1 {
                        match &*args[0] {
                            Token::Name(name) => name,
                            _ => {
                                proof {
                                    lemma_decls_none(o, block as int, toks@, i as int + 1, toks@.len() as int);
                                }
                                return Err(expr_args_error("def", " <name> [<str|item|list> ...]\" has invalid args: ", args));
                            },
                        }
                    } else {
                        proof {
                            lemma_decls_none(o, block as int, toks@, i as int + 1, toks@.len() as int);
                        }
                        return Err(expr_args_error("def", " <name> [<str|item|list> ...]\" has invalid args: ", args));
                    };
                    let parts = match def_parts(args) {
                        Ok(p) => p,
                        Err(e) => {
                            proof {
                                lemma_decls_none(o, block as int, toks@, i as int + 1, toks@.len() as int);
                            }
                            return Err(e);
                        },
                    };
                    assert(table_view(dat.defs@) =~= dat@.defs);
                    if find_key(&dat.defs, name.as_str()).is_some() {
                        proof {
                            lemma_decls_none(o, block as int, toks@, i as int + 1, toks@.len() as int);
                        }
                        let mut m = name.clone();
                        m.append(" is already defined");
                        return Err(m);
                    }
                    let ghost pv = parts@;
                    proof {
                        lemma_distinct_push(s0.defs, name@, pv);
                    }
                    dat.defs.push((name.clone(), parts));
                    assert(dat@ =~= CState { defs: s0.defs.push((name@, pv)), ..s0 });
                    proof {
                        lemma_later_ok_grow(later@, lv, toks@, s0, dat@);
                    }
                }
            }
        }
        i = i + 1;
    }
    Ok((later, Ghost(lv)))
}

/// Compiles the blocks that the `stat` lines named, in order (see
/// `later_model`).
fn run_later(dat: &mut CompileData, toks: &[Box<Token>], later: &Vec<DelayedCompile>, Ghost(lv): Ghost<Seq<(usize, int)>>) -> (r: Result<(), String>)
    requires
        old(dat).wf(),
        later_ok(later@, lv, toks@, old(dat)@),
    ensures
        match later_model(old(dat)@, toks@, lv, lv.len() as int) {
            Some(s) => r is Ok && final(dat)@ == s && final(dat).wf() && grows(old(dat)@, final(dat)@),
            None => r is Err,
        },
    decreases toks_size(toks@), 6int, 0int,
{
    let ghost o = old(dat)@;
    let mut j: usize = 0;
    while j < later.len()
        invariant
            o == old(dat)@,
            dat.wf(),
            grows(o, dat@),
            j <= later@.len(),
            later_ok(later@, lv, toks@, dat@),
            later_model(o, toks@, lv, j as int) == Some(dat@),
        decreases later@.len() - j,
    {
        let d = later[j];
        proof {
            lemma_toks_size(toks@, lv[j as int].1);
            lemma_stat_lines_size(*toks@[lv[j as int].1]);
        }
        match d.run(dat) {
            Ok(()) => {},
            Err(e) => {
                proof {
                    lemma_later_none(o, toks@, lv, j as int + 1, lv.len() as int);
                }
                return Err(e);
            },
        }
        j = j + 1;
    }
    Ok(())
}

/// Compiles every line of a block, in order, after the code that starts
/// the block's function (see `lines_model`).
fn compile_lines(dat: &mut CompileData, block: usize, toks: &[Box<Token>]) -> (r: Result<Tokens, String>)
    requires
        old(dat).wf(),
        block < old(dat)@.blocks.len(),
    ensures
        match lines_model(old(dat)@, block as int, toks@, toks@.len() as int) {
            Some((s, c)) => r is Ok && code_view(r) == Some(c) && final(dat)@ == s && final(dat).wf()
                && grows(old(dat)@, final(dat)@),
            None => r is Err,
        },
    decreases toks_size(toks@), 6int, 0int,
{
    let ghost o = old(dat)@;
    let mut code = code1("let mut _at = _start ; let mut _out = :: std :: vec :: Vec :: new ( ) ;");
    let mut i: usize = 0;
    while i < toks.len()
        invariant
            o == old(dat)@,
            dat.wf(),
            block < dat@.blocks.len(),
            grows(o, dat@),
            i <= toks@.len(),
            lines_model(o, block as int, toks@, i as int) == Some((dat@, tokens_text(code))),
        decreases toks@.len() - i,
    {
        proof {
            lemma_toks_size(toks@, i as int);
        }
        match &*toks[i] {
            Token::Expr(Some(op), args) => {
                let c = match compile_expr(dat, block, &**op, args) {
                    Ok(c) => c,
                    Err(e) => {
                        proof {
                            lemma_lines_none(o, block as int, toks@, i as int + 1, toks@.len() as int);
                        }
                        return Err(e);
                    },
                };
                put_code(&mut code, &c);
            },
            Token::Comment(_) => {},
            _ => {
                proof {
                    lemma_lines_none(o, block as int, toks@, i as int + 1, toks@.len() as int);
                }
                let mut m = debug_token(&*toks[i]);
                m.append(" is not a valid program line");
                return Err(m);
            },
        }
        i = i + 1;
    }
    Ok(code)
}

/// Compiles the lines of a block: first the `stat` and `def` lines, then
/// the blocks that those named, then every line in order into the body of
/// the block's function (see `from_iter_model`).
pub fn compile_from_iter(dat: &mut CompileData, block: usize, toks: &[Box<Token>]) -> (r: Result<
    Tokens,
    String,
>)
    requires
        old(dat).wf(),
        block < old(dat)@.blocks.len(),
    ensures
        match from_iter_model(old(dat)@, block as int, toks@) {
            Some((s, c)) => r is Ok && code_view(r) == Some(c) && final(dat)@ == s && final(dat).wf()
                && grows(old(dat)@, final(dat)@),
            None => r is Err,
        },
    decreases toks_size(toks@), 7int, 0int,
{
    let (later, lv) = compile_decls(dat, block, toks)?;
    run_later(dat, toks, &later, lv)?;
    let mut code = compile_lines(dat, block, toks)?;
    put(&mut code, "Ok ( ( _at , _out ) )");
    Ok(code)
}

} // verus!

//! The items that a compiled grammar becomes: the `Token` enum of its
//! defined kinds, the `parse` function, the statics of its regular
//! expressions and the functions of its blocks.
use vstd::prelude::*;
use quote::Tokens;
use crate::grammar::Token;
use crate::compile::code::{
    tokens_text, appended, toks1, toks2, toks4, new_tokens, put, put_code, put_str_literal,
    rust_str_literal, code1, code2, code_view, decimal, decimal_text, numbered,
};
use crate::compile::values::{DefPart, def_part_type, vec_box, block_fn_name};
use crate::compile::state::{CompileData, CState, BlockDat, BlockV, set_body};
use crate::compile::model::{from_iter_model, start_state};
use crate::compile::steps::{compile_from_iter, set_block_body};

verus! {

// ---- the generated items ----

/// `t` followed by the types of the first `n` members, separated by commas.
pub open spec fn member_types_text(t: Seq<char>, parts: Seq<DefPart>, n: int) -> Seq<char>
    decreases n,
{
    if n <= 0 || n > parts.len() {
        t
    } else {
        let prev = member_types_text(t, parts, n - 1);
        appended(
            if n > 1 {
                appended(prev, ","@)
            } else {
                prev
            },
            def_part_type(parts[n - 1]),
        )
    }
}

/// The variant of the generated `Token` enum for a defined kind.
pub open spec fn variant_text(id: Seq<char>, parts: Seq<DefPart>) -> Seq<char> {
    if parts.len() == 0 {
        toks1(id)
    } else {
        appended(member_types_text(toks2(id, "("@), parts, parts.len() as int), ")"@)
    }
}

/// `t` followed by the first `n` variants, each with a comma after it.
pub open spec fn variants_text(t: Seq<char>, defs: Seq<(Seq<char>, Seq<DefPart>)>, n: int) -> Seq<char>
    decreases n,
{
    if n <= 0 || n > defs.len() {
        t
    } else {
        appended(
            appended(variants_text(t, defs, n - 1), variant_text(defs[n - 1].0, defs[n - 1].1)),
            ","@,
        )
    }
}

/// The generated `Token` enum.
pub open spec fn enum_text(defs: Seq<(Seq<char>, Seq<DefPart>)>) -> Seq<char> {
    appended(
        variants_text(toks1("# [ derive ( Clone , Debug ) ] pub enum Token {"@), defs, defs.len() as int),
        "}"@,
    )
}

/// The type of a block's output.
pub open spec fn output_type() -> Seq<char> {
    "::std::vec::Vec<::std::boxed::Box<"@ + "Token"@ + ">>"@
}

/// The generated `parse` function, which runs the function of the first
/// block from the start of the input.
pub open spec fn parse_fn_text(main: Seq<char>) -> Seq<char> {
    appended(
        toks4("pub fn parse ( input : & str ) -> Result <"@, output_type(), ", :: tredlib :: ParseErr > { match"@, main),
        "( 0usize , input ) { Result :: Ok ( ( _ , tree ) ) => Result :: Ok ( tree ) , Result :: Err ( err ) => Result :: Err ( err ) , } }"@,
    )
}

/// The static of one regular expression, anchored at the start.
pub open spec fn regex_static_text(t: Seq<char>, source: Seq<char>, index: nat) -> Seq<char> {
    appended(
        appended(
            appended(
                appended(appended(t, "static ref"@), "_REGEX_"@ + decimal_text(index)),
                ": :: tredlib :: regex :: Regex = :: tredlib :: regex :: Regex :: new ("@,
            ),
            rust_str_literal(seq!['^'] + source),
        ),
        ") . unwrap ( ) ;"@,
    )
}

/// `t` followed by the statics of the first `n` regular expressions.
pub open spec fn regex_statics_text(t: Seq<char>, regexs: Seq<(Seq<char>, usize)>, n: int) -> Seq<char>
    decreases n,
{
    if n <= 0 || n > regexs.len() {
        t
    } else {
        regex_static_text(
            regex_statics_text(t, regexs, n - 1),
            regexs[n - 1].0,
            regexs[n - 1].1 as nat,
        )
    }
}

/// The `lazy_static!` of the regular expressions.
pub open spec fn regexes_text(regexs: Seq<(Seq<char>, usize)>) -> Seq<char> {
    appended(regex_statics_text(toks1("lazy_static ! {"@), regexs, regexs.len() as int), "}"@)
}

/// The function of a block with the given body.
pub open spec fn block_fn_text(index: nat, body: Seq<char>) -> Seq<char> {
    appended(
        appended(
            toks4(
                "fn"@,
                block_fn_name(index),
                "( _start : usize , _text : & str ) -> Result < ( usize ,"@,
                output_type(),
            ),
            ") , :: tredlib :: ParseErr > {"@,
        ),
        appended(body, "}"@),
    )
}

/// `t` followed by the functions of the first `n` blocks; `None` when one
/// of them has no body.
pub open spec fn block_fns_text(t: Seq<char>, blocks: Seq<BlockV>, n: int) -> Option<Seq<char>>
    decreases n,
{
    if n <= 0 || n > blocks.len() {
        Some(t)
    } else {
        match block_fns_text(t, blocks, n - 1) {
            Some(prev) => match blocks[n - 1].body {
                Some(body) => Some(appended(prev, block_fn_text(blocks[n - 1].index as nat, body))),
                None => None,
            },
            None => None,
        }
    }
}

/// All the generated items of a compiled grammar: the `Token` enum, the
/// `parse` function, the regular expressions and the block functions.
pub open spec fn items_text(d: CState) -> Option<Seq<char>> {
    if d.blocks.len() == 0 {
        None
    } else {
        let head = appended(
            appended(
                appended(Seq::empty(), enum_text(d.defs)),
                parse_fn_text(block_fn_name(d.blocks[0].index as nat)),
            ),
            regexes_text(d.regexs),
        );
        block_fns_text(head, d.blocks, d.blocks.len() as int)
    }
}

/// The generated `Token` enum.

/// The generated `Token` enum.
fn gen_enum(dat: &CompileData) -> (t: Tokens)
    ensures
        tokens_text(t) == enum_text(dat@.defs),
{
    let ghost defs = dat@.defs;
    let mut e = code1("# [ derive ( Clone , Debug ) ] pub enum Token {");
    let mut i: usize = 0;
    while i < dat.defs.len()
        invariant
            defs == dat@.defs,
            i <= defs.len(),
            tokens_text(e) == variants_text(
                toks1("# [ derive ( Clone , Debug ) ] pub enum Token {"@),
                defs,
                i as int,
            ),
        decreases defs.len() - i,
    {
        let id = &dat.defs[i].0;
        let parts = &dat.defs[i].1;
        assert(defs[i as int] == (id@, parts@));
        let mut v = code1(id.as_str());
        if parts.len() > 0 {
            put(&mut v, "(");
            let ghost start = tokens_text(v);
            let mut j: usize = 0;
            while j < parts.len()
                invariant
                    j <= parts@.len(),
                    tokens_text(v) == member_types_text(start, parts@, j as int),
                decreases parts@.len() - j,
            {
                if j > 0 {
                    put(&mut v, ",");
                }
                let ty = parts[j].ty();
                put(&mut v, ty.as_str());
                j = j + 1;
            }
            put(&mut v, ")");
        }
        put_code(&mut e, &v);
        put(&mut e, ",");
        i = i + 1;
    }
    put(&mut e, "}");
    e
}

/// The generated `parse` function.
fn gen_parse_fn(main: &str) -> (t: Tokens)
    ensures
        tokens_text(t) == parse_fn_text(main@),
{
    let vbt = vec_box("Token");
    let mut p = code2("pub fn parse ( input : & str ) -> Result <", vbt.as_str());
    put(&mut p, ", :: tredlib :: ParseErr > { match");
    put(&mut p, main);
    put(
        &mut p,
        "( 0usize , input ) { Result :: Ok ( ( _ , tree ) ) => Result :: Ok ( tree ) , Result :: Err ( err ) => Result :: Err ( err ) , } }",
    );
    p
}

/// The statics of the regular expressions.
fn gen_regexes(dat: &CompileData) -> (t: Tokens)
    ensures
        tokens_text(t) == regexes_text(dat@.regexs),
{
    let ghost regexs = dat@.regexs;
    let mut l = code1("lazy_static ! {");
    let mut i: usize = 0;
    while i < dat.regexs.len()
        invariant
            regexs == dat@.regexs,
            i <= regexs.len(),
            tokens_text(l) == regex_statics_text(toks1("lazy_static ! {"@), regexs, i as int),
        decreases regexs.len() - i,
    {
        let id = numbered("_REGEX_", dat.regexs[i].1);
        let mut src = String::from_str("^");
        src.append(dat.regexs[i].0.as_str());
        proof {
            reveal_strlit("^");
            assert(src@ =~= seq!['^'] + regexs[i as int].0);
        }
        put(&mut l, "static ref");
        put(&mut l, id.as_str());
        put(&mut l, ": :: tredlib :: regex :: Regex = :: tredlib :: regex :: Regex :: new (");
        put_str_literal(&mut l, src.as_str());
        put(&mut l, ") . unwrap ( ) ;");
        i = i + 1;
    }
    put(&mut l, "}");
    l
}

proof fn lemma_block_fns_none(t: Seq<char>, blocks: Seq<BlockV>, n: int, m: int)
    requires
        0 <= n <= m <= blocks.len(),
        block_fns_text(t, blocks, n) is None,
    ensures
        block_fns_text(t, blocks, m) is None,
    decreases m - n,
{
    if n < m {
        lemma_block_fns_none(t, blocks, n, m - 1);
    }
}

/// All the generated items of a compiled grammar (see `items_text`).
pub fn compile_items(dat: &CompileData) -> (r: Result<Tokens, String>)
    ensures
        code_view(r) == items_text(dat@),
{
    if dat.blocks.len() == 0 {
        return Err(String::from_str("no block was compiled"));
    }
    let mut items = new_tokens();
    put_code(&mut items, &gen_enum(dat));
    let main = numbered("_blockfn_", dat.blocks[0].index);
    put_code(&mut items, &gen_parse_fn(main.as_str()));
    put_code(&mut items, &gen_regexes(dat));
    let ghost head = tokens_text(items);
    let ghost blocks = dat@.blocks;
    let vbt = vec_box("Token");
    let mut i: usize = 0;
    while i < dat.blocks.len()
        invariant
            blocks == dat@.blocks,
            i <= blocks.len(),
            blocks.len() > 0,
            items_text(dat@) == block_fns_text(head, blocks, blocks.len() as int),
            block_fns_text(head, blocks, i as int) == Some(tokens_text(items)),
            vbt@ == output_type(),
        decreases blocks.len() - i,
    {
        let b = &dat.blocks[i];
        assert(blocks[i as int] == b@);
        match &b.block {
            Some(body) => {
                let id = numbered("_blockfn_", b.index);
                let mut f = code2("fn", id.as_str());
                put(&mut f, "( _start : usize , _text : & str ) -> Result < ( usize ,");
                put(&mut f, vbt.as_str());
                put(&mut f, ") , :: tredlib :: ParseErr > {");
                let mut tail = new_tokens();
                put_code(&mut tail, body);
                put(&mut tail, "}");
                put_code(&mut f, &tail);
                put_code(&mut items, &f);
            },
            None => {
                proof {
                    lemma_block_fns_none(head, blocks, i as int + 1, blocks.len() as int);
                }
                let mut m = String::from_str("block ");
                m.append(decimal(i).as_str());
                m.append(" has no body");
                return Err(m);
            },
        }
        i = i + 1;
    }
    Ok(items)
}

/// What compiling a parsed grammar gives: its lines are compiled as the
/// first block, from the state before anything is compiled, then the items
/// are written; `None` where the compiler reports an error.
pub open spec fn compile_model(toks: Seq<Box<Token>>) -> Option<Seq<char>> {
    match from_iter_model(start_state(), 0, toks) {
        Some((s, body)) => items_text(set_body(s, 0, body)),
        None => None,
    }
}

/// Compiles a parsed grammar into the source of its parser.
pub fn compile(toks: &[Box<Token>]) -> (r: Result<Tokens, String>)
    ensures
        code_view(r) == compile_model(toks@),
{
    let mut dat = CompileData::new();
    dat.blocks.push(BlockDat::new(0, None));
    assert(dat@ =~= start_state());
    let body = compile_from_iter(&mut dat, 0, toks)?;
    set_block_body(&mut dat, 0, body);
    compile_items(&dat)
}

} // verus!

//! The compiler's state: the defined node kinds, the regular expressions,
//! the blocks with their static and local values, and the source of fresh
//! names; its view, and the tables keyed by name.
use vstd::prelude::*;
use quote::Tokens;
use crate::compile::code::{tokens_text, appended, toks1, code1, put, put_code, same_text};
use crate::compile::names::{SecNext, succ};
use crate::compile::values::{
    DefPart, IntoRec, IntoV, StaticValue, StaticV, DynValue, DynV, append_part_text, dyn_wf,
};

verus! {

// ---- tables keyed by name ----

/// The value of the first entry named `id`.
pub open spec fn vlookup<V>(list: Seq<(Seq<char>, V)>, id: Seq<char>) -> Option<V>
    decreases list.len(),
{
    if list.len() == 0 {
        None
    } else if list[0].0 == id {
        Some(list[0].1)
    } else {
        vlookup(list.subrange(1, list.len() as int), id)
    }
}

/// The view of a table: each name by its text, each value by its view.
pub open spec fn table_view<V: View>(list: Seq<(String, V)>) -> Seq<(Seq<char>, V::V)> {
    list.map_values(|e: (String, V)| (e.0@, e.1@))
}

/// The entry `i` is the first one named `id`.
pub open spec fn first_named<V>(list: Seq<(Seq<char>, V)>, id: Seq<char>, i: int) -> bool {
    &&& 0 <= i < list.len()
    &&& list[i].0 == id
    &&& forall|j: int| 0 <= j < i ==> list[j].0 != id
}

pub proof fn lemma_vlookup_first<V>(list: Seq<(Seq<char>, V)>, id: Seq<char>, i: int)
    requires
        first_named(list, id, i),
    ensures
        vlookup(list, id) == Some(list[i].1),
    decreases i,
{
    if i > 0 {
        let rest = list.subrange(1, list.len() as int);
        assert(first_named(rest, id, i - 1)) by {
            assert forall|j: int| 0 <= j < i - 1 implies rest[j].0 != id by {
                assert(rest[j] == list[j + 1]);
            }
        }
        lemma_vlookup_first(rest, id, i - 1);
    }
}

pub proof fn lemma_vlookup_none<V>(list: Seq<(Seq<char>, V)>, id: Seq<char>)
    requires
        forall|j: int| 0 <= j < list.len() ==> list[j].0 != id,
    ensures
        vlookup(list, id) is None,
    decreases list.len(),
{
    if list.len() > 0 {
        let rest = list.subrange(1, list.len() as int);
        assert forall|j: int| 0 <= j < rest.len() implies rest[j].0 != id by {
            assert(rest[j] == list[j + 1]);
        }
        lemma_vlookup_none(rest, id);
    }
}

/// A value put in front of a table hides the earlier values of its name
/// and no other.
pub proof fn lemma_vlookup_front<V>(list: Seq<(Seq<char>, V)>, name: Seq<char>, v: V, id: Seq<char>)
    ensures
        vlookup(seq![(name, v)] + list, id) == if id == name {
            Some(v)
        } else {
            vlookup(list, id)
        },
{
    let l = seq![(name, v)] + list;
    assert(l.subrange(1, l.len() as int) =~= list);
}

/// Finds the first entry named `id`.
pub(crate) fn find_key<V: View>(list: &Vec<(String, V)>, id: &str) -> (r: Option<usize>)
    ensures
        match r {
            Some(i) => first_named(table_view(list@), id@, i as int) && vlookup(table_view(list@), id@)
                == Some(list@[i as int].1@),
            None => vlookup(table_view(list@), id@) is None,
        },
{
    let ghost t = table_view(list@);
    let mut i: usize = 0;
    while i < list.len()
        invariant
            i <= list@.len(),
            t == table_view(list@),
            forall|j: int| 0 <= j < i ==> t[j].0 != id@,
        decreases list.len() - i,
    {
        if same_text(list[i].0.as_str(), id) {
            proof {
                lemma_vlookup_first(t, id@, i as int);
            }
            return Some(i);
        }
        i = i + 1;
    }
    proof {
        lemma_vlookup_none(t, id@);
    }
    None
}

/// Adds a value named `name` in front of a table, so that it hides any
/// earlier value of that name.
pub(crate) fn put_first<V: View>(list: &mut Vec<(String, V)>, name: &String, v: V)
    ensures
        table_view(final(list)@) == seq![(name@, v@)] + table_view(old(list)@),
{
    let ghost vv = v@;
    let n = name.clone();
    list.insert(0, (n, v));
    assert(table_view(list@) =~= seq![(name@, vv)] + table_view(old(list)@));
}

// ---- blocks ----

/// What the compiler knows of one block of the grammar.
#[derive(Debug)]
pub struct BlockDat {
    pub index: usize,
    pub parent: Option<usize>,
    pub statics: Vec<(String, StaticValue)>,
    pub dyns: Vec<(String, DynValue)>,
    pub active_into: Vec<IntoRec>,
    pub block: Option<Tokens>,
}

/// The view of a `BlockDat`.
#[verifier::ext_equal]
pub struct BlockV {
    pub index: usize,
    pub parent: Option<usize>,
    pub statics: Seq<(Seq<char>, StaticV)>,
    pub dyns: Seq<(Seq<char>, DynV)>,
    pub active: Seq<IntoV>,
    pub body: Option<Seq<char>>,
}

impl View for BlockDat {
    type V = BlockV;

    open spec fn view(&self) -> BlockV {
        BlockV {
            index: self.index,
            parent: self.parent,
            statics: table_view(self.statics@),
            dyns: table_view(self.dyns@),
            active: self.active_into@.map_values(|r: IntoRec| r@),
            body: match self.block {
                Some(t) => Some(tokens_text(t)),
                None => None,
            },
        }
    }
}

/// A new block with nothing in it.
pub open spec fn empty_block(index: usize, parent: Option<usize>) -> BlockV {
    BlockV {
        index,
        parent,
        statics: Seq::empty(),
        dyns: Seq::empty(),
        active: Seq::empty(),
        body: None,
    }
}

/// The code that moves the nodes in `vec` into each of `intos[..n]`, each
/// part as one token.
pub open spec fn parts_text(t: Seq<char>, intos: Seq<IntoV>, vec: Seq<char>, n: int) -> Seq<char>
    decreases n,
{
    if n <= 0 {
        t
    } else {
        appended(
            parts_text(t, intos, vec, n - 1),
            append_part_text(intos[n - 1], vec, n == intos.len()),
        )
    }
}

/// The code that moves the nodes in the list `vec` into every target in
/// `active`, in braces.
pub open spec fn append_block_text(active: Seq<IntoV>, vec: Seq<char>) -> Seq<char> {
    appended(parts_text(toks1("{"@), active, vec, active.len() as int), "}"@)
}

impl BlockDat {
    pub fn new(index: usize, parent: Option<usize>) -> (b: BlockDat)
        ensures
            b@ == empty_block(index, parent),
    {
        let b = BlockDat {
            index: index,
            parent: parent,
            statics: Vec::new(),
            dyns: Vec::new(),
            active_into: Vec::new(),
            block: None,
        };
        assert(b@ =~= empty_block(index, parent));
        b
    }

    /// The code that moves the nodes in the list `vec` into every active
    /// target, in braces; the last target takes them, the others copy them.
    pub fn gen_append(&self, vars: &SecNext, vec: &str) -> (t: Tokens)
        ensures
            tokens_text(t) == append_block_text(self@.active, vec@),
    {
        let n = self.active_into.len();
        let mut t = code1("{");
        let mut i: usize = 0;
        while i < n
            invariant
                n == self@.active.len(),
                i <= n,
                tokens_text(t) == parts_text(toks1("{"@), self@.active, vec@, i as int),
            decreases n - i,
        {
            if let Some(part) = self.active_into[i].append_part(vec, i + 1 == n) {
                put_code(&mut t, &part);
            }
            i = i + 1;
        }
        put(&mut t, "}");
        t
    }
}

// ---- the compiler's state ----

/// The compiler's state: the defined node kinds, the regular expressions
/// (each source with the number of its static), the blocks, and the source
/// of fresh names.
#[derive(Debug)]
pub struct CompileData {
    pub defs: Vec<(String, Vec<DefPart>)>,
    pub regexs: Vec<(String, usize)>,
    pub blocks: Vec<BlockDat>,
    pub vars: SecNext,
}

/// The view of a `CompileData`.
#[verifier::ext_equal]
pub struct CState {
    pub defs: Seq<(Seq<char>, Seq<DefPart>)>,
    pub regexs: Seq<(Seq<char>, usize)>,
    pub blocks: Seq<BlockV>,
    pub vars: usize,
    pub wrapped: bool,
}

impl View for CompileData {
    type V = CState;

    open spec fn view(&self) -> CState {
        CState {
            defs: self.defs@.map_values(|e: (String, Vec<DefPart>)| (e.0@, e.1@)),
            regexs: self.regexs@.map_values(|e: (String, usize)| (e.0@, e.1)),
            blocks: self.blocks@.map_values(|b: BlockDat| b@),
            vars: self.vars.current(),
            wrapped: self.vars.wrapped(),
        }
    }
}

/// No two entries of a table have the same name.
pub open spec fn distinct_names<V>(list: Seq<(Seq<char>, V)>) -> bool {
    forall|i: int, j: int| 0 <= i < j < list.len() ==> list[i].0 != list[j].0
}

/// Block `i` knows its own number, its parent comes before it, and its
/// captures are consistent.
pub open spec fn blocks_wf(blocks: Seq<BlockV>) -> bool {
    forall|i: int|
        0 <= i < blocks.len() ==> {
            &&& (#[trigger] blocks[i]).index == i
            &&& (blocks[i].parent matches Some(p) ==> p < i)
            &&& forall|j: int| 0 <= j < blocks[i].dyns.len() ==> dyn_wf(#[trigger] blocks[i].dyns[j].1)
        }
}

/// The numbers of the regular expressions' statics differ from each other,
/// and each is below the next fresh number.
pub open spec fn regex_numbers_fresh(s: CState) -> bool {
    &&& forall|i: int, j: int| 0 <= i < j < s.regexs.len() ==> s.regexs[i].1 != s.regexs[j].1
    &&& forall|i: int| 0 <= i < s.regexs.len() ==> s.regexs[i].1 < s.vars
}

/// The compiler's state is consistent: its blocks are, no kind is defined
/// twice, each regular expression source has one static, and, as long as
/// the fresh numbers have not wrapped around, the statics' numbers differ.
pub open spec fn state_wf(s: CState) -> bool {
    &&& blocks_wf(s.blocks)
    &&& distinct_names(s.defs)
    &&& distinct_names(s.regexs)
    &&& (!s.wrapped ==> regex_numbers_fresh(s))
}

/// The state with block `b` replaced.
pub open spec fn with_block(s: CState, b: int, blk: BlockV) -> CState {
    CState { blocks: s.blocks.update(b, blk), ..s }
}

/// The state after a fresh number is taken.
pub open spec fn bump(s: CState) -> CState {
    CState { vars: succ(s.vars), wrapped: s.wrapped || s.vars == usize::MAX, ..s }
}

/// The state with a local value put in front of the local values of block
/// `b`.
pub open spec fn put_dyn_model(s: CState, b: int, name: Seq<char>, v: DynV) -> CState {
    with_block(s, b, BlockV { dyns: seq![(name, v)] + s.blocks[b].dyns, ..s.blocks[b] })
}

/// The state with a static value put in front of the static values of
/// block `b`.
pub open spec fn put_static_model(s: CState, b: int, name: Seq<char>, v: StaticV) -> CState {
    with_block(s, b, BlockV { statics: seq![(name, v)] + s.blocks[b].statics, ..s.blocks[b] })
}

/// The state with the active targets of block `b` replaced.
pub open spec fn set_active(s: CState, b: int, active: Seq<IntoV>) -> CState {
    with_block(s, b, BlockV { active, ..s.blocks[b] })
}

/// The state with the body of block `b` set.
pub open spec fn set_body(s: CState, b: int, body: Seq<char>) -> CState {
    with_block(s, b, BlockV { body: Some(body), ..s.blocks[b] })
}

/// The static value named `id` seen from block `at`: the block's own, else
/// its parent's, and so on.
pub open spec fn static_in_scope(blocks: Seq<BlockV>, at: int, id: Seq<char>) -> Option<StaticV>
    decreases at,
{
    if 0 <= at < blocks.len() {
        match vlookup(blocks[at].statics, id) {
            Some(v) => Some(v),
            None => match blocks[at].parent {
                Some(p) => if 0 <= p < at {
                    static_in_scope(blocks, p as int, id)
                } else {
                    None
                },
                None => None,
            },
        }
    } else {
        None
    }
}

/// Block `to` is reached from block `from` by following parents, and no
/// block passed on the way, `to` excepted, has a static value named `id`.
pub open spec fn reaches_without(blocks: Seq<BlockV>, from: int, to: int, id: Seq<char>) -> bool
    decreases from,
{
    if from == to {
        true
    } else if 0 <= from < blocks.len() {
        match blocks[from].parent {
            Some(p) => 0 <= p < from && vlookup(blocks[from].statics, id) is None
                && reaches_without(blocks, p as int, to, id),
            None => false,
        }
    } else {
        false
    }
}

/// Static values are looked up through the enclosing blocks: a block's own
/// static value of a name is the one seen from it, and a block that has
/// none of that name sees what its parent sees. So a static value of block
/// `p` is found by its name from every block whose chain of parents reaches
/// `p` without passing a block that has a static value of the same name.
pub proof fn lemma_static_lookup_through_parents(blocks: Seq<BlockV>, c: int, p: int, id: Seq<char>)
    requires
        blocks_wf(blocks),
        0 <= c < blocks.len(),
    ensures
        vlookup(blocks[c].statics, id) matches Some(v) ==> static_in_scope(blocks, c, id) == Some(v),
        vlookup(blocks[c].statics, id) is None ==> (blocks[c].parent matches Some(q) ==> static_in_scope(
            blocks,
            c,
            id,
        ) == static_in_scope(blocks, q as int, id)),
        0 <= p < blocks.len() && reaches_without(blocks, c, p, id) ==> static_in_scope(blocks, c, id)
            == static_in_scope(blocks, p, id),
        0 <= p < blocks.len() && reaches_without(blocks, c, p, id) ==> (vlookup(blocks[p].statics, id) matches Some(
            v,
        ) ==> static_in_scope(blocks, c, id) == Some(v)),
    decreases c,
{
    assert(blocks[c].index == c);
    if 0 <= p < blocks.len() && reaches_without(blocks, c, p, id) && c != p {
        let q = blocks[c].parent->0;
        assert(blocks[c].index == c);
        lemma_static_lookup_through_parents(blocks, q as int, p, id);
    }
}

impl CompileData {
    pub open spec fn wf(&self) -> bool {
        state_wf(self@)
    }

    pub fn new() -> (d: CompileData)
        ensures
            d@ == (CState { defs: Seq::empty(), regexs: Seq::empty(), blocks: Seq::empty(), vars: 0, wrapped: false }),
            d.wf(),
    {
        let d = CompileData {
            defs: Vec::new(),
            regexs: Vec::new(),
            blocks: Vec::new(),
            vars: SecNext::new(0),
        };
        assert(d@ =~= (CState { defs: Seq::empty(), regexs: Seq::empty(), blocks: Seq::empty(), vars: 0, wrapped: false }));
        d
    }

    /// The static value named `id` seen from block `block`.
    pub fn get_static(&self, block: usize, id: &String) -> (v: Option<&StaticValue>)
        requires
            self.wf(),
            block < self@.blocks.len(),
        ensures
            match v {
                Some(r) => static_in_scope(self@.blocks, block as int, id@) == Some(r@),
                None => static_in_scope(self@.blocks, block as int, id@) is None,
            },
    {
        let mut at = block;
        loop
            invariant
                self.wf(),
                at < self@.blocks.len(),
                static_in_scope(self@.blocks, at as int, id@) == static_in_scope(
                    self@.blocks,
                    block as int,
                    id@,
                ),
            decreases at,
        {
            let b = &self.blocks[at];
            assert(self@.blocks[at as int] == b@);
            match find_key(&b.statics, id.as_str()) {
                Some(i) => return Some(&b.statics[i].1),
                None => {
                    match b.parent {
                        Some(p) => {
                            at = p;
                        },
                        None => return None,
                    }
                },
            }
        }
    }
}

} // verus!

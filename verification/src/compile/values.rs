//! The values that the compiler keeps for a block: member kinds of defined
//! nodes, targets of `into`, static values, captures and local values, each
//! with its mathematical view and the code that reads it.
use vstd::prelude::*;
use quote::Tokens;
use crate::compile::code::{
    tokens_text, appended, toks1, toks2, toks3, toks4, toks5, new_tokens, put, put_code,
    put_str_literal, rust_str_literal, unescaped, unescape_str, decimal_text, numbered, code1,
    code2, code4, code_view, bad_escape, lowercased, to_lowercase, same_text,
};
use crate::compile::names::{SecNext, succ, advanced};

verus! {

// ---- member kinds ----

/// The kind of a member of a defined node: a string, an optional node or a
/// list of nodes.
#[derive(Debug, Clone, Copy, PartialEq, Eq, Structural)]
pub enum DefPart {
    STR,
    ITEM,
    LIST,
}

/// The Rust type of a member of kind `p`.
pub open spec fn def_part_type(p: DefPart) -> Seq<char> {
    match p {
        DefPart::STR => "::std::string::String"@,
        DefPart::ITEM => "::std::option::Option<::std::boxed::Box<"@ + "Token"@ + ">>"@,
        DefPart::LIST => "::std::vec::Vec<::std::boxed::Box<"@ + "Token"@ + ">>"@,
    }
}

/// The type `Option<Box<..>>` of a node.
pub(crate) fn option_box(ident: &str) -> (t: String)
    ensures
        t@ == "::std::option::Option<::std::boxed::Box<"@ + ident@ + ">>"@,
{
    let mut t = String::from_str("::std::option::Option<::std::boxed::Box<");
    t.append(ident);
    t.append(">>");
    t
}

/// The type `Vec<Box<..>>` of a node.
pub(crate) fn vec_box(ident: &str) -> (t: String)
    ensures
        t@ == "::std::vec::Vec<::std::boxed::Box<"@ + ident@ + ">>"@,
{
    let mut t = String::from_str("::std::vec::Vec<::std::boxed::Box<");
    t.append(ident);
    t.append(">>");
    t
}

impl DefPart {
    /// The Rust type of such a member.
    pub fn ty(&self) -> (t: String)
        ensures
            t@ == def_part_type(*self),
    {
        match self {
            DefPart::STR => String::from_str("::std::string::String"),
            DefPart::ITEM => option_box("Token"),
            DefPart::LIST => vec_box("Token"),
        }
    }
}

/// The `Debug` text of a member kind: the name of its variant.
pub open spec fn def_part_debug(p: DefPart) -> Seq<char> {
    match p {
        DefPart::STR => "STR"@,
        DefPart::ITEM => "ITEM"@,
        DefPart::LIST => "LIST"@,
    }
}

impl DefPart {
    /// The name of the kind, as `Debug` writes it.
    pub fn debug_name(&self) -> (s: &'static str)
        ensures
            s@ == def_part_debug(*self),
    {
        match self {
            DefPart::STR => "STR",
            DefPart::ITEM => "ITEM",
            DefPart::LIST => "LIST",
        }
    }
}

/// The kind of member that a type name in a `def` stands for, in any case.
pub open spec fn def_part_of(ty: Seq<char>) -> Option<DefPart> {
    let l = lowercased(ty);
    if l == "str"@ {
        Some(DefPart::STR)
    } else if l == "item"@ {
        Some(DefPart::ITEM)
    } else if l == "list"@ {
        Some(DefPart::LIST)
    } else {
        None
    }
}

/// The member kind that a type name in a `def` stands for.
pub(crate) fn def_part(ty: &str) -> (r: Option<DefPart>)
    ensures
        r == def_part_of(ty@),
{
    let l = to_lowercase(ty);
    proof {
        reveal_strlit("str");
        reveal_strlit("item");
        reveal_strlit("list");
    }
    if same_text(l.as_str(), "str") {
        Some(DefPart::STR)
    } else if same_text(l.as_str(), "item") {
        Some(DefPart::ITEM)
    } else if same_text(l.as_str(), "list") {
        Some(DefPart::LIST)
    } else {
        None
    }
}

// ---- targets of `into` ----

/// Where the nodes that the matches of a block produce go: a list, or a
/// single optional node (`Once(name, true)` is the block's own output).
#[derive(Debug)]
pub enum IntoRec {
    List(String),
    Once(String, bool),
}

/// The view of an `IntoRec`.
pub enum IntoV {
    List(Seq<char>),
    Once(Seq<char>, bool),
}

impl View for IntoRec {
    type V = IntoV;

    open spec fn view(&self) -> IntoV {
        match self {
            IntoRec::List(v) => IntoV::List(v@),
            IntoRec::Once(v, l) => IntoV::Once(v@, *l),
        }
    }
}

/// The local that holds the target.
pub open spec fn into_var(r: IntoV) -> Seq<char> {
    match r {
        IntoV::List(v) => v,
        IntoV::Once(v, _) => v,
    }
}

/// The code that reads the target as a list.
pub open spec fn as_vec_text(r: IntoV, leave: bool) -> Seq<char> {
    match r {
        IntoV::Once(v, false) => toks2(v, ". iter ( ) . cloned ( ) . collect ( )"@),
        IntoV::Once(v, true) => if leave {
            toks2(v, ". clone ( )"@)
        } else {
            toks1(v)
        },
        IntoV::List(v) => if leave {
            toks2(v, ". clone ( )"@)
        } else {
            toks1(v)
        },
    }
}

/// The code that reads the target as an optional node.
pub open spec fn as_opt_text(r: IntoV, leave: bool) -> Seq<char> {
    match r {
        IntoV::Once(v, false) => if leave {
            toks2(v, ". clone ( )"@)
        } else {
            toks1(v)
        },
        IntoV::Once(v, true) => if leave {
            toks2(v, ". iter ( ) . cloned ( ) . next ( )"@)
        } else {
            toks1("var . into_iter ( ) . next ( )"@)
        },
        IntoV::List(v) => if leave {
            toks2(v, ". iter ( ) . cloned ( ) . next ( )"@)
        } else {
            toks1("var . into_iter ( ) . next ( )"@)
        },
    }
}

/// The code that moves the nodes in the list `vec` into the target; `only`
/// when no other target takes them after it.
pub open spec fn append_part_text(r: IntoV, vec: Seq<char>, only: bool) -> Seq<char> {
    match r {
        IntoV::Once(v, true) => if only {
            toks4(v, ". append ("@, vec, ") ;"@)
        } else {
            toks4(v, ". extend ("@, vec, ". iter ( ) . cloned ( ) ) ;"@)
        },
        IntoV::Once(v, false) => if only {
            toks5(v, "="@, vec, ". pop ( ) . or ("@, toks2(v, ") ;"@))
        } else {
            toks5(v, "="@, vec, ". last ( ) . cloned ( ) . or ("@, toks2(v, ") ;"@))
        },
        IntoV::List(v) => if only {
            toks4(v, ". append ("@, vec, ") ;"@)
        } else {
            toks4(v, ". extend ("@, vec, ". iter ( ) . cloned ( ) ) ;"@)
        },
    }
}

impl IntoRec {
    /// A record of the same target.
    pub fn copy(&self) -> (r: IntoRec)
        ensures
            r@ == self@,
    {
        match self {
            IntoRec::List(v) => IntoRec::List(v.clone()),
            IntoRec::Once(v, l) => IntoRec::Once(v.clone(), *l),
        }
    }

    /// Whether two records name the same target.
    pub fn same(&self, other: &IntoRec) -> (b: bool)
        ensures
            b == (self@ == other@),
    {
        match (self, other) {
            (IntoRec::List(x), IntoRec::List(y)) => same_text(x.as_str(), y.as_str()),
            (IntoRec::Once(x, l), IntoRec::Once(y, m)) => same_text(x.as_str(), y.as_str()) && *l == *m,
            _ => false,
        }
    }

    /// The code that reads the target as a list; `leave` keeps the target
    /// usable afterwards.
    pub fn as_vec(&self, leave: bool) -> (t: Tokens)
        ensures
            tokens_text(t) == as_vec_text(self@, leave),
    {
        match (self, leave) {
            (IntoRec::Once(var, false), _) => code2(var.as_str(), ". iter ( ) . cloned ( ) . collect ( )"),
            (IntoRec::Once(var, true), true) | (IntoRec::List(var), true) => code2(var.as_str(), ". clone ( )"),
            (IntoRec::Once(var, true), false) | (IntoRec::List(var), false) => code1(var.as_str()),
        }
    }

    /// The code that reads the target as an optional node.
    pub fn as_opt(&self, leave: bool) -> (t: Tokens)
        ensures
            tokens_text(t) == as_opt_text(self@, leave),
    {
        match (self, leave) {
            (IntoRec::Once(var, false), true) => code2(var.as_str(), ". clone ( )"),
            (IntoRec::Once(var, true), true) | (IntoRec::List(var), true) => code2(
                var.as_str(),
                ". iter ( ) . cloned ( ) . next ( )",
            ),
            (IntoRec::Once(var, false), false) => code1(var.as_str()),
            (IntoRec::Once(_, true), false) | (IntoRec::List(_), false) => code1(
                "var . into_iter ( ) . next ( )",
            ),
        }
    }

    /// The code that moves the nodes in the list `vec` into the target.
    pub fn append_part(&self, vec: &str, only: bool) -> (t: Option<Tokens>)
        ensures
            t matches Some(c) && tokens_text(c) == append_part_text(self@, vec@, only),
    {
        Some(
            match self {
                IntoRec::Once(var, list) => {
                    match (*list, only) {
                        (true, true) => code4(var.as_str(), ". append (", vec, ") ;"),
                        (true, false) => code4(var.as_str(), ". extend (", vec, ". iter ( ) . cloned ( ) ) ;"),
                        (false, true) => {
                            let mut t = code4(var.as_str(), "=", vec, ". pop ( ) . or (");
                            put_code(&mut t, &code2(var.as_str(), ") ;"));
                            t
                        },
                        (false, false) => {
                            let mut t = code4(var.as_str(), "=", vec, ". last ( ) . cloned ( ) . or (");
                            put_code(&mut t, &code2(var.as_str(), ") ;"));
                            t
                        },
                    }
                },
                IntoRec::List(var) => {
                    if only {
                        code4(var.as_str(), ". append (", vec, ") ;")
                    } else {
                        code4(var.as_str(), ". extend (", vec, ". iter ( ) . cloned ( ) ) ;")
                    }
                },
            },
        )
    }
}

// ---- static values and values ----

/// A value known when the grammar is compiled: a regular expression (by the
/// name of its static), a string literal, or a block (by its number).
#[derive(Debug)]
pub enum StaticValue {
    Regex { id: String },
    Str { value: String },
    Block { index: usize },
}

/// The view of a `StaticValue`.
pub enum StaticV {
    Regex(Seq<char>),
    Str(Seq<char>),
    Block(usize),
}

impl View for StaticValue {
    type V = StaticV;

    open spec fn view(&self) -> StaticV {
        match self {
            StaticValue::Regex { id } => StaticV::Regex(id@),
            StaticValue::Str { value } => StaticV::Str(value@),
            StaticValue::Block { index } => StaticV::Block(*index),
        }
    }
}

/// A value that a line can match.
#[derive(Debug)]
pub enum Value {
    Static(StaticValue),
    Str { var_name: String },
}

/// The view of a `Value`.
pub enum ValueV {
    Static(StaticV),
    Str(Seq<char>),
}

impl View for Value {
    type V = ValueV;

    open spec fn view(&self) -> ValueV {
        match self {
            Value::Static(s) => ValueV::Static(s@),
            Value::Str { var_name } => ValueV::Str(var_name@),
        }
    }
}

/// The name of the function of block `index`.
pub open spec fn block_fn_name(index: nat) -> Seq<char> {
    "_blockfn_"@ + decimal_text(index)
}

/// The code that matches a static value at `_at` of `_text`; `None` when a
/// string literal has an invalid escape.
pub open spec fn static_match_text(v: StaticV) -> Option<Seq<char>> {
    match v {
        StaticV::Str(value) => match unescaped(value) {
            Some(u) => Some(toks3("_tredgen_match_str ! ( _at , _text ,"@, rust_str_literal(u), ")"@)),
            None => None,
        },
        StaticV::Regex(id) => Some(toks3("_tredgen_match_regex ! ( _at , _text ,"@, id, ")"@)),
        StaticV::Block(index) => Some(toks2(block_fn_name(index as nat), "( _at , _text )"@)),
    }
}

/// The code that matches a value.
pub open spec fn value_match_text(v: ValueV) -> Option<Seq<char>> {
    match v {
        ValueV::Static(s) => static_match_text(s),
        ValueV::Str(var_name) => Some(toks3("_tredgen_match_str ! ( _at , _text ,"@, var_name, ")"@)),
    }
}

impl StaticValue {
    pub fn copy(&self) -> (r: StaticValue)
        ensures
            r@ == self@,
    {
        match self {
            StaticValue::Regex { id } => StaticValue::Regex { id: id.clone() },
            StaticValue::Str { value } => StaticValue::Str { value: value.clone() },
            StaticValue::Block { index } => StaticValue::Block { index: *index },
        }
    }

    pub fn into_val(self) -> (v: Value)
        ensures
            v@ == ValueV::Static(self@),
    {
        Value::Static(self)
    }

    /// The code that matches this value.
    pub fn gen_match(&self) -> (r: Result<Tokens, String>)
        ensures
            code_view(r) == static_match_text(self@),
    {
        match self {
            StaticValue::Str { value } => {
                match unescape_str(value.as_str()) {
                    Some(string) => {
                        let mut t = code1("_tredgen_match_str ! ( _at , _text ,");
                        put_str_literal(&mut t, string.as_str());
                        put(&mut t, ")");
                        Ok(t)
                    },
                    None => Err(bad_escape(value)),
                }
            },
            StaticValue::Regex { id } => {
                let mut t = code2("_tredgen_match_regex ! ( _at , _text ,", id.as_str());
                put(&mut t, ")");
                Ok(t)
            },
            StaticValue::Block { index } => {
                let id = numbered("_blockfn_", *index);
                Ok(code2(id.as_str(), "( _at , _text )"))
            },
        }
    }
}

impl Value {
    pub fn copy(&self) -> (r: Value)
        ensures
            r@ == self@,
    {
        match self {
            Value::Static(s) => Value::Static(s.copy()),
            Value::Str { var_name } => Value::Str { var_name: var_name.clone() },
        }
    }

    /// The code that matches this value.
    pub fn gen_match(&self, _pre: &mut Tokens) -> (r: Result<Tokens, String>)
        ensures
            code_view(r) == value_match_text(self@),
            *final(_pre) == *old(_pre),
    {
        match self {
            Value::Static(stat) => stat.gen_match(),
            Value::Str { var_name } => {
                let mut t = code2("_tredgen_match_str ! ( _at , _text ,", var_name.as_str());
                put(&mut t, ")");
                Ok(t)
            },
        }
    }
}

// ---- captures ----

/// A capture: the text matched from its start mark, kept in a local
/// accumulator once the capture has been stopped.
#[derive(Debug)]
pub struct CaptureDat {
    pub acc_name: Option<String>,
    pub start_name: String,
    pub is_ended: bool,
}

/// The view of a `CaptureDat`.
pub struct CaptureV {
    pub acc: Option<Seq<char>>,
    pub start: Seq<char>,
    pub ended: bool,
}

impl View for CaptureDat {
    type V = CaptureV;

    open spec fn view(&self) -> CaptureV {
        CaptureV {
            acc: match self.acc_name {
                Some(a) => Some(a@),
                None => None,
            },
            start: self.start_name@,
            ended: self.is_ended,
        }
    }
}

/// Once stopped, a capture has an accumulator.
pub open spec fn capture_wf(c: CaptureV) -> bool {
    c.ended ==> c.acc is Some
}

/// The code that declares the start mark of a capture.
pub open spec fn capture_decl_text(name: Seq<char>) -> Seq<char> {
    toks3("let mut"@, name, ": usize ;"@)
}

/// The code that stops a capture: the first stop declares the accumulator,
/// later ones add to it.
pub open spec fn capture_end_text(acc: Seq<char>, start: Seq<char>, push: bool) -> Seq<char> {
    if push {
        toks4(acc, ". push_str ( & _text ["@, start, ".. _at ] ) ;"@)
    } else {
        toks5("let mut"@, acc, "= _text ["@, start, ".. _at ] . to_owned ( ) ;"@)
    }
}

/// The capture once stopped, when the next fresh number is `n`.
pub open spec fn capture_ended(c: CaptureV, n: usize) -> CaptureV {
    CaptureV {
        acc: Some(
            match c.acc {
                Some(a) => a,
                None => "_acc_"@ + decimal_text(n as nat),
            },
        ),
        start: c.start,
        ended: true,
    }
}

/// The capture `c` after restarts (`None`) and stops (`Some(n)`, `n` the
/// next fresh number at that stop), in order: what `gen_start` and
/// `gen_end` make of it.
pub open spec fn capture_after(c: CaptureV, ops: Seq<Option<usize>>) -> CaptureV
    decreases ops.len(),
{
    if ops.len() == 0 {
        c
    } else {
        let c1 = capture_after(c, ops.drop_last());
        match ops.last() {
            None => CaptureV { ended: false, ..c1 },
            Some(n) => capture_ended(c1, n),
        }
    }
}

/// A capture that `start` made stays consistent through any restarts and
/// stops: once it has ended it has an accumulator, so the code that reads
/// it is always one of the three that `ref_text` and `own_text` give.
pub proof fn lemma_capture_consistent(n: usize, ops: Seq<Option<usize>>)
    ensures
        capture_wf(
            capture_after(
                CaptureV { acc: None, start: "_start_"@ + decimal_text(n as nat), ended: false },
                ops,
            ),
        ),
{
}

/// The code that reads the captured text as a `&str`.
pub open spec fn ref_text(c: CaptureV) -> Seq<char> {
    match (c.ended, c.acc) {
        (false, Some(acc)) => toks5("& ("@, acc, ". clone ( ) + & _text ["@, c.start, ".. _at ] )"@),
        (true, Some(acc)) => toks2(acc, ". as_str ( )"@),
        _ => toks3("& _text ["@, c.start, ".. _at ]"@),
    }
}

/// The code that reads the captured text as a `String`.
pub open spec fn own_text(c: CaptureV) -> Seq<char> {
    match (c.ended, c.acc) {
        (false, Some(acc)) => toks4(acc, ". clone ( ) + & _text ["@, c.start, ".. _at ]"@),
        (true, Some(acc)) => toks2(acc, ". clone ( )"@),
        _ => toks3("_text ["@, c.start, ".. _at ] . to_owned ( )"@),
    }
}

impl CaptureDat {
    pub fn copy(&self) -> (c: CaptureDat)
        ensures
            c@ == self@,
    {
        CaptureDat {
            acc_name: match &self.acc_name {
                Some(a) => Some(a.clone()),
                None => None,
            },
            start_name: self.start_name.clone(),
            is_ended: self.is_ended,
        }
    }

    /// A new capture, with a fresh start mark whose declaration goes to
    /// `code`.
    pub fn start(vars: &mut SecNext, code: &mut Tokens) -> (dat: CaptureDat)
        ensures
            dat@ == (CaptureV {
                acc: None,
                start: "_start_"@ + decimal_text(old(vars).current() as nat),
                ended: false,
            }),
            capture_wf(dat@),
            advanced(*old(vars), *final(vars)),
            tokens_text(*final(code)) == appended(
                tokens_text(*old(code)),
                capture_decl_text(dat.start_name@),
            ),
    {
        let dat = CaptureDat { acc_name: None, start_name: vars.next_name("_start_"), is_ended: false };
        let mut decl = code1("let mut");
        put(&mut decl, dat.start_name.as_str());
        put(&mut decl, ": usize ;");
        put_code(code, &decl);
        dat
    }

    /// Marks the start of the captured text at the current position.
    pub fn gen_start(&mut self) -> (t: Tokens)
        ensures
            tokens_text(t) == toks2(old(self)@.start, "= _at ;"@),
            final(self)@ == (CaptureV { ended: false, ..old(self)@ }),
            capture_wf(final(self)@),
    {
        self.is_ended = false;
        code2(self.start_name.as_str(), "= _at ;")
    }

    /// Stops the capture: the text since the start mark goes to the
    /// accumulator, which gets a fresh name the first time.
    pub fn gen_end(&mut self, vars: &mut SecNext) -> (t: Tokens)
        ensures
            final(self)@ == capture_ended(old(self)@, old(vars).current()),
            capture_wf(final(self)@),
            if old(self)@.acc is Some {
                *final(vars) == *old(vars)
            } else {
                advanced(*old(vars), *final(vars))
            },
            tokens_text(t) == capture_end_text(
                capture_ended(old(self)@, old(vars).current()).acc->0,
                old(self)@.start,
                old(self)@.acc is Some,
            ),
    {
        let push = self.acc_name.is_some();
        if !push {
            self.acc_name = Some(vars.next_name("_acc_"));
        }
        self.is_ended = true;
        match &self.acc_name {
            Some(name) => {
                if push {
                    let mut t = code2(name.as_str(), ". push_str ( & _text [");
                    put(&mut t, self.start_name.as_str());
                    put(&mut t, ".. _at ] ) ;");
                    t
                } else {
                    let mut t = code2("let mut", name.as_str());
                    put(&mut t, "= _text [");
                    put(&mut t, self.start_name.as_str());
                    put(&mut t, ".. _at ] . to_owned ( ) ;");
                    t
                }
            },
            None => new_tokens(),
        }
    }

    /// The code that reads the captured text as a `&str`.
    pub fn eval_ref(&self) -> (t: Tokens)
        requires
            capture_wf(self@),
        ensures
            tokens_text(t) == ref_text(self@),
    {
        match (self.is_ended, &self.acc_name) {
            (false, Some(acc)) => {
                let mut t = code2("& (", acc.as_str());
                put(&mut t, ". clone ( ) + & _text [");
                put(&mut t, self.start_name.as_str());
                put(&mut t, ".. _at ] )");
                t
            },
            (true, Some(acc)) => code2(acc.as_str(), ". as_str ( )"),
            _ => {
                let mut t = code2("& _text [", self.start_name.as_str());
                put(&mut t, ".. _at ]");
                t
            },
        }
    }

    /// The code that reads the captured text as a `String`.
    pub fn eval_own(&self) -> (t: Tokens)
        requires
            capture_wf(self@),
        ensures
            tokens_text(t) == own_text(self@),
    {
        match (self.is_ended, &self.acc_name) {
            (false, Some(acc)) => code4(
                acc.as_str(),
                ". clone ( ) + & _text [",
                self.start_name.as_str(),
                ".. _at ]",
            ),
            (true, Some(acc)) => code2(acc.as_str(), ". clone ( )"),
            _ => {
                let mut t = code2("_text [", self.start_name.as_str());
                put(&mut t, ".. _at ] . to_owned ( )");
                t
            },
        }
    }
}

// ---- local values ----

/// A value local to a block: a value, a capture, or a target of `into` or
/// `into_once`.
#[derive(Debug)]
pub enum DynValue {
    Val(Value),
    Capture { dat: CaptureDat },
    IntoVal(IntoRec),
}

/// The view of a `DynValue`.
pub enum DynV {
    Val(ValueV),
    Capture(CaptureV),
    IntoVal(IntoV),
}

impl View for DynValue {
    type V = DynV;

    open spec fn view(&self) -> DynV {
        match self {
            DynValue::Val(v) => DynV::Val(v@),
            DynValue::Capture { dat } => DynV::Capture(dat@),
            DynValue::IntoVal(r) => DynV::IntoVal(r@),
        }
    }
}

/// Every capture among local values is consistent.
pub open spec fn dyn_wf(d: DynV) -> bool {
    d matches DynV::Capture(c) ==> capture_wf(c)
}

/// What a local value stands for in a match, when the next fresh number is
/// `n`: the value itself; for a capture, a fresh local bound to the
/// captured text (its declaration is the returned code); `None` for a
/// target of `into`.
pub open spec fn deref_model(d: DynV, n: usize) -> Option<(ValueV, Option<Seq<char>>)> {
    match d {
        DynV::Val(v) => Some((v, None)),
        DynV::Capture(c) => {
            let name = "_cap_"@ + decimal_text(n as nat);
            Some((ValueV::Str(name), Some(toks4("let"@, name, "="@, appended(ref_text(c), ";"@)))))
        },
        DynV::IntoVal(_) => None,
    }
}

/// The `Debug` text of a local value.
pub uninterp spec fn dyn_debug(d: DynV) -> Seq<char>;

/// `format!("{:?}", d)` for a local value. Claims that the text is the
/// named function of the value's view, which keeps every field that the
/// derived `Debug` prints.
#[verifier::external_body]
pub(crate) fn debug_dyn(d: &DynValue) -> (s: String)
    ensures
        s@ == dyn_debug(d@),
{
    format!("{:?}", d)
}

/// The `Debug` text of a static value.
pub uninterp spec fn static_debug(v: StaticV) -> Seq<char>;

/// `format!("{:?}", v)` for a static value. Claims that the text is the
/// named function of the value's view, which keeps every field that the
/// derived `Debug` prints.
#[verifier::external_body]
pub(crate) fn debug_static(v: &StaticValue) -> (s: String)
    ensures
        s@ == static_debug(v@),
{
    format!("{:?}", v)
}

/// The message of a local value that cannot be matched.
pub open spec fn not_matchable_text(d: DynV) -> Seq<char> {
    dyn_debug(d) + " is not a matchable value"@
}

impl DynValue {
    /// The value that a local value stands for in a match: a capture is
    /// first bound to a fresh local, whose declaration goes to `code`.
    pub fn deref(&self, vars: &mut SecNext, code: &mut Tokens) -> (r: Result<Value, String>)
        requires
            dyn_wf(self@),
        ensures
            match deref_model(self@, old(vars).current()) {
                None => {
                    &&& r matches Err(m) && m@ == not_matchable_text(self@)
                    &&& *final(vars) == *old(vars)
                    &&& *final(code) == *old(code)
                },
                Some((v, piece)) => {
                    &&& r matches Ok(val) && val@ == v
                    &&& match piece {
                        None => *final(vars) == *old(vars) && *final(code) == *old(code),
                        Some(p) => advanced(*old(vars), *final(vars))
                            && tokens_text(*final(code)) == appended(tokens_text(*old(code)), p),
                    }
                },
            },
    {
        match self {
            DynValue::Val(val) => Ok(val.copy()),
            DynValue::Capture { dat: cap } => {
                let name = vars.next_name("_cap_");
                let expr = cap.eval_ref();
                let mut t = code2("let", name.as_str());
                put(&mut t, "=");
                let mut rest = new_tokens();
                put_code(&mut rest, &expr);
                put(&mut rest, ";");
                put_code(&mut t, &rest);
                put_code(code, &t);
                Ok(Value::Str { var_name: name })
            },
            _ => {
                let mut m = debug_dyn(self);
                m.append(" is not a matchable value");
                Err(m)
            },
        }
    }
}

} // verus!

//! Chained lexical scopes. Every frame ever created lives in one arena;
//! a frame names its parent by index, the root frame has none. Beside the
//! scopes the environment carries the output the program has printed and
//! the sources available for import.

use vstd::prelude::*;

use crate::types::{
    binds_view, expr_clone, res_view, sym_clone, sym_eq, Error, ErrorV, Expr, ExprV, FunV,
    Function, Symbol, SymbolV,
};

verus! {

/// One scope frame: a symbol-to-value table and its parent, if any.
#[derive(Debug)]
pub struct EnvCtx {
    pub data: Vec<(Symbol, Expr)>,
    pub parent: Option<usize>,
}

/// The mathematical form of a frame.
#[verifier::ext_equal]
pub struct FrameV {
    pub data: Seq<(SymbolV, ExprV)>,
    pub parent: Option<int>,
}

impl View for EnvCtx {
    type V = FrameV;

    open spec fn view(&self) -> FrameV {
        FrameV {
            data: binds_view(self.data@),
            parent: match self.parent {
                Some(p) => Some(p as int),
                None => None,
            },
        }
    }
}

/// The mathematical form of an environment: the frames, the printed output,
/// and the importable sources.
#[verifier::ext_equal]
pub struct EnvV {
    pub frames: Seq<FrameV>,
    pub output: Seq<Seq<char>>,
    pub files: Seq<(Seq<char>, Seq<char>)>,
}

/// The evaluation environment.
#[derive(Debug)]
pub struct Env {
    pub frames: Vec<EnvCtx>,
    pub cur: usize,
    pub output: Vec<String>,
    pub files: Vec<(String, String)>,
}

impl View for Env {
    type V = EnvV;

    open spec fn view(&self) -> EnvV {
        EnvV {
            frames: Seq::new(
                self.frames@.len(),
                |i: int|
                    if 0 <= i < self.frames@.len() {
                        self.frames@[i]@
                    } else {
                        FrameV { data: Seq::empty(), parent: None }
                    },
            ),
            output: Seq::new(
                self.output@.len(),
                |i: int|
                    if 0 <= i < self.output@.len() {
                        self.output@[i]@
                    } else {
                        Seq::empty()
                    },
            ),
            files: Seq::new(
                self.files@.len(),
                |i: int|
                    if 0 <= i < self.files@.len() {
                        (self.files@[i].0@, self.files@[i].1@)
                    } else {
                        (Seq::empty(), Seq::empty())
                    },
            ),
        }
    }
}

/// The position of the first binding of a symbol, searching from `i`.
pub open spec fn frame_find_from(data: Seq<(SymbolV, ExprV)>, sym: SymbolV, i: int) -> Option<int>
    decreases data.len() - i,
{
    if i < 0 || i >= data.len() {
        None
    } else if data[i].0 == sym {
        Some(i)
    } else {
        frame_find_from(data, sym, i + 1)
    }
}

/// The position of the binding of a symbol in a frame's table.
pub open spec fn frame_find(data: Seq<(SymbolV, ExprV)>, sym: SymbolV) -> Option<int> {
    frame_find_from(data, sym, 0)
}

/// The value bound to a symbol in a frame's table.
pub open spec fn frame_get(data: Seq<(SymbolV, ExprV)>, sym: SymbolV) -> Option<ExprV> {
    match frame_find(data, sym) {
        Some(j) => Some(data[j].1),
        None => None,
    }
}

/// The table with a symbol bound: overwritten in place when present,
/// appended when new.
pub open spec fn frame_set(data: Seq<(SymbolV, ExprV)>, sym: SymbolV, v: ExprV) -> Seq<
    (SymbolV, ExprV),
> {
    match frame_find(data, sym) {
        Some(j) => data.update(j, (sym, v)),
        None => data.push((sym, v)),
    }
}

/// What a search means: a hit is the first position holding the symbol, a
/// miss says no position from the start of the search holds it.
pub proof fn lemma_find_props(data: Seq<(SymbolV, ExprV)>, sym: SymbolV, i: int)
    requires
        0 <= i,
    ensures
        match frame_find_from(data, sym, i) {
            Some(j) => i <= j < data.len() && data[j].0 == sym && (forall|l: int|
                i <= l < j ==> (#[trigger] data[l]).0 != sym),
            None => forall|l: int| i <= l < data.len() ==> (#[trigger] data[l]).0 != sym,
        },
    decreases data.len() - i,
{
    if i < data.len() && data[i].0 != sym {
        lemma_find_props(data, sym, i + 1);
    }
}

/// A search finds the first position that holds the symbol.
proof fn lemma_find_hits(data: Seq<(SymbolV, ExprV)>, sym: SymbolV, i: int, k: int)
    requires
        0 <= i <= k < data.len(),
        data[k].0 == sym,
        forall|l: int| i <= l < k ==> (#[trigger] data[l]).0 != sym,
    ensures
        frame_find_from(data, sym, i) == Some(k),
    decreases k - i,
{
    if i < k {
        lemma_find_hits(data, sym, i + 1, k);
    }
}

/// Binding one symbol leaves the search for any other symbol unchanged.
proof fn lemma_find_set_other(
    data: Seq<(SymbolV, ExprV)>,
    sym: SymbolV,
    v: ExprV,
    other: SymbolV,
    i: int,
)
    requires
        0 <= i,
        other != sym,
    ensures
        frame_find_from(frame_set(data, sym, v), other, i) == frame_find_from(data, other, i),
    decreases data.len() + 1 - i,
{
    let out = frame_set(data, sym, v);
    lemma_find_props(data, sym, 0);
    if i < out.len() {
        lemma_find_set_other(data, sym, v, other, i + 1);
    }
}

/// After binding a symbol, looking it up yields the new value and every
/// other symbol is untouched.
pub proof fn lemma_frame_get_set(data: Seq<(SymbolV, ExprV)>, sym: SymbolV, v: ExprV, other: SymbolV)
    ensures
        frame_get(frame_set(data, sym, v), sym) == Some(v),
        other != sym ==> frame_get(frame_set(data, sym, v), other) == frame_get(data, other),
{
    let out = frame_set(data, sym, v);
    lemma_find_props(data, sym, 0);
    match frame_find(data, sym) {
        Some(k) => {
            lemma_find_hits(out, sym, 0, k);
        },
        None => {
            lemma_find_hits(out, sym, 0, data.len() as int);
        },
    }
    if other != sym {
        lemma_find_set_other(data, sym, v, other, 0);
        lemma_find_props(data, other, 0);
    }
}

/// Scopes chain strictly toward a single root: the first frame has no
/// parent, every later frame points at an earlier one.
pub open spec fn frames_wf(frames: Seq<FrameV>) -> bool {
    &&& frames.len() >= 1
    &&& frames[0].parent is None
    &&& forall|i: int|
        1 <= i < frames.len() ==> ((#[trigger] frames[i].parent) matches Some(p) && 0 <= p < i)
}

impl Env {
    /// The environment is well formed: the frame chain is, and the current
    /// scope names a frame.
    pub open spec fn wf(self) -> bool {
        &&& frames_wf(self@.frames)
        &&& (self.cur as int) < self@.frames.len()
    }
}

/// Looking a symbol up from a scope: search the frame, then its parent;
/// a missing or malformed chain ends in `UnboundSymbol`.
pub open spec fn lookup_s(env: EnvV, scope: int, sym: SymbolV) -> Result<ExprV, ErrorV>
    decreases scope,
{
    if !(0 <= scope < env.frames.len()) {
        Err(ErrorV::UnboundSymbol(sym))
    } else {
        match frame_get(env.frames[scope].data, sym) {
            Some(v) => Ok(v),
            None => match env.frames[scope].parent {
                Some(p) => if 0 <= p < scope {
                    lookup_s(env, p, sym)
                } else {
                    Err(ErrorV::UnboundSymbol(sym))
                },
                None => Err(ErrorV::UnboundSymbol(sym)),
            },
        }
    }
}

/// The root reached from a scope by following parents.
pub open spec fn root_of(env: EnvV, scope: int) -> int
    decreases scope,
{
    if !(0 <= scope < env.frames.len()) {
        scope
    } else {
        match env.frames[scope].parent {
            Some(p) => if 0 <= p < scope {
                root_of(env, p)
            } else {
                scope
            },
            None => scope,
        }
    }
}

/// The environment with one frame's table replaced.
pub open spec fn env_with_frame_data(env: EnvV, i: int, data: Seq<(SymbolV, ExprV)>) -> EnvV {
    EnvV {
        frames: env.frames.update(i, FrameV { data, parent: env.frames[i].parent }),
        ..env
    }
}

/// In a well-formed chain the root reached from any scope is frame 0.
pub proof fn lemma_root_is_zero(env: EnvV, scope: int)
    requires
        frames_wf(env.frames),
        0 <= scope < env.frames.len(),
    ensures
        root_of(env, scope) == 0,
    decreases scope,
{
    if scope > 0 {
        let p = env.frames[scope].parent->0;
        lemma_root_is_zero(env, p);
    }
}

/// A fresh environment: one root frame holding the given table, nothing
/// printed, nothing importable.
pub fn new(data: Vec<(Symbol, Expr)>) -> (e: Env)
    ensures
        e.wf(),
        e@.frames =~= seq![FrameV { data: binds_view(data@), parent: None }],
        e.cur == 0,
        e@.output =~= Seq::<Seq<char>>::empty(),
        e@.files =~= Seq::<(Seq<char>, Seq<char>)>::empty(),
{
    let mut frames: Vec<EnvCtx> = Vec::new();
    frames.push(EnvCtx { data, parent: None });
    Env { frames, cur: 0, output: Vec::new(), files: Vec::new() }
}

/// A new frame chained under `parent`; returns its index.
pub fn push_frame(env: &mut Env, data: Vec<(Symbol, Expr)>, parent: usize) -> (idx: usize)
    requires
        old(env).wf(),
        (parent as int) < old(env)@.frames.len(),
    ensures
        final(env).wf(),
        idx == old(env)@.frames.len(),
        final(env)@.frames =~= old(env)@.frames.push(
            FrameV { data: binds_view(data@), parent: Some(parent as int) },
        ),
        final(env).cur == old(env).cur,
        final(env)@.output == old(env)@.output,
        final(env)@.files == old(env)@.files,
{
    let idx = env.frames.len();
    env.frames.push(EnvCtx { data, parent: Some(parent) });
    proof {
        assert(env@.output =~= old(env)@.output);
        assert(env@.files =~= old(env)@.files);
        assert(env@.frames =~= old(env)@.frames.push(
            FrameV { data: binds_view(data@), parent: Some(parent as int) },
        ));
    }
    idx
}

/// Finds the position of a symbol in one frame's table.
fn find_in_binds(data: &Vec<(Symbol, Expr)>, symbol: &Symbol) -> (r: Option<usize>)
    ensures
        match r {
            Some(j) => frame_find(binds_view(data@), symbol@) == Some(j as int) && (j as int)
                < data@.len(),
            None => frame_find(binds_view(data@), symbol@) is None,
        },
{
    let n = data.len();
    let mut i: usize = 0;
    while i < n
        invariant
            i <= n,
            n == data@.len(),
            frame_find(binds_view(data@), symbol@) == frame_find_from(
                binds_view(data@),
                symbol@,
                i as int,
            ),
        decreases n - i,
    {
        if sym_eq(&data[i].0, symbol) {
            return Some(i);
        }
        i = i + 1;
    }
    None
}

/// Looks a symbol up from the current scope outward; the value returned is
/// a copy, not an alias into the frame.
pub fn lookup(env: &Env, symbol: &Symbol) -> (r: Result<Expr, Error>)
    requires
        env.wf(),
    ensures
        res_view(r) == lookup_s(env@, env.cur as int, symbol@),
{
    let mut j = env.cur;
    loop
        invariant
            env.wf(),
            (j as int) < env@.frames.len(),
            lookup_s(env@, env.cur as int, symbol@) == lookup_s(env@, j as int, symbol@),
        decreases j,
    {
        match find_in_binds(&env.frames[j].data, symbol) {
            Some(k) => {
                return Ok(expr_clone(&env.frames[j].data[k].1));
            },
            None => {
                match env.frames[j].parent {
                    Some(p) => {
                        j = p;
                    },
                    None => {
                        return Err(Error::UnboundSymbol(sym_clone(symbol)));
                    },
                }
            },
        }
    }
}

/// Binds a symbol in a frame table held on its own.
pub fn binds_set(data: &mut Vec<(Symbol, Expr)>, symbol: &Symbol, expr: &Expr)
    ensures
        binds_view(final(data)@) == frame_set(binds_view(old(data)@), symbol@, expr@),
{
    let ghost pre = binds_view(data@);
    match find_in_binds(data, symbol) {
        Some(k) => {
            data[k] = (sym_clone(symbol), expr_clone(expr));
            proof {
                assert(binds_view(data@) =~= frame_set(pre, symbol@, expr@));
            }
        },
        None => {
            data.push((sym_clone(symbol), expr_clone(expr)));
            proof {
                assert(binds_view(data@) =~= frame_set(pre, symbol@, expr@));
            }
        },
    }
}

/// Binds a symbol in the frame at `scope`.
fn insert_at(env: &mut Env, scope: usize, symbol: &Symbol, expr: &Expr)
    requires
        old(env).wf(),
        (scope as int) < old(env)@.frames.len(),
    ensures
        final(env).wf(),
        final(env)@ =~= env_with_frame_data(
            old(env)@,
            scope as int,
            frame_set(old(env)@.frames[scope as int].data, symbol@, expr@),
        ),
        final(env).cur == old(env).cur,
{
    let ghost pre = env@;
    match find_in_binds(&env.frames[scope].data, symbol) {
        Some(k) => {
            env.frames[scope].data[k] = (sym_clone(symbol), expr_clone(expr));
            proof {
                assert(binds_view(env.frames@[scope as int].data@) =~= frame_set(
                    pre.frames[scope as int].data,
                    symbol@,
                    expr@,
                ));
                assert(env@.frames =~= pre.frames.update(
                    scope as int,
                    FrameV {
                        data: frame_set(pre.frames[scope as int].data, symbol@, expr@),
                        parent: pre.frames[scope as int].parent,
                    },
                ));
                assert(env@.output =~= pre.output);
                assert(env@.files =~= pre.files);
            }
        },
        None => {
            env.frames[scope].data.push((sym_clone(symbol), expr_clone(expr)));
            proof {
                assert(binds_view(env.frames@[scope as int].data@) =~= frame_set(
                    pre.frames[scope as int].data,
                    symbol@,
                    expr@,
                ));
                assert(env@.frames =~= pre.frames.update(
                    scope as int,
                    FrameV {
                        data: frame_set(pre.frames[scope as int].data, symbol@, expr@),
                        parent: pre.frames[scope as int].parent,
                    },
                ));
                assert(env@.output =~= pre.output);
                assert(env@.files =~= pre.files);
            }
        },
    }
}

/// Binds a symbol in the current frame.
pub fn insert(env: &mut Env, symbol: &Symbol, expr: &Expr)
    requires
        old(env).wf(),
    ensures
        final(env).wf(),
        final(env)@ =~= env_with_frame_data(
            old(env)@,
            old(env).cur as int,
            frame_set(old(env)@.frames[old(env).cur as int].data, symbol@, expr@),
        ),
        final(env).cur == old(env).cur,
{
    let cur = env.cur;
    insert_at(env, cur, symbol, expr);
}

/// Binds a symbol in the frame active at the call site.
pub fn bind_local_symbol(env: &mut Env, symbol: &Symbol, expr: &Expr)
    requires
        old(env).wf(),
    ensures
        final(env).wf(),
        final(env)@ =~= env_with_frame_data(
            old(env)@,
            old(env).cur as int,
            frame_set(old(env)@.frames[old(env).cur as int].data, symbol@, expr@),
        ),
        final(env).cur == old(env).cur,
{
    insert(env, symbol, expr);
}

/// Walks to the root frame and returns its index.
pub fn root(env: &Env) -> (r: usize)
    requires
        env.wf(),
    ensures
        r as int == root_of(env@, env.cur as int),
        (r as int) < env@.frames.len(),
{
    let mut j = env.cur;
    loop
        invariant
            env.wf(),
            (j as int) < env@.frames.len(),
            root_of(env@, env.cur as int) == root_of(env@, j as int),
        decreases j,
    {
        match env.frames[j].parent {
            Some(p) => {
                j = p;
            },
            None => {
                return j;
            },
        }
    }
}

/// Binds a symbol in the root frame, whatever the current scope.
pub fn bind_global_symbol(env: &mut Env, symbol: &Symbol, expr: &Expr)
    requires
        old(env).wf(),
    ensures
        final(env).wf(),
        final(env)@ =~= env_with_frame_data(
            old(env)@,
            root_of(old(env)@, old(env).cur as int),
            frame_set(
                old(env)@.frames[root_of(old(env)@, old(env).cur as int)].data,
                symbol@,
                expr@,
            ),
        ),
        final(env).cur == old(env).cur,
{
    let r = root(env);
    insert_at(env, r, symbol, expr);
}

/// The reserved symbols that the built-in registry binds at startup.
pub open spec fn core_syms() -> Seq<SymbolV> {
    seq![
        SymbolV::ExprsOp(crate::types::ExprsOp::If),
        SymbolV::ExprsOp(crate::types::ExprsOp::Equal),
        SymbolV::ExprsOp(crate::types::ExprsOp::NotEqual),
        SymbolV::ExprsOp(crate::types::ExprsOp::Import),
        SymbolV::ExprsOp(crate::types::ExprsOp::Print),
        SymbolV::ExprsOp(crate::types::ExprsOp::Error),
        SymbolV::NumOp(crate::types::NumOp::Add),
        SymbolV::NumOp(crate::types::NumOp::Subtract),
        SymbolV::NumOp(crate::types::NumOp::Multiply),
        SymbolV::NumOp(crate::types::NumOp::Divide),
        SymbolV::NumOp(crate::types::NumOp::GreaterThan),
        SymbolV::NumOp(crate::types::NumOp::GreaterThanOrEqual),
        SymbolV::NumOp(crate::types::NumOp::LessThan),
        SymbolV::NumOp(crate::types::NumOp::LessThanOrEqual),
        SymbolV::QExprOp(crate::types::QExprOp::First),
        SymbolV::QExprOp(crate::types::QExprOp::Rest),
        SymbolV::QExprOp(crate::types::QExprOp::Len),
        SymbolV::QExprOp(crate::types::QExprOp::Eval),
        SymbolV::QExprsOp(crate::types::QExprsOp::Cons),
        SymbolV::QExprsOp(crate::types::QExprsOp::Join),
        SymbolV::QExprsOp(crate::types::QExprsOp::Def),
        SymbolV::QExprsOp(crate::types::QExprsOp::Put),
        SymbolV::QExprsOp(crate::types::QExprsOp::Lambda),
        SymbolV::SExprOp(crate::types::SExprOp::Quote),
        SymbolV::SExprOp(crate::types::SExprOp::PrintEnv),
    ]
}

/// The reserved symbols, as values, in registry order.
fn core_symbols() -> (v: Vec<Symbol>)
    ensures
        crate::types::syms_view(v@) =~= core_syms(),
{
    let v: Vec<Symbol> = vec![
        Symbol::ExprsOp(crate::types::ExprsOp::If),
        Symbol::ExprsOp(crate::types::ExprsOp::Equal),
        Symbol::ExprsOp(crate::types::ExprsOp::NotEqual),
        Symbol::ExprsOp(crate::types::ExprsOp::Import),
        Symbol::ExprsOp(crate::types::ExprsOp::Print),
        Symbol::ExprsOp(crate::types::ExprsOp::Error),
        Symbol::NumOp(crate::types::NumOp::Add),
        Symbol::NumOp(crate::types::NumOp::Subtract),
        Symbol::NumOp(crate::types::NumOp::Multiply),
        Symbol::NumOp(crate::types::NumOp::Divide),
        Symbol::NumOp(crate::types::NumOp::GreaterThan),
        Symbol::NumOp(crate::types::NumOp::GreaterThanOrEqual),
        Symbol::NumOp(crate::types::NumOp::LessThan),
        Symbol::NumOp(crate::types::NumOp::LessThanOrEqual),
        Symbol::QExprOp(crate::types::QExprOp::First),
        Symbol::QExprOp(crate::types::QExprOp::Rest),
        Symbol::QExprOp(crate::types::QExprOp::Len),
        Symbol::QExprOp(crate::types::QExprOp::Eval),
        Symbol::QExprsOp(crate::types::QExprsOp::Cons),
        Symbol::QExprsOp(crate::types::QExprsOp::Join),
        Symbol::QExprsOp(crate::types::QExprsOp::Def),
        Symbol::QExprsOp(crate::types::QExprsOp::Put),
        Symbol::QExprsOp(crate::types::QExprsOp::Lambda),
        Symbol::SExprOp(crate::types::SExprOp::Quote),
        Symbol::SExprOp(crate::types::SExprOp::PrintEnv),
    ];
    v
}

/// Changing one frame's table moves no parent pointer, so the root reached
/// from any scope stays the same.
pub proof fn lemma_root_of_frame_data(env: EnvV, i: int, data: Seq<(SymbolV, ExprV)>, scope: int)
    requires
        0 <= i < env.frames.len(),
    ensures
        root_of(env_with_frame_data(env, i, data), scope) == root_of(env, scope),
    decreases scope,
{
    let e2 = env_with_frame_data(env, i, data);
    if 0 <= scope < env.frames.len() {
        match env.frames[scope].parent {
            Some(p) => {
                if 0 <= p < scope {
                    lemma_root_of_frame_data(env, i, data, p);
                }
            },
            None => {},
        }
    }
}

/// Installs the built-in registry: every reserved symbol is bound in the
/// root frame to its core function, and nothing else changes.
pub fn load_core_fns(env: &mut Env)
    requires
        old(env).wf(),
    ensures
        final(env).wf(),
        final(env).cur == old(env).cur,
        final(env)@.output == old(env)@.output,
        final(env)@.files == old(env)@.files,
        final(env)@.frames.len() == old(env)@.frames.len(),
        forall|k: int|
            0 <= k < old(env)@.frames.len() ==> (#[trigger] final(env)@.frames[k]).parent == old(
                env,
            )@.frames[k].parent,
        forall|k: int|
            0 < k < old(env)@.frames.len() ==> (#[trigger] final(env)@.frames[k]).data == old(
                env,
            )@.frames[k].data,
        forall|s: SymbolV|
            core_syms().contains(s) ==> frame_get(final(env)@.frames[0].data, s) == Some(
                ExprV::Fun(FunV::Core(s)),
            ),
        forall|s: SymbolV|
            !core_syms().contains(s) ==> frame_get(final(env)@.frames[0].data, s) == frame_get(
                old(env)@.frames[0].data,
                s,
            ),
{
    let syms = core_symbols();
    let n = syms.len();
    proof {
        lemma_root_is_zero(env@, env.cur as int);
    }
    let mut i: usize = 0;
    while i < n
        invariant
            env.wf(),
            env.cur == old(env).cur,
            env@.output == old(env)@.output,
            env@.files == old(env)@.files,
            env@.frames.len() == old(env)@.frames.len(),
            crate::types::syms_view(syms@) =~= core_syms(),
            n == syms@.len(),
            i <= n,
            forall|k: int|
                0 <= k < old(env)@.frames.len() ==> (#[trigger] env@.frames[k]).parent == old(
                    env,
                )@.frames[k].parent,
            forall|k: int|
                0 < k < old(env)@.frames.len() ==> (#[trigger] env@.frames[k]).data == old(
                    env,
                )@.frames[k].data,
            forall|j: int|
                0 <= j < i ==> frame_get(env@.frames[0].data, core_syms()[j]) == Some(
                    ExprV::Fun(FunV::Core(core_syms()[j])),
                ),
            forall|s: SymbolV|
                !core_syms().take(i as int).contains(s) ==> frame_get(env@.frames[0].data, s)
                    == frame_get(old(env)@.frames[0].data, s),
        decreases n - i,
    {
        let ghost pre = env@;
        let ghost s_i = core_syms()[i as int];
        proof {
            lemma_root_is_zero(pre, env.cur as int);
        }
        bind_global_core_fn(env, sym_clone(&syms[i]));
        proof {
            let data0 = pre.frames[0].data;
            lemma_frame_get_set(data0, s_i, ExprV::Fun(FunV::Core(s_i)), s_i);
            assert forall|j: int| 0 <= j < i + 1 implies frame_get(
                env@.frames[0].data,
                core_syms()[j],
            ) == Some(ExprV::Fun(FunV::Core(core_syms()[j]))) by {
                lemma_frame_get_set(data0, s_i, ExprV::Fun(FunV::Core(s_i)), core_syms()[j]);
            }
            assert forall|s: SymbolV| !core_syms().take(i + 1).contains(s) implies frame_get(
                env@.frames[0].data,
                s,
            ) == frame_get(old(env)@.frames[0].data, s) by {
                assert(core_syms().take(i + 1)[i as int] == s_i);
                assert(s != s_i);
                assert(!core_syms().take(i as int).contains(s)) by {
                    if core_syms().take(i as int).contains(s) {
                        let j = choose|j: int|
                            0 <= j < i && core_syms().take(i as int)[j] == s;
                        assert(core_syms().take(i + 1)[j] == s);
                    }
                }
                lemma_frame_get_set(data0, s_i, ExprV::Fun(FunV::Core(s_i)), s);
            }
        }
        i = i + 1;
    }
    proof {
        assert(core_syms().take(n as int) =~= core_syms());
        assert forall|s: SymbolV| core_syms().contains(s) implies frame_get(
            env@.frames[0].data,
            s,
        ) == Some(ExprV::Fun(FunV::Core(s))) by {
            let j = choose|j: int| 0 <= j < core_syms().len() && core_syms()[j] == s;
            assert(frame_get(env@.frames[0].data, core_syms()[j]) == Some(
                ExprV::Fun(FunV::Core(core_syms()[j])),
            ));
        }
    }
}

/// Binds a reserved symbol to its built-in in the root frame.
pub fn bind_global_core_fn(env: &mut Env, symbol: Symbol)
    requires
        old(env).wf(),
    ensures
        final(env).wf(),
        final(env)@ =~= env_with_frame_data(
            old(env)@,
            root_of(old(env)@, old(env).cur as int),
            frame_set(
                old(env)@.frames[root_of(old(env)@, old(env).cur as int)].data,
                symbol@,
                ExprV::Fun(FunV::Core(symbol@)),
            ),
        ),
        final(env).cur == old(env).cur,
{
    let value = Expr::Fun(Function::Core(sym_clone(&symbol)));
    bind_global_symbol(env, &symbol, &value);
}

} // verus!

//! The value model: tagged expression values, symbols, functions, and the
//! error taxonomy, together with their mathematical views and the structural
//! operations (equality, deep copy) the evaluator relies on.

use vstd::prelude::*;

use crate::ntypes::Sankhya;

verus! {

/// Operators that take arbitrary expressions.
#[derive(Debug, Clone, Copy, PartialEq, Eq, Structural)]
pub enum ExprsOp {
    Equal,
    NotEqual,
    If,
    Import,
    Print,
    Error,
}

/// Arithmetic and comparison operators.
#[derive(Debug, Clone, Copy, PartialEq, Eq, Structural)]
pub enum NumOp {
    Add,
    Subtract,
    Multiply,
    Divide,
    GreaterThan,
    GreaterThanOrEqual,
    LessThan,
    LessThanOrEqual,
}

/// Operators on a single Q-expression.
#[derive(Debug, Clone, Copy, PartialEq, Eq, Structural)]
pub enum QExprOp {
    First,
    Rest,
    Len,
    Eval,
}

/// Operators on several Q-expressions.
#[derive(Debug, Clone, Copy, PartialEq, Eq, Structural)]
pub enum QExprsOp {
    Cons,
    Join,
    Def,
    Put,
    Lambda,
}

/// Operators on the enclosing S-expression itself.
#[derive(Debug, Clone, Copy, PartialEq, Eq, Structural)]
pub enum SExprOp {
    Quote,
    PrintEnv,
}

/// A two-state truth value.
#[derive(Debug, Clone, Copy, PartialEq, Eq, Structural)]
pub struct Boolean(pub bool);

/// A symbol: a reserved operator or a free-form identifier.
#[derive(Debug, Clone, PartialEq, Eq)]
pub enum Symbol {
    ExprsOp(ExprsOp),
    NumOp(NumOp),
    QExprOp(QExprOp),
    QExprsOp(QExprsOp),
    SExprOp(SExprOp),
    Identifier(String),
}

/// A function value: a built-in bound to its reserved symbol, or a
/// user-defined lambda with formals, a body, and a captured frame.
#[derive(Debug, PartialEq)]
pub enum Function {
    Core(Symbol),
    Lambda(Vec<Symbol>, Box<Expr>, Vec<(Symbol, Expr)>),
}

/// An expression value.
#[derive(Debug, PartialEq)]
pub enum Expr {
    Bool(Boolean),
    Num(Sankhya),
    Str(String),
    Sym(Symbol),
    SExpr(Vec<Expr>),
    QExpr(Vec<Expr>),
    Fun(Function),
}

/// Everything that can go wrong during evaluation.
#[derive(Debug, PartialEq)]
pub enum Error {
    DivideByZero(Sankhya, Sankhya),
    InvalidNumberOfNumArguments(NumOp, usize),
    InvalidNumberOfExprsArguments(ExprsOp, usize),
    InvalidNumberOfQExprArguments(QExprOp, usize),
    InvalidNumberOfQExprsArguments(QExprsOp, usize),
    InvalidNumberOfSExprArguments(SExprOp, usize),
    EmptyQExpr(Expr),
    ParseError(String),
    ImportError(Expr),
    InvalidOp(Expr),
    NotABoolean(Expr),
    NotANumber(Expr),
    NotASymbol(Expr),
    NotAString(Expr),
    NotAnIdentifier(Expr),
    NotAQExpr(Expr),
    NotASExpr(Expr),
    UnboundSymbol(Symbol),
    UnEqualDefList(Expr, Vec<Expr>),
    TooManyLambdaArguments(usize, usize),
    RecursionLimit,
    ThrowError(String),
}

/// The mathematical form of a symbol.
#[verifier::ext_equal]
pub enum SymbolV {
    ExprsOp(ExprsOp),
    NumOp(NumOp),
    QExprOp(QExprOp),
    QExprsOp(QExprsOp),
    SExprOp(SExprOp),
    Identifier(Seq<char>),
}

/// The mathematical form of an expression value.
#[verifier::ext_equal]
pub enum ExprV {
    Bool(bool),
    Num(int),
    Str(Seq<char>),
    Sym(SymbolV),
    SExpr(Seq<ExprV>),
    QExpr(Seq<ExprV>),
    Fun(FunV),
}

/// The mathematical form of a function value.
#[verifier::ext_equal]
pub enum FunV {
    Core(SymbolV),
    Lambda(Seq<SymbolV>, Box<ExprV>, Seq<(SymbolV, ExprV)>),
}

/// The mathematical form of an error.
#[verifier::ext_equal]
pub enum ErrorV {
    DivideByZero(int, int),
    InvalidNumberOfNumArguments(NumOp, int),
    InvalidNumberOfExprsArguments(ExprsOp, int),
    InvalidNumberOfQExprArguments(QExprOp, int),
    InvalidNumberOfQExprsArguments(QExprsOp, int),
    InvalidNumberOfSExprArguments(SExprOp, int),
    EmptyQExpr(ExprV),
    ParseError(Seq<char>),
    ImportError(ExprV),
    InvalidOp(ExprV),
    NotABoolean(ExprV),
    NotANumber(ExprV),
    NotASymbol(ExprV),
    NotAString(ExprV),
    NotAnIdentifier(ExprV),
    NotAQExpr(ExprV),
    NotASExpr(ExprV),
    UnboundSymbol(SymbolV),
    UnEqualDefList(ExprV, Seq<ExprV>),
    TooManyLambdaArguments(int, int),
    RecursionLimit,
    ThrowError(Seq<char>),
}

pub open spec fn sym_view(s: Symbol) -> SymbolV {
    match s {
        Symbol::ExprsOp(o) => SymbolV::ExprsOp(o),
        Symbol::NumOp(o) => SymbolV::NumOp(o),
        Symbol::QExprOp(o) => SymbolV::QExprOp(o),
        Symbol::QExprsOp(o) => SymbolV::QExprsOp(o),
        Symbol::SExprOp(o) => SymbolV::SExprOp(o),
        Symbol::Identifier(t) => SymbolV::Identifier(t@),
    }
}

impl View for Symbol {
    type V = SymbolV;

    open spec fn view(&self) -> SymbolV {
        sym_view(*self)
    }
}

pub open spec fn expr_view(e: Expr) -> ExprV
    decreases e,
{
    match e {
        Expr::Bool(Boolean(b)) => ExprV::Bool(b),
        Expr::Num(n) => ExprV::Num(n@),
        Expr::Str(t) => ExprV::Str(t@),
        Expr::Sym(s) => ExprV::Sym(s@),
        Expr::SExpr(v) => ExprV::SExpr(exprs_view(v@)),
        Expr::QExpr(v) => ExprV::QExpr(exprs_view(v@)),
        Expr::Fun(f) => ExprV::Fun(fun_view(f)),
    }
}

pub open spec fn exprs_view(s: Seq<Expr>) -> Seq<ExprV>
    decreases s,
{
    Seq::new(
        s.len(),
        |i: int|
            if 0 <= i < s.len() {
                expr_view(s[i])
            } else {
                ExprV::Bool(false)
            },
    )
}

pub open spec fn syms_view(s: Seq<Symbol>) -> Seq<SymbolV> {
    Seq::new(s.len(), |i: int| s[i]@)
}

pub open spec fn binds_view(s: Seq<(Symbol, Expr)>) -> Seq<(SymbolV, ExprV)>
    decreases s,
{
    Seq::new(
        s.len(),
        |i: int|
            if 0 <= i < s.len() {
                (s[i].0@, expr_view(s[i].1))
            } else {
                (SymbolV::ExprsOp(ExprsOp::Equal), ExprV::Bool(false))
            },
    )
}

pub open spec fn fun_view(f: Function) -> FunV
    decreases f,
{
    match f {
        Function::Core(s) => FunV::Core(s@),
        Function::Lambda(syms, body, binds) => FunV::Lambda(
            syms_view(syms@),
            Box::new(expr_view(*body)),
            binds_view(binds@),
        ),
    }
}

impl View for Expr {
    type V = ExprV;

    open spec fn view(&self) -> ExprV {
        expr_view(*self)
    }
}

impl View for Function {
    type V = FunV;

    open spec fn view(&self) -> FunV {
        fun_view(*self)
    }
}

pub open spec fn error_view(e: Error) -> ErrorV {
    match e {
        Error::DivideByZero(a, b) => ErrorV::DivideByZero(a@, b@),
        Error::InvalidNumberOfNumArguments(o, n) => ErrorV::InvalidNumberOfNumArguments(
            o,
            n as int,
        ),
        Error::InvalidNumberOfExprsArguments(o, n) => ErrorV::InvalidNumberOfExprsArguments(
            o,
            n as int,
        ),
        Error::InvalidNumberOfQExprArguments(o, n) => ErrorV::InvalidNumberOfQExprArguments(
            o,
            n as int,
        ),
        Error::InvalidNumberOfQExprsArguments(o, n) => ErrorV::InvalidNumberOfQExprsArguments(
            o,
            n as int,
        ),
        Error::InvalidNumberOfSExprArguments(o, n) => ErrorV::InvalidNumberOfSExprArguments(
            o,
            n as int,
        ),
        Error::EmptyQExpr(x) => ErrorV::EmptyQExpr(expr_view(x)),
        Error::ParseError(t) => ErrorV::ParseError(t@),
        Error::ImportError(x) => ErrorV::ImportError(expr_view(x)),
        Error::InvalidOp(x) => ErrorV::InvalidOp(expr_view(x)),
        Error::NotABoolean(x) => ErrorV::NotABoolean(expr_view(x)),
        Error::NotANumber(x) => ErrorV::NotANumber(expr_view(x)),
        Error::NotASymbol(x) => ErrorV::NotASymbol(expr_view(x)),
        Error::NotAString(x) => ErrorV::NotAString(expr_view(x)),
        Error::NotAnIdentifier(x) => ErrorV::NotAnIdentifier(expr_view(x)),
        Error::NotAQExpr(x) => ErrorV::NotAQExpr(expr_view(x)),
        Error::NotASExpr(x) => ErrorV::NotASExpr(expr_view(x)),
        Error::UnboundSymbol(s) => ErrorV::UnboundSymbol(s@),
        Error::UnEqualDefList(x, v) => ErrorV::UnEqualDefList(expr_view(x), exprs_view(v@)),
        Error::TooManyLambdaArguments(a, b) => ErrorV::TooManyLambdaArguments(a as int, b as int),
        Error::RecursionLimit => ErrorV::RecursionLimit,
        Error::ThrowError(t) => ErrorV::ThrowError(t@),
    }
}

impl View for Error {
    type V = ErrorV;

    open spec fn view(&self) -> ErrorV {
        error_view(*self)
    }
}

/// The view of an evaluation outcome.
pub open spec fn res_view(r: Result<Expr, Error>) -> Result<ExprV, ErrorV> {
    match r {
        Ok(e) => Ok(expr_view(e)),
        Err(e) => Err(error_view(e)),
    }
}

/// Structural equality of symbols, as their views state it.
pub fn sym_eq(a: &Symbol, b: &Symbol) -> (r: bool)
    ensures
        r == (a@ == b@),
{
    match (a, b) {
        (Symbol::ExprsOp(x), Symbol::ExprsOp(y)) => *x == *y,
        (Symbol::NumOp(x), Symbol::NumOp(y)) => *x == *y,
        (Symbol::QExprOp(x), Symbol::QExprOp(y)) => *x == *y,
        (Symbol::QExprsOp(x), Symbol::QExprsOp(y)) => *x == *y,
        (Symbol::SExprOp(x), Symbol::SExprOp(y)) => *x == *y,
        (Symbol::Identifier(x), Symbol::Identifier(y)) => *x == *y,
        _ => false,
    }
}

/// Structural equality of expression values, as their views state it.
pub fn expr_eq(a: &Expr, b: &Expr) -> (r: bool)
    ensures
        r == (a@ == b@),
    decreases *a,
{
    match (a, b) {
        (Expr::Bool(Boolean(x)), Expr::Bool(Boolean(y))) => *x == *y,
        (Expr::Num(x), Expr::Num(y)) => x.0 == y.0,
        (Expr::Str(x), Expr::Str(y)) => *x == *y,
        (Expr::Sym(x), Expr::Sym(y)) => sym_eq(x, y),
        (Expr::SExpr(x), Expr::SExpr(y)) => exprs_eq(x, y),
        (Expr::QExpr(x), Expr::QExpr(y)) => exprs_eq(x, y),
        (Expr::Fun(x), Expr::Fun(y)) => fun_eq(x, y),
        _ => false,
    }
}

/// Elementwise structural equality of expression sequences.
pub fn exprs_eq(x: &Vec<Expr>, y: &Vec<Expr>) -> (r: bool)
    ensures
        r == (exprs_view(x@) == exprs_view(y@)),
    decreases *x,
{
    if x.len() != y.len() {
        proof {
            assert(exprs_view(x@).len() != exprs_view(y@).len());
        }
        return false;
    }
    let n = x.len();
    let mut i: usize = 0;
    while i < n
        invariant
            n == x.len() == y.len(),
            i <= n,
            forall|j: int| 0 <= j < i ==> exprs_view(x@)[j] == exprs_view(y@)[j],
        decreases n - i,
    {
        if !expr_eq(&x[i], &y[i]) {
            proof {
                assert(exprs_view(x@)[i as int] != exprs_view(y@)[i as int]);
            }
            return false;
        }
        i = i + 1;
    }
    proof {
        assert(exprs_view(x@) =~= exprs_view(y@));
    }
    true
}

/// Elementwise equality of formal-parameter lists.
pub fn syms_eq(x: &Vec<Symbol>, y: &Vec<Symbol>) -> (r: bool)
    ensures
        r == (syms_view(x@) == syms_view(y@)),
{
    if x.len() != y.len() {
        proof {
            assert(syms_view(x@).len() != syms_view(y@).len());
        }
        return false;
    }
    let n = x.len();
    let mut i: usize = 0;
    while i < n
        invariant
            n == x.len() == y.len(),
            i <= n,
            forall|j: int| 0 <= j < i ==> syms_view(x@)[j] == syms_view(y@)[j],
        decreases n - i,
    {
        if !sym_eq(&x[i], &y[i]) {
            proof {
                assert(syms_view(x@)[i as int] != syms_view(y@)[i as int]);
            }
            return false;
        }
        i = i + 1;
    }
    proof {
        assert(syms_view(x@) =~= syms_view(y@));
    }
    true
}

/// Pairwise structural equality of captured frames.
pub fn binds_eq(x: &Vec<(Symbol, Expr)>, y: &Vec<(Symbol, Expr)>) -> (r: bool)
    ensures
        r == (binds_view(x@) == binds_view(y@)),
    decreases *x,
{
    if x.len() != y.len() {
        proof {
            assert(binds_view(x@).len() != binds_view(y@).len());
        }
        return false;
    }
    let n = x.len();
    let mut i: usize = 0;
    while i < n
        invariant
            n == x.len() == y.len(),
            i <= n,
            forall|j: int| 0 <= j < i ==> binds_view(x@)[j] == binds_view(y@)[j],
        decreases n - i,
    {
        if !sym_eq(&x[i].0, &y[i].0) || !expr_eq(&x[i].1, &y[i].1) {
            proof {
                assert(binds_view(x@)[i as int] != binds_view(y@)[i as int]);
            }
            return false;
        }
        i = i + 1;
    }
    proof {
        assert(binds_view(x@) =~= binds_view(y@));
    }
    true
}

/// Structural equality of function values: by reserved symbol on built-ins,
/// by formals, body, and captured frame on lambdas.
pub fn fun_eq(a: &Function, b: &Function) -> (r: bool)
    ensures
        r == (a@ == b@),
    decreases *a,
{
    match (a, b) {
        (Function::Core(x), Function::Core(y)) => sym_eq(x, y),
        (Function::Lambda(xs, xb, xh), Function::Lambda(ys, yb, yh)) => {
            syms_eq(xs, ys) && expr_eq(xb, yb) && binds_eq(xh, yh)
        },
        _ => false,
    }
}

/// A deep copy of a symbol.
pub fn sym_clone(s: &Symbol) -> (r: Symbol)
    ensures
        r@ == s@,
{
    match s {
        Symbol::ExprsOp(o) => Symbol::ExprsOp(*o),
        Symbol::NumOp(o) => Symbol::NumOp(*o),
        Symbol::QExprOp(o) => Symbol::QExprOp(*o),
        Symbol::QExprsOp(o) => Symbol::QExprsOp(*o),
        Symbol::SExprOp(o) => Symbol::SExprOp(*o),
        Symbol::Identifier(t) => Symbol::Identifier(t.clone()),
    }
}

/// A deep copy of an expression value.
pub fn expr_clone(e: &Expr) -> (r: Expr)
    ensures
        r@ == e@,
    decreases *e,
{
    match e {
        Expr::Bool(b) => Expr::Bool(*b),
        Expr::Num(n) => Expr::Num(*n),
        Expr::Str(t) => Expr::Str(t.clone()),
        Expr::Sym(s) => Expr::Sym(sym_clone(s)),
        Expr::SExpr(v) => {
            let w = exprs_clone(v);
            proof {
                assert(ExprV::SExpr(exprs_view(w@)) == e@);
            }
            Expr::SExpr(w)
        },
        Expr::QExpr(v) => {
            let w = exprs_clone(v);
            proof {
                assert(ExprV::QExpr(exprs_view(w@)) == e@);
            }
            Expr::QExpr(w)
        },
        Expr::Fun(f) => Expr::Fun(fun_clone(f)),
    }
}

/// A deep copy of an expression sequence.
pub fn exprs_clone(v: &Vec<Expr>) -> (r: Vec<Expr>)
    ensures
        exprs_view(r@) == exprs_view(v@),
        r@.len() == v@.len(),
    decreases *v,
{
    let n = v.len();
    let mut out: Vec<Expr> = Vec::new();
    let mut i: usize = 0;
    while i < n
        invariant
            n == v.len(),
            i <= n,
            out@.len() == i,
            forall|j: int| 0 <= j < i ==> exprs_view(out@)[j] == exprs_view(v@)[j],
        decreases n - i,
    {
        let ghost pre = out@;
        out.push(expr_clone(&v[i]));
        proof {
            assert(forall|j: int| 0 <= j < i ==> out@[j] == pre[j]);
        }
        i = i + 1;
    }
    proof {
        assert(exprs_view(out@) =~= exprs_view(v@));
    }
    out
}

/// The empty Q-expression.
pub fn empty_qexpr() -> (r: Expr)
    ensures
        r@ == ExprV::QExpr(Seq::<ExprV>::empty()),
{
    let v: Vec<Expr> = Vec::new();
    proof {
        assert(exprs_view(v@) =~= Seq::<ExprV>::empty());
    }
    Expr::QExpr(v)
}

/// The empty S-expression.
pub fn empty_sexpr() -> (r: Expr)
    ensures
        r@ == ExprV::SExpr(Seq::<ExprV>::empty()),
{
    let v: Vec<Expr> = Vec::new();
    proof {
        assert(exprs_view(v@) =~= Seq::<ExprV>::empty());
    }
    Expr::SExpr(v)
}

/// The view of a pending first failure.
pub open spec fn opt_err_view(o: Option<Error>) -> Option<ErrorV> {
    match o {
        Some(e) => Some(error_view(e)),
        None => None,
    }
}

/// A deep copy of an expression slice.
pub fn exprs_clone_slice(v: &[Expr]) -> (r: Vec<Expr>)
    ensures
        exprs_view(r@) == exprs_view(v@),
        r@.len() == v@.len(),
{
    let n = v.len();
    let mut out: Vec<Expr> = Vec::new();
    let mut i: usize = 0;
    while i < n
        invariant
            n == v@.len(),
            i <= n,
            out@.len() == i,
            forall|j: int| 0 <= j < i ==> exprs_view(out@)[j] == exprs_view(v@)[j],
        decreases n - i,
    {
        let ghost pre = out@;
        out.push(expr_clone(&v[i]));
        proof {
            assert(forall|j: int| 0 <= j < i ==> out@[j] == pre[j]);
        }
        i = i + 1;
    }
    proof {
        assert(exprs_view(out@) =~= exprs_view(v@));
    }
    out
}

/// A deep copy of a slice of symbols.
pub fn syms_clone_slice(v: &[Symbol]) -> (r: Vec<Symbol>)
    ensures
        syms_view(r@) == syms_view(v@),
        r@.len() == v@.len(),
{
    let n = v.len();
    let mut out: Vec<Symbol> = Vec::new();
    let mut i: usize = 0;
    while i < n
        invariant
            n == v@.len(),
            i <= n,
            out@.len() == i,
            forall|j: int| 0 <= j < i ==> syms_view(out@)[j] == syms_view(v@)[j],
        decreases n - i,
    {
        let ghost pre = out@;
        out.push(sym_clone(&v[i]));
        proof {
            assert(forall|j: int| 0 <= j < i ==> out@[j] == pre[j]);
        }
        i = i + 1;
    }
    proof {
        assert(syms_view(out@) =~= syms_view(v@));
    }
    out
}

/// A deep copy of a formal-parameter list.
pub fn syms_clone(v: &Vec<Symbol>) -> (r: Vec<Symbol>)
    ensures
        syms_view(r@) == syms_view(v@),
        r@.len() == v@.len(),
{
    let n = v.len();
    let mut out: Vec<Symbol> = Vec::new();
    let mut i: usize = 0;
    while i < n
        invariant
            n == v.len(),
            i <= n,
            out@.len() == i,
            forall|j: int| 0 <= j < i ==> syms_view(out@)[j] == syms_view(v@)[j],
        decreases n - i,
    {
        let ghost pre = out@;
        out.push(sym_clone(&v[i]));
        proof {
            assert(forall|j: int| 0 <= j < i ==> out@[j] == pre[j]);
        }
        i = i + 1;
    }
    proof {
        assert(syms_view(out@) =~= syms_view(v@));
    }
    out
}

/// A deep copy of a captured frame.
pub fn binds_clone(v: &Vec<(Symbol, Expr)>) -> (r: Vec<(Symbol, Expr)>)
    ensures
        binds_view(r@) == binds_view(v@),
        r@.len() == v@.len(),
    decreases *v,
{
    let n = v.len();
    let mut out: Vec<(Symbol, Expr)> = Vec::new();
    let mut i: usize = 0;
    while i < n
        invariant
            n == v.len(),
            i <= n,
            out@.len() == i,
            forall|j: int| 0 <= j < i ==> binds_view(out@)[j] == binds_view(v@)[j],
        decreases n - i,
    {
        let ghost pre = out@;
        out.push((sym_clone(&v[i].0), expr_clone(&v[i].1)));
        proof {
            assert(forall|j: int| 0 <= j < i ==> out@[j] == pre[j]);
        }
        i = i + 1;
    }
    proof {
        assert(binds_view(out@) =~= binds_view(v@));
    }
    out
}

/// A deep copy of a function value.
pub fn fun_clone(f: &Function) -> (r: Function)
    ensures
        r@ == f@,
    decreases *f,
{
    match f {
        Function::Core(s) => Function::Core(sym_clone(s)),
        Function::Lambda(syms, body, binds) => {
            let r = Function::Lambda(
                syms_clone(syms),
                Box::new(expr_clone(body)),
                binds_clone(binds),
            );
            proof {
                assert(r@ =~= f@);
            }
            r
        },
    }
}

} // verus!

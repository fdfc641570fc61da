//! Reading source text into an expression tree. A program is a sequence of
//! forms, wrapped in one S-expression. The grammar: `(` ... `)` encloses an
//! S-expression, `'(` ... `)` a Q-expression, `"` ... `"` a string; any other
//! run of non-delimiter characters is an atom — a boolean, a number, a
//! reserved operator, or an identifier.

use vstd::prelude::*;
use vstd::string::StrSliceExecFns;

use crate::display::{exprs_op_text, num_op_text, qexpr_op_text, qexprs_op_text, sexpr_op_text};
use crate::ntypes::{all_dev_digits, sankhya_of_text, Sankhya};
use crate::types::{
    Error, Expr, ExprV, ExprsOp, NumOp, QExprOp, QExprsOp, SExprOp, Symbol, SymbolV,
};

verus! {

pub open spec fn is_ws(c: char) -> bool {
    c == ' ' || c == '\t' || c == '\n' || c == '\r'
}

pub open spec fn is_delim(c: char) -> bool {
    is_ws(c) || c == '(' || c == ')' || c == '\'' || c == '"'
}

/// The first position at or after `i` that holds no whitespace.
pub open spec fn skip_ws(cs: Seq<char>, i: int) -> int
    decreases cs.len() - i,
{
    if 0 <= i && i < cs.len() && is_ws(cs[i]) {
        skip_ws(cs, i + 1)
    } else {
        i
    }
}

pub proof fn lemma_skip_ws(cs: Seq<char>, i: int)
    requires
        0 <= i <= cs.len(),
    ensures
        i <= skip_ws(cs, i) <= cs.len(),
        skip_ws(cs, i) < cs.len() ==> !is_ws(cs[skip_ws(cs, i)]),
    decreases cs.len() - i,
{
    if i < cs.len() && is_ws(cs[i]) {
        lemma_skip_ws(cs, i + 1);
    }
}

/// The end of the atom that starts at `i`: the first delimiter at or
/// after it.
pub open spec fn atom_end(cs: Seq<char>, i: int) -> int
    decreases cs.len() - i,
{
    if 0 <= i && i < cs.len() && !is_delim(cs[i]) {
        atom_end(cs, i + 1)
    } else {
        i
    }
}

pub proof fn lemma_atom_end(cs: Seq<char>, i: int)
    requires
        0 <= i <= cs.len(),
    ensures
        i <= atom_end(cs, i) <= cs.len(),
        atom_end(cs, i) < cs.len() ==> is_delim(cs[atom_end(cs, i)]),
    decreases cs.len() - i,
{
    if i < cs.len() && !is_delim(cs[i]) {
        lemma_atom_end(cs, i + 1);
    }
}

/// The position of the closing quote of the string that starts at `i`.
pub open spec fn string_end(cs: Seq<char>, i: int) -> Option<int>
    decreases cs.len() - i,
{
    if i < 0 || i >= cs.len() {
        None
    } else if cs[i] == '"' {
        Some(i)
    } else {
        string_end(cs, i + 1)
    }
}

pub proof fn lemma_string_end(cs: Seq<char>, i: int)
    requires
        0 <= i,
    ensures
        string_end(cs, i) matches Some(j) ==> i <= j < cs.len() && cs[j] == '"',
    decreases cs.len() - i,
{
    if 0 <= i < cs.len() && cs[i] != '"' {
        lemma_string_end(cs, i + 1);
    }
}

/// The token has the shape of a number: an optional ASCII sign, then at
/// least one Devanagari digit.
pub open spec fn numeric_shape(t: Seq<char>) -> bool {
    let mag = if t.len() > 0 && (t[0] == '+' || t[0] == '-') {
        t.drop_first()
    } else {
        t
    };
    mag.len() > 0 && all_dev_digits(mag)
}

/// What an atom denotes: a boolean, a number (`None` when it does not fit
/// the 32-bit range), a reserved operator, or an identifier.
pub open spec fn classify_atom(t: Seq<char>) -> Option<ExprV> {
    if t == "सत्य"@ {
        Some(ExprV::Bool(true))
    } else if t == "गलत"@ {
        Some(ExprV::Bool(false))
    } else if numeric_shape(t) {
        match sankhya_of_text(t) {
            Some(v) => Some(ExprV::Num(v)),
            None => None,
        }
    } else if t == exprs_op_text(ExprsOp::Equal) {
        Some(ExprV::Sym(SymbolV::ExprsOp(ExprsOp::Equal)))
    } else if t == exprs_op_text(ExprsOp::NotEqual) {
        Some(ExprV::Sym(SymbolV::ExprsOp(ExprsOp::NotEqual)))
    } else if t == exprs_op_text(ExprsOp::If) {
        Some(ExprV::Sym(SymbolV::ExprsOp(ExprsOp::If)))
    } else if t == exprs_op_text(ExprsOp::Import) {
        Some(ExprV::Sym(SymbolV::ExprsOp(ExprsOp::Import)))
    } else if t == exprs_op_text(ExprsOp::Print) {
        Some(ExprV::Sym(SymbolV::ExprsOp(ExprsOp::Print)))
    } else if t == exprs_op_text(ExprsOp::Error) {
        Some(ExprV::Sym(SymbolV::ExprsOp(ExprsOp::Error)))
    } else if t == num_op_text(NumOp::Add) {
        Some(ExprV::Sym(SymbolV::NumOp(NumOp::Add)))
    } else if t == num_op_text(NumOp::Subtract) {
        Some(ExprV::Sym(SymbolV::NumOp(NumOp::Subtract)))
    } else if t == num_op_text(NumOp::Multiply) {
        Some(ExprV::Sym(SymbolV::NumOp(NumOp::Multiply)))
    } else if t == num_op_text(NumOp::Divide) {
        Some(ExprV::Sym(SymbolV::NumOp(NumOp::Divide)))
    } else if t == num_op_text(NumOp::GreaterThanOrEqual) {
        Some(ExprV::Sym(SymbolV::NumOp(NumOp::GreaterThanOrEqual)))
    } else if t == num_op_text(NumOp::GreaterThan) {
        Some(ExprV::Sym(SymbolV::NumOp(NumOp::GreaterThan)))
    } else if t == num_op_text(NumOp::LessThanOrEqual) {
        Some(ExprV::Sym(SymbolV::NumOp(NumOp::LessThanOrEqual)))
    } else if t == num_op_text(NumOp::LessThan) {
        Some(ExprV::Sym(SymbolV::NumOp(NumOp::LessThan)))
    } else if t == qexpr_op_text(QExprOp::First) {
        Some(ExprV::Sym(SymbolV::QExprOp(QExprOp::First)))
    } else if t == qexpr_op_text(QExprOp::Rest) {
        Some(ExprV::Sym(SymbolV::QExprOp(QExprOp::Rest)))
    } else if t == qexpr_op_text(QExprOp::Len) {
        Some(ExprV::Sym(SymbolV::QExprOp(QExprOp::Len)))
    } else if t == qexpr_op_text(QExprOp::Eval) {
        Some(ExprV::Sym(SymbolV::QExprOp(QExprOp::Eval)))
    } else if t == qexprs_op_text(QExprsOp::Cons) {
        Some(ExprV::Sym(SymbolV::QExprsOp(QExprsOp::Cons)))
    } else if t == qexprs_op_text(QExprsOp::Join) {
        Some(ExprV::Sym(SymbolV::QExprsOp(QExprsOp::Join)))
    } else if t == qexprs_op_text(QExprsOp::Def) {
        Some(ExprV::Sym(SymbolV::QExprsOp(QExprsOp::Def)))
    } else if t == qexprs_op_text(QExprsOp::Put) {
        Some(ExprV::Sym(SymbolV::QExprsOp(QExprsOp::Put)))
    } else if t == qexprs_op_text(QExprsOp::Lambda) {
        Some(ExprV::Sym(SymbolV::QExprsOp(QExprsOp::Lambda)))
    } else if t == sexpr_op_text(SExprOp::Quote) {
        Some(ExprV::Sym(SymbolV::SExprOp(SExprOp::Quote)))
    } else if t == sexpr_op_text(SExprOp::PrintEnv) {
        Some(ExprV::Sym(SymbolV::SExprOp(SExprOp::PrintEnv)))
    } else {
        Some(ExprV::Sym(SymbolV::Identifier(t)))
    }
}

/// Reads one expression starting at the non-whitespace position `i`.
/// A hit returns the tree and the position just past it.
pub open spec fn parse_expr_at(cs: Seq<char>, i: int) -> Option<(ExprV, int)>
    decreases cs.len() - i, 0int,
{
    if i < 0 || i >= cs.len() {
        None
    } else if cs[i] == '(' {
        match parse_list_at(cs, i + 1) {
            Some((es, j)) => Some((ExprV::SExpr(es), j)),
            None => None,
        }
    } else if cs[i] == '\'' {
        if i + 1 < cs.len() && cs[i + 1] == '(' {
            match parse_list_at(cs, i + 2) {
                Some((es, j)) => Some((ExprV::QExpr(es), j)),
                None => None,
            }
        } else {
            None
        }
    } else if cs[i] == '"' {
        match string_end(cs, i + 1) {
            Some(j) => if i < j < cs.len() {
                Some((ExprV::Str(cs.subrange(i + 1, j)), j + 1))
            } else {
                None
            },
            None => None,
        }
    } else if cs[i] == ')' {
        None
    } else {
        let j0 = atom_end(cs, i);
        let j = if j0 > cs.len() {
            cs.len() as int
        } else {
            j0
        };
        if j <= i {
            None
        } else {
            match classify_atom(cs.subrange(i, j)) {
                Some(e) => Some((e, j)),
                None => None,
            }
        }
    }
}

/// Reads expressions until the closing parenthesis; returns them and the
/// position just past it.
pub open spec fn parse_list_at(cs: Seq<char>, i: int) -> Option<(Seq<ExprV>, int)>
    decreases cs.len() - i, 1int,
{
    let k0 = skip_ws(cs, i);
    let k = if k0 < i {
        i
    } else {
        k0
    };
    if k >= cs.len() {
        None
    } else if cs[k] == ')' {
        Some((Seq::empty(), k + 1))
    } else {
        match parse_expr_at(cs, k) {
            Some((e, j)) => if k < j <= cs.len() {
                match parse_list_at(cs, j) {
                    Some((es, j2)) => Some((seq![e] + es, j2)),
                    None => None,
                }
            } else {
                None
            },
            None => None,
        }
    }
}

/// Reads top-level forms to the end of the text.
pub open spec fn parse_forms(cs: Seq<char>, i: int) -> Option<Seq<ExprV>>
    decreases cs.len() - i, 1int,
{
    let k0 = skip_ws(cs, i);
    let k = if k0 < i {
        i
    } else {
        k0
    };
    if k >= cs.len() {
        Some(Seq::empty())
    } else {
        match parse_expr_at(cs, k) {
            Some((e, j)) => if k < j <= cs.len() {
                match parse_forms(cs, j) {
                    Some(es) => Some(seq![e] + es),
                    None => None,
                }
            } else {
                None
            },
            None => None,
        }
    }
}

/// The tree a piece of source denotes: an S-expression whose children are
/// the top-level forms, or nothing when the text is malformed.
pub open spec fn parse_s(cs: Seq<char>) -> Option<ExprV> {
    match parse_forms(cs, 0) {
        Some(es) => Some(ExprV::SExpr(es)),
        None => None,
    }
}

fn ws_char(c: char) -> (r: bool)
    ensures
        r == is_ws(c),
{
    c == ' ' || c == '\t' || c == '\n' || c == '\r'
}

fn delim_char(c: char) -> (r: bool)
    ensures
        r == is_delim(c),
{
    ws_char(c) || c == '(' || c == ')' || c == '\'' || c == '"'
}

fn skip_ws_exec(s: &str, n: usize, i: usize) -> (r: usize)
    requires
        n as int == s@.len(),
        i <= n,
    ensures
        r as int == skip_ws(s@, i as int),
        i <= r <= n,
{
    let mut j = i;
    while j < n && ws_char(s.get_char(j))
        invariant
            n as int == s@.len(),
            i <= j <= n,
            skip_ws(s@, i as int) == skip_ws(s@, j as int),
        decreases n - j,
    {
        j = j + 1;
    }
    j
}

fn atom_end_exec(s: &str, n: usize, i: usize) -> (r: usize)
    requires
        n as int == s@.len(),
        i <= n,
    ensures
        r as int == atom_end(s@, i as int),
        i <= r <= n,
{
    let mut j = i;
    while j < n && !delim_char(s.get_char(j))
        invariant
            n as int == s@.len(),
            i <= j <= n,
            atom_end(s@, i as int) == atom_end(s@, j as int),
        decreases n - j,
    {
        j = j + 1;
    }
    j
}

fn string_end_exec(s: &str, n: usize, i: usize) -> (r: Option<usize>)
    requires
        n as int == s@.len(),
        i <= n,
    ensures
        match r {
            Some(j) => string_end(s@, i as int) == Some(j as int) && i <= j < n,
            None => string_end(s@, i as int) is None,
        },
{
    let mut j = i;
    while j < n
        invariant
            n as int == s@.len(),
            i <= j <= n,
            string_end(s@, i as int) == string_end(s@, j as int),
        decreases n - j,
    {
        if s.get_char(j) == '"' {
            return Some(j);
        }
        j = j + 1;
    }
    None
}

/// Whether the characters of `t` are exactly those of `lit`.
fn chars_eq_str(t: &str, lit: &str) -> (r: bool)
    ensures
        r == (t@ == lit@),
{
    let tc = crate::ntypes::str_chars(t);
    let lc = crate::ntypes::str_chars(lit);
    if tc.len() != lc.len() {
        return false;
    }
    let n = tc.len();
    let mut i: usize = 0;
    while i < n
        invariant
            n == tc.len() == lc.len(),
            tc@ == t@,
            lc@ == lit@,
            i <= n,
            forall|j: int| 0 <= j < i ==> tc@[j] == lc@[j],
        decreases n - i,
    {
        if tc[i] != lc[i] {
            return false;
        }
        i = i + 1;
    }
    proof {
        assert(t@ =~= lit@);
    }
    true
}

/// Whether the token has the shape of a number.
fn numeric_shape_exec(tc: &Vec<char>) -> (r: bool)
    ensures
        r == numeric_shape(tc@),
{
    let n = tc.len();
    let signed = n > 0 && (tc[0] == '+' || tc[0] == '-');
    let start: usize = if signed {
        1
    } else {
        0
    };
    let ghost mag = if signed {
        tc@.drop_first()
    } else {
        tc@
    };
    if start >= n {
        proof {
            assert(mag.len() == 0);
        }
        return false;
    }
    let mut i = start;
    while i < n
        invariant
            n == tc.len(),
            signed == (tc@.len() > 0 && (tc@[0] == '+' || tc@[0] == '-')),
            start == if signed {
                1int
            } else {
                0int
            },
            mag == if signed {
                tc@.drop_first()
            } else {
                tc@
            },
            mag.len() == n - start,
            start <= i <= n,
            forall|j: int| 0 <= j < i - start ==> crate::ntypes::is_dev_digit(#[trigger] mag[j]),
        decreases n - i,
    {
        if crate::ntypes::dev_digit_of(tc[i]) >= 10 {
            proof {
                assert(mag[i - start] == tc@[i as int]);
            }
            return false;
        }
        proof {
            assert(mag[i - start] == tc@[i as int]);
        }
        i = i + 1;
    }
    proof {
        assert(crate::ntypes::all_dev_digits(mag));
    }
    true
}

/// Reads the atom `s[i..j]` as the value it denotes.
fn classify_atom_exec(s: &str, i: usize, j: usize) -> (r: Option<Expr>)
    requires
        i < j,
        j as int <= s@.len(),
    ensures
        match classify_atom(s@.subrange(i as int, j as int)) {
            Some(ev) => r matches Some(e) && e@ == ev,
            None => r is None,
        },
{
    let t: &str = s.substring_char(i, j);
    if chars_eq_str(t, "सत्य") {
        Some(Expr::Bool(crate::types::Boolean(true)))
    } else if chars_eq_str(t, "गलत") {
        Some(Expr::Bool(crate::types::Boolean(false)))
    } else {
        let tc = crate::ntypes::str_chars(t);
        if numeric_shape_exec(&tc) {
            match Sankhya::from_chars(tc.as_slice()) {
                Some(k) => Some(Expr::Num(k)),
                None => None,
            }
        } else if chars_eq_str(t, "==") {
            Some(Expr::Sym(Symbol::ExprsOp(ExprsOp::Equal)))
        } else if chars_eq_str(t, "!=") {
            Some(Expr::Sym(Symbol::ExprsOp(ExprsOp::NotEqual)))
        } else if chars_eq_str(t, "यदि") {
            Some(Expr::Sym(Symbol::ExprsOp(ExprsOp::If)))
        } else if chars_eq_str(t, "आयात") {
            Some(Expr::Sym(Symbol::ExprsOp(ExprsOp::Import)))
        } else if chars_eq_str(t, "छाप") {
            Some(Expr::Sym(Symbol::ExprsOp(ExprsOp::Print)))
        } else if chars_eq_str(t, "समस्या") {
            Some(Expr::Sym(Symbol::ExprsOp(ExprsOp::Error)))
        } else if chars_eq_str(t, "+") {
            Some(Expr::Sym(Symbol::NumOp(NumOp::Add)))
        } else if chars_eq_str(t, "-") {
            Some(Expr::Sym(Symbol::NumOp(NumOp::Subtract)))
        } else if chars_eq_str(t, "*") {
            Some(Expr::Sym(Symbol::NumOp(NumOp::Multiply)))
        } else if chars_eq_str(t, "/") {
            Some(Expr::Sym(Symbol::NumOp(NumOp::Divide)))
        } else if chars_eq_str(t, ">=") {
            Some(Expr::Sym(Symbol::NumOp(NumOp::GreaterThanOrEqual)))
        } else if chars_eq_str(t, ">") {
            Some(Expr::Sym(Symbol::NumOp(NumOp::GreaterThan)))
        } else if chars_eq_str(t, "<=") {
            Some(Expr::Sym(Symbol::NumOp(NumOp::LessThanOrEqual)))
        } else if chars_eq_str(t, "<") {
            Some(Expr::Sym(Symbol::NumOp(NumOp::LessThan)))
        } else if chars_eq_str(t, "पहिलो") {
            Some(Expr::Sym(Symbol::QExprOp(QExprOp::First)))
        } else if chars_eq_str(t, "बाँकी") {
            Some(Expr::Sym(Symbol::QExprOp(QExprOp::Rest)))
        } else if chars_eq_str(t, "वटा") {
            Some(Expr::Sym(Symbol::QExprOp(QExprOp::Len)))
        } else if chars_eq_str(t, "बिस्तार") {
            Some(Expr::Sym(Symbol::QExprOp(QExprOp::Eval)))
        } else if chars_eq_str(t, "निर्माण") {
            Some(Expr::Sym(Symbol::QExprsOp(QExprsOp::Cons)))
        } else if chars_eq_str(t, "एकत्र") {
            Some(Expr::Sym(Symbol::QExprsOp(QExprsOp::Join)))
        } else if chars_eq_str(t, "नामक") {
            Some(Expr::Sym(Symbol::QExprsOp(QExprsOp::Def)))
        } else if chars_eq_str(t, "=") {
            Some(Expr::Sym(Symbol::QExprsOp(QExprsOp::Put)))
        } else if chars_eq_str(t, "ल्याम्बडा") {
            Some(Expr::Sym(Symbol::QExprsOp(QExprsOp::Lambda)))
        } else if chars_eq_str(t, "उद्धरण") {
            Some(Expr::Sym(Symbol::SExprOp(SExprOp::Quote)))
        } else if chars_eq_str(t, "वातावरण") {
            Some(Expr::Sym(Symbol::SExprOp(SExprOp::PrintEnv)))
        } else {
            Some(Expr::Sym(Symbol::Identifier(t.to_owned())))
        }
    }
}

/// Reads one expression starting at the non-whitespace position `i`.
fn parse_expr_exec(s: &str, n: usize, i: usize) -> (r: Option<(Expr, usize)>)
    requires
        n as int == s@.len(),
        i < n,
    ensures
        match parse_expr_at(s@, i as int) {
            Some((ev, j)) => r matches Some(p) && p.0@ == ev && p.1 as int == j && i < p.1 <= n,
            None => r is None,
        },
    decreases n - i, 0int,
{
    proof {
        lemma_parse_expr_bounds(s@, i as int);
    }
    let c = s.get_char(i);
    if c == '(' {
        match parse_list_exec(s, n, i + 1) {
            Some((es, j)) => Some((Expr::SExpr(es), j)),
            None => None,
        }
    } else if c == '\'' {
        if i + 1 < n && s.get_char(i + 1) == '(' {
            match parse_list_exec(s, n, i + 2) {
                Some((es, j)) => Some((Expr::QExpr(es), j)),
                None => None,
            }
        } else {
            None
        }
    } else if c == '"' {
        match string_end_exec(s, n, i + 1) {
            Some(j) => {
                let t = s.substring_char(i + 1, j);
                Some((Expr::Str(t.to_owned()), j + 1))
            },
            None => None,
        }
    } else if c == ')' {
        None
    } else {
        let j = atom_end_exec(s, n, i);
        if j <= i {
            None
        } else {
            match classify_atom_exec(s, i, j) {
                Some(e) => Some((e, j)),
                None => None,
            }
        }
    }
}

/// Reads expressions until the closing parenthesis.
fn parse_list_exec(s: &str, n: usize, i: usize) -> (r: Option<(Vec<Expr>, usize)>)
    requires
        n as int == s@.len(),
        i <= n,
    ensures
        match parse_list_at(s@, i as int) {
            Some((esv, j2)) => r matches Some(p) && crate::types::exprs_view(p.0@) == esv && p.1
                as int == j2 && i < p.1 <= n,
            None => r is None,
        },
    decreases n - i, 1int,
{
    let k = skip_ws_exec(s, n, i);
    if k >= n {
        None
    } else if s.get_char(k) == ')' {
        let out: Vec<Expr> = Vec::new();
        proof {
            assert(crate::types::exprs_view(out@) =~= Seq::<crate::types::ExprV>::empty());
        }
        Some((out, k + 1))
    } else {
        match parse_expr_exec(s, n, k) {
            Some((e, j)) => {
                match parse_list_exec(s, n, j) {
                    Some((mut es, j2)) => {
                        let ghost pre = es@;
                        es.insert(0, e);
                        proof {
                            assert(crate::types::exprs_view(es@) =~= seq![e@]
                                + crate::types::exprs_view(pre));
                        }
                        Some((es, j2))
                    },
                    None => None,
                }
            },
            None => None,
        }
    }
}

/// Reads top-level forms to the end of the text.
fn parse_forms_exec(s: &str, n: usize, i: usize) -> (r: Option<Vec<Expr>>)
    requires
        n as int == s@.len(),
        i <= n,
    ensures
        match parse_forms(s@, i as int) {
            Some(esv) => r matches Some(es) && crate::types::exprs_view(es@) == esv,
            None => r is None,
        },
    decreases n - i, 1int,
{
    let k = skip_ws_exec(s, n, i);
    if k >= n {
        let out: Vec<Expr> = Vec::new();
        proof {
            assert(crate::types::exprs_view(out@) =~= Seq::<crate::types::ExprV>::empty());
        }
        Some(out)
    } else {
        match parse_expr_exec(s, n, k) {
            Some((e, j)) => {
                match parse_forms_exec(s, n, j) {
                    Some(mut es) => {
                        let ghost pre = es@;
                        es.insert(0, e);
                        proof {
                            assert(crate::types::exprs_view(es@) =~= seq![e@]
                                + crate::types::exprs_view(pre));
                        }
                        Some(es)
                    },
                    None => None,
                }
            },
            None => None,
        }
    }
}

/// Reads a whole source text: an S-expression of its top-level forms, or
/// a parse error carrying the text.
pub fn parse(source: &str) -> (r: Result<Expr, Error>)
    ensures
        match parse_s(source@) {
            Some(ev) => r matches Ok(e) && e@ == ev,
            None => r matches Err(er) && er@ == crate::types::ErrorV::ParseError(source@),
        },
{
    let n = source.unicode_len();
    match parse_forms_exec(source, n, 0) {
        Some(es) => Ok(Expr::SExpr(es)),
        None => Err(Error::ParseError(source.to_owned())),
    }
}

/// A successful read always moves forward and stays within the text.
pub proof fn lemma_parse_expr_bounds(cs: Seq<char>, i: int)
    ensures
        parse_expr_at(cs, i) matches Some((e, j)) ==> i < j <= cs.len(),
    decreases cs.len() - i, 0int,
{
    if 0 <= i < cs.len() {
        if cs[i] == '(' {
            lemma_parse_list_bounds(cs, i + 1);
        } else if cs[i] == '\'' {
            if i + 1 < cs.len() && cs[i + 1] == '(' {
                lemma_parse_list_bounds(cs, i + 2);
            }
        } else if cs[i] == '"' {
            lemma_string_end(cs, i + 1);
        }
    }
}

/// A successful list read ends past its closing parenthesis, within the
/// text.
pub proof fn lemma_parse_list_bounds(cs: Seq<char>, i: int)
    ensures
        parse_list_at(cs, i) matches Some((es, j2)) ==> i < j2 <= cs.len(),
    decreases cs.len() - i, 1int,
{
    let k0 = skip_ws(cs, i);
    let k = if k0 < i {
        i
    } else {
        k0
    };
    if k < cs.len() && cs[k] != ')' {
        lemma_parse_expr_bounds(cs, k);
        match parse_expr_at(cs, k) {
            Some((e, j)) => {
                if k < j <= cs.len() {
                    lemma_parse_list_bounds(cs, j);
                }
            },
            None => {},
        }
    }
}

} // verus!

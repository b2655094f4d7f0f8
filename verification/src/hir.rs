use crate::bf::{str_chars, string_push};
use vstd::prelude::*;

verus! {

/// An arithmetic operator of the high-level language.
#[derive(Debug, Copy, Clone, PartialEq, Eq, Structural)]
pub enum BinOpKind {
    Plus,
    Minus,
    Mul,
    Div,
}

/// A binary operation on two expressions.
#[derive(Debug)]
pub struct BinOp {
    pub args: Box<(Expr, Expr)>,
    pub kind: BinOpKind,
}

/// A call of a function by name.
#[derive(Debug)]
pub struct FnCall {
    pub fn_name: String,
    pub args: Vec<Expr>,
}

/// An expression. A literal keeps the decimal digits it was written with.
#[derive(Debug)]
pub enum Expr {
    Literal(String),
    VarRef(String),
    BinOp(BinOp),
    FnCall(FnCall),
}

/// The two variable types.
#[derive(Debug, Copy, Clone, PartialEq, Eq, Structural)]
pub enum VarType {
    U8,
    U32,
}

/// A declaration of a local variable with its type and first value.
#[derive(Debug)]
pub struct VarDecl {
    pub var_name: String,
    pub typ: VarType,
    pub init: Expr,
}

/// An assignment to a variable.
#[derive(Debug)]
pub struct VarAssign {
    pub var_name: String,
    pub expr: Expr,
}

/// A statement.
#[derive(Debug)]
pub enum Stmt {
    FnCall(FnCall),
    VarDecl(VarDecl),
    VarAssign(VarAssign),
}

/// A parameter of a function.
#[derive(Debug, Clone)]
pub struct FnArgDecl {
    pub arg_name: String,
    pub arg_type: VarType,
}

/// A function: name, parameters, result type if any, and body.
#[derive(Debug)]
pub struct FnDecl {
    pub name: String,
    pub args: Vec<FnArgDecl>,
    pub ret: Option<VarType>,
    pub stmts: Vec<Stmt>,
}

/// A program: its functions in the order of the text, no two of the same name.
#[derive(Debug)]
pub struct Program {
    pub fns: Vec<FnDecl>,
}

/// Why a text is not a program.
#[derive(Debug, Copy, Clone, PartialEq, Eq, Structural)]
pub enum ParseHirError {
    /// The text does not begin with a function.
    NoFunction,
    /// Something other than blanks follows the last function, from this
    /// character on.
    TrailingInput(usize),
}

/// Why parsing stops without an answer: an unknown type name, or a second
/// function of the same name.
#[derive(Debug, Copy, Clone, PartialEq, Eq, Structural)]
pub enum HirPanic {
    UnknownType,
    DuplicateFunction,
}

/// An expression as a mathematical value.
pub enum ExprV {
    Literal(Seq<char>),
    VarRef(Seq<char>),
    BinOp(BinOpKind, Box<ExprV>, Box<ExprV>),
    FnCall(Seq<char>, Seq<ExprV>),
}

/// The value of an expression.
pub open spec fn expr_v(e: Expr) -> ExprV
    decreases e,
{
    match e {
        Expr::Literal(d) => ExprV::Literal(d@),
        Expr::VarRef(x) => ExprV::VarRef(x@),
        Expr::BinOp(b) => ExprV::BinOp(
            b.kind,
            Box::new(expr_v(b.args.0)),
            Box::new(expr_v(b.args.1)),
        ),
        Expr::FnCall(c) => ExprV::FnCall(c.fn_name@, exprs_v(c.args@)),
    }
}

/// The values of a list of expressions.
pub open spec fn exprs_v(es: Seq<Expr>) -> Seq<ExprV>
    decreases es,
{
    if es.len() == 0 {
        Seq::empty()
    } else {
        seq![expr_v(es[0])] + exprs_v(es.drop_first())
    }
}

/// A statement as a mathematical value.
pub enum StmtV {
    FnCall(Seq<char>, Seq<ExprV>),
    VarDecl(Seq<char>, VarType, ExprV),
    VarAssign(Seq<char>, ExprV),
}

/// A function as a mathematical value.
pub struct FnDeclV {
    pub name: Seq<char>,
    pub args: Seq<(Seq<char>, VarType)>,
    pub ret: Option<VarType>,
    pub stmts: Seq<StmtV>,
}

/// What a parser does at a position: it takes a number of characters and
/// gives a value, or it does not match, or it stops the whole parse.
pub enum Parsed<V> {
    Took(nat, V),
    NoMatch,
    Stop(HirPanic),
}

/// What the whole text gives.
pub enum HirParse {
    Parsed(Seq<FnDeclV>),
    NoFunction,
    TrailingInput(nat),
    Stop(HirPanic),
}

pub open spec fn stmt_v(st: Stmt) -> StmtV {
    match st {
        Stmt::FnCall(c) => StmtV::FnCall(c.fn_name@, exprs_v(c.args@)),
        Stmt::VarDecl(d) => StmtV::VarDecl(d.var_name@, d.typ, expr_v(d.init)),
        Stmt::VarAssign(a) => StmtV::VarAssign(a.var_name@, expr_v(a.expr)),
    }
}

pub open spec fn stmts_v(ss: Seq<Stmt>) -> Seq<StmtV> {
    ss.map_values(|st: Stmt| stmt_v(st))
}

pub open spec fn arg_v(a: FnArgDecl) -> (Seq<char>, VarType) {
    (a.arg_name@, a.arg_type)
}

pub open spec fn args_v(args: Seq<FnArgDecl>) -> Seq<(Seq<char>, VarType)> {
    args.map_values(|a: FnArgDecl| arg_v(a))
}

pub open spec fn fndecl_v(d: FnDecl) -> FnDeclV {
    FnDeclV { name: d.name@, args: args_v(d.args@), ret: d.ret, stmts: stmts_v(d.stmts@) }
}

pub open spec fn fndecls_v(ds: Seq<FnDecl>) -> Seq<FnDeclV> {
    ds.map_values(|d: FnDecl| fndecl_v(d))
}

/// A type name: `u8` or `u32`; any other name stops the parse.
pub open spec fn g_type_name(s: Seq<char>, p: int) -> Parsed<VarType> {
    match g_ident(s, p) {
        None => Parsed::NoMatch,
        Some((n, name)) => if name == seq!['u', '8'] {
            Parsed::Took(n, VarType::U8)
        } else if name == seq!['u', '3', '2'] {
            Parsed::Took(n, VarType::U32)
        } else {
            Parsed::Stop(HirPanic::UnknownType)
        },
    }
}

/// Whether `let ` starts at `q`.
pub open spec fn is_let(s: Seq<char>, q: int) -> bool {
    has_ch(s, q, 'l') && has_ch(s, q + 1, 'e') && has_ch(s, q + 2, 't') && has_ch(s, q + 3, ' ')
}

/// `let name: type = expr`, after optional blanks.
pub open spec fn g_var_decl(s: Seq<char>, p: int) -> Parsed<(Seq<char>, VarType, ExprV)> {
    let q = p + ws_len(s, p);
    if !is_let(s, q) {
        Parsed::NoMatch
    } else {
        match g_ident(s, q + 4) {
            None => Parsed::NoMatch,
            Some((n1, name)) => {
                let r = q + 4 + n1 + ws_len(s, q + 4 + n1);
                if !has_ch(s, r, ':') {
                    Parsed::NoMatch
                } else {
                    match g_type_name(s, r + 1) {
                        Parsed::NoMatch => Parsed::NoMatch,
                        Parsed::Stop(k) => Parsed::Stop(k),
                        Parsed::Took(n2, t) => {
                            let u = r + 1 + n2 + ws_len(s, r + 1 + n2);
                            if !has_ch(s, u, '=') {
                                Parsed::NoMatch
                            } else {
                                match g_expr(s, u + 1) {
                                    None => Parsed::NoMatch,
                                    Some((n3, e)) => Parsed::Took((u + 1 + n3 - p) as nat, (name, t, e)),
                                }
                            }
                        },
                    }
                }
            },
        }
    }
}

/// `name = expr`.
pub open spec fn g_var_assign(s: Seq<char>, p: int) -> Option<(nat, (Seq<char>, ExprV))> {
    match g_ident(s, p) {
        None => None,
        Some((n1, name)) => {
            let r = p + n1 + ws_len(s, p + n1);
            if !has_ch(s, r, '=') {
                None
            } else {
                match g_expr(s, r + 1) {
                    None => None,
                    Some((n2, e)) => Some(((r + 1 + n2 - p) as nat, (name, e))),
                }
            }
        },
    }
}

/// A call, a declaration or an assignment, tried in that order, then `;`
/// after optional blanks.
pub open spec fn g_stmt(s: Seq<char>, p: int) -> Parsed<StmtV> {
    let first = match g_fncall(s, p) {
        Some((n, c)) => Parsed::Took(n, StmtV::FnCall(c.0, c.1)),
        None => match g_var_decl(s, p) {
            Parsed::Took(n, d) => Parsed::Took(n, StmtV::VarDecl(d.0, d.1, d.2)),
            Parsed::Stop(k) => Parsed::Stop(k),
            Parsed::NoMatch => match g_var_assign(s, p) {
                Some((n, a)) => Parsed::Took(n, StmtV::VarAssign(a.0, a.1)),
                None => Parsed::NoMatch,
            },
        },
    };
    match first {
        Parsed::Took(n, st) => {
            let q = p + n + ws_len(s, p + n);
            if has_ch(s, q, ';') {
                Parsed::Took((q + 1 - p) as nat, st)
            } else {
                Parsed::NoMatch
            }
        },
        Parsed::NoMatch => Parsed::NoMatch,
        Parsed::Stop(k) => Parsed::Stop(k),
    }
}

/// Statements, as many as follow one another; at the end of the text no
/// statement starts.
pub open spec fn g_stmts(s: Seq<char>, p: int) -> Parsed<Seq<StmtV>>
    decreases rem(s, p),
{
    if s.len() <= p {
        Parsed::Took(0, Seq::empty())
    } else {
        match g_stmt(s, p) {
            Parsed::NoMatch => Parsed::Took(0, Seq::empty()),
            Parsed::Stop(k) => Parsed::Stop(k),
            Parsed::Took(n, st) => if n == 0 {
                Parsed::NoMatch
            } else {
                match g_stmts(s, p + n) {
                    Parsed::Took(m, sts) => Parsed::Took(n + m, seq![st] + sts),
                    other => other,
                }
            },
        }
    }
}

/// A parameter: `name: type`.
pub open spec fn g_fn_arg(s: Seq<char>, p: int) -> Parsed<(Seq<char>, VarType)> {
    match g_ident(s, p) {
        None => Parsed::NoMatch,
        Some((n1, name)) => {
            let r = p + n1 + ws_len(s, p + n1);
            if !has_ch(s, r, ':') {
                Parsed::NoMatch
            } else {
                match g_type_name(s, r + 1) {
                    Parsed::NoMatch => Parsed::NoMatch,
                    Parsed::Stop(k) => Parsed::Stop(k),
                    Parsed::Took(n2, t) => Parsed::Took((r + 1 + n2 - p) as nat, (name, t)),
                }
            }
        },
    }
}

/// The parameters after the first, each after a comma.
pub open spec fn g_fn_args_more(s: Seq<char>, p: int) -> Parsed<Seq<(Seq<char>, VarType)>>
    decreases rem(s, p),
{
    let q = p + ws_len(s, p);
    if has_ch(s, q, ',') {
        match g_fn_arg(s, q + 1) {
            Parsed::NoMatch => Parsed::Took(0, Seq::empty()),
            Parsed::Stop(k) => Parsed::Stop(k),
            Parsed::Took(n1, a) => {
                let r = q + 1 + n1;
                match g_fn_args_more(s, r) {
                    Parsed::Took(n2, rest) => Parsed::Took((r + n2 - p) as nat, seq![a] + rest),
                    other => other,
                }
            },
        }
    } else {
        Parsed::Took(0, Seq::empty())
    }
}

/// Parameters separated by commas.
pub open spec fn g_fn_args(s: Seq<char>, p: int) -> Parsed<Seq<(Seq<char>, VarType)>> {
    match g_fn_arg(s, p) {
        Parsed::NoMatch => Parsed::Took(0, Seq::empty()),
        Parsed::Stop(k) => Parsed::Stop(k),
        Parsed::Took(n1, a) => if n1 == 0 {
            Parsed::NoMatch
        } else {
            match g_fn_args_more(s, p + n1) {
                Parsed::Took(n2, rest) => Parsed::Took(n1 + n2, seq![a] + rest),
                other => other,
            }
        },
    }
}

/// An optional `-> type`; where no type follows the arrow, nothing is taken.
pub open spec fn g_ret(s: Seq<char>, p: int) -> Parsed<Option<VarType>> {
    let q = p + ws_len(s, p);
    if has_ch(s, q, '-') && has_ch(s, q + 1, '>') {
        match g_type_name(s, q + 2) {
            Parsed::NoMatch => Parsed::Took(0, None),
            Parsed::Stop(k) => Parsed::Stop(k),
            Parsed::Took(n, t) => Parsed::Took((q + 2 + n - p) as nat, Some(t)),
        }
    } else {
        Parsed::Took(0, None)
    }
}

/// `fn name(params) -> type { statements }`, the result type optional.
pub open spec fn g_fn_decl(s: Seq<char>, p: int) -> Parsed<FnDeclV> {
    let q = p + ws_len(s, p);
    if !(has_ch(s, q, 'f') && has_ch(s, q + 1, 'n')) {
        Parsed::NoMatch
    } else {
        match g_ident(s, q + 2) {
            None => Parsed::NoMatch,
            Some((n1, name)) => {
                let r = q + 2 + n1 + ws_len(s, q + 2 + n1);
                if !has_ch(s, r, '(') {
                    Parsed::NoMatch
                } else {
                    match g_fn_args(s, r + 1) {
                        Parsed::NoMatch => Parsed::NoMatch,
                        Parsed::Stop(k) => Parsed::Stop(k),
                        Parsed::Took(n2, args) => {
                            let u = r + 1 + n2 + ws_len(s, r + 1 + n2);
                            if !has_ch(s, u, ')') {
                                Parsed::NoMatch
                            } else {
                                match g_ret(s, u + 1) {
                                    Parsed::NoMatch => Parsed::NoMatch,
                                    Parsed::Stop(k) => Parsed::Stop(k),
                                    Parsed::Took(n3, ret) => {
                                        let v = u + 1 + n3 + ws_len(s, u + 1 + n3);
                                        if !has_ch(s, v, '{') {
                                            Parsed::NoMatch
                                        } else {
                                            match g_stmts(s, v + 1) {
                                                Parsed::NoMatch => Parsed::NoMatch,
                                                Parsed::Stop(k) => Parsed::Stop(k),
                                                Parsed::Took(n4, stmts) => {
                                                    let w = v + 1 + n4 + ws_len(s, v + 1 + n4);
                                                    if !has_ch(s, w, '}') {
                                                        Parsed::NoMatch
                                                    } else {
                                                        Parsed::Took(
                                                            (w + 1 - p) as nat,
                                                            FnDeclV { name, args, ret, stmts },
                                                        )
                                                    }
                                                },
                                            }
                                        }
                                    },
                                }
                            }
                        },
                    }
                }
            },
        }
    }
}

/// Whether one of `ds` is called `name`.
pub open spec fn has_fn_named(ds: Seq<FnDeclV>, name: Seq<char>) -> bool {
    exists|i: int| 0 <= i < ds.len() && #[trigger] ds[i].name == name
}

/// More functions after those in `acc`; a second function of a name stops
/// the parse.
pub open spec fn g_fns_more(s: Seq<char>, p: int, acc: Seq<FnDeclV>) -> Parsed<Seq<FnDeclV>>
    decreases rem(s, p),
{
    if s.len() <= p {
        Parsed::Took(0, acc)
    } else {
        match g_fn_decl(s, p) {
            Parsed::NoMatch => Parsed::Took(0, acc),
            Parsed::Stop(k) => Parsed::Stop(k),
            Parsed::Took(n, d) => if n == 0 {
                Parsed::NoMatch
            } else if has_fn_named(acc, d.name) {
                Parsed::Stop(HirPanic::DuplicateFunction)
            } else {
                match g_fns_more(s, p + n, acc.push(d)) {
                    Parsed::Took(m, ds) => Parsed::Took(n + m, ds),
                    other => other,
                }
            },
        }
    }
}

/// One function or more.
pub open spec fn g_program(s: Seq<char>, p: int) -> Parsed<Seq<FnDeclV>> {
    match g_fn_decl(s, p) {
        Parsed::NoMatch => Parsed::NoMatch,
        Parsed::Stop(k) => Parsed::Stop(k),
        Parsed::Took(n, d) => match g_fns_more(s, p + n, seq![d]) {
            Parsed::Took(m, ds) => Parsed::Took(n + m, ds),
            other => other,
        },
    }
}

/// A whole text: functions, then nothing but blanks.
pub open spec fn g_hir(s: Seq<char>) -> HirParse {
    match g_program(s, 0) {
        Parsed::NoMatch => HirParse::NoFunction,
        Parsed::Stop(k) => HirParse::Stop(k),
        Parsed::Took(n, ds) => {
            let q = n + ws_len(s, n as int);
            if q < s.len() {
                HirParse::TrailingInput(q)
            } else {
                HirParse::Parsed(ds)
            }
        },
    }
}

/// Whether `c` is alphabetic or numeric in Unicode's sense, as std's
/// `char::is_alphanumeric` decides.
pub uninterp spec fn is_alphanumeric(c: char) -> bool;

/// std's `char::is_alphanumeric`; the contract names its result and says
/// nothing more of it.
#[verifier::external_body]
fn char_is_alphanumeric(c: char) -> (r: bool)
    ensures
        r == is_alphanumeric(c),
{
    c.is_alphanumeric()
}

/// The characters that the language skips between tokens.
pub open spec fn is_hir_ws(c: char) -> bool {
    c == ' ' || c == '\t' || c == '\r' || c == '\n'
}

/// The characters of an identifier.
pub open spec fn is_ident_char(c: char) -> bool {
    c == '_' || is_alphanumeric(c)
}

/// The ASCII decimal digits.
pub open spec fn is_digit_char(c: char) -> bool {
    '0' as u32 <= c as u32 && c as u32 <= '9' as u32
}

/// The number of blanks from `p` on.
pub open spec fn ws_len(s: Seq<char>, p: int) -> nat
    decreases s.len() - p,
{
    if 0 <= p < s.len() && is_hir_ws(s[p]) {
        1 + ws_len(s, p + 1)
    } else {
        0
    }
}

/// The number of identifier characters from `p` on.
pub open spec fn ident_len(s: Seq<char>, p: int) -> nat
    decreases s.len() - p,
{
    if 0 <= p < s.len() && is_ident_char(s[p]) {
        1 + ident_len(s, p + 1)
    } else {
        0
    }
}

/// The number of digits from `p` on.
pub open spec fn digits_len(s: Seq<char>, p: int) -> nat
    decreases s.len() - p,
{
    if 0 <= p < s.len() && is_digit_char(s[p]) {
        1 + digits_len(s, p + 1)
    } else {
        0
    }
}

/// Whether the character at `p` is `c`.
pub open spec fn has_ch(s: Seq<char>, p: int, c: char) -> bool {
    0 <= p < s.len() && s[p] == c
}

/// How much input is left at `p`; it bounds the depth of the parsers.
pub open spec fn rem(s: Seq<char>, p: int) -> int {
    if p <= s.len() {
        s.len() - p
    } else {
        0
    }
}

/// An identifier after optional blanks: how many characters it takes, blanks
/// included, and its name.
pub open spec fn g_ident(s: Seq<char>, p: int) -> Option<(nat, Seq<char>)> {
    let q = p + ws_len(s, p);
    if 0 <= q < s.len() && is_ident_char(s[q]) {
        let n = ident_len(s, q);
        Some(((q + n - p) as nat, s.subrange(q, q + n)))
    } else {
        None
    }
}

/// A number after optional blanks, as its digits.
pub open spec fn g_number(s: Seq<char>, p: int) -> Option<(nat, Seq<char>)> {
    let q = p + ws_len(s, p);
    let n = digits_len(s, q);
    if n > 0 {
        Some(((q + n - p) as nat, s.subrange(q, q + n)))
    } else {
        None
    }
}

/// A number, a call or a variable, tried in that order.
pub open spec fn g_factor(s: Seq<char>, p: int) -> Option<(nat, ExprV)>
    decreases rem(s, p), 1int,
{
    match g_number(s, p) {
        Some((n, d)) => Some((n, ExprV::Literal(d))),
        None => match g_fncall(s, p) {
            Some((n, c)) => Some((n, ExprV::FnCall(c.0, c.1))),
            None => match g_ident(s, p) {
                Some((n, x)) => Some((n, ExprV::VarRef(x))),
                None => None,
            },
        },
    }
}

/// A factor, or two factors joined by `*` or `/`. After a lone factor the
/// blanks that follow are taken too; after the second factor they are not.
pub open spec fn g_term(s: Seq<char>, p: int) -> Option<(nat, ExprV)>
    decreases rem(s, p), 2int,
{
    match g_factor(s, p) {
        None => None,
        Some((n1, a)) => {
            let q = p + n1 + ws_len(s, p + n1);
            if has_ch(s, q, '*') || has_ch(s, q, '/') {
                let kind = if s[q] == '*' {
                    BinOpKind::Mul
                } else {
                    BinOpKind::Div
                };
                match g_factor(s, q + 1) {
                    None => None,
                    Some((n2, b)) => Some(
                        ((q + 1 + n2 - p) as nat, ExprV::BinOp(kind, Box::new(a), Box::new(b))),
                    ),
                }
            } else {
                Some(((q - p) as nat, a))
            }
        },
    }
}

/// A term, or two terms joined by `+` or `-`. After a lone term the blanks
/// that follow are taken too; after the second term they are not.
pub open spec fn g_expr(s: Seq<char>, p: int) -> Option<(nat, ExprV)>
    decreases rem(s, p), 3int,
{
    match g_term(s, p) {
        None => None,
        Some((n1, a)) => {
            let q = p + n1 + ws_len(s, p + n1);
            if has_ch(s, q, '+') || has_ch(s, q, '-') {
                let kind = if s[q] == '+' {
                    BinOpKind::Plus
                } else {
                    BinOpKind::Minus
                };
                match g_term(s, q + 1) {
                    None => None,
                    Some((n2, b)) => Some(
                        ((q + 1 + n2 - p) as nat, ExprV::BinOp(kind, Box::new(a), Box::new(b))),
                    ),
                }
            } else {
                Some(((q - p) as nat, a))
            }
        },
    }
}

/// A call: a name, `(` right after it, arguments separated by commas, `)`.
pub open spec fn g_fncall(s: Seq<char>, p: int) -> Option<(nat, (Seq<char>, Seq<ExprV>))>
    decreases rem(s, p), 0int,
{
    match g_ident(s, p) {
        None => None,
        Some((n1, name)) => {
            let q = p + n1;
            if has_ch(s, q, '(') {
                match g_args(s, q + 1) {
                    None => None,
                    Some((n2, args)) => {
                        let r = q + 1 + n2;
                        if has_ch(s, r, ')') {
                            Some(((r + 1 - p) as nat, (name, args)))
                        } else {
                            None
                        }
                    },
                }
            } else {
                None
            }
        },
    }
}

/// Arguments separated by commas: none where no expression starts here.
pub open spec fn g_args(s: Seq<char>, p: int) -> Option<(nat, Seq<ExprV>)>
    decreases rem(s, p), 5int,
{
    match g_expr(s, p) {
        None => Some((0, Seq::empty())),
        Some((n1, e)) => if n1 == 0 {
            None
        } else {
            match g_args_more(s, p + n1) {
                None => None,
                Some((n2, es)) => Some(((n1 + n2) as nat, seq![e] + es)),
            }
        },
    }
}

/// The arguments after the first: each a comma, after optional blanks, and an
/// expression. A comma with no expression after it is left in the input.
pub open spec fn g_args_more(s: Seq<char>, p: int) -> Option<(nat, Seq<ExprV>)>
    decreases rem(s, p), 4int,
{
    let q = p + ws_len(s, p);
    if has_ch(s, q, ',') {
        match g_expr(s, q + 1) {
            None => Some((0, Seq::empty())),
            Some((n1, e)) => {
                let r = q + 1 + n1;
                match g_args_more(s, r) {
                    None => None,
                    Some((n2, es)) => Some(((r + n2 - p) as nat, seq![e] + es)),
                }
            },
        }
    } else {
        Some((0, Seq::empty()))
    }
}

fn is_ws_char(c: char) -> (r: bool)
    ensures
        r == is_hir_ws(c),
{
    c == ' ' || c == '\t' || c == '\r' || c == '\n'
}

fn is_ident(c: char) -> (r: bool)
    ensures
        r == is_ident_char(c),
{
    c == '_' || char_is_alphanumeric(c)
}

fn is_digit(c: char) -> (r: bool)
    ensures
        r == is_digit_char(c),
{
    48 <= (c as u32) && (c as u32) <= 57
}

fn skip_ws(cs: &Vec<char>, p: usize) -> (q: usize)
    requires
        p <= cs.len(),
    ensures
        q == p + ws_len(cs@, p as int),
        q <= cs.len(),
{
    let mut q = p;
    while q < cs.len() && is_ws_char(cs[q])
        invariant
            p <= q <= cs.len(),
            ws_len(cs@, p as int) == (q - p) + ws_len(cs@, q as int),
        decreases cs.len() - q,
    {
        q = q + 1;
    }
    q
}

fn skip_ident(cs: &Vec<char>, p: usize) -> (q: usize)
    requires
        p <= cs.len(),
    ensures
        q == p + ident_len(cs@, p as int),
        q <= cs.len(),
{
    let mut q = p;
    while q < cs.len() && is_ident(cs[q])
        invariant
            p <= q <= cs.len(),
            ident_len(cs@, p as int) == (q - p) + ident_len(cs@, q as int),
        decreases cs.len() - q,
    {
        q = q + 1;
    }
    q
}

fn skip_digits(cs: &Vec<char>, p: usize) -> (q: usize)
    requires
        p <= cs.len(),
    ensures
        q == p + digits_len(cs@, p as int),
        q <= cs.len(),
{
    let mut q = p;
    while q < cs.len() && is_digit(cs[q])
        invariant
            p <= q <= cs.len(),
            digits_len(cs@, p as int) == (q - p) + digits_len(cs@, q as int),
        decreases cs.len() - q,
    {
        q = q + 1;
    }
    q
}

/// The characters from `a` to `b` as a string.
fn text_of(cs: &Vec<char>, a: usize, b: usize) -> (r: String)
    requires
        a <= b <= cs.len(),
    ensures
        r@ == cs@.subrange(a as int, b as int),
{
    let mut r = String::new();
    let mut i = a;
    while i < b
        invariant
            a <= i <= b <= cs.len(),
            r@ == cs@.subrange(a as int, i as int),
        decreases b - i,
    {
        string_push(&mut r, cs[i]);
        assert(cs@.subrange(a as int, i + 1) =~= cs@.subrange(a as int, i as int).push(cs@[i as int]));
        i = i + 1;
    }
    r
}

fn parse_ident(cs: &Vec<char>, p: usize) -> (r: Option<(usize, String)>)
    requires
        p <= cs.len(),
    ensures
        match (g_ident(cs@, p as int), r) {
            (Some((n, v)), Some((e, x))) => e == p + n && e <= cs.len() && x@ == v,
            (None, None) => true,
            _ => false,
        },
{
    let q = skip_ws(cs, p);
    if q < cs.len() && is_ident(cs[q]) {
        let e = skip_ident(cs, q);
        Some((e, text_of(cs, q, e)))
    } else {
        None
    }
}

fn parse_number(cs: &Vec<char>, p: usize) -> (r: Option<(usize, String)>)
    requires
        p <= cs.len(),
    ensures
        match (g_number(cs@, p as int), r) {
            (Some((n, v)), Some((e, x))) => e == p + n && e <= cs.len() && x@ == v,
            (None, None) => true,
            _ => false,
        },
{
    let q = skip_ws(cs, p);
    let e = skip_digits(cs, q);
    if e > q {
        Some((e, text_of(cs, q, e)))
    } else {
        None
    }
}

proof fn lemma_exprs_v_cons(x: Expr, xs: Seq<Expr>)
    ensures
        exprs_v(xs.insert(0, x)) == seq![expr_v(x)] + exprs_v(xs),
{
    let s = xs.insert(0, x);
    assert(s.len() > 0);
    assert(s[0] == x);
    assert(s.drop_first() =~= xs);
}

fn parse_factor(cs: &Vec<char>, p: usize) -> (r: Option<(usize, Expr)>)
    requires
        p <= cs.len(),
    ensures
        match (g_factor(cs@, p as int), r) {
            (Some((n, v)), Some((e, x))) => e == p + n && e <= cs.len() && expr_v(x) == v,
            (None, None) => true,
            _ => false,
        },
    decreases rem(cs@, p as int), 1int,
{
    match parse_number(cs, p) {
        Some((e, d)) => {
            return Some((e, Expr::Literal(d)));
        },
        None => {},
    }
    match parse_fncall(cs, p) {
        Some((e, c)) => {
            return Some((e, Expr::FnCall(c)));
        },
        None => {},
    }
    match parse_ident(cs, p) {
        Some((e, x)) => Some((e, Expr::VarRef(x))),
        None => None,
    }
}

fn parse_term(cs: &Vec<char>, p: usize) -> (r: Option<(usize, Expr)>)
    requires
        p <= cs.len(),
    ensures
        match (g_term(cs@, p as int), r) {
            (Some((n, v)), Some((e, x))) => e == p + n && e <= cs.len() && expr_v(x) == v,
            (None, None) => true,
            _ => false,
        },
    decreases rem(cs@, p as int), 2int,
{
    let (e1, a) = match parse_factor(cs, p) {
        Some(x) => x,
        None => {
            return None;
        },
    };
    let q = skip_ws(cs, e1);
    if q < cs.len() && (cs[q] == '*' || cs[q] == '/') {
        let kind = if cs[q] == '*' {
            BinOpKind::Mul
        } else {
            BinOpKind::Div
        };
        match parse_factor(cs, q + 1) {
            None => None,
            Some((r, b)) => Some((r, Expr::BinOp(BinOp { args: Box::new((a, b)), kind }))),
        }
    } else {
        Some((q, a))
    }
}

fn parse_expr(cs: &Vec<char>, p: usize) -> (r: Option<(usize, Expr)>)
    requires
        p <= cs.len(),
    ensures
        match (g_expr(cs@, p as int), r) {
            (Some((n, v)), Some((e, x))) => e == p + n && e <= cs.len() && expr_v(x) == v,
            (None, None) => true,
            _ => false,
        },
    decreases rem(cs@, p as int), 3int,
{
    let (e1, a) = match parse_term(cs, p) {
        Some(x) => x,
        None => {
            return None;
        },
    };
    let q = skip_ws(cs, e1);
    if q < cs.len() && (cs[q] == '+' || cs[q] == '-') {
        let kind = if cs[q] == '+' {
            BinOpKind::Plus
        } else {
            BinOpKind::Minus
        };
        match parse_term(cs, q + 1) {
            None => None,
            Some((r, b)) => Some((r, Expr::BinOp(BinOp { args: Box::new((a, b)), kind }))),
        }
    } else {
        Some((q, a))
    }
}

fn parse_fncall(cs: &Vec<char>, p: usize) -> (r: Option<(usize, FnCall)>)
    requires
        p <= cs.len(),
    ensures
        match (g_fncall(cs@, p as int), r) {
            (Some((n, v)), Some((e, c))) => e == p + n && e <= cs.len() && c.fn_name@ == v.0
                && exprs_v(c.args@) == v.1,
            (None, None) => true,
            _ => false,
        },
    decreases rem(cs@, p as int), 0int,
{
    let (e1, name) = match parse_ident(cs, p) {
        Some(x) => x,
        None => {
            return None;
        },
    };
    if e1 < cs.len() && cs[e1] == '(' {
        match parse_args(cs, e1 + 1) {
            None => None,
            Some((r, args)) => {
                if r < cs.len() && cs[r] == ')' {
                    Some((r + 1, FnCall { fn_name: name, args }))
                } else {
                    None
                }
            },
        }
    } else {
        None
    }
}

fn parse_args(cs: &Vec<char>, p: usize) -> (r: Option<(usize, Vec<Expr>)>)
    requires
        p <= cs.len(),
    ensures
        match (g_args(cs@, p as int), r) {
            (Some((n, v)), Some((e, xs))) => e == p + n && e <= cs.len() && exprs_v(xs@) == v,
            (None, None) => true,
            _ => false,
        },
    decreases rem(cs@, p as int), 5int,
{
    match parse_expr(cs, p) {
        None => Some((p, Vec::new())),
        Some((e1, x)) => {
            if e1 == p {
                return None;
            }
            match parse_args_more(cs, e1) {
                None => None,
                Some((e2, xs)) => {
                    let mut xs = xs;
                    proof {
                        lemma_exprs_v_cons(x, xs@);
                    }
                    xs.insert(0, x);
                    Some((e2, xs))
                },
            }
        },
    }
}

fn parse_args_more(cs: &Vec<char>, p: usize) -> (r: Option<(usize, Vec<Expr>)>)
    requires
        p <= cs.len(),
    ensures
        match (g_args_more(cs@, p as int), r) {
            (Some((n, v)), Some((e, xs))) => e == p + n && e <= cs.len() && exprs_v(xs@) == v,
            (None, None) => true,
            _ => false,
        },
    decreases rem(cs@, p as int), 4int,
{
    let q = skip_ws(cs, p);
    if q < cs.len() && cs[q] == ',' {
        match parse_expr(cs, q + 1) {
            None => Some((p, Vec::new())),
            Some((r, x)) => match parse_args_more(cs, r) {
                None => None,
                Some((e, xs)) => {
                    let mut xs = xs;
                    proof {
                        lemma_exprs_v_cons(x, xs@);
                    }
                    xs.insert(0, x);
                    Some((e, xs))
                },
            },
        }
    } else {
        Some((p, Vec::new()))
    }
}

fn at(cs: &Vec<char>, p: usize, c: char) -> (r: bool)
    requires
        p <= cs.len(),
    ensures
        r == has_ch(cs@, p as int, c),
{
    p < cs.len() && cs[p] == c
}

fn parse_type_name(cs: &Vec<char>, p: usize) -> (r: Result<Option<(usize, VarType)>, HirPanic>)
    requires
        p <= cs.len(),
    ensures
        match (g_type_name(cs@, p as int), r) {
            (Parsed::Took(n, v), Ok(Some((e, t)))) => e == p + n && e <= cs.len() && t == v,
            (Parsed::NoMatch, Ok(None)) => true,
            (Parsed::Stop(k), Err(k2)) => k == k2,
            _ => false,
        },
{
    let q = skip_ws(cs, p);
    if q < cs.len() && is_ident(cs[q]) {
        let e = skip_ident(cs, q);
        let ghost name = cs@.subrange(q as int, e as int);
        if e - q == 2 && cs[q] == 'u' && cs[q + 1] == '8' {
            assert(name =~= seq!['u', '8']);
            Ok(Some((e, VarType::U8)))
        } else if e - q == 3 && cs[q] == 'u' && cs[q + 1] == '3' && cs[q + 2] == '2' {
            assert(name =~= seq!['u', '3', '2']);
            assert(name != seq!['u', '8']);
            Ok(Some((e, VarType::U32)))
        } else {
            assert(name != seq!['u', '8']) by {
                if name == seq!['u', '8'] {
                    assert(name.len() == 2 && name[0] == 'u' && name[1] == '8');
                }
            }
            assert(name != seq!['u', '3', '2']) by {
                if name == seq!['u', '3', '2'] {
                    assert(name.len() == 3 && name[0] == 'u' && name[1] == '3' && name[2] == '2');
                }
            }
            Err(HirPanic::UnknownType)
        }
    } else {
        Ok(None)
    }
}

#[verifier::spinoff_prover]
#[verifier::rlimit(40)]
fn parse_var_decl(cs: &Vec<char>, p: usize) -> (r: Result<Option<(usize, VarDecl)>, HirPanic>)
    requires
        p <= cs.len(),
    ensures
        match (g_var_decl(cs@, p as int), r) {
            (Parsed::Took(n, v), Ok(Some((e, d)))) => e == p + n && e <= cs.len() && d.var_name@
                == v.0 && d.typ == v.1 && expr_v(d.init) == v.2,
            (Parsed::NoMatch, Ok(None)) => true,
            (Parsed::Stop(k), Err(k2)) => k == k2,
            _ => false,
        },
{
    let q = skip_ws(cs, p);
    if !(at(cs, q, 'l') && at(cs, q + 1, 'e') && at(cs, q + 2, 't') && at(cs, q + 3, ' ')) {
        return Ok(None);
    }
    let (e1, name) = match parse_ident(cs, q + 4) {
        Some(x) => x,
        None => {
            return Ok(None);
        },
    };
    let r = skip_ws(cs, e1);
    if !at(cs, r, ':') {
        return Ok(None);
    }
    let (e2, t) = match parse_type_name(cs, r + 1) {
        Ok(Some(x)) => x,
        Ok(None) => {
            return Ok(None);
        },
        Err(k) => {
            return Err(k);
        },
    };
    let u = skip_ws(cs, e2);
    if !at(cs, u, '=') {
        return Ok(None);
    }
    match parse_expr(cs, u + 1) {
        None => Ok(None),
        Some((e3, x)) => Ok(Some((e3, VarDecl { var_name: name, typ: t, init: x }))),
    }
}

fn parse_var_assign(cs: &Vec<char>, p: usize) -> (r: Option<(usize, VarAssign)>)
    requires
        p <= cs.len(),
    ensures
        match (g_var_assign(cs@, p as int), r) {
            (Some((n, v)), Some((e, a))) => e == p + n && e <= cs.len() && a.var_name@ == v.0
                && expr_v(a.expr) == v.1,
            (None, None) => true,
            _ => false,
        },
{
    let (e1, name) = match parse_ident(cs, p) {
        Some(x) => x,
        None => {
            return None;
        },
    };
    let r = skip_ws(cs, e1);
    if !at(cs, r, '=') {
        return None;
    }
    match parse_expr(cs, r + 1) {
        None => None,
        Some((e2, x)) => Some((e2, VarAssign { var_name: name, expr: x })),
    }
}

#[verifier::spinoff_prover]
#[verifier::rlimit(40)]
fn parse_stmt(cs: &Vec<char>, p: usize) -> (r: Result<Option<(usize, Stmt)>, HirPanic>)
    requires
        p <= cs.len(),
    ensures
        match (g_stmt(cs@, p as int), r) {
            (Parsed::Took(n, v), Ok(Some((e, st)))) => e == p + n && e <= cs.len() && stmt_v(st) == v,
            (Parsed::NoMatch, Ok(None)) => true,
            (Parsed::Stop(k), Err(k2)) => k == k2,
            _ => false,
        },
{
    let (e, st) = match parse_fncall(cs, p) {
        Some((e, c)) => (e, Stmt::FnCall(c)),
        None => match parse_var_decl(cs, p) {
            Ok(Some((e, d))) => (e, Stmt::VarDecl(d)),
            Err(k) => {
                return Err(k);
            },
            Ok(None) => match parse_var_assign(cs, p) {
                Some((e, a)) => (e, Stmt::VarAssign(a)),
                None => {
                    return Ok(None);
                },
            },
        },
    };
    let q = skip_ws(cs, e);
    if at(cs, q, ';') {
        Ok(Some((q + 1, st)))
    } else {
        Ok(None)
    }
}

proof fn lemma_stmts_v_cons(x: Stmt, xs: Seq<Stmt>)
    ensures
        stmts_v(xs.insert(0, x)) == seq![stmt_v(x)] + stmts_v(xs),
{
    assert(stmts_v(xs.insert(0, x)) =~= seq![stmt_v(x)] + stmts_v(xs));
}

#[verifier::spinoff_prover]
#[verifier::rlimit(40)]
fn parse_stmts(cs: &Vec<char>, p: usize) -> (r: Result<Option<(usize, Vec<Stmt>)>, HirPanic>)
    requires
        p <= cs.len(),
    ensures
        match (g_stmts(cs@, p as int), r) {
            (Parsed::Took(n, v), Ok(Some((e, xs)))) => e == p + n && e <= cs.len() && stmts_v(xs@)
                == v,
            (Parsed::NoMatch, Ok(None)) => true,
            (Parsed::Stop(k), Err(k2)) => k == k2,
            _ => false,
        },
    decreases rem(cs@, p as int),
{
    let empty: Vec<Stmt> = Vec::new();
    assert(stmts_v(empty@) =~= Seq::empty());
    if cs.len() <= p {
        return Ok(Some((p, empty)));
    }
    match parse_stmt(cs, p) {
        Ok(None) => Ok(Some((p, empty))),
        Err(k) => Err(k),
        Ok(Some((e, st))) => {
            if e == p {
                return Ok(None);
            }
            match parse_stmts(cs, e) {
                Ok(Some((e2, xs))) => {
                    let mut xs = xs;
                    proof {
                        lemma_stmts_v_cons(st, xs@);
                    }
                    xs.insert(0, st);
                    Ok(Some((e2, xs)))
                },
                Ok(None) => Ok(None),
                Err(k) => Err(k),
            }
        },
    }
}

fn parse_fn_arg(cs: &Vec<char>, p: usize) -> (r: Result<Option<(usize, FnArgDecl)>, HirPanic>)
    requires
        p <= cs.len(),
    ensures
        match (g_fn_arg(cs@, p as int), r) {
            (Parsed::Took(n, v), Ok(Some((e, a)))) => e == p + n && e <= cs.len() && arg_v(a) == v,
            (Parsed::NoMatch, Ok(None)) => true,
            (Parsed::Stop(k), Err(k2)) => k == k2,
            _ => false,
        },
{
    let (e1, name) = match parse_ident(cs, p) {
        Some(x) => x,
        None => {
            return Ok(None);
        },
    };
    let r = skip_ws(cs, e1);
    if !at(cs, r, ':') {
        return Ok(None);
    }
    match parse_type_name(cs, r + 1) {
        Ok(Some((e2, t))) => Ok(Some((e2, FnArgDecl { arg_name: name, arg_type: t }))),
        Ok(None) => Ok(None),
        Err(k) => Err(k),
    }
}

proof fn lemma_args_v_cons(x: FnArgDecl, xs: Seq<FnArgDecl>)
    ensures
        args_v(xs.insert(0, x)) == seq![arg_v(x)] + args_v(xs),
{
    assert(args_v(xs.insert(0, x)) =~= seq![arg_v(x)] + args_v(xs));
}

fn parse_fn_args_more(cs: &Vec<char>, p: usize) -> (r: Result<
    Option<(usize, Vec<FnArgDecl>)>,
    HirPanic,
>)
    requires
        p <= cs.len(),
    ensures
        match (g_fn_args_more(cs@, p as int), r) {
            (Parsed::Took(n, v), Ok(Some((e, xs)))) => e == p + n && e <= cs.len() && args_v(xs@)
                == v,
            (Parsed::NoMatch, Ok(None)) => true,
            (Parsed::Stop(k), Err(k2)) => k == k2,
            _ => false,
        },
    decreases rem(cs@, p as int),
{
    let empty: Vec<FnArgDecl> = Vec::new();
    assert(args_v(empty@) =~= Seq::empty());
    let q = skip_ws(cs, p);
    if at(cs, q, ',') {
        match parse_fn_arg(cs, q + 1) {
            Ok(None) => Ok(Some((p, empty))),
            Err(k) => Err(k),
            Ok(Some((e1, a))) => match parse_fn_args_more(cs, e1) {
                Ok(Some((e2, xs))) => {
                    let mut xs = xs;
                    proof {
                        lemma_args_v_cons(a, xs@);
                    }
                    xs.insert(0, a);
                    Ok(Some((e2, xs)))
                },
                Ok(None) => Ok(None),
                Err(k) => Err(k),
            },
        }
    } else {
        Ok(Some((p, empty)))
    }
}

fn parse_fn_args(cs: &Vec<char>, p: usize) -> (r: Result<Option<(usize, Vec<FnArgDecl>)>, HirPanic>)
    requires
        p <= cs.len(),
    ensures
        match (g_fn_args(cs@, p as int), r) {
            (Parsed::Took(n, v), Ok(Some((e, xs)))) => e == p + n && e <= cs.len() && args_v(xs@)
                == v,
            (Parsed::NoMatch, Ok(None)) => true,
            (Parsed::Stop(k), Err(k2)) => k == k2,
            _ => false,
        },
{
    let empty: Vec<FnArgDecl> = Vec::new();
    assert(args_v(empty@) =~= Seq::empty());
    match parse_fn_arg(cs, p) {
        Ok(None) => Ok(Some((p, empty))),
        Err(k) => Err(k),
        Ok(Some((e1, a))) => {
            if e1 == p {
                return Ok(None);
            }
            match parse_fn_args_more(cs, e1) {
                Ok(Some((e2, xs))) => {
                    let mut xs = xs;
                    proof {
                        lemma_args_v_cons(a, xs@);
                    }
                    xs.insert(0, a);
                    Ok(Some((e2, xs)))
                },
                Ok(None) => Ok(None),
                Err(k) => Err(k),
            }
        },
    }
}

fn parse_ret(cs: &Vec<char>, p: usize) -> (r: Result<Option<(usize, Option<VarType>)>, HirPanic>)
    requires
        p <= cs.len(),
    ensures
        match (g_ret(cs@, p as int), r) {
            (Parsed::Took(n, v), Ok(Some((e, t)))) => e == p + n && e <= cs.len() && t == v,
            (Parsed::NoMatch, Ok(None)) => true,
            (Parsed::Stop(k), Err(k2)) => k == k2,
            _ => false,
        },
{
    let q = skip_ws(cs, p);
    if at(cs, q, '-') && at(cs, q + 1, '>') {
        match parse_type_name(cs, q + 2) {
            Ok(None) => Ok(Some((p, None))),
            Err(k) => Err(k),
            Ok(Some((e, t))) => Ok(Some((e, Some(t)))),
        }
    } else {
        Ok(Some((p, None)))
    }
}

#[verifier::spinoff_prover]
#[verifier::rlimit(40)]
fn parse_fn_decl(cs: &Vec<char>, p: usize) -> (r: Result<Option<(usize, FnDecl)>, HirPanic>)
    requires
        p <= cs.len(),
    ensures
        match (g_fn_decl(cs@, p as int), r) {
            (Parsed::Took(n, v), Ok(Some((e, d)))) => e == p + n && e <= cs.len() && fndecl_v(d) == v,
            (Parsed::NoMatch, Ok(None)) => true,
            (Parsed::Stop(k), Err(k2)) => k == k2,
            _ => false,
        },
{
    let q = skip_ws(cs, p);
    if !(at(cs, q, 'f') && at(cs, q + 1, 'n')) {
        return Ok(None);
    }
    let (e1, name) = match parse_ident(cs, q + 2) {
        Some(x) => x,
        None => {
            return Ok(None);
        },
    };
    let r = skip_ws(cs, e1);
    if !at(cs, r, '(') {
        return Ok(None);
    }
    let (e2, args) = match parse_fn_args(cs, r + 1) {
        Ok(Some(x)) => x,
        Ok(None) => {
            return Ok(None);
        },
        Err(k) => {
            return Err(k);
        },
    };
    let u = skip_ws(cs, e2);
    if !at(cs, u, ')') {
        return Ok(None);
    }
    let (e3, ret) = match parse_ret(cs, u + 1) {
        Ok(Some(x)) => x,
        Ok(None) => {
            return Ok(None);
        },
        Err(k) => {
            return Err(k);
        },
    };
    let v = skip_ws(cs, e3);
    if !at(cs, v, '{') {
        return Ok(None);
    }
    let (e4, stmts) = match parse_stmts(cs, v + 1) {
        Ok(Some(x)) => x,
        Ok(None) => {
            return Ok(None);
        },
        Err(k) => {
            return Err(k);
        },
    };
    let w = skip_ws(cs, e4);
    if !at(cs, w, '}') {
        return Ok(None);
    }
    Ok(Some((w + 1, FnDecl { name, args, ret, stmts })))
}

/// Whether the text of two strings is the same.
fn same_text(a: &String, b: &String) -> (r: bool)
    ensures
        r == (a@ == b@),
{
    let ac = str_chars(a.as_str());
    let bc = str_chars(b.as_str());
    if ac.len() != bc.len() {
        return false;
    }
    let mut i: usize = 0;
    while i < ac.len()
        invariant
            ac@ == a@,
            bc@ == b@,
            ac.len() == bc.len(),
            0 <= i <= ac.len(),
            forall|j: int| 0 <= j < i ==> ac@[j] == bc@[j],
        decreases ac.len() - i,
    {
        if ac[i] != bc[i] {
            assert(a@[i as int] != b@[i as int]);
            return false;
        }
        i = i + 1;
    }
    assert(ac@ =~= bc@);
    true
}

/// Whether one of `ds` is called `name`.
fn named_in(ds: &Vec<FnDecl>, name: &String) -> (r: bool)
    ensures
        r == has_fn_named(fndecls_v(ds@), name@),
{
    let mut i: usize = 0;
    while i < ds.len()
        invariant
            0 <= i <= ds.len(),
            forall|j: int| 0 <= j < i ==> ds@[j].name@ != name@,
        decreases ds.len() - i,
    {
        if same_text(&ds[i].name, name) {
            assert(fndecls_v(ds@)[i as int].name == name@);
            return true;
        }
        i = i + 1;
    }
    assert forall|j: int| 0 <= j < fndecls_v(ds@).len() implies #[trigger] fndecls_v(ds@)[j].name
        != name@ by {
        assert(ds@[j].name@ != name@);
    }
    false
}

#[verifier::spinoff_prover]
#[verifier::rlimit(40)]
fn parse_fns_more(cs: &Vec<char>, p: usize, acc: Vec<FnDecl>) -> (r: Result<
    Option<(usize, Vec<FnDecl>)>,
    HirPanic,
>)
    requires
        p <= cs.len(),
    ensures
        match (g_fns_more(cs@, p as int, fndecls_v(acc@)), r) {
            (Parsed::Took(n, v), Ok(Some((e, ds)))) => e == p + n && e <= cs.len() && fndecls_v(ds@)
                == v,
            (Parsed::NoMatch, Ok(None)) => true,
            (Parsed::Stop(k), Err(k2)) => k == k2,
            _ => false,
        },
    decreases rem(cs@, p as int),
{
    if cs.len() <= p {
        return Ok(Some((p, acc)));
    }
    match parse_fn_decl(cs, p) {
        Ok(None) => Ok(Some((p, acc))),
        Err(k) => Err(k),
        Ok(Some((e, d))) => {
            if e == p {
                return Ok(None);
            }
            if named_in(&acc, &d.name) {
                return Err(HirPanic::DuplicateFunction);
            }
            let mut acc = acc;
            let ghost before = acc@;
            acc.push(d);
            assert(fndecls_v(acc@) =~= fndecls_v(before).push(fndecl_v(d)));
            parse_fns_more(cs, e, acc)
        },
    }
}

fn parse_program(cs: &Vec<char>) -> (r: Result<Option<(usize, Vec<FnDecl>)>, HirPanic>)
    ensures
        match (g_program(cs@, 0), r) {
            (Parsed::Took(n, v), Ok(Some((e, ds)))) => e == n && e <= cs.len() && fndecls_v(ds@)
                == v,
            (Parsed::NoMatch, Ok(None)) => true,
            (Parsed::Stop(k), Err(k2)) => k == k2,
            _ => false,
        },
{
    match parse_fn_decl(cs, 0) {
        Ok(None) => Ok(None),
        Err(k) => Err(k),
        Ok(Some((e, d))) => {
            let mut acc: Vec<FnDecl> = Vec::new();
            acc.push(d);
            assert(fndecls_v(acc@) =~= seq![fndecl_v(d)]);
            match parse_fns_more(cs, e, acc) {
                Ok(Some((e2, ds))) => Ok(Some((e2, ds))),
                Ok(None) => Ok(None),
                Err(k) => Err(k),
            }
        },
    }
}

/// Whether no two of `ds` have the same name.
pub open spec fn distinct_names(ds: Seq<FnDeclV>) -> bool {
    forall|i: int, j: int| 0 <= i < j < ds.len() ==> ds[i].name != ds[j].name
}

proof fn lemma_fns_more_distinct(s: Seq<char>, p: int, acc: Seq<FnDeclV>)
    requires
        distinct_names(acc),
    ensures
        g_fns_more(s, p, acc) matches Parsed::Took(_, ds) ==> distinct_names(ds),
    decreases rem(s, p),
{
    if s.len() <= p {
    } else {
        match g_fn_decl(s, p) {
            Parsed::Took(n, d) => {
                if n != 0 && !has_fn_named(acc, d.name) {
                    let acc2 = acc.push(d);
                    assert forall|i: int, j: int| 0 <= i < j < acc2.len() implies acc2[i].name
                        != acc2[j].name by {
                        if j == acc.len() {
                            if acc2[i].name == d.name {
                                assert(acc[i].name == d.name);
                            }
                        }
                    }
                    lemma_fns_more_distinct(s, p + n, acc2);
                }
            },
            _ => {},
        }
    }
}

/// A program that parses has no two functions of the same name.
pub proof fn lemma_parsed_names_distinct(s: Seq<char>)
    ensures
        g_hir(s) matches HirParse::Parsed(ds) ==> distinct_names(ds),
{
    match g_fn_decl(s, 0) {
        Parsed::Took(n, d) => {
            lemma_fns_more_distinct(s, n as int, seq![d]);
        },
        _ => {},
    }
}

fn parse_text(cs: &Vec<char>) -> (r: Result<Result<Program, ParseHirError>, HirPanic>)
    ensures
        match (g_hir(cs@), r) {
            (HirParse::Parsed(ds), Ok(Ok(prog))) => fndecls_v(prog.fns@) == ds,
            (HirParse::NoFunction, Ok(Err(e))) => e == ParseHirError::NoFunction,
            (HirParse::TrailingInput(q), Ok(Err(e))) => e == ParseHirError::TrailingInput(q as usize),
            (HirParse::Stop(k), Err(k2)) => k == k2,
            _ => false,
        },
{
    match parse_program(cs) {
        Ok(None) => Ok(Err(ParseHirError::NoFunction)),
        Err(k) => Err(k),
        Ok(Some((e, fns))) => {
            let q = skip_ws(cs, e);
            if q < cs.len() {
                Ok(Err(ParseHirError::TrailingInput(q)))
            } else {
                Ok(Ok(Program { fns }))
            }
        },
    }
}

/// Parses a program of the high-level language: one function or more, with
/// blanks between tokens. The functions come in the order of the text.
/// Texts on which parsing stops (an unknown type name, a function defined
/// twice) are left out; `hir_stop_reason` tells them.
pub fn parse_hir(i: &str) -> (r: Result<Program, ParseHirError>)
    requires
        !(g_hir(i@) is Stop),
    ensures
        match (g_hir(i@), r) {
            (HirParse::Parsed(ds), Ok(prog)) => fndecls_v(prog.fns@) == ds && distinct_names(ds),
            (HirParse::NoFunction, Err(e)) => e == ParseHirError::NoFunction,
            (HirParse::TrailingInput(q), Err(e)) => e == ParseHirError::TrailingInput(q as usize),
            _ => false,
        },
{
    let cs = str_chars(i);
    proof {
        lemma_parsed_names_distinct(i@);
    }
    match parse_text(&cs) {
        Ok(r) => r,
        Err(_) => Err(ParseHirError::NoFunction),
    }
}

/// Why parsing `i` would stop, if it would: a type name other than `u8` and
/// `u32`, or a second function of one name, met before the parse ends.
pub fn hir_stop_reason(i: &str) -> (r: Option<HirPanic>)
    ensures
        match g_hir(i@) {
            HirParse::Stop(k) => r == Some(k),
            _ => r is None,
        },
{
    let cs = str_chars(i);
    match parse_text(&cs) {
        Ok(_) => None,
        Err(k) => Some(k),
    }
}

} // verus!

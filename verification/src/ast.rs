//! The syntax tree of VORTEX programs.
use crate::token::{Token, TokenV};
use vstd::prelude::*;

verus! {

/// An expression.  A number with a decimal point is held as the text of its
/// literal.
#[derive(Debug)]
pub enum Expr {
    Number(i64),
    Floating(String),
    Boolean(bool),
    String(String),
    Ident(String),
    Unary { op: Token, expr: Box<Expr> },
    Binary { left: Box<Expr>, op: Token, right: Box<Expr> },
    Assignment { name: String, value: Box<Expr> },
    Grouping(Box<Expr>),
    FunctionCall { callee: Box<Expr>, arguments: Vec<Expr> },
    Return(Box<Expr>),
    Range { start: Box<Expr>, end: Box<Expr> },
}

#[derive(Debug)]
pub enum Stmt {
    Let { name: String, declared_type: Option<String>, value: Expr, mutable: bool },
    ExprStmt(Expr),
    Block(Vec<Stmt>),
    IfStmt { condition: Expr, then_branch: Box<Stmt>, else_branch: Option<Box<Stmt>> },
    FunctionDef {
        name: String,
        params: Vec<(String, Option<String>)>,
        return_type: Option<String>,
        body: Box<Stmt>,
        gpu: bool,
    },
    For { var: String, range: Expr, body: Box<Stmt> },
    Parallel { var: String, range: Expr, body: Box<Stmt> },
    Branch { condition: Expr, body: Box<Stmt> },
    Fallback(Box<Stmt>),
    Return(Expr),
}

/// The mathematical view of an expression.
pub enum ExprV {
    Number(int),
    Floating(Seq<char>),
    Boolean(bool),
    String(Seq<char>),
    Ident(Seq<char>),
    Unary { op: TokenV, expr: Box<ExprV> },
    Binary { left: Box<ExprV>, op: TokenV, right: Box<ExprV> },
    Assignment { name: Seq<char>, value: Box<ExprV> },
    Grouping(Box<ExprV>),
    FunctionCall { callee: Box<ExprV>, arguments: Seq<ExprV> },
    Return(Box<ExprV>),
    Range { start: Box<ExprV>, end: Box<ExprV> },
}

/// The mathematical view of a statement.
pub enum StmtV {
    Let { name: Seq<char>, declared_type: Option<Seq<char>>, value: ExprV, mutable: bool },
    ExprStmt(ExprV),
    Block(Seq<StmtV>),
    IfStmt { condition: ExprV, then_branch: Box<StmtV>, else_branch: Option<Box<StmtV>> },
    FunctionDef {
        name: Seq<char>,
        params: Seq<(Seq<char>, Option<Seq<char>>)>,
        return_type: Option<Seq<char>>,
        body: Box<StmtV>,
        gpu: bool,
    },
    For { var: Seq<char>, range: ExprV, body: Box<StmtV> },
    Parallel { var: Seq<char>, range: ExprV, body: Box<StmtV> },
    Branch { condition: ExprV, body: Box<StmtV> },
    Fallback(Box<StmtV>),
    Return(ExprV),
}

pub open spec fn opt_text(o: Option<String>) -> Option<Seq<char>> {
    match o {
        Some(s) => Some(s@),
        None => None,
    }
}

/// The view of a function parameter: its name and optional type.
pub open spec fn param_view(p: (String, Option<String>)) -> (Seq<char>, Option<Seq<char>>) {
    (p.0@, opt_text(p.1))
}

/// The views of a parameter list.
pub open spec fn params_view(ps: Seq<(String, Option<String>)>) -> Seq<(Seq<char>, Option<Seq<char>>)> {
    ps.map_values(|p: (String, Option<String>)| param_view(p))
}

/// The views of a sequence of expressions.
pub open spec fn exprs_view(s: Seq<Expr>) -> Seq<ExprV>
    decreases s,
{
    if s.len() == 0 {
        Seq::empty()
    } else {
        seq![s[0]@] + exprs_view(s.drop_first())
    }
}

/// The views of a sequence of statements.
pub open spec fn stmts_view(s: Seq<Stmt>) -> Seq<StmtV>
    decreases s,
{
    if s.len() == 0 {
        Seq::empty()
    } else {
        seq![s[0]@] + stmts_view(s.drop_first())
    }
}

impl View for Expr {
    type V = ExprV;

    open spec fn view(&self) -> ExprV
        decreases self,
    {
        match self {
            Expr::Number(n) => ExprV::Number(*n as int),
            Expr::Floating(s) => ExprV::Floating(s@),
            Expr::Boolean(b) => ExprV::Boolean(*b),
            Expr::String(s) => ExprV::String(s@),
            Expr::Ident(s) => ExprV::Ident(s@),
            Expr::Unary { op, expr } => ExprV::Unary { op: op@, expr: Box::new((**expr)@) },
            Expr::Binary { left, op, right } => ExprV::Binary {
                left: Box::new((**left)@),
                op: op@,
                right: Box::new((**right)@),
            },
            Expr::Assignment { name, value } => ExprV::Assignment { name: name@, value: Box::new((**value)@) },
            Expr::Grouping(e) => ExprV::Grouping(Box::new((**e)@)),
            Expr::FunctionCall { callee, arguments } => ExprV::FunctionCall {
                callee: Box::new((**callee)@),
                arguments: exprs_view(arguments@),
            },
            Expr::Return(e) => ExprV::Return(Box::new((**e)@)),
            Expr::Range { start, end } => ExprV::Range { start: Box::new((**start)@), end: Box::new((**end)@) },
        }
    }
}

impl View for Stmt {
    type V = StmtV;

    open spec fn view(&self) -> StmtV
        decreases self,
    {
        match self {
            Stmt::Let { name, declared_type, value, mutable } => StmtV::Let {
                name: name@,
                declared_type: opt_text(*declared_type),
                value: value@,
                mutable: *mutable,
            },
            Stmt::ExprStmt(e) => StmtV::ExprStmt(e@),
            Stmt::Block(stmts) => StmtV::Block(stmts_view(stmts@)),
            Stmt::IfStmt { condition, then_branch, else_branch } => StmtV::IfStmt {
                condition: condition@,
                then_branch: Box::new((**then_branch)@),
                else_branch: match else_branch {
                    Some(b) => Some(Box::new((**b)@)),
                    None => None,
                },
            },
            Stmt::FunctionDef { name, params, return_type, body, gpu } => StmtV::FunctionDef {
                name: name@,
                params: params_view(params@),
                return_type: opt_text(*return_type),
                body: Box::new((**body)@),
                gpu: *gpu,
            },
            Stmt::For { var, range, body } => StmtV::For { var: var@, range: range@, body: Box::new((**body)@) },
            Stmt::Parallel { var, range, body } => StmtV::Parallel {
                var: var@,
                range: range@,
                body: Box::new((**body)@),
            },
            Stmt::Branch { condition, body } => StmtV::Branch { condition: condition@, body: Box::new((**body)@) },
            Stmt::Fallback(b) => StmtV::Fallback(Box::new((**b)@)),
            Stmt::Return(e) => StmtV::Return(e@),
        }
    }
}


/// Appending an expression appends its view.
pub proof fn lemma_exprs_view_push(s: Seq<Expr>, e: Expr)
    ensures
        exprs_view(s.push(e)) == exprs_view(s).push(e@),
    decreases s.len(),
{
    if s.len() == 0 {
        assert(s.push(e).drop_first() =~= Seq::<Expr>::empty());
        assert(exprs_view(Seq::<Expr>::empty()) =~= Seq::<ExprV>::empty());
        assert(exprs_view(s.push(e)) =~= seq![e@]);
    } else {
        assert(s.push(e).drop_first() =~= s.drop_first().push(e));
        lemma_exprs_view_push(s.drop_first(), e);
        assert(s.push(e)[0] == s[0]);
        let a = seq![s[0]@];
        let b = exprs_view(s.drop_first());
        assert(exprs_view(s.push(e)) == a + b.push(e@));
        assert(a + b.push(e@) =~= (a + b).push(e@));
    }
}

/// Appending a statement appends its view.
pub proof fn lemma_stmts_view_push(s: Seq<Stmt>, e: Stmt)
    ensures
        stmts_view(s.push(e)) == stmts_view(s).push(e@),
    decreases s.len(),
{
    if s.len() == 0 {
        assert(s.push(e).drop_first() =~= Seq::<Stmt>::empty());
        assert(stmts_view(Seq::<Stmt>::empty()) =~= Seq::<StmtV>::empty());
        assert(stmts_view(s.push(e)) =~= seq![e@]);
    } else {
        assert(s.push(e).drop_first() =~= s.drop_first().push(e));
        lemma_stmts_view_push(s.drop_first(), e);
        assert(s.push(e)[0] == s[0]);
        let a = seq![s[0]@];
        let b = stmts_view(s.drop_first());
        assert(stmts_view(s.push(e)) == a + b.push(e@));
        assert(a + b.push(e@) =~= (a + b).push(e@));
    }
}


fn clone_text(t: &Option<String>) -> (r: Option<String>)
    ensures
        opt_text(r) == opt_text(*t),
{
    match t {
        Some(s) => Some(s.clone()),
        None => None,
    }
}

fn clone_expr(e: &Expr) -> (r: Expr)
    ensures
        r@ == e@,
    decreases e,
{
    match e {
        Expr::Number(n) => Expr::Number(*n),
        Expr::Floating(s) => Expr::Floating(s.clone()),
        Expr::Boolean(b) => Expr::Boolean(*b),
        Expr::String(s) => Expr::String(s.clone()),
        Expr::Ident(s) => Expr::Ident(s.clone()),
        Expr::Unary { op, expr } => Expr::Unary { op: op.clone(), expr: Box::new(clone_expr(expr)) },
        Expr::Binary { left, op, right } => Expr::Binary {
            left: Box::new(clone_expr(left)),
            op: op.clone(),
            right: Box::new(clone_expr(right)),
        },
        Expr::Assignment { name, value } => Expr::Assignment { name: name.clone(), value: Box::new(clone_expr(value)) },
        Expr::Grouping(inner) => Expr::Grouping(Box::new(clone_expr(inner))),
        Expr::FunctionCall { callee, arguments } => Expr::FunctionCall {
            callee: Box::new(clone_expr(callee)),
            arguments: clone_exprs(arguments),
        },
        Expr::Return(inner) => Expr::Return(Box::new(clone_expr(inner))),
        Expr::Range { start, end } => Expr::Range { start: Box::new(clone_expr(start)), end: Box::new(clone_expr(end)) },
    }
}

fn clone_exprs(v: &Vec<Expr>) -> (r: Vec<Expr>)
    ensures
        exprs_view(r@) == exprs_view(v@),
    decreases v,
{
    let mut r: Vec<Expr> = Vec::new();
    let mut i: usize = 0;
    while i < v.len()
        invariant
            i <= v.len(),
            exprs_view(r@) == exprs_view(v@.take(i as int)),
        decreases v.len() - i,
    {
        assert(decreases_to!(v => v@[i as int]));
        let c = clone_expr(&v[i]);
        proof {
            lemma_exprs_view_push(r@, c);
            lemma_exprs_view_push(v@.take(i as int), v@[i as int]);
            assert(v@.take(i + 1) =~= v@.take(i as int).push(v@[i as int]));
        }
        r.push(c);
        i = i + 1;
    }
    assert(v@.take(v.len() as int) =~= v@);
    r
}

fn clone_params(v: &Vec<(String, Option<String>)>) -> (r: Vec<(String, Option<String>)>)
    ensures
        params_view(r@) == params_view(v@),
{
    let mut r: Vec<(String, Option<String>)> = Vec::new();
    let mut i: usize = 0;
    while i < v.len()
        invariant
            i <= v.len(),
            r@.len() == i,
            forall|j: int| 0 <= j < i ==> #[trigger] param_view(r@[j]) == param_view(v@[j]),
        decreases v.len() - i,
    {
        let p = (v[i].0.clone(), clone_text(&v[i].1));
        r.push(p);
        i = i + 1;
    }
    assert(params_view(r@) =~= params_view(v@));
    r
}

fn clone_stmt(s: &Stmt) -> (r: Stmt)
    ensures
        r@ == s@,
    decreases s,
{
    match s {
        Stmt::Let { name, declared_type, value, mutable } => Stmt::Let {
            name: name.clone(),
            declared_type: clone_text(declared_type),
            value: clone_expr(value),
            mutable: *mutable,
        },
        Stmt::ExprStmt(e) => Stmt::ExprStmt(clone_expr(e)),
        Stmt::Block(stmts) => Stmt::Block(clone_stmts(stmts)),
        Stmt::IfStmt { condition, then_branch, else_branch } => Stmt::IfStmt {
            condition: clone_expr(condition),
            then_branch: Box::new(clone_stmt(then_branch)),
            else_branch: match else_branch {
                Some(b) => Some(Box::new(clone_stmt(b))),
                None => None,
            },
        },
        Stmt::FunctionDef { name, params, return_type, body, gpu } => Stmt::FunctionDef {
            name: name.clone(),
            params: clone_params(params),
            return_type: clone_text(return_type),
            body: Box::new(clone_stmt(body)),
            gpu: *gpu,
        },
        Stmt::For { var, range, body } => Stmt::For {
            var: var.clone(),
            range: clone_expr(range),
            body: Box::new(clone_stmt(body)),
        },
        Stmt::Parallel { var, range, body } => Stmt::Parallel {
            var: var.clone(),
            range: clone_expr(range),
            body: Box::new(clone_stmt(body)),
        },
        Stmt::Branch { condition, body } => Stmt::Branch { condition: clone_expr(condition), body: Box::new(clone_stmt(body)) },
        Stmt::Fallback(b) => Stmt::Fallback(Box::new(clone_stmt(b))),
        Stmt::Return(e) => Stmt::Return(clone_expr(e)),
    }
}

fn clone_stmts(v: &Vec<Stmt>) -> (r: Vec<Stmt>)
    ensures
        stmts_view(r@) == stmts_view(v@),
    decreases v,
{
    let mut r: Vec<Stmt> = Vec::new();
    let mut i: usize = 0;
    while i < v.len()
        invariant
            i <= v.len(),
            stmts_view(r@) == stmts_view(v@.take(i as int)),
        decreases v.len() - i,
    {
        assert(decreases_to!(v => v@[i as int]));
        let c = clone_stmt(&v[i]);
        proof {
            lemma_stmts_view_push(r@, c);
            lemma_stmts_view_push(v@.take(i as int), v@[i as int]);
            assert(v@.take(i + 1) =~= v@.take(i as int).push(v@[i as int]));
        }
        r.push(c);
        i = i + 1;
    }
    assert(v@.take(v.len() as int) =~= v@);
    r
}

impl Clone for Expr {
    fn clone(&self) -> (r: Self)
        ensures
            r@ == self@,
    {
        clone_expr(self)
    }
}

impl Clone for Stmt {
    fn clone(&self) -> (r: Self)
        ensures
            r@ == self@,
    {
        clone_stmt(self)
    }
}

/// The views of a sequence of expressions, one by one.
pub proof fn lemma_exprs_view_index(s: Seq<Expr>)
    ensures
        exprs_view(s).len() == s.len(),
        forall|i: int| 0 <= i < s.len() ==> #[trigger] exprs_view(s)[i] == s[i]@,
    decreases s.len(),
{
    if s.len() > 0 {
        lemma_exprs_view_index(s.drop_first());
        let r = exprs_view(s.drop_first());
        assert(exprs_view(s) == seq![s[0]@] + r);
        assert forall|i: int| 0 <= i < s.len() implies #[trigger] exprs_view(s)[i] == s[i]@ by {
            if i > 0 {
                assert((seq![s[0]@] + r)[i] == r[i - 1]);
                assert(s.drop_first()[i - 1] == s[i]);
            }
        }
    }
}

/// The views of a sequence of statements, one by one.
pub proof fn lemma_stmts_view_index(s: Seq<Stmt>)
    ensures
        stmts_view(s).len() == s.len(),
        forall|i: int| 0 <= i < s.len() ==> #[trigger] stmts_view(s)[i] == s[i]@,
    decreases s.len(),
{
    if s.len() > 0 {
        lemma_stmts_view_index(s.drop_first());
        let r = stmts_view(s.drop_first());
        assert(stmts_view(s) == seq![s[0]@] + r);
        assert forall|i: int| 0 <= i < s.len() implies #[trigger] stmts_view(s)[i] == s[i]@ by {
            if i > 0 {
                assert((seq![s[0]@] + r)[i] == r[i - 1]);
                assert(s.drop_first()[i - 1] == s[i]);
            }
        }
    }
}
} // verus!

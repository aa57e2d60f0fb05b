//! The syntax tree that the destructuring pass reads and rewrites.

use vstd::prelude::*;

verus! {

/// Symbol identity: a name and the lexical-scope token it was bound in.
/// Two equally spelled bindings of different scopes are different symbols.
#[derive(Clone, Debug, PartialEq, Eq, Hash)]
pub struct Id {
    pub sym: String,
    pub ctxt: u64,
}

impl View for Id {
    type V = (Seq<char>, u64);

    open spec fn view(&self) -> (Seq<char>, u64) {
        (self.sym@, self.ctxt)
    }
}

impl Id {
    pub fn copy(&self) -> (r: Id)
        ensures
            r == *self,
    {
        Id { sym: self.sym.clone(), ctxt: self.ctxt }
    }

    /// Whether both ids name the same symbol.
    pub fn same(&self, other: &Id) -> (r: bool)
        ensures
            r == (self@ == other@),
    {
        self.ctxt == other.ctxt && self.sym.eq(&other.sym)
    }
}

#[derive(Debug, PartialEq)]
pub enum Lit {
    Str(String),
    Num(i64),
    Bool(bool),
    Null,
}

#[derive(Debug, PartialEq)]
pub enum Expr {
    Ident(Id),
    Lit(Lit),
    /// `obj.prop`
    Member(Box<Expr>, String),
    /// `left ?? right`
    Nullish(Box<Expr>, Box<Expr>),
    /// `callee(args...)`
    Call(Box<Expr>, Vec<Expr>),
    /// `(params) => body`
    Arrow(ArrowExpr),
    Object(Vec<Prop>),
    Array(Vec<Expr>),
}

#[derive(Debug, PartialEq)]
pub struct ArrowExpr {
    pub params: Vec<Pat>,
    pub body: Box<ArrowBody>,
}

#[derive(Debug, PartialEq)]
pub enum ArrowBody {
    Block(Vec<Stmt>),
    Expr(Expr),
}

#[derive(Debug, PartialEq)]
pub enum PropName {
    Ident(String),
    Str(String),
}

/// A property of an object literal.
#[derive(Debug, PartialEq)]
pub enum Prop {
    /// `{ x }`
    Shorthand(Id),
    /// `{ key: value }`
    KeyValue(PropName, Box<Expr>),
}

/// A binding pattern.
#[derive(Debug, PartialEq)]
pub enum Pat {
    Ident(Id),
    Object(Vec<ObjectPatProp>),
    Array(Vec<Pat>),
}

/// One entry of an object pattern.
#[derive(Debug, PartialEq)]
pub enum ObjectPatProp {
    /// `{ key }` or `{ key = default }`
    Assign(Id, Option<Box<Expr>>),
    /// `{ key: target }`
    KeyValue(PropName, Box<Pat>),
    /// `{ ...target }`
    Rest(Box<Pat>),
}

#[derive(Debug, PartialEq)]
pub struct VarDeclarator {
    pub name: Pat,
    pub init: Option<Box<Expr>>,
}

#[derive(Debug, PartialEq)]
pub enum Stmt {
    /// `const a = ..., b = ...;`
    Var(Vec<VarDeclarator>),
    Expr(Box<Expr>),
    Return(Option<Box<Expr>>),
}

#[derive(Debug, PartialEq)]
pub struct Module {
    pub body: Vec<Stmt>,
}

/// An expression built only of identifiers, literals, member reads and
/// `??`: the shape of every replacement the destructuring pass records.
pub open spec fn simple_expr(e: Expr) -> bool
    decreases e,
{
    match e {
        Expr::Ident(_) => true,
        Expr::Lit(_) => true,
        Expr::Member(o, _) => simple_expr(*o),
        Expr::Nullish(l, r) => simple_expr(*l) && simple_expr(*r),
        _ => false,
    }
}

pub fn clone_lit(l: &Lit) -> (r: Lit)
    ensures
        r == *l,
{
    match l {
        Lit::Str(s) => Lit::Str(s.clone()),
        Lit::Num(n) => Lit::Num(*n),
        Lit::Bool(b) => Lit::Bool(*b),
        Lit::Null => Lit::Null,
    }
}

/// A copy of a simple expression.
pub fn clone_simple(e: &Expr) -> (r: Expr)
    requires
        simple_expr(*e),
    ensures
        r == *e,
    decreases *e,
{
    match e {
        Expr::Ident(id) => Expr::Ident(id.copy()),
        Expr::Lit(l) => Expr::Lit(clone_lit(l)),
        Expr::Member(o, k) => Expr::Member(Box::new(clone_simple(o)), k.clone()),
        Expr::Nullish(l, r) => Expr::Nullish(Box::new(clone_simple(l)), Box::new(clone_simple(r))),
        _ => Expr::Lit(Lit::Null),
    }
}


/// Every scope token that an expression mentions is below `m`.
pub open spec fn expr_tokens_below(e: Expr, m: u64) -> bool
    decreases e,
{
    match e {
        Expr::Ident(id) => id.ctxt < m,
        Expr::Lit(_) => true,
        Expr::Member(o, _) => expr_tokens_below(*o, m),
        Expr::Nullish(l, r) => expr_tokens_below(*l, m) && expr_tokens_below(*r, m),
        Expr::Call(c, args) => expr_tokens_below(*c, m) && forall|i: int|
            0 <= i < args@.len() ==> expr_tokens_below(#[trigger] args@[i], m),
        Expr::Arrow(a) => (forall|i: int|
            0 <= i < a.params@.len() ==> pat_tokens_below(#[trigger] a.params@[i], m)) && match *a.body {
            ArrowBody::Block(stmts) => forall|i: int|
                0 <= i < stmts@.len() ==> stmt_tokens_below(#[trigger] stmts@[i], m),
            ArrowBody::Expr(b) => expr_tokens_below(b, m),
        },
        Expr::Object(props) => forall|i: int|
            0 <= i < props@.len() ==> prop_tokens_below(#[trigger] props@[i], m),
        Expr::Array(elems) => forall|i: int|
            0 <= i < elems@.len() ==> expr_tokens_below(#[trigger] elems@[i], m),
    }
}

pub open spec fn prop_tokens_below(p: Prop, m: u64) -> bool
    decreases p,
{
    match p {
        Prop::Shorthand(id) => id.ctxt < m,
        Prop::KeyValue(_, v) => expr_tokens_below(*v, m),
    }
}

pub open spec fn pat_tokens_below(p: Pat, m: u64) -> bool
    decreases p,
{
    match p {
        Pat::Ident(id) => id.ctxt < m,
        Pat::Object(props) => forall|i: int|
            0 <= i < props@.len() ==> match #[trigger] props@[i] {
                ObjectPatProp::Assign(k, d) => k.ctxt < m && match d {
                    Some(d) => expr_tokens_below(*d, m),
                    None => true,
                },
                ObjectPatProp::KeyValue(_, t) => pat_tokens_below(*t, m),
                ObjectPatProp::Rest(t) => pat_tokens_below(*t, m),
            },
        Pat::Array(elems) => forall|i: int|
            0 <= i < elems@.len() ==> pat_tokens_below(#[trigger] elems@[i], m),
    }
}

pub open spec fn stmt_tokens_below(s: Stmt, m: u64) -> bool
    decreases s,
{
    match s {
        Stmt::Var(decls) => forall|i: int|
            0 <= i < decls@.len() ==> pat_tokens_below(#[trigger] decls@[i].name, m) && match decls@[i].init {
                Some(e) => expr_tokens_below(*e, m),
                None => true,
            },
        Stmt::Expr(e) => expr_tokens_below(*e, m),
        Stmt::Return(Some(e)) => expr_tokens_below(*e, m),
        Stmt::Return(None) => true,
    }
}

/// Every scope token that a module mentions is below `m`.
pub open spec fn module_tokens_below(module: Module, m: u64) -> bool {
    forall|i: int| 0 <= i < module.body@.len() ==> stmt_tokens_below(#[trigger] module.body@[i], m)
}
} // verus!

//! Rewrites object destructuring of a component's properties into member
//! reads of the properties object, so that closures extracted later from the
//! component body only need the properties object itself.

use crate::ast::{
    clone_simple, module_tokens_below, simple_expr, ArrowBody, ArrowExpr, Expr, Id, Lit, Module, ObjectPatProp, Pat,
    Prop, PropName, Stmt, VarDeclarator,
};
use crate::collector::{
    import_matches, imported_local, immutable_expr, tokens_below_mark, GlobalCollect, Import,
};
use vstd::prelude::*;
use vstd::string::{StrSliceExecFns, StringExecFns};

verus! {

/// `obj.key`
pub open spec fn member_of(obj: Expr, key: String) -> Expr {
    Expr::Member(Box::new(obj), key)
}

/// What reading the pattern left to right has collected: whether some
/// entry cannot be rewritten, the rest target, and for each binding its
/// symbol, the key it reads and the expression that replaces it.
pub open spec fn scan_props(obj: Expr, props: Seq<ObjectPatProp>, imports: Seq<Import>) -> (
    bool,
    Option<Id>,
    Seq<(Id, String, Expr)>,
)
    decreases props.len(),
{
    if props.len() == 0 {
        (false, None, Seq::empty())
    } else {
        let (skip, rest, local) = scan_props(obj, props.drop_last(), imports);
        match props.last() {
            ObjectPatProp::Assign(k, None) => (skip, rest, local.push((k, k.sym, member_of(obj, k.sym)))),
            ObjectPatProp::Assign(k, Some(d)) => if immutable_expr(*d, imports) {
                (
                    skip,
                    rest,
                    local.push((k, k.sym, Expr::Nullish(Box::new(member_of(obj, k.sym)), d))),
                )
            } else {
                (true, rest, local)
            },
            ObjectPatProp::KeyValue(PropName::Ident(key), target) => match *target {
                Pat::Ident(t) => (skip, rest, local.push((t, key, member_of(obj, key)))),
                _ => (true, rest, local),
            },
            ObjectPatProp::KeyValue(PropName::Str(_), _) => (true, rest, local),
            ObjectPatProp::Rest(target) => match *target {
                Pat::Ident(t) => (skip, Some(t), local),
                _ => (true, rest, local),
            },
        }
    }
}

/// The analysis of an object pattern destructuring `obj`: `None` where the
/// pattern must stay as written, else the rest target and the bindings.
pub open spec fn analyze_pat(obj: Expr, props: Seq<ObjectPatProp>, imports: Seq<Import>) -> Option<
    (Option<Id>, Seq<(Id, String, Expr)>),
> {
    let (skip, rest, local) = scan_props(obj, props, imports);
    if skip || local.len() == 0 {
        None
    } else {
        Some((rest, local))
    }
}

/// The bindings of a successful analysis.
pub open spec fn analyzed_bindings(obj: Expr, props: Seq<ObjectPatProp>, imports: Seq<Import>) -> Seq<
    (Id, String, Expr),
> {
    match analyze_pat(obj, props, imports) {
        Some((_, local)) => local,
        None => Seq::empty(),
    }
}

/// The key names that the bindings read, in order.
pub open spec fn consumed_keys(local: Seq<(Id, String, Expr)>) -> Seq<String> {
    local.map_values(|t: (Id, String, Expr)| t.1)
}

/// `const rest = omit(props_expr, ["k1", "k2", ...]);`
pub open spec fn is_omit_stmt(s: Stmt, omit_fn: Id, rest_id: Id, props_expr: Expr, keys: Seq<String>) -> bool {
    match s {
        Stmt::Var(decls) => decls@.len() == 1 && decls@[0].name == Pat::Ident(rest_id) && match decls@[0].init {
            Some(init) => match *init {
                Expr::Call(callee, args) => *callee == Expr::Ident(omit_fn) && args@.len() == 2
                    && args@[0] == props_expr && match args@[1] {
                    Expr::Array(elems) => elems@.len() == keys.len() && forall|i: int|
                        0 <= i < keys.len() ==> #[trigger] elems@[i] == Expr::Lit(Lit::Str(keys[i])),
                    _ => false,
                },
                _ => false,
            },
            None => false,
        },
        _ => false,
    }
}

/// Analyses the object pattern `obj` destructuring `new_ident`.
pub fn transform_pat(new_ident: &Expr, obj: &Vec<ObjectPatProp>, global_collect: &GlobalCollect) -> (r:
    Option<(Option<Id>, Vec<(Id, String, Expr)>)>)
    requires
        simple_expr(*new_ident),
    ensures
        match analyze_pat(*new_ident, obj@, global_collect.imports@) {
            Some((rest, local)) => match r {
                Some((rr, ll)) => rr == rest && ll@ == local,
                None => false,
            },
            None => r is None,
        },
{
    let mut local: Vec<(Id, String, Expr)> = Vec::new();
    let mut skip = false;
    let mut rest_id: Option<Id> = None;
    let mut i: usize = 0;
    while i < obj.len()
        invariant
            i <= obj@.len(),
            simple_expr(*new_ident),
            (skip, rest_id, local@) == scan_props(
                *new_ident,
                obj@.subrange(0, i as int),
                global_collect.imports@,
            ),
        decreases obj@.len() - i,
    {
        assert(obj@.subrange(0, i + 1).drop_last() =~= obj@.subrange(0, i as int));
        match &obj[i] {
            ObjectPatProp::Assign(key, value) => {
                let access = Expr::Member(Box::new(clone_simple(new_ident)), key.sym.clone());
                match value {
                    Some(v) => {
                        if global_collect.is_immutable_expr(v) {
                            let d = clone_simple(v);
                            local.push(
                                (key.copy(), key.sym.clone(), Expr::Nullish(Box::new(access), Box::new(d))),
                            );
                        } else {
                            skip = true;
                        }
                    },
                    None => {
                        local.push((key.copy(), key.sym.clone(), access));
                    },
                }
            },
            ObjectPatProp::KeyValue(name, target) => {
                match name {
                    PropName::Ident(key) => {
                        match &**target {
                            Pat::Ident(ident) => {
                                let access = Expr::Member(Box::new(clone_simple(new_ident)), key.clone());
                                local.push((ident.copy(), key.clone(), access));
                            },
                            _ => {
                                skip = true;
                            },
                        }
                    },
                    PropName::Str(_) => {
                        skip = true;
                    },
                }
            },
            ObjectPatProp::Rest(target) => {
                match &**target {
                    Pat::Ident(ident) => {
                        rest_id = Some(ident.copy());
                    },
                    _ => {
                        skip = true;
                    },
                }
            },
        }
        i = i + 1;
    }
    assert(obj@.subrange(0, obj@.len() as int) =~= obj@);
    if skip || local.len() == 0 {
        return None;
    }
    Some((rest_id, local))
}

/// `const rest_id = omit_fn(props_expr, [omit...]);`
pub fn create_omit_props(omit_fn: &Id, rest_id: &Id, props_expr: Expr, omit: Vec<String>) -> (r: Stmt)
    ensures
        is_omit_stmt(r, *omit_fn, *rest_id, props_expr, omit@),
{
    let mut elems: Vec<Expr> = Vec::new();
    let mut i: usize = 0;
    while i < omit.len()
        invariant
            i <= omit@.len(),
            elems@.len() == i,
            forall|j: int| 0 <= j < i ==> #[trigger] elems@[j] == Expr::Lit(Lit::Str(omit@[j])),
        decreases omit@.len() - i,
    {
        elems.push(Expr::Lit(Lit::Str(omit[i].clone())));
        i = i + 1;
    }
    let mut args: Vec<Expr> = Vec::new();
    args.push(props_expr);
    args.push(Expr::Array(elems));
    let call = Expr::Call(Box::new(Expr::Ident(omit_fn.copy())), args);
    let mut decls: Vec<VarDeclarator> = Vec::new();
    decls.push(VarDeclarator { name: Pat::Ident(rest_id.copy()), init: Some(Box::new(call)) });
    Stmt::Var(decls)
}

/// `body` with the omission statement `first` put in front of it; an
/// expression body becomes a block that returns the expression.
pub open spec fn body_with_first(new_body: ArrowBody, old_body: ArrowBody, first: Stmt) -> bool {
    match new_body {
        ArrowBody::Block(stmts) => stmts@.len() >= 1 && stmts@[0] == first && match old_body {
            ArrowBody::Block(old_stmts) => stmts@.subrange(1, stmts@.len() as int) == old_stmts@,
            ArrowBody::Expr(e) => stmts@.len() == 2 && stmts@[1] == Stmt::Return(Some(Box::new(e))),
        },
        ArrowBody::Expr(_) => false,
    }
}

fn create_return_stmt(e: Expr) -> (r: Stmt)
    ensures
        r == Stmt::Return(Some(Box::new(e))),
{
    Stmt::Return(Some(Box::new(e)))
}

/// Puts the omission statement for `rest_id` first in the arrow's body.
pub fn transform_rest(arrow: &mut ArrowExpr, omit_fn: &Id, rest_id: &Id, props_expr: Expr, omit: Vec<String>)
    ensures
        final(arrow).params == old(arrow).params,
        exists|s: Stmt|
            is_omit_stmt(s, *omit_fn, *rest_id, props_expr, omit@) && body_with_first(
                *final(arrow).body,
                *old(arrow).body,
                s,
            ),
{
    let new_stmt = create_omit_props(omit_fn, rest_id, props_expr, omit);
    let ghost g = new_stmt;
    let mut body = Box::new(ArrowBody::Block(Vec::new()));
    std::mem::swap(&mut arrow.body, &mut body);
    match *body {
        ArrowBody::Block(stmts) => {
            let mut stmts = stmts;
            stmts.insert(0, new_stmt);
            assert(stmts@.subrange(1, stmts@.len() as int) =~= old(arrow).body->Block_0@);
            arrow.body = Box::new(ArrowBody::Block(stmts));
        },
        ArrowBody::Expr(expr) => {
            let mut stmts: Vec<Stmt> = Vec::new();
            stmts.push(new_stmt);
            stmts.push(create_return_stmt(expr));
            arrow.body = Box::new(ArrowBody::Block(stmts));
        },
    }
    assert(body_with_first(*arrow.body, *old(arrow).body, g));
}

/// The replacement expression that `table` holds for `id`; a later entry
/// overrides an earlier one.
pub open spec fn table_lookup(table: Seq<(Id, Expr)>, id: (Seq<char>, u64)) -> Option<Expr>
    decreases table.len(),
{
    if table.len() == 0 {
        None
    } else if table.last().0@ == id {
        Some(table.last().1)
    } else {
        table_lookup(table.drop_last(), id)
    }
}

/// The table entries that a successful analysis adds.
pub open spec fn entries(local: Seq<(Id, String, Expr)>) -> Seq<(Id, Expr)> {
    local.map_values(|t: (Id, String, Expr)| (t.0, t.2))
}

/// Name of the component-factory function in the core module.
pub open spec fn component_name() -> Seq<char> {
    "component$"@
}

/// Name of the helper that copies an object without the given keys.
pub open spec fn rest_props_name() -> Seq<char> {
    "_restProps"@
}

/// State of one run of the pass over one module.
pub struct PropsDestructuring {
    /// Local name of the component factory, where the module imports it.
    pub component_ident: Option<Id>,
    /// The substitution table.
    pub identifiers: Vec<(Id, Expr)>,
    pub global_collect: GlobalCollect,
    pub core_module: String,
}

impl PropsDestructuring {
    /// Every recorded replacement is a simple expression.
    pub open spec fn wf(&self) -> bool {
        forall|i: int| 0 <= i < self.identifiers@.len() ==> simple_expr(#[trigger] self.identifiers@[i].1)
    }

    /// `self` is a later state of the run that was at `prev`: the table and the
    /// imports have only grown, and the configuration is the same.
    pub open spec fn extends(&self, prev: &Self) -> bool {
        &&& self.component_ident == prev.component_ident
        &&& self.core_module == prev.core_module
        &&& prev.identifiers@.len() <= self.identifiers@.len()
        &&& self.identifiers@.subrange(0, prev.identifiers@.len() as int) == prev.identifiers@
        &&& prev.global_collect.imports@.len() <= self.global_collect.imports@.len()
        &&& self.global_collect.imports@.subrange(0, prev.global_collect.imports@.len() as int)
            == prev.global_collect.imports@
        &&& prev.global_collect.next_mark <= self.global_collect.next_mark
        &&& forall|k: int|
            prev.global_collect.imports@.len() <= k < self.global_collect.imports@.len()
                ==> (#[trigger] self.global_collect.imports@[k]).specifier@ == rest_props_name()
                && self.global_collect.imports@[k].source@ == self.core_module@
                && self.global_collect.imports@[k].local.ctxt < self.global_collect.next_mark
        &&& self.global_collect.imports@.len() <= prev.global_collect.imports@.len() + 1
        &&& self.global_collect.imports@.len() == prev.global_collect.imports@.len() + 1 ==> imported_local(
            prev.global_collect.imports@,
            rest_props_name(),
            prev.core_module@,
        ) is None
    }

    /// The replacement recorded for `id`, if any.
    fn lookup(&self, id: &Id) -> (r: Option<Expr>)
        requires
            self.wf(),
        ensures
            r == table_lookup(self.identifiers@, id@),
    {
        let mut i: usize = self.identifiers.len();
        assert(self.identifiers@.subrange(0, i as int) =~= self.identifiers@);
        while i > 0
            invariant
                i <= self.identifiers@.len(),
                self.wf(),
                table_lookup(self.identifiers@, id@) == table_lookup(
                    self.identifiers@.subrange(0, i as int),
                    id@,
                ),
            decreases i,
        {
            assert(self.identifiers@.subrange(0, i as int).drop_last() =~= self.identifiers@.subrange(
                0,
                i - 1,
            ));
            let entry = &self.identifiers[i - 1];
            if entry.0.same(id) {
                assert(simple_expr(self.identifiers@[i - 1].1));
                return Some(clone_simple(&entry.1));
            }
            i = i - 1;
        }
        None
    }

    /// Adds the bindings of a successful analysis to the table.
    fn record(&mut self, local: Vec<(Id, String, Expr)>)
        requires
            old(self).wf(),
            forall|i: int| 0 <= i < local@.len() ==> simple_expr(#[trigger] local@[i].2),
        ensures
            final(self).wf(),
            final(self).identifiers@ == old(self).identifiers@ + entries(local@),
            final(self).component_ident == old(self).component_ident,
            final(self).core_module == old(self).core_module,
            final(self).global_collect == old(self).global_collect,
    {
        let ghost l0 = local@;
        let mut local = local;
        let mut stack: Vec<(Id, Expr)> = Vec::new();
        while local.len() > 0
            invariant
                l0.len() == local@.len() + stack@.len(),
                local@ == l0.subrange(0, local@.len() as int),
                forall|j: int|
                    0 <= j < stack@.len() ==> #[trigger] stack@[j] == (
                        l0[l0.len() - 1 - j].0,
                        l0[l0.len() - 1 - j].2,
                    ),
            decreases local@.len(),
        {
            let (id, _key, expr) = local.pop().unwrap();
            stack.push((id, expr));
        }
        let ghost t0 = self.identifiers@;
        while stack.len() > 0
            invariant
                self.wf(),
                forall|j: int| 0 <= j < l0.len() ==> simple_expr(#[trigger] l0[j].2),
                stack@.len() <= l0.len(),
                forall|j: int|
                    0 <= j < stack@.len() ==> #[trigger] stack@[j] == (
                        l0[l0.len() - 1 - j].0,
                        l0[l0.len() - 1 - j].2,
                    ),
                self.identifiers@ == t0 + entries(l0.subrange(0, l0.len() - stack@.len())),
                self.component_ident == old(self).component_ident,
                self.core_module == old(self).core_module,
                self.global_collect == old(self).global_collect,
                t0 == old(self).identifiers@,
                old(self).wf(),
            decreases stack@.len(),
        {
            let ghost k = l0.len() - stack@.len();
            let entry = stack.pop().unwrap();
            assert(entry == (l0[k].0, l0[k].2));
            assert(entries(l0.subrange(0, k + 1)) =~= entries(l0.subrange(0, k)).push(entry));
            self.identifiers.push(entry);
            assert(self.identifiers@ =~= t0 + entries(l0.subrange(0, k + 1)));
        }
        assert(l0.subrange(0, l0.len() as int) =~= l0);
    }
}

/// Every binding that the scan collects is a simple expression when the
/// destructured object is one.
proof fn lemma_scan_simple(obj: Expr, props: Seq<ObjectPatProp>, imports: Seq<Import>)
    requires
        simple_expr(obj),
    ensures
        forall|i: int|
            0 <= i < scan_props(obj, props, imports).2.len() ==> simple_expr(
                #[trigger] scan_props(obj, props, imports).2[i].2,
            ),
    decreases props.len(),
{
    if props.len() > 0 {
        lemma_scan_simple(obj, props.drop_last(), imports);
        let prev = scan_props(obj, props.drop_last(), imports).2;
        let cur = scan_props(obj, props, imports).2;
        match props.last() {
            ObjectPatProp::Assign(k, Some(d)) => {
                if immutable_expr(*d, imports) {
                    assert(simple_expr(*d));
                    assert(simple_expr(member_of(obj, k.sym)));
                }
            },
            _ => {},
        }
        assert forall|i: int| 0 <= i < cur.len() implies simple_expr(#[trigger] cur[i].2) by {
            if i < prev.len() {
                assert(cur[i] == prev[i]);
            }
        }
    }
}

/// Whether the scan skips, its rest target and how many bindings it collects
/// do not depend on the destructured object.
proof fn lemma_scan_shape(o1: Expr, o2: Expr, props: Seq<ObjectPatProp>, imports: Seq<Import>)
    ensures
        scan_props(o1, props, imports).0 == scan_props(o2, props, imports).0,
        scan_props(o1, props, imports).1 == scan_props(o2, props, imports).1,
        scan_props(o1, props, imports).2.len() == scan_props(o2, props, imports).2.len(),
        forall|i: int|
            0 <= i < scan_props(o1, props, imports).2.len() ==> (#[trigger] scan_props(
                o1,
                props,
                imports,
            ).2[i]).1 == scan_props(o2, props, imports).2[i].1 && scan_props(
                o1,
                props,
                imports,
            ).2[i].0 == scan_props(o2, props, imports).2[i].0,
    decreases props.len(),
{
    if props.len() > 0 {
        lemma_scan_shape(o1, o2, props.drop_last(), imports);
    }
}

/// Whether an object pattern can be rewritten at all: all of its entries
/// are supported and it binds at least one name.
pub open spec fn pattern_supported(props: Seq<ObjectPatProp>, imports: Seq<Import>) -> bool {
    analyze_pat(Expr::Lit(Lit::Null), props, imports) is Some
}

/// The object pattern that a parameter list opens with, if any.
pub open spec fn first_object_param(params: Seq<Pat>) -> Option<Vec<ObjectPatProp>> {
    if params.len() > 0 {
        match params[0] {
            Pat::Object(props) => Some(props),
            _ => None,
        }
    } else {
        None
    }
}

fn fresh_named(pd: &mut PropsDestructuring, name: String) -> (r: Option<Id>)
    ensures
        final(pd).identifiers == old(pd).identifiers,
        final(pd).component_ident == old(pd).component_ident,
        final(pd).core_module == old(pd).core_module,
        final(pd).global_collect.imports == old(pd).global_collect.imports,
        match r {
            Some(id) => id.sym@ == name@ && id.ctxt == old(pd).global_collect.next_mark
                && final(pd).global_collect.next_mark == old(pd).global_collect.next_mark + 1,
            None => old(pd).global_collect.next_mark == u64::MAX && final(pd).global_collect
                == old(pd).global_collect,
        },
{
    pd.global_collect.fresh_ident(name)
}

proof fn lemma_extends_refl(pd: PropsDestructuring)
    ensures
        pd.extends(&pd),
{
    assert(pd.identifiers@.subrange(0, pd.identifiers@.len() as int) =~= pd.identifiers@);
    assert(pd.global_collect.imports@.subrange(0, pd.global_collect.imports@.len() as int)
        =~= pd.global_collect.imports@);
}

/// The keys that the bindings read, as a list.
fn omit_keys(local: &Vec<(Id, String, Expr)>) -> (r: Vec<String>)
    ensures
        r@ == consumed_keys(local@),
{
    let mut omit: Vec<String> = Vec::new();
    let mut i: usize = 0;
    while i < local.len()
        invariant
            i <= local@.len(),
            omit@ == consumed_keys(local@.subrange(0, i as int)),
        decreases local@.len() - i,
    {
        assert(consumed_keys(local@.subrange(0, i + 1)) =~= consumed_keys(
            local@.subrange(0, i as int),
        ).push(local@[i as int].1));
        omit.push(local[i].1.clone());
        i = i + 1;
    }
    assert(local@.subrange(0, local@.len() as int) =~= local@);
    omit
}

/// How a successful rewrite of the first parameter, with placeholder `p`,
/// relates the arrow and the pass state before and after it.
pub open spec fn component_params_rewritten(
    a0: ArrowExpr,
    a1: ArrowExpr,
    pd0: PropsDestructuring,
    pd1: PropsDestructuring,
    p: Id,
) -> bool {
    &&& p.sym@ == "props"@
    &&& p.ctxt == pd0.global_collect.next_mark
    &&& match first_object_param(a0.params@) {
        Some(props) => match analyze_pat(Expr::Ident(p), props@, pd0.global_collect.imports@) {
            Some((rest, local)) => {
                &&& a1.params@ == a0.params@.update(0, Pat::Ident(p))
                &&& pd1.identifiers@ == pd0.identifiers@ + entries(local)
                &&& match rest {
                    None => a1.body == a0.body,
                    Some(rid) => match imported_local(
                        pd1.global_collect.imports@,
                        rest_props_name(),
                        pd1.core_module@,
                    ) {
                        Some(f) => exists|st: Stmt|
                            is_omit_stmt(st, f, rid, Expr::Ident(p), consumed_keys(local))
                                && body_with_first(*a1.body, *a0.body, st),
                        None => false,
                    },
                }
            },
            None => false,
        },
        None => false,
    }
}

/// Replaces a component's destructured properties parameter by a
/// placeholder, records the bindings, and puts the rest omission first in
/// the body. Returns the placeholder where it did so.
pub fn rewrite_component_params(arrow: &mut ArrowExpr, pd: &mut PropsDestructuring) -> (r: Option<Id>)
    requires
        old(pd).wf(),
    ensures
        final(pd).wf(),
        final(pd).extends(&*old(pd)),
        match r {
            None => *final(arrow) == *old(arrow) && final(pd).identifiers == old(pd).identifiers,
            Some(p) => component_params_rewritten(*old(arrow), *final(arrow), *old(pd), *final(pd), p),
        },
        first_object_param(old(arrow).params@) is Some && pattern_supported(
            first_object_param(old(arrow).params@)->0@,
            old(pd).global_collect.imports@,
        ) && old(pd).global_collect.next_mark < u64::MAX - 1 ==> r is Some,
{
    proof {
        lemma_extends_refl(*pd);
    }
    if arrow.params.len() == 0 {
        return None;
    }
    let obj = match &arrow.params[0] {
        Pat::Object(obj) => obj,
        _ => {
            return None;
        },
    };
    let ghost pd0 = *pd;
    let new_ident = match fresh_named(pd, String::from_str("props")) {
        Some(id) => id,
        None => {
            return None;
        },
    };
    proof {
        reveal_strlit("props");
    }
    let new_ref = Expr::Ident(new_ident.copy());
    let analysis = transform_pat(&new_ref, obj, &pd.global_collect);
    proof {
        lemma_scan_shape(new_ref, Expr::Lit(Lit::Null), obj@, pd.global_collect.imports@);
        lemma_scan_simple(new_ref, obj@, pd.global_collect.imports@);
    }
    let (rest_id, local) = match analysis {
        Some(a) => a,
        None => {
            return None;
        },
    };
    let ghost pd1 = *pd;
    match rest_id {
        Some(rest_id) => {
            let rest_props = String::from_str("_restProps");
            let omit_fn = match pd.global_collect.import(&rest_props, &pd.core_module) {
                Some(f) => f,
                None => {
                    return None;
                },
            };
            proof {
                reveal_strlit("_restProps");
            }
            let omit = omit_keys(&local);
            transform_rest(arrow, &omit_fn, &rest_id, Expr::Ident(new_ident.copy()), omit);
        },
        None => {},
    }
    let ghost pd2 = *pd;
    pd.record(local);
    arrow.params.set(0, Pat::Ident(new_ident.copy()));
    proof {
        assert(pd.identifiers@.subrange(0, pd0.identifiers@.len() as int) =~= pd0.identifiers@);
        assert(pd.global_collect.imports@.subrange(0, pd0.global_collect.imports@.len() as int)
            =~= pd0.global_collect.imports@);
    }
    Some(new_ident)
}

/// Whether a callee name follows the hook-call convention `use...`.
pub open spec fn has_use_prefix(name: Seq<char>) -> bool {
    name.len() >= 3 && name[0] == 'u' && name[1] == 's' && name[2] == 'e'
}

fn use_prefixed(name: &String) -> (r: bool)
    ensures
        r == has_use_prefix(name@),
{
    let s = name.as_str();
    s.unicode_len() >= 3 && s.get_char(0) == 'u' && s.get_char(1) == 's' && s.get_char(2) == 'e'
}

/// What `str::to_lowercase` returns for a string.
pub uninterp spec fn lower_of(s: Seq<char>) -> Seq<char>;

/// Relies on `str::to_lowercase`: its result depends on the characters alone.
#[verifier::external_body]
fn to_lowercase(s: &str) -> (r: String)
    ensures
        r@ == lower_of(s@),
{
    s.to_lowercase()
}

proof fn lemma_lookup_simple(table: Seq<(Id, Expr)>, id: (Seq<char>, u64))
    requires
        forall|i: int| 0 <= i < table.len() ==> simple_expr(#[trigger] table[i].1),
    ensures
        table_lookup(table, id) matches Some(e) ==> simple_expr(e),
    decreases table.len(),
{
    if table.len() > 0 {
        assert(simple_expr(table[table.len() - 1].1));
        lemma_lookup_simple(table.drop_last(), id);
    }
}

/// Where the object that a declaration destructures comes from: a hook
/// call, bound to a placeholder named after the hook, or a name whose
/// replacement the table records, which then stands for the object.
pub open spec fn declaration_source(
    d0: VarDeclarator,
    d1: VarDeclarator,
    pd0: PropsDestructuring,
    p: Id,
    new_ref: Expr,
) -> bool {
    match d0.init {
        Some(init) => match *init {
            Expr::Call(callee, _) => match *callee {
                Expr::Ident(c) => has_use_prefix(c.sym@) && p.sym@ == lower_of(
                    c.sym@.subrange(3, c.sym@.len() as int),
                ) && new_ref == Expr::Ident(p) && d1.init == d0.init,
                _ => false,
            },
            Expr::Ident(i) => table_lookup(pd0.identifiers@, i@) == Some(new_ref) && p.sym@
                == "_unused"@ && d1.init is None,
            _ => false,
        },
        None => false,
    }
}

/// How a successful rewrite of a declaration with placeholder `p`, standing
/// for the object `new_ref`, relates the states before and after it; `r` is
/// the omission statement to put after the declaration.
pub open spec fn declarator_rewritten(
    d0: VarDeclarator,
    d1: VarDeclarator,
    pd0: PropsDestructuring,
    pd1: PropsDestructuring,
    r: Option<Stmt>,
    p: Id,
    new_ref: Expr,
) -> bool {
    &&& p.ctxt == pd0.global_collect.next_mark
    &&& declaration_source(d0, d1, pd0, p, new_ref)
    &&& match d0.name {
        Pat::Object(props) => match analyze_pat(new_ref, props@, pd0.global_collect.imports@) {
            Some((rest, local)) => {
                &&& d1.name == Pat::Ident(p)
                &&& pd1.identifiers@ == pd0.identifiers@ + entries(local)
                &&& match rest {
                    None => r is None,
                    Some(rid) => match (
                        r,
                        imported_local(pd1.global_collect.imports@, rest_props_name(), pd1.core_module@),
                    ) {
                        (Some(st), Some(f)) => is_omit_stmt(st, f, rid, new_ref, consumed_keys(local)),
                        _ => false,
                    },
                }
            },
            None => false,
        },
        _ => false,
    }
}

/// A declaration whose object pattern destructures a hook call's result or
/// a name that the table records, and whose pattern can be rewritten.
pub open spec fn declarator_ready(d: VarDeclarator, pd: PropsDestructuring) -> bool {
    &&& d.name is Object
    &&& pattern_supported(d.name->Object_0@, pd.global_collect.imports@)
    &&& match d.init {
        Some(init) => match *init {
            Expr::Call(callee, _) => match *callee {
                Expr::Ident(c) => has_use_prefix(c.sym@),
                _ => false,
            },
            Expr::Ident(i) => table_lookup(pd.identifiers@, i@) is Some,
            _ => false,
        },
        None => false,
    }
}

/// What one declaration step does: a ready declaration is rewritten (where
/// fresh tokens remain); any other stays exactly as written, adds nothing to
/// the table and yields no omission statement.
#[verifier::opaque]
pub open spec fn declarator_step(
    d0: VarDeclarator,
    d1: VarDeclarator,
    pd0: PropsDestructuring,
    pd1: PropsDestructuring,
    r: Option<Stmt>,
) -> bool {
    let kept = d1 == d0 && pd1.identifiers == pd0.identifiers && r is None;
    let rewritten = exists|p: Id, new_ref: Expr| declarator_rewritten(d0, d1, pd0, pd1, r, p, new_ref);
    &&& pd1.wf()
    &&& pd1.extends(&pd0)
    &&& kept || rewritten
    &&& declarator_ready(d0, pd0) && pd0.global_collect.next_mark < u64::MAX - 1 ==> rewritten
    &&& !declarator_ready(d0, pd0) ==> kept
}

/// Rewrites one declaration of a component body whose pattern destructures
/// a hook call's result or a recorded name. Returns the omission statement
/// to put after it, where the pattern has a rest target.
pub fn rewrite_declarator(decl: &mut VarDeclarator, pd: &mut PropsDestructuring) -> (r: Option<Stmt>)
    requires
        old(pd).wf(),
    ensures
        final(pd).wf(),
        final(pd).extends(&*old(pd)),
        declarator_step(*old(decl), *final(decl), *old(pd), *final(pd), r),
{
    proof {
        reveal(declarator_step);
        lemma_extends_refl(*pd);
    }
    let ghost pd0 = *pd;
    let obj = match &decl.name {
        Pat::Object(obj) => obj,
        _ => {
            return None;
        },
    };
    let (new_ident, new_ref, cleanup) = match &decl.init {
        Some(init) => match &**init {
            Expr::Call(callee, _) => match &**callee {
                Expr::Ident(ident) => {
                    if !use_prefixed(&ident.sym) {
                        return None;
                    }
                    let n = ident.sym.as_str().unicode_len();
                    let name = to_lowercase(ident.sym.as_str().substring_char(3, n));
                    match fresh_named(pd, name) {
                        Some(id) => {
                            let e = Expr::Ident(id.copy());
                            (id, e, false)
                        },
                        None => {
                            return None;
                        },
                    }
                },
                _ => {
                    return None;
                },
            },
            Expr::Ident(ident) => match pd.lookup(ident) {
                Some(e) => {
                    proof {
                        lemma_lookup_simple(pd.identifiers@, ident@);
                    }
                    match fresh_named(pd, String::from_str("_unused")) {
                        Some(id) => {
                            proof {
                                reveal_strlit("_unused");
                            }
                            (id, e, true)
                        },
                        None => {
                            return None;
                        },
                    }
                },
                None => {
                    return None;
                },
            },
            _ => {
                return None;
            },
        },
        None => {
            return None;
        },
    };
    let ghost g_ref = new_ref;
    let analysis = transform_pat(&new_ref, obj, &pd.global_collect);
    proof {
        lemma_scan_simple(new_ref, obj@, pd.global_collect.imports@);
        lemma_scan_shape(new_ref, Expr::Lit(Lit::Null), obj@, pd.global_collect.imports@);
    }
    let (rest_id, local) = match analysis {
        Some(a) => a,
        None => {
            return None;
        },
    };
    let omit_stmt = match rest_id {
        Some(rest_id) => {
            let rest_props = String::from_str("_restProps");
            let omit_fn = match pd.global_collect.import(&rest_props, &pd.core_module) {
                Some(f) => f,
                None => {
                    return None;
                },
            };
            proof {
                reveal_strlit("_restProps");
            }
            let omit = omit_keys(&local);
            Some(create_omit_props(&omit_fn, &rest_id, new_ref, omit))
        },
        None => None,
    };
    pd.record(local);
    decl.name = Pat::Ident(new_ident.copy());
    if cleanup {
        decl.init = None;
    }
    proof {
        assert(pd.identifiers@.subrange(0, pd0.identifiers@.len() as int) =~= pd0.identifiers@);
        assert(pd.global_collect.imports@.subrange(0, pd0.global_collect.imports@.len() as int)
            =~= pd0.global_collect.imports@);
        assert(declarator_rewritten(*old(decl), *decl, pd0, *pd, omit_stmt, new_ident, g_ref));
    }
    omit_stmt
}

proof fn lemma_import_found(imports: Seq<Import>, specifier: Seq<char>, source: Seq<char>, k: int)
    requires
        0 <= k < imports.len(),
        import_matches(imports[k], specifier, source),
    ensures
        imported_local(imports, specifier, source) is Some,
    decreases imports.len(),
{
    if k < imports.len() - 1 && !import_matches(imports.last(), specifier, source) {
        assert(imports.drop_last()[k] == imports[k]);
        lemma_import_found(imports.drop_last(), specifier, source, k);
    }
}

proof fn lemma_extends_trans(a: PropsDestructuring, b: PropsDestructuring, c: PropsDestructuring)
    requires
        b.extends(&a),
        c.extends(&b),
    ensures
        c.extends(&a),
{
    let na = a.global_collect.imports@.len() as int;
    let nb = b.global_collect.imports@.len() as int;
    if nb == na + 1 && c.global_collect.imports@.len() == nb + 1 {
        lemma_import_found(b.global_collect.imports@, rest_props_name(), b.core_module@, na);
    }
    assert(c.identifiers@.subrange(0, a.identifiers@.len() as int) =~= b.identifiers@.subrange(
        0,
        a.identifiers@.len() as int,
    ));
    assert(c.global_collect.imports@.subrange(0, a.global_collect.imports@.len() as int)
        =~= b.global_collect.imports@.subrange(0, a.global_collect.imports@.len() as int));
    assert forall|k: int|
        a.global_collect.imports@.len() <= k < c.global_collect.imports@.len() implies (
        #[trigger] c.global_collect.imports@[k]).specifier@ == rest_props_name()
            && c.global_collect.imports@[k].source@ == c.core_module@
            && c.global_collect.imports@[k].local.ctxt < c.global_collect.next_mark by {
        if k < b.global_collect.imports@.len() {
            assert(c.global_collect.imports@[k] == c.global_collect.imports@.subrange(
                0,
                b.global_collect.imports@.len() as int,
            )[k]);
            assert(b.global_collect.imports@[k].specifier@ == rest_props_name());
        }
    }
}

/// The omission statement that declarator `j` yields, if any.
pub open spec fn yielded(omits: Seq<Stmt>, cuts: Seq<int>, j: int) -> Option<Stmt> {
    if cuts[j + 1] > cuts[j] {
        Some(omits[cuts[j]])
    } else {
        None
    }
}

/// The declarators `d0` of one statement, taken in order, become `d1`;
/// `states[j]` is the pass state before declarator `j` and `states[j + 1]`
/// the state after it; declarator `j` yields the omission statements
/// `omits[cuts[j]..cuts[j + 1]]`, at most one.
pub open spec fn decls_trace(
    d0: Seq<VarDeclarator>,
    d1: Seq<VarDeclarator>,
    states: Seq<PropsDestructuring>,
    cuts: Seq<int>,
    omits: Seq<Stmt>,
) -> bool {
    &&& d1.len() == d0.len()
    &&& states.len() == d0.len() + 1
    &&& cuts.len() == d0.len() + 1
    &&& cuts[0] == 0
    &&& cuts[d0.len() as int] == omits.len()
    &&& (forall|j: int| 0 <= j <= d0.len() ==> 0 <= #[trigger] cuts[j] <= omits.len())
    &&& forall|j: int| 0 <= j < d0.len() ==> #[trigger] decl_step_at(d0, d1, states, cuts, omits, j)
}

/// Declarator `j` of a trace: one step, yielding at most one statement.
pub open spec fn decl_step_at(
    d0: Seq<VarDeclarator>,
    d1: Seq<VarDeclarator>,
    states: Seq<PropsDestructuring>,
    cuts: Seq<int>,
    omits: Seq<Stmt>,
    j: int,
) -> bool {
    cuts[j] <= cuts[j + 1] && cuts[j + 1] <= cuts[j] + 1 && declarator_step(
        d0[j],
        d1[j],
        states[j],
        states[j + 1],
        yielded(omits, cuts, j),
    )
}

/// Statement `s0`, taken from state `pd0`, becomes `group`: the statement
/// itself, then the omission statements of its declarators, in order.
pub open spec fn stmt_step(s0: Stmt, group: Seq<Stmt>, pd0: PropsDestructuring, pd1: PropsDestructuring) -> bool {
    group.len() >= 1 && match s0 {
        Stmt::Var(d0) => match group[0] {
            Stmt::Var(d1) => exists|states: Seq<PropsDestructuring>, cuts: Seq<int>|
                #[trigger] decls_trace(d0@, d1@, states, cuts, group.subrange(1, group.len() as int))
                    && states[0] == pd0 && states[d0@.len() as int] == pd1,
            _ => false,
        },
        _ => group.len() == 1 && group[0] == s0 && pd1 == pd0,
    }
}

/// The statements `b0`, taken in order, become `b1`: statement `i` becomes
/// `b1[cuts[i]..cuts[i + 1]]`, taken from state `states[i]` to
/// `states[i + 1]`, so each declaration sees what earlier ones recorded.
pub open spec fn body_trace(
    b0: Seq<Stmt>,
    b1: Seq<Stmt>,
    states: Seq<PropsDestructuring>,
    cuts: Seq<int>,
) -> bool {
    &&& states.len() == b0.len() + 1
    &&& cuts.len() == b0.len() + 1
    &&& cuts[0] == 0
    &&& cuts[b0.len() as int] == b1.len()
    &&& (forall|i: int| 0 <= i <= b0.len() ==> 0 <= #[trigger] cuts[i] <= b1.len())
    &&& forall|i: int| 0 <= i < b0.len() ==> #[trigger] stmt_step_at(b0, b1, states, cuts, i)
}

/// Statement `i` of a trace.
pub open spec fn stmt_step_at(
    b0: Seq<Stmt>,
    b1: Seq<Stmt>,
    states: Seq<PropsDestructuring>,
    cuts: Seq<int>,
    i: int,
) -> bool {
    cuts[i] < cuts[i + 1] && stmt_step(b0[i], b1.subrange(cuts[i], cuts[i + 1]), states[i], states[i + 1])
}

/// Rewrites the destructuring declarations of a component body in order,
/// putting each omission statement right after its declaration.
pub fn transform_component_body(body: &mut Vec<Stmt>, pd: &mut PropsDestructuring)
    requires
        old(pd).wf(),
    ensures
        final(pd).wf(),
        final(pd).extends(&*old(pd)),
        exists|states: Seq<PropsDestructuring>, cuts: Seq<int>|
            #[trigger] body_trace(old(body)@, final(body)@, states, cuts) && states[0] == *old(pd)
                && states[old(body)@.len() as int] == *final(pd),
{
    proof {
        lemma_extends_refl(*pd);
    }
    let ghost b0 = body@;
    let mut src: Vec<Stmt> = Vec::new();
    std::mem::swap(body, &mut src);
    let n = src.len();
    let mut pending: Vec<Stmt> = Vec::new();
    while src.len() > 0
        invariant
            pending@.len() + src@.len() == n,
            n == b0.len(),
            src@ == b0.subrange(0, src@.len() as int),
            forall|t: int| 0 <= t < pending@.len() ==> #[trigger] pending@[t] == b0[n - 1 - t],
        decreases src@.len(),
    {
        let st = src.pop().unwrap();
        pending.push(st);
    }
    let mut out: Vec<Stmt> = Vec::new();
    let ghost mut states: Seq<PropsDestructuring> = seq![*pd];
    let ghost mut cuts: Seq<int> = seq![0int];
    while pending.len() > 0
        invariant
            pd.wf(),
            pd.extends(&*old(pd)),
            n == b0.len(),
            pending@.len() <= n,
            forall|t: int| 0 <= t < pending@.len() ==> #[trigger] pending@[t] == b0[n - 1 - t],
            body_trace(b0.subrange(0, n - pending@.len()), out@, states, cuts),
            states[0] == *old(pd),
            states[n - pending@.len()] == *pd,
        decreases pending@.len(),
    {
        let ghost i = n - pending@.len();
        let ghost start = *pd;
        let ghost k = out@.len();
        let mut st = pending.pop().unwrap();
        assert(st == b0[i]);
        let mut inserts: Vec<Stmt> = Vec::new();
        let ghost mut dstates: Seq<PropsDestructuring> = seq![*pd];
        let ghost mut dcuts: Seq<int> = seq![0int];
        match &mut st {
            Stmt::Var(decls) => {
                let ghost d0 = decls@;
                let mut j: usize = 0;
                proof {
                    lemma_extends_refl(start);
                }
                while j < decls.len()
                    invariant
                        pd.wf(),
                        pd.extends(&*old(pd)),
                        pd.extends(&start),
                        start.wf(),
                        j <= decls@.len(),
                        decls@.len() == d0.len(),
                        forall|jj: int| j <= jj < d0.len() ==> #[trigger] decls@[jj] == d0[jj],
                        decls_trace(
                            d0.subrange(0, j as int),
                            decls@.subrange(0, j as int),
                            dstates,
                            dcuts,
                            inserts@,
                        ),
                        dstates[0] == start,
                        dstates[j as int] == *pd,
                    decreases decls@.len() - j,
                {
                    let ghost prev = *pd;
                    let ghost prev_decls = decls@;
                    let ghost prev_inserts = inserts@;
                    let ghost prev_dcuts = dcuts;
                    let ghost prev_dstates = dstates;
                    let omit = rewrite_declarator(&mut decls[j], pd);
                    proof {
                        lemma_extends_trans(*old(pd), prev, *pd);
                        lemma_extends_trans(start, prev, *pd);
                    }
                    if let Some(omit) = omit {
                        inserts.push(omit);
                    }
                    proof {
                        dstates = dstates.push(*pd);
                        dcuts = dcuts.push(inserts@.len() as int);
                        let dd0 = d0.subrange(0, j + 1);
                        let dd1 = decls@.subrange(0, j + 1);
                        assert forall|jj: int| 0 <= jj < dd0.len() implies #[trigger] decl_step_at(dd0, dd1, dstates, dcuts, inserts@, jj) by {
                            if jj < j {
                                assert(decl_step_at(d0.subrange(0, j as int), prev_decls.subrange(0, j as int), prev_dstates, prev_dcuts, prev_inserts, jj));
                                assert(dd1[jj] == prev_decls.subrange(0, j as int)[jj]);
                                assert(dd0[jj] == d0.subrange(0, j as int)[jj]);
                                assert(dcuts[jj] == prev_dcuts[jj]);
                                assert(dcuts[jj + 1] == prev_dcuts[jj + 1]);
                                assert(dstates[jj] == prev_dstates[jj]);
                                assert(dstates[jj + 1] == prev_dstates[jj + 1]);
                                assert(0 <= prev_dcuts[jj] <= prev_inserts.len());
                                assert(0 <= prev_dcuts[jj + 1] <= prev_inserts.len());
                                if dcuts[jj + 1] > dcuts[jj] {
                                    assert(inserts@[dcuts[jj]] == prev_inserts[dcuts[jj]]);
                                }
                            } else {
                                assert(dd0[jj] == prev_decls[j as int]);
                                assert(dcuts[jj] == prev_inserts.len());
                            }
                        }
                        assert forall|jj: int| 0 <= jj <= j + 1 implies 0 <= #[trigger] dcuts[jj]
                            <= inserts@.len() by {
                            if jj <= j {
                                assert(dcuts[jj] == prev_dcuts[jj]);
                            }
                        }
                        assert(dcuts[0] == prev_dcuts[0]);
                        assert(dstates[0] == prev_dstates[0]);
                        assert(dd0.len() == j + 1 && dd1.len() == j + 1);
                        assert(dcuts[j + 1] == inserts@.len());
                        assert(dstates.len() == j + 2);
                        assert(dcuts.len() == j + 2);
                        assert(dcuts[0] == 0);
                        assert(decls_trace(dd0, dd1, dstates, dcuts, inserts@));
                    }
                    j = j + 1;
                }
                proof {
                    assert(d0.subrange(0, d0.len() as int) =~= d0);
                    assert(decls@.subrange(0, d0.len() as int) =~= decls@);
                    assert(decls_trace(d0, decls@, dstates, dcuts, inserts@));
                }
            },
            _ => {
                proof {
                    assert(dstates[0] == *pd);
                }
            },
        }
        let ghost st_final = st;
        let ghost ins = inserts@;
        let ghost before = out@;
        let ghost old_cuts = cuts;
        let ghost old_states = states;
        out.push(st);
        out.append(&mut inserts);
        proof {
            let group = out@.subrange(k as int, out@.len() as int);
            assert(group =~= seq![st_final] + ins);
            assert(group.subrange(1, group.len() as int) =~= ins);
            match b0[i] {
                Stmt::Var(d0v) => {
                    match st_final {
                        Stmt::Var(d1v) => {
                            assert(decls_trace(d0v@, d1v@, dstates, dcuts, group.subrange(1, group.len() as int)));
                        },
                        _ => {},
                    }
                },
                _ => {},
            }
            assert(stmt_step(b0[i], group, start, *pd));
            states = states.push(*pd);
            cuts = cuts.push(out@.len() as int);
            let bb = b0.subrange(0, i + 1);
            assert forall|ii: int| 0 <= ii < bb.len() implies #[trigger] stmt_step_at(bb, out@, states, cuts, ii) by {
                if ii < i {
                    assert(stmt_step_at(b0.subrange(0, i), before, old_states, old_cuts, ii));
                    assert(bb[ii] == b0.subrange(0, i)[ii]);
                    assert(cuts[ii] == old_cuts[ii] && cuts[ii + 1] == old_cuts[ii + 1]);
                    assert(states[ii] == old_states[ii] && states[ii + 1] == old_states[ii + 1]);
                    assert(0 <= old_cuts[ii] <= before.len());
                    assert(0 <= old_cuts[ii + 1] <= before.len());
                    assert(out@.subrange(cuts[ii], cuts[ii + 1]) =~= before.subrange(
                        old_cuts[ii],
                        old_cuts[ii + 1],
                    ));
                }
            }
            assert forall|ii: int| 0 <= ii <= bb.len() implies 0 <= #[trigger] cuts[ii] <= out@.len() by {
                if ii <= i {
                    assert(cuts[ii] == old_cuts[ii]);
                }
            }
            assert(cuts[0] == old_cuts[0]);
            assert(states[0] == old_states[0]);
            assert(bb.len() == i + 1);
            assert(cuts[i + 1] == out@.len());
            assert(states.len() == i + 2);
            assert(cuts.len() == i + 2);
            assert(cuts[bb.len() as int] == out@.len());
            assert(body_trace(bb, out@, states, cuts));
        }
    }
    *body = out;
    proof {
        assert(b0.subrange(0, n as int) =~= b0);
    }
}

/// A component's parameter list opening with a rewritable properties pattern.
pub open spec fn params_ready(a: ArrowExpr, pd: PropsDestructuring) -> bool {
    first_object_param(a.params@) is Some && pattern_supported(
        first_object_param(a.params@)->0@,
        pd.global_collect.imports@,
    )
}

/// The parameter step of a component: a ready properties pattern is
/// rewritten as `component_params_rewritten` says (where fresh tokens
/// remain); any other leaves the arrow and the table as they were.
pub open spec fn params_step(a0: ArrowExpr, a1: ArrowExpr, pd0: PropsDestructuring, pd1: PropsDestructuring) -> bool {
    let kept = a1 == a0 && pd1.identifiers == pd0.identifiers;
    let rewritten = exists|p: Id| component_params_rewritten(a0, a1, pd0, pd1, p);
    &&& pd1.wf()
    &&& pd1.extends(&pd0)
    &&& kept || rewritten
    &&& params_ready(a0, pd0) && pd0.global_collect.next_mark < u64::MAX - 1 ==> rewritten
    &&& !params_ready(a0, pd0) ==> kept
}

/// The body step of a component: a block body is rewritten statement by
/// statement as `body_trace` says; an expression body stays.
pub open spec fn arrow_body_step(a1: ArrowExpr, a2: ArrowExpr, pd1: PropsDestructuring, pd2: PropsDestructuring) -> bool {
    a2.params == a1.params && match *a1.body {
        ArrowBody::Block(s1) => match *a2.body {
            ArrowBody::Block(s2) => exists|states: Seq<PropsDestructuring>, cuts: Seq<int>|
                #[trigger] body_trace(s1@, s2@, states, cuts) && states[0] == pd1 && states[s1@.len() as int]
                    == pd2,
            _ => false,
        },
        ArrowBody::Expr(_) => a2.body == a1.body && pd2 == pd1,
    }
}

/// A whole component rewrite: the parameter step, then the body step.
pub open spec fn component_step(a0: ArrowExpr, a2: ArrowExpr, pd0: PropsDestructuring, pd2: PropsDestructuring) -> bool {
    exists|a1: ArrowExpr, pd1: PropsDestructuring|
        #[trigger] params_step(a0, a1, pd0, pd1) && arrow_body_step(a1, a2, pd1, pd2)
}

proof fn lemma_rewritten_params_were_ready(
    a0: ArrowExpr,
    a1: ArrowExpr,
    pd0: PropsDestructuring,
    pd1: PropsDestructuring,
    p: Id,
)
    requires
        component_params_rewritten(a0, a1, pd0, pd1, p),
    ensures
        params_ready(a0, pd0),
{
    let props = first_object_param(a0.params@)->0@;
    lemma_scan_shape(Expr::Ident(p), Expr::Lit(Lit::Null), props, pd0.global_collect.imports@);
}

/// Rewrites a component's destructured properties parameter, then the
/// destructuring declarations of its body.
pub fn transform_component_props(arrow: &mut ArrowExpr, pd: &mut PropsDestructuring)
    requires
        old(pd).wf(),
    ensures
        final(pd).wf(),
        final(pd).extends(&*old(pd)),
        component_step(*old(arrow), *final(arrow), *old(pd), *final(pd)),
        final(arrow).params == old(arrow).params || exists|p: Id|
            final(arrow).params@ == old(arrow).params@.update(0, Pat::Ident(p)),
        params_ready(*old(arrow), *old(pd)) && old(pd).global_collect.next_mark < u64::MAX - 1
            ==> final(arrow).params@.len() > 0 && final(arrow).params@[0] is Ident,
{
    let ghost pd0 = *pd;
    let ghost a0 = *arrow;
    let rewritten = rewrite_component_params(arrow, pd);
    let ghost pd1 = *pd;
    let ghost a1 = *arrow;
    proof {
        if let Some(p) = rewritten {
            assert(arrow.params@[0] == Pat::Ident(p));
            lemma_rewritten_params_were_ready(a0, a1, pd0, pd1, p);
        }
        assert(params_step(a0, a1, pd0, pd1));
    }
    let ghost mut s1: Seq<Stmt> = Seq::empty();
    let ghost mut s2: Seq<Stmt> = Seq::empty();
    let is_block = matches!(*arrow.body, ArrowBody::Block(_));
    if is_block {
        match &mut *arrow.body {
            ArrowBody::Block(stmts) => {
                proof {
                    s1 = stmts@;
                }
                transform_component_body(stmts, pd);
                proof {
                    s2 = stmts@;
                    lemma_extends_trans(pd0, pd1, *pd);
                }
            },
            _ => {},
        }
    }
    proof {
        assert(arrow.params == a1.params);
        if *a1.body is Block {
            assert(s1 == (*a1.body)->Block_0@);
            assert(*arrow.body is Block);
            assert(s2 == (*arrow.body)->Block_0@);
        } else {
            assert(arrow.body == a1.body);
        }
        assert(arrow_body_step(a1, *arrow, pd1, *pd));
        assert(component_step(a0, *arrow, pd0, *pd));
    }
}

/// The expression of an expression statement.
pub open spec fn stmt_expr(st: Stmt) -> Expr {
    match st {
        Stmt::Expr(e) => *e,
        _ => arbitrary(),
    }
}

/// An expression statement calling the component factory with an arrow
/// function first.
pub open spec fn stmt_factory(st: Stmt, pd: PropsDestructuring) -> bool {
    st is Expr && factory_arrow_call(stmt_expr(st), pd)
}

/// A factory-call statement after the walk, run from state `si`: its arrow
/// went through one component step, and the final arrow keeps the shape of
/// the parameters that the step left; `sf` is a later state.
pub open spec fn stmt_component_rewritten(st0: Stmt, st1: Stmt, si: PropsDestructuring, sf: PropsDestructuring) -> bool {
    st1 is Expr && exists|a2: ArrowExpr, pd2: PropsDestructuring|
        #[trigger] component_step(first_arrow(stmt_expr(st0)), a2, si, pd2) && sf.extends(&pd2)
            && call_args(stmt_expr(st1)).len() > 0 && call_args(stmt_expr(st1))[0] is Arrow
            && arrow_params_kept(a2, first_arrow(stmt_expr(st1)))
}

proof fn lemma_rewritten_stays(
    st0: Stmt,
    st1: Stmt,
    si: PropsDestructuring,
    f1: PropsDestructuring,
    f2: PropsDestructuring,
)
    requires
        stmt_component_rewritten(st0, st1, si, f1),
        f2.extends(&f1),
    ensures
        stmt_component_rewritten(st0, st1, si, f2),
{
    let (a2, pd2) = choose|a2: ArrowExpr, pd2: PropsDestructuring|
        #[trigger] component_step(first_arrow(stmt_expr(st0)), a2, si, pd2) && f1.extends(&pd2)
            && call_args(stmt_expr(st1)).len() > 0 && call_args(stmt_expr(st1))[0] is Arrow
            && arrow_params_kept(a2, first_arrow(stmt_expr(st1)));
    lemma_extends_trans(pd2, f1, f2);
}

/// A simple expression with each name that `table` records replaced by
/// its recorded expression.
pub open spec fn subst_simple(e: Expr, table: Seq<(Id, Expr)>) -> Expr
    decreases e,
{
    match e {
        Expr::Ident(id) => match table_lookup(table, id@) {
            Some(r) => r,
            None => e,
        },
        Expr::Member(o, k) => Expr::Member(Box::new(subst_simple(*o, table)), k),
        Expr::Nullish(l, r) => Expr::Nullish(
            Box::new(subst_simple(*l, table)),
            Box::new(subst_simple(*r, table)),
        ),
        _ => e,
    }
}

/// How deep a simple expression nests.
pub open spec fn simple_depth(e: Expr) -> nat
    decreases e,
{
    match e {
        Expr::Member(o, _) => 1 + simple_depth(*o),
        Expr::Nullish(l, r) => 1 + if simple_depth(*l) >= simple_depth(*r) {
            simple_depth(*l)
        } else {
            simple_depth(*r)
        },
        _ => 0,
    }
}

/// An object-pattern entry whose walk touches nothing but simple
/// expressions: a plain-name target, or a simple default the depth budget
/// covers.
pub open spec fn entry_simple(e: ObjectPatProp, depth: u64) -> bool {
    match e {
        ObjectPatProp::Assign(_, Some(d)) => simple_expr(*d) && depth > simple_depth(*d) + 1,
        ObjectPatProp::Assign(_, None) => true,
        ObjectPatProp::KeyValue(_, t) => *t is Ident,
        ObjectPatProp::Rest(t) => *t is Ident,
    }
}

/// The entry after the walk: a default is substituted, anything else kept.
pub open spec fn entry_walked(e0: ObjectPatProp, e1: ObjectPatProp, table: Seq<(Id, Expr)>) -> bool {
    match e0 {
        ObjectPatProp::Assign(k, Some(d)) => e1 == ObjectPatProp::Assign(
            k,
            Some(Box::new(subst_simple(*d, table))),
        ),
        _ => e1 == e0,
    }
}

/// An entry of an object pattern keeps its kind and its key; a default
/// value may have been walked, but is neither added nor dropped.
pub open spec fn entry_kept(e0: ObjectPatProp, e1: ObjectPatProp) -> bool {
    match (e0, e1) {
        (ObjectPatProp::Assign(k0, d0), ObjectPatProp::Assign(k1, d1)) => k1 == k0 && (d1 is None)
            == (d0 is None),
        (ObjectPatProp::KeyValue(n0, _), ObjectPatProp::KeyValue(n1, _)) => n1 == n0,
        (ObjectPatProp::Rest(_), ObjectPatProp::Rest(_)) => true,
        _ => false,
    }
}

/// A parameter keeps its shape: a plain name stays the same name, and an
/// object or array pattern stays one, entry by entry.
pub open spec fn pat_kept(p0: Pat, p1: Pat) -> bool {
    match (p0, p1) {
        (Pat::Ident(a), Pat::Ident(b)) => b == a,
        (Pat::Object(x), Pat::Object(y)) => y@.len() == x@.len() && forall|k: int|
            0 <= k < x@.len() ==> entry_kept(x@[k], #[trigger] y@[k]),
        (Pat::Array(x), Pat::Array(y)) => y@.len() == x@.len(),
        _ => false,
    }
}

/// An arrow function keeps the shape of each of its parameters.
pub open spec fn arrow_params_kept(a0: ArrowExpr, a1: ArrowExpr) -> bool {
    a1.params@.len() == a0.params@.len() && forall|i: int|
        0 <= i < a0.params@.len() ==> pat_kept(a0.params@[i], #[trigger] a1.params@[i])
}

/// An arrow function stays one, keeping the shape of its parameters.
pub open spec fn plain_params_kept(e0: Expr, e1: Expr) -> bool {
    match (e0, e1) {
        (Expr::Arrow(a0), Expr::Arrow(a1)) => arrow_params_kept(a0, a1),
        (Expr::Arrow(_), _) => false,
        _ => true,
    }
}

proof fn lemma_pat_kept_refl(p: Pat)
    ensures
        pat_kept(p, p),
{
}

proof fn lemma_arrow_params_kept_refl(a: ArrowExpr)
    ensures
        arrow_params_kept(a, a),
{
    assert forall|i: int| 0 <= i < a.params@.len() implies pat_kept(a.params@[i], #[trigger] a.params@[i]) by {
        lemma_pat_kept_refl(a.params@[i]);
    }
}

/// The arguments of a call.
pub open spec fn call_args(e: Expr) -> Seq<Expr> {
    match e {
        Expr::Call(_, args) => args@,
        _ => Seq::empty(),
    }
}

/// A call of the component factory whose first argument is an arrow
/// function, whatever its pattern.
pub open spec fn factory_arrow_call(e: Expr, pd: PropsDestructuring) -> bool {
    factory_arrow_call_of(e, pd.component_ident)
}

/// A call of `component` whose first argument is an arrow function.
pub open spec fn factory_arrow_call_of(e: Expr, component: Option<Id>) -> bool {
    match e {
        Expr::Call(callee, args) => match (*callee, component) {
            (Expr::Ident(c), Some(cid)) => c@ == cid@ && args@.len() > 0 && args@[0] is Arrow,
            _ => false,
        },
        _ => false,
    }
}

/// A call of the component factory whose first argument is an arrow
/// function opening with a rewritable properties pattern.
pub open spec fn component_call_ready(e: Expr, pd: PropsDestructuring) -> bool {
    component_call_shape(e, pd.component_ident, pd.global_collect.imports@)
        && pd.global_collect.next_mark < u64::MAX - 1
}

/// A call of the component factory `component` whose first argument is an
/// arrow function opening with a properties pattern that `imports` lets be
/// rewritten.
pub open spec fn component_call_shape(e: Expr, component: Option<Id>, imports: Seq<Import>) -> bool {
    match e {
        Expr::Call(callee, args) => match (*callee, component) {
            (Expr::Ident(c), Some(cid)) => c@ == cid@ && args@.len() > 0 && match args@[0] {
                Expr::Arrow(a) => first_object_param(a.params@) is Some && pattern_supported(
                    first_object_param(a.params@)->0@,
                    imports,
                ),
                _ => false,
            },
            _ => false,
        },
        _ => false,
    }
}

/// An expression statement holding such a call.
pub open spec fn stmt_component_shape(st: Stmt, component: Option<Id>, imports: Seq<Import>) -> bool {
    match st {
        Stmt::Expr(e) => component_call_shape(*e, component, imports),
        _ => false,
    }
}

/// An expression statement holding a call whose first argument is an arrow
/// function opening with a plain name.
pub open spec fn stmt_param_plain(st: Stmt) -> bool {
    match st {
        Stmt::Expr(e) => first_arg_param_plain(*e),
        _ => false,
    }
}

proof fn lemma_scan_grows(obj: Expr, props: Seq<ObjectPatProp>, i1: Seq<Import>, i2: Seq<Import>)
    requires
        !scan_props(obj, props, i1).0,
        i1.len() <= i2.len(),
        i2.subrange(0, i1.len() as int) == i1,
    ensures
        scan_props(obj, props, i2) == scan_props(obj, props, i1),
    decreases props.len(),
{
    if props.len() > 0 {
        lemma_scan_grows(obj, props.drop_last(), i1, i2);
        match props.last() {
            ObjectPatProp::Assign(_, Some(d)) => {
                if immutable_expr(*d, i1) {
                    if let Expr::Ident(id) = *d {
                        let k = choose|k: int| 0 <= k < i1.len() && (#[trigger] i1[k]).local@ == id@;
                        assert(i2[k] == i1[k]);
                    }
                }
            },
            _ => {},
        }
    }
}

proof fn lemma_stmt_shape_grows(st: Stmt, component: Option<Id>, i1: Seq<Import>, i2: Seq<Import>)
    requires
        stmt_component_shape(st, component, i1),
        i1.len() <= i2.len(),
        i2.subrange(0, i1.len() as int) == i1,
    ensures
        stmt_component_shape(st, component, i2),
{
    if let Stmt::Expr(e) = st {
        if let Expr::Call(_, args) = *e {
            if let Expr::Arrow(a) = args@[0] {
                lemma_supported_grows(first_object_param(a.params@)->0@, i1, i2);
            }
        }
    }
}

/// Whether a pattern can be rewritten only grows as imports are added.
proof fn lemma_supported_grows(props: Seq<ObjectPatProp>, i1: Seq<Import>, i2: Seq<Import>)
    requires
        pattern_supported(props, i1),
        i1.len() <= i2.len(),
        i2.subrange(0, i1.len() as int) == i1,
    ensures
        pattern_supported(props, i2),
{
    lemma_scan_grows(Expr::Lit(Lit::Null), props, i1, i2);
}

/// The arrow function that a call passes first.
pub open spec fn first_arrow(e: Expr) -> ArrowExpr {
    match e {
        Expr::Call(_, args) => match args@[0] {
            Expr::Arrow(a) => a,
            _ => arbitrary(),
        },
        _ => arbitrary(),
    }
}

/// A call whose first argument is an arrow function opening with a plain
/// name.
pub open spec fn first_arg_param_plain(e: Expr) -> bool {
    match e {
        Expr::Call(_, args) => args@.len() > 0 && match args@[0] {
            Expr::Arrow(a) => a.params@.len() > 0 && a.params@[0] is Ident,
            _ => false,
        },
        _ => false,
    }
}

/// Nesting depth up to which the walk descends: more than any tree that
/// fits in memory.
pub const MAX_DEPTH: u64 = 0xffff_ffff_ffff_ffff;

impl PropsDestructuring {
    /// Replaces a name that the table records by its replacement; elsewhere
    /// walks the children.
    pub fn visit_mut_expr(&mut self, node: &mut Expr, depth: u64)
        requires
            old(self).wf(),
        ensures
            final(self).wf(),
            final(self).extends(&*old(self)),
            depth > 0 ==> (*old(node) matches Expr::Ident(id) ==> *final(self) == *old(self) && match table_lookup(
                old(self).identifiers@,
                id@,
            ) {
                Some(e) => *final(node) == e,
                None => *final(node) == *old(node),
            }),
            plain_params_kept(*old(node), *final(node)),
            depth > 1 && factory_arrow_call(*old(node), *old(self)) ==> exists|
                a2: ArrowExpr,
                pd2: PropsDestructuring,
            |
                #[trigger] component_step(first_arrow(*old(node)), a2, *old(self), pd2)
                    && final(self).extends(&pd2) && call_args(*final(node)).len() > 0
                    && call_args(*final(node))[0] is Arrow && arrow_params_kept(a2, first_arrow(*final(node))),
            simple_expr(*old(node)) && depth > simple_depth(*old(node)) ==> *final(node)
                == subst_simple(*old(node), old(self).identifiers@) && *final(self) == *old(self),
            depth > 1 && component_call_ready(*old(node), *old(self)) ==> first_arg_param_plain(
                *final(node),
            ),
        decreases depth,
    {
        proof {
            lemma_extends_refl(*self);
        }
        if depth == 0 {
            return;
        }
        let replacement = match &*node {
            Expr::Ident(ident) => Some(self.lookup(ident)),
            _ => None,
        };
        match replacement {
            Some(Some(e)) => {
                *node = e;
                return;
            },
            Some(None) => {
                return;
            },
            None => {},
        }
        if matches!(*node, Expr::Call(..)) {
            self.visit_mut_call_expr(node, depth - 1);
            return;
        }
        let ghost s0 = *self;
        match node {
            Expr::Member(o, _) => {
                self.visit_mut_expr(o, depth - 1);
            },
            Expr::Nullish(l, r) => {
                self.visit_mut_expr(l, depth - 1);
                let ghost s1 = *self;
                self.visit_mut_expr(r, depth - 1);
                proof {
                    lemma_extends_trans(s0, s1, *self);
                }
            },
            Expr::Arrow(arrow) => {
                self.visit_arrow(arrow, depth - 1);
            },
            Expr::Object(props) => {
                let mut i: usize = 0;
                while i < props.len()
                    invariant
                        self.wf(),
                        self.extends(&s0),
                        depth > 0,
                    decreases props@.len() - i,
                {
                    let ghost prev = *self;
                    self.visit_mut_prop(&mut props[i], depth - 1);
                    proof {
                        lemma_extends_trans(s0, prev, *self);
                    }
                    i = i + 1;
                }
            },
            Expr::Array(elems) => {
                let mut i: usize = 0;
                while i < elems.len()
                    invariant
                        self.wf(),
                        self.extends(&s0),
                        depth > 0,
                    decreases elems@.len() - i,
                {
                    let ghost prev = *self;
                    self.visit_mut_expr(&mut elems[i], depth - 1);
                    proof {
                        lemma_extends_trans(s0, prev, *self);
                    }
                    i = i + 1;
                }
            },
            _ => {},
        }
    }

    /// On a call of the component factory whose first argument is an arrow
    /// function, rewrites that component first; then walks callee and
    /// arguments.
    pub fn visit_mut_call_expr(&mut self, node: &mut Expr, depth: u64)
        requires
            old(self).wf(),
            *old(node) is Call,
        ensures
            final(self).wf(),
            final(self).extends(&*old(self)),
            *final(node) is Call,
            depth > 0 && component_call_ready(*old(node), *old(self)) ==> first_arg_param_plain(
                *final(node),
            ),
            depth > 0 && component_call_ready(*old(node), *old(self)) ==> exists|
                a2: ArrowExpr,
                pd2: PropsDestructuring,
            |
                #[trigger] component_step(first_arrow(*old(node)), a2, *old(self), pd2)
                    && final(self).extends(&pd2),
            call_args(*final(node)).len() == call_args(*old(node)).len(),
            depth > 0 && factory_arrow_call(*old(node), *old(self)) ==> exists|
                a2: ArrowExpr,
                pd2: PropsDestructuring,
            |
                #[trigger] component_step(first_arrow(*old(node)), a2, *old(self), pd2)
                    && final(self).extends(&pd2) && call_args(*final(node))[0] is Arrow
                    && arrow_params_kept(a2, first_arrow(*final(node))),
            forall|i: int|
                0 <= i < call_args(*old(node)).len() && (#[trigger] call_args(*old(node))[i]) is Arrow
                    && !(i == 0 && depth > 0 && factory_arrow_call(*old(node), *old(self)))
                    ==> call_args(*final(node))[i] is Arrow && arrow_params_kept(
                    call_args(*old(node))[i]->Arrow_0,
                    call_args(*final(node))[i]->Arrow_0,
                ),
        decreases depth,
    {
        proof {
            lemma_extends_refl(*self);
            assert forall|i: int| 0 <= i < call_args(*node).len() && (#[trigger] call_args(*node)[i]) is Arrow
                implies arrow_params_kept(call_args(*node)[i]->Arrow_0, call_args(*node)[i]->Arrow_0) by {
                lemma_arrow_params_kept_refl(call_args(*node)[i]->Arrow_0);
            }
        }
        if depth == 0 {
            return;
        }
        let ghost s0 = *self;
        match node {
            Expr::Call(callee, args) => {
                let is_component = match (&**callee, &self.component_ident) {
                    (Expr::Ident(ident), Some(cid)) => ident.same(cid),
                    _ => false,
                };
                let ghost ready = component_call_ready(*old(node), s0);
                let ghost mut step_arrow: ArrowExpr = arbitrary();
                let ghost mut step_state: PropsDestructuring = s0;
                let ghost factory = factory_arrow_call(*old(node), s0);
                let ghost args0 = args@;
                if is_component && args.len() > 0 && matches!(args[0], Expr::Arrow(_)) {
                    match &mut args[0] {
                        Expr::Arrow(arrow) => {
                            let ghost a0 = *arrow;
                            transform_component_props(arrow, self);
                            proof {
                                step_arrow = *arrow;
                                step_state = *self;
                                assert(ready ==> a0 == first_arrow(*old(node)));
                            }
                        },
                        _ => {},
                    }
                }
                let ghost s1 = *self;
                let ghost base = args@;
                proof {
                    if factory {
                        assert(base[0] == Expr::Arrow(step_arrow));
                        assert(component_step(first_arrow(*old(node)), step_arrow, s0, step_state));
                        lemma_arrow_params_kept_refl(step_arrow);
                    } else {
                        assert(base == args0);
                    }
                    assert(base.len() == args0.len());
                    assert forall|ii: int| 0 < ii < base.len() implies #[trigger] base[ii] == args0[ii] by {
                    }
                    if ready {
                        assert(component_step(first_arrow(*old(node)), step_arrow, s0, step_state));
                        lemma_extends_refl(s1);
                    }
                }
                self.visit_mut_expr(callee, depth - 1);
                proof {
                    lemma_extends_trans(s0, s1, *self);
                    if ready {
                        assert(s1 == step_state);
                    }
                }
                let mut i: usize = 0;
                while i < args.len()
                    invariant
                        self.wf(),
                        self.extends(&s0),
                        depth > 0,
                        ready ==> first_arg_param_plain(Expr::Call(Box::new(Expr::Lit(Lit::Null)), *args)),
                        ready ==> component_step(first_arrow(*old(node)), step_arrow, s0, step_state),
                        ready ==> self.extends(&step_state),
                        factory ==> component_step(first_arrow(*old(node)), step_arrow, s0, step_state),
                        factory ==> self.extends(&step_state),
                        factory ==> base[0] == Expr::Arrow(step_arrow),
                        !factory ==> base == args0,
                        base.len() == args0.len(),
                        forall|ii: int| 0 < ii < base.len() ==> #[trigger] base[ii] == args0[ii],
                        args0 == call_args(*old(node)),
                        factory == factory_arrow_call(*old(node), s0),
                        s0 == *old(self),
                        args@.len() == base.len(),
                        forall|ii: int| i <= ii < base.len() ==> #[trigger] args@[ii] == base[ii],
                        forall|ii: int|
                            0 <= ii < i && (#[trigger] base[ii]) is Arrow ==> args@[ii] is Arrow
                                && arrow_params_kept(base[ii]->Arrow_0, args@[ii]->Arrow_0),
                    decreases args@.len() - i,
                {
                    let ghost prev = *self;
                    self.visit_mut_expr(&mut args[i], depth - 1);
                    proof {
                        lemma_extends_trans(s0, prev, *self);
                        if ready || factory {
                            lemma_extends_trans(step_state, prev, *self);
                        }
                    }
                    i = i + 1;
                }
                proof {
                    assert forall|ii: int|
                        0 <= ii < args0.len() && (#[trigger] args0[ii]) is Arrow && !(ii == 0 && factory)
                            implies args@[ii] is Arrow && arrow_params_kept(
                        args0[ii]->Arrow_0,
                        args@[ii]->Arrow_0,
                    ) by {
                        assert(base[ii] == args0[ii]);
                    }
                }
            },
            _ => {},
        }
    }

    /// Expands a shorthand property whose name the table records into
    /// `name: replacement`; then walks the property's value.
    pub fn visit_mut_prop(&mut self, node: &mut Prop, depth: u64)
        requires
            old(self).wf(),
        ensures
            final(self).wf(),
            final(self).extends(&*old(self)),
            depth > 0 ==> (*old(node) matches Prop::Shorthand(id) ==> match table_lookup(old(self).identifiers@, id@) {
                Some(e) => match *final(node) {
                    Prop::KeyValue(PropName::Ident(k), v) => k == id.sym && (depth > simple_depth(e) + 1
                        ==> *v == subst_simple(e, old(self).identifiers@)),
                    _ => false,
                },
                None => *final(node) == *old(node),
            }),
        decreases depth,
    {
        proof {
            lemma_extends_refl(*self);
        }
        if depth == 0 {
            return;
        }
        let expanded = match &*node {
            Prop::Shorthand(short) => match self.lookup(short) {
                Some(e) => Some(Prop::KeyValue(PropName::Ident(short.sym.clone()), Box::new(e))),
                None => None,
            },
            _ => None,
        };
        if let Some(p) = expanded {
            *node = p;
        }
        proof {
            if let Prop::Shorthand(id) = *old(node) {
                if let Some(e) = table_lookup(old(self).identifiers@, id@) {
                    lemma_lookup_simple(old(self).identifiers@, id@);
                }
            }
        }
        match node {
            Prop::KeyValue(_, value) => {
                self.visit_mut_expr(value, depth - 1);
            },
            _ => {},
        }
    }

    /// Walks an arrow function's parameters and body.
    pub fn visit_arrow(&mut self, arrow: &mut ArrowExpr, depth: u64)
        requires
            old(self).wf(),
        ensures
            final(self).wf(),
            final(self).extends(&*old(self)),
            arrow_params_kept(*old(arrow), *final(arrow)),
            depth > 0 && (forall|i: int| 0 <= i < old(arrow).params@.len() ==> (#[trigger] old(arrow).params@[i]) is Ident)
                ==> (*old(arrow).body matches ArrowBody::Expr(e) ==> (simple_expr(e) && depth > simple_depth(e) + 1
                ==> *final(self) == *old(self) && *final(arrow).body == ArrowBody::Expr(
                subst_simple(e, old(self).identifiers@),
            ))),
        decreases depth,
    {
        proof {
            lemma_extends_refl(*self);
            lemma_arrow_params_kept_refl(*arrow);
        }
        if depth == 0 {
            return;
        }
        let ghost s0 = *self;
        let ghost p0 = arrow.params@;
        let mut i: usize = 0;
        while i < arrow.params.len()
            invariant
                self.wf(),
                self.extends(&s0),
                depth > 0,
                arrow.params@.len() == p0.len(),
                p0 == old(arrow).params@,
                forall|ii: int| 0 <= ii < i ==> pat_kept(p0[ii], #[trigger] arrow.params@[ii]),
                forall|ii: int| i <= ii < p0.len() ==> #[trigger] arrow.params@[ii] == p0[ii],
                s0 == *old(self),
                (forall|ii: int| 0 <= ii < p0.len() ==> (#[trigger] p0[ii]) is Ident) ==> *self == s0,
                *arrow.body == *old(arrow).body,
            decreases arrow.params@.len() - i,
        {
            let ghost prev = *self;
            assert(arrow.params@[i as int] == p0[i as int]);
            self.visit_pat(&mut arrow.params[i], depth - 1);
            proof {
                lemma_extends_trans(s0, prev, *self);
            }
            i = i + 1;
        }
        let ghost s1 = *self;
        match &mut *arrow.body {
            ArrowBody::Block(stmts) => {
                self.visit_stmts(stmts, depth - 1);
            },
            ArrowBody::Expr(e) => {
                self.visit_mut_expr(e, depth - 1);
            },
        }
        proof {
            lemma_extends_trans(s0, s1, *self);
        }
    }

    /// Walks the default values inside a pattern.
    pub fn visit_pat(&mut self, pat: &mut Pat, depth: u64)
        requires
            old(self).wf(),
        ensures
            final(self).wf(),
            final(self).extends(&*old(self)),
            *old(pat) is Ident ==> *final(pat) == *old(pat) && *final(self) == *old(self),
            pat_kept(*old(pat), *final(pat)),
            depth > 0 && (*old(pat) matches Pat::Object(x) ==> forall|k: int|
                0 <= k < x@.len() ==> entry_simple(#[trigger] x@[k], depth)) ==> (*old(pat) matches Pat::Object(x)
                ==> *final(self) == *old(self) && (*final(pat) matches Pat::Object(y) ==> y@.len() == x@.len()
                && forall|k: int|
                0 <= k < x@.len() ==> entry_walked(x@[k], #[trigger] y@[k], old(self).identifiers@))),
        decreases depth,
    {
        proof {
            lemma_extends_refl(*self);
            lemma_pat_kept_refl(*pat);
        }
        if depth == 0 {
            return;
        }
        let ghost s0 = *self;
        match pat {
            Pat::Ident(_) => {},
            Pat::Object(props) => {
                let ghost x0 = props@;
                let mut i: usize = 0;
                while i < props.len()
                    invariant
                        self.wf(),
                        self.extends(&s0),
                        depth > 0,
                        props@.len() == x0.len(),
                        forall|kk: int| 0 <= kk < i ==> entry_kept(x0[kk], #[trigger] props@[kk]),
                        forall|kk: int| i <= kk < x0.len() ==> #[trigger] props@[kk] == x0[kk],
                        x0 == (*old(pat))->Object_0@,
                        s0 == *old(self),
                        (forall|k: int| 0 <= k < x0.len() ==> entry_simple(#[trigger] x0[k], depth)) ==> (
                        *self == s0 && forall|kk: int|
                            0 <= kk < i ==> entry_walked(x0[kk], #[trigger] props@[kk], s0.identifiers@)),
                    decreases props@.len() - i,
                {
                    let ghost prev = *self;
                    let ghost prev_props = props@;
                    match &mut props[i] {
                        ObjectPatProp::Assign(_, Some(value)) => {
                            self.visit_mut_expr(value, depth - 1);
                        },
                        ObjectPatProp::Assign(_, None) => {
                            proof {
                                lemma_extends_refl(*self);
                            }
                        },
                        ObjectPatProp::KeyValue(_, target) => {
                            self.visit_pat(target, depth - 1);
                        },
                        ObjectPatProp::Rest(target) => {
                            self.visit_pat(target, depth - 1);
                        },
                    }
                    proof {
                        lemma_extends_trans(s0, prev, *self);
                        if forall|k: int| 0 <= k < x0.len() ==> entry_simple(#[trigger] x0[k], depth) {
                            assert(entry_simple(x0[i as int], depth));
                            assert forall|kk: int| 0 <= kk < i + 1 implies entry_walked(
                                x0[kk],
                                #[trigger] props@[kk],
                                s0.identifiers@,
                            ) by {
                                if kk < i {
                                    assert(props@[kk] == prev_props[kk]);
                                }
                            }
                        }
                    }
                    i = i + 1;
                }
            },
            Pat::Array(elems) => {
                let ghost n0 = elems@.len();
                let mut i: usize = 0;
                while i < elems.len()
                    invariant
                        self.wf(),
                        self.extends(&s0),
                        depth > 0,
                        elems@.len() == n0,
                    decreases elems@.len() - i,
                {
                    let ghost prev = *self;
                    self.visit_pat(&mut elems[i], depth - 1);
                    proof {
                        lemma_extends_trans(s0, prev, *self);
                    }
                    i = i + 1;
                }
            },
        }
    }

    /// Walks a list of statements in order.
    pub fn visit_stmts(&mut self, stmts: &mut Vec<Stmt>, depth: u64)
        requires
            old(self).wf(),
        ensures
            final(self).wf(),
            final(self).extends(&*old(self)),
            final(stmts)@.len() == old(stmts)@.len(),
            forall|i: int|
                0 <= i < old(stmts)@.len() && depth > 3 && final(self).global_collect.next_mark
                    < u64::MAX - 1 && #[trigger] stmt_component_shape(
                    old(stmts)@[i],
                    old(self).component_ident,
                    old(self).global_collect.imports@,
                ) ==> stmt_param_plain(final(stmts)@[i]),
            forall|i: int|
                0 <= i < old(stmts)@.len() && depth > 3 && #[trigger] stmt_factory(old(stmts)@[i], *old(self))
                    ==> exists|si: PropsDestructuring|
                    si.extends(&*old(self)) && stmt_component_rewritten(
                        old(stmts)@[i],
                        final(stmts)@[i],
                        si,
                        *final(self),
                    ),
        decreases depth,
    {
        proof {
            lemma_extends_refl(*self);
        }
        if depth == 0 {
            return;
        }
        let ghost s0 = *self;
        let ghost orig = stmts@;
        let mut i: usize = 0;
        while i < stmts.len()
            invariant
                self.wf(),
                self.extends(&s0),
                s0 == *old(self),
                depth > 0,
                orig == old(stmts)@,
                stmts@.len() == orig.len(),
                forall|ii: int| i <= ii < orig.len() ==> #[trigger] stmts@[ii] == orig[ii],
                forall|ii: int|
                    0 <= ii < i && depth > 3 && self.global_collect.next_mark < u64::MAX - 1
                        && #[trigger] stmt_component_shape(
                        orig[ii],
                        s0.component_ident,
                        s0.global_collect.imports@,
                    ) ==> stmt_param_plain(stmts@[ii]),
                forall|ii: int|
                    0 <= ii < i && depth > 3 && #[trigger] stmt_factory(orig[ii], s0) ==> exists|
                        si: PropsDestructuring,
                    |
                        si.extends(&s0) && stmt_component_rewritten(orig[ii], stmts@[ii], si, *self),
            decreases stmts@.len() - i,
        {
            let ghost prev = *self;
            let ghost prev_stmts = stmts@;
            self.visit_stmt(&mut stmts[i], depth - 1);
            proof {
                lemma_extends_trans(s0, prev, *self);
                if depth > 3 && self.global_collect.next_mark < u64::MAX - 1 && stmt_component_shape(
                    orig[i as int],
                    s0.component_ident,
                    s0.global_collect.imports@,
                ) {
                    lemma_stmt_shape_grows(
                        orig[i as int],
                        s0.component_ident,
                        s0.global_collect.imports@,
                        prev.global_collect.imports@,
                    );
                }
                assert forall|ii: int|
                    0 <= ii < i + 1 && depth > 3 && self.global_collect.next_mark < u64::MAX - 1
                        && #[trigger] stmt_component_shape(
                        orig[ii],
                        s0.component_ident,
                        s0.global_collect.imports@,
                    ) implies stmt_param_plain(stmts@[ii]) by {
                    if ii < i {
                        assert(stmts@[ii] == prev_stmts[ii]);
                    }
                }
                assert forall|ii: int|
                    0 <= ii < i + 1 && depth > 3 && #[trigger] stmt_factory(orig[ii], s0) implies exists|
                        si: PropsDestructuring,
                    | si.extends(&s0) && stmt_component_rewritten(orig[ii], stmts@[ii], si, *self) by {
                    if ii < i {
                        assert(stmts@[ii] == prev_stmts[ii]);
                        let si = choose|si: PropsDestructuring|
                            si.extends(&s0) && stmt_component_rewritten(orig[ii], prev_stmts[ii], si, prev);
                        lemma_rewritten_stays(orig[ii], stmts@[ii], si, prev, *self);
                    } else {
                        assert(stmt_factory(orig[ii], prev));
                        assert(stmt_component_rewritten(orig[ii], stmts@[ii], prev, *self));
                    }
                }
            }
            i = i + 1;
        }
    }

    /// Walks one statement.
    pub fn visit_stmt(&mut self, stmt: &mut Stmt, depth: u64)
        requires
            old(self).wf(),
        ensures
            final(self).wf(),
            final(self).extends(&*old(self)),
            depth > 2 && stmt_component_shape(
                *old(stmt),
                old(self).component_ident,
                old(self).global_collect.imports@,
            ) && old(self).global_collect.next_mark < u64::MAX - 1 ==> stmt_param_plain(*final(stmt)),
            depth > 2 && stmt_factory(*old(stmt), *old(self)) ==> stmt_component_rewritten(
                *old(stmt),
                *final(stmt),
                *old(self),
                *final(self),
            ),
        decreases depth,
    {
        proof {
            lemma_extends_refl(*self);
        }
        if depth == 0 {
            return;
        }
        let ghost s0 = *self;
        match stmt {
            Stmt::Var(decls) => {
                let mut i: usize = 0;
                while i < decls.len()
                    invariant
                        self.wf(),
                        self.extends(&s0),
                        depth > 0,
                    decreases decls@.len() - i,
                {
                    let ghost prev = *self;
                    self.visit_pat(&mut decls[i].name, depth - 1);
                    let ghost mid = *self;
                    match &mut decls[i].init {
                        Some(init) => {
                            self.visit_mut_expr(init, depth - 1);
                        },
                        None => {
                            proof {
                                lemma_extends_refl(*self);
                            }
                        },
                    }
                    proof {
                        lemma_extends_trans(prev, mid, *self);
                        lemma_extends_trans(s0, prev, *self);
                    }
                    i = i + 1;
                }
            },
            Stmt::Expr(e) => {
                self.visit_mut_expr(e, depth - 1);
            },
            Stmt::Return(Some(e)) => {
                self.visit_mut_expr(e, depth - 1);
            },
            Stmt::Return(None) => {},
        }
    }
}

/// Expands the destructuring of component properties throughout `main_module`.
/// The registry keeps every import it had; the pass may add the omission
/// helper's import and draw fresh scope tokens.
pub fn transform_props_destructuring(
    main_module: &mut Module,
    global_collect: &mut GlobalCollect,
    core_module: &String,
)
    requires
        module_tokens_below(*old(main_module), old(global_collect).next_mark),
        tokens_below_mark(*old(global_collect)),
    ensures
        tokens_below_mark(*final(global_collect)),
        final(global_collect).imports@.len() <= old(global_collect).imports@.len() + 1,
        forall|i: int|
            0 <= i < old(main_module).body@.len() && old(main_module).body@[i] is Expr
                && #[trigger] factory_arrow_call_of(
                stmt_expr(old(main_module).body@[i]),
                imported_local(old(global_collect).imports@, component_name(), core_module@),
            ) ==> exists|si: PropsDestructuring, sf: PropsDestructuring|
                si.component_ident == imported_local(
                    old(global_collect).imports@,
                    component_name(),
                    core_module@,
                ) && si.core_module@ == core_module@ && stmt_component_rewritten(
                    old(main_module).body@[i],
                    final(main_module).body@[i],
                    si,
                    sf,
                ),
        final(global_collect).imports@.len() == old(global_collect).imports@.len() + 1
            ==> imported_local(old(global_collect).imports@, rest_props_name(), core_module@) is None,
        old(global_collect).imports@.len() <= final(global_collect).imports@.len(),
        final(global_collect).imports@.subrange(0, old(global_collect).imports@.len() as int)
            == old(global_collect).imports@,
        old(global_collect).next_mark <= final(global_collect).next_mark,
        forall|k: int|
            old(global_collect).imports@.len() <= k < final(global_collect).imports@.len()
                ==> (#[trigger] final(global_collect).imports@[k]).specifier@ == rest_props_name()
                && final(global_collect).imports@[k].source@ == core_module@,
        imported_local(old(global_collect).imports@, component_name(), core_module@) is None ==> (
        *final(main_module) == *old(main_module) && *final(global_collect) == *old(global_collect)),
        final(main_module).body@.len() == old(main_module).body@.len(),
        final(global_collect).next_mark < u64::MAX - 1 ==> forall|i: int|
            0 <= i < old(main_module).body@.len() && #[trigger] stmt_component_shape(
                old(main_module).body@[i],
                imported_local(old(global_collect).imports@, component_name(), core_module@),
                old(global_collect).imports@,
            ) ==> stmt_param_plain(final(main_module).body@[i]),
{
    let component = String::from_str("component$");
    proof {
        reveal_strlit("component$");
    }
    let component_ident = global_collect.get_imported_local(&component, core_module);
    if component_ident.is_none() {
        proof {
            assert(global_collect.imports@.subrange(0, global_collect.imports@.len() as int)
                =~= global_collect.imports@);
        }
        return;
    }
    let mut taken = GlobalCollect::new(Vec::new(), 0);
    std::mem::swap(global_collect, &mut taken);
    let mut pd = PropsDestructuring {
        component_ident,
        identifiers: Vec::new(),
        global_collect: taken,
        core_module: core_module.clone(),
    };
    let ghost pd0 = pd;
    let ghost body0 = main_module.body@;
    pd.visit_stmts(&mut main_module.body, MAX_DEPTH);
    proof {
        assert forall|i: int|
            0 <= i < body0.len() && body0[i] is Expr && #[trigger] factory_arrow_call_of(
                stmt_expr(body0[i]),
                pd0.component_ident,
            ) implies exists|si: PropsDestructuring, sf: PropsDestructuring|
            si.component_ident == pd0.component_ident && si.core_module@ == core_module@
                && stmt_component_rewritten(body0[i], main_module.body@[i], si, sf) by {
            assert(stmt_factory(body0[i], pd0));
            let si = choose|si: PropsDestructuring|
                si.extends(&pd0) && stmt_component_rewritten(body0[i], main_module.body@[i], si, pd);
            assert(stmt_component_rewritten(body0[i], main_module.body@[i], si, pd));
        }
    }
    std::mem::swap(global_collect, &mut pd.global_collect);
    proof {
        let n0 = pd0.global_collect.imports@.len() as int;
        assert forall|k: int| 0 <= k < global_collect.imports@.len() implies (
        #[trigger] global_collect.imports@[k]).local.ctxt < global_collect.next_mark by {
            if k < n0 {
                assert(global_collect.imports@[k] == global_collect.imports@.subrange(0, n0)[k]);
                assert(pd0.global_collect.imports@[k].local.ctxt < pd0.global_collect.next_mark);
            }
        }
    }
}

/// The value that `e` reads, where `placeholder` names the properties
/// object `obj` and `env` gives the other names; `None` is `undefined`.
pub open spec fn eval(
    e: Expr,
    placeholder: (Seq<char>, u64),
    obj: Map<Seq<char>, Lit>,
    env: Map<(Seq<char>, u64), Lit>,
) -> Option<Lit>
    decreases e,
{
    match e {
        Expr::Lit(l) => Some(l),
        Expr::Ident(id) => if env.contains_key(id@) {
            Some(env[id@])
        } else {
            None
        },
        Expr::Member(o, k) => match *o {
            Expr::Ident(id) => if id@ == placeholder && obj.contains_key(k@) {
                Some(obj[k@])
            } else {
                None
            },
            _ => None,
        },
        Expr::Nullish(l, r) => match eval(*l, placeholder, obj, env) {
            Some(Lit::Null) => eval(*r, placeholder, obj, env),
            None => eval(*r, placeholder, obj, env),
            v => v,
        },
        _ => None,
    }
}

/// The value that destructuring `obj` with the pattern entry `prop` binds;
/// a default applies where the key is absent.
pub open spec fn destructured_value(
    prop: ObjectPatProp,
    placeholder: (Seq<char>, u64),
    obj: Map<Seq<char>, Lit>,
    env: Map<(Seq<char>, u64), Lit>,
) -> Option<Lit> {
    let read = |k: Seq<char>| if obj.contains_key(k) {
        Some(obj[k])
    } else {
        None
    };
    match prop {
        ObjectPatProp::Assign(k, None) => read(k.sym@),
        ObjectPatProp::Assign(k, Some(d)) => match read(k.sym@) {
            None => eval(*d, placeholder, obj, env),
            v => v,
        },
        ObjectPatProp::KeyValue(PropName::Ident(key), _) => read(key@),
        _ => None,
    }
}

/// The name that a pattern entry binds, if it binds one plain name.
pub open spec fn bound_name(prop: ObjectPatProp) -> Option<Id> {
    match prop {
        ObjectPatProp::Assign(k, _) => Some(k),
        ObjectPatProp::KeyValue(_, target) => match *target {
            Pat::Ident(t) => Some(t),
            _ => None,
        },
        _ => None,
    }
}

/// An entry that no rewrite supports: a nested or non-identifier target, a
/// quoted key, or a default that may have effects.
pub open spec fn unsupported_entry(prop: ObjectPatProp, imports: Seq<Import>) -> bool {
    match prop {
        ObjectPatProp::Assign(_, Some(d)) => !immutable_expr(*d, imports),
        ObjectPatProp::Assign(_, None) => false,
        ObjectPatProp::KeyValue(PropName::Ident(_), target) => !(*target is Ident),
        ObjectPatProp::KeyValue(PropName::Str(_), _) => true,
        ObjectPatProp::Rest(target) => !(*target is Ident),
    }
}

/// The keys that a pattern's entries read, in source order.
pub open spec fn pattern_keys(props: Seq<ObjectPatProp>) -> Seq<String>
    decreases props.len(),
{
    if props.len() == 0 {
        Seq::empty()
    } else {
        let prev = pattern_keys(props.drop_last());
        match props.last() {
            ObjectPatProp::Assign(k, _) => prev.push(k.sym),
            ObjectPatProp::KeyValue(PropName::Ident(key), _) => prev.push(key),
            _ => prev,
        }
    }
}

proof fn lemma_scan_finds_entry(obj: Expr, props: Seq<ObjectPatProp>, imports: Seq<Import>, j: int)
    requires
        !scan_props(obj, props, imports).0,
        0 <= j < props.len(),
        bound_name(props[j]) is Some,
    ensures
        exists|i: int|
            0 <= i < scan_props(obj, props, imports).2.len() && (#[trigger] scan_props(
                obj,
                props,
                imports,
            ).2[i]).0 == bound_name(props[j])->0 && match props[j] {
                ObjectPatProp::Assign(k, None) => scan_props(obj, props, imports).2[i].2 == member_of(
                    obj,
                    k.sym,
                ),
                ObjectPatProp::Assign(k, Some(d)) => scan_props(obj, props, imports).2[i].2
                    == Expr::Nullish(Box::new(member_of(obj, k.sym)), d),
                ObjectPatProp::KeyValue(PropName::Ident(key), _) => scan_props(
                    obj,
                    props,
                    imports,
                ).2[i].2 == member_of(obj, key),
                _ => false,
            },
    decreases props.len(),
{
    let prev = scan_props(obj, props.drop_last(), imports);
    let cur = scan_props(obj, props, imports);
    if j == props.len() - 1 {
        let i = cur.2.len() - 1;
        assert(cur.2[i].0 == bound_name(props[j])->0);
    } else {
        assert(props.drop_last()[j] == props[j]);
        lemma_scan_finds_entry(obj, props.drop_last(), imports, j);
        let i = choose|i: int|
            0 <= i < prev.2.len() && (#[trigger] prev.2[i]).0 == bound_name(props[j])->0 && match props[j] {
                ObjectPatProp::Assign(k, None) => prev.2[i].2 == member_of(obj, k.sym),
                ObjectPatProp::Assign(k, Some(d)) => prev.2[i].2 == Expr::Nullish(
                    Box::new(member_of(obj, k.sym)),
                    d,
                ),
                ObjectPatProp::KeyValue(PropName::Ident(key), _) => prev.2[i].2 == member_of(obj, key),
                _ => false,
            };
        assert(cur.2[i] == prev.2[i]);
    }
}

/// Reading a destructured name after the rewrite gives the value that the
/// destructuring gave it, for every properties object without `null`
/// values: the recorded replacement of each bound name evaluates to the
/// destructured value. (`a ?? d` falls back on `null` too, where a
/// destructuring default only replaces an absent key.)
pub proof fn lemma_rewrite_equivalence(
    p: Id,
    props: Seq<ObjectPatProp>,
    imports: Seq<Import>,
    obj: Map<Seq<char>, Lit>,
    env: Map<(Seq<char>, u64), Lit>,
    j: int,
)
    requires
        analyze_pat(Expr::Ident(p), props, imports) is Some,
        0 <= j < props.len(),
        bound_name(props[j]) is Some,
        forall|k: Seq<char>| #[trigger] obj.contains_key(k) ==> obj[k] != Lit::Null,
    ensures
        exists|i: int|
            0 <= i < analyzed_bindings(Expr::Ident(p), props, imports).len() && (
            #[trigger] analyzed_bindings(Expr::Ident(p), props, imports)[i]).0 == bound_name(props[j])->0
                && eval(analyzed_bindings(Expr::Ident(p), props, imports)[i].2, p@, obj, env)
                == destructured_value(props[j], p@, obj, env),
{
    let e = Expr::Ident(p);
    let local = scan_props(e, props, imports).2;
    lemma_scan_finds_entry(e, props, imports, j);
    let i = choose|i: int|
        0 <= i < local.len() && (#[trigger] local[i]).0 == bound_name(props[j])->0 && match props[j] {
            ObjectPatProp::Assign(k, None) => local[i].2 == member_of(e, k.sym),
            ObjectPatProp::Assign(k, Some(d)) => local[i].2 == Expr::Nullish(
                Box::new(member_of(e, k.sym)),
                d,
            ),
            ObjectPatProp::KeyValue(PropName::Ident(key), _) => local[i].2 == member_of(e, key),
            _ => false,
        };
    match props[j] {
        ObjectPatProp::Assign(k, Some(d)) => {
            let m = member_of(e, k.sym);
            assert(eval(m, p@, obj, env) == (if obj.contains_key(k.sym@) {
                Some(obj[k.sym@])
            } else {
                None
            }));
            if obj.contains_key(k.sym@) {
                assert(obj[k.sym@] != Lit::Null);
                assert(eval(local[i].2, p@, obj, env) == Some(obj[k.sym@]));
            } else {
                assert(eval(local[i].2, p@, obj, env) == eval(*d, p@, obj, env));
            }
            assert(eval(local[i].2, p@, obj, env) == destructured_value(props[j], p@, obj, env));
        },
        _ => {},
    }
    assert(analyzed_bindings(e, props, imports) == local);
}

proof fn lemma_skip_sticks(obj: Expr, props: Seq<ObjectPatProp>, imports: Seq<Import>, j: int)
    requires
        0 <= j < props.len(),
        unsupported_entry(props[j], imports),
    ensures
        scan_props(obj, props, imports).0,
    decreases props.len(),
{
    if j < props.len() - 1 {
        assert(props.drop_last()[j] == props[j]);
        lemma_skip_sticks(obj, props.drop_last(), imports, j);
    }
}

/// A pattern with one unsupported entry is not rewritten at all: its
/// analysis fails, whatever the other entries are.
pub proof fn lemma_unsupported_voids_pattern(
    obj: Expr,
    props: Seq<ObjectPatProp>,
    imports: Seq<Import>,
    j: int,
)
    requires
        0 <= j < props.len(),
        unsupported_entry(props[j], imports),
    ensures
        analyze_pat(obj, props, imports) is None,
{
    lemma_skip_sticks(obj, props, imports, j);
}

proof fn lemma_scan_keys(obj: Expr, props: Seq<ObjectPatProp>, imports: Seq<Import>)
    requires
        !scan_props(obj, props, imports).0,
    ensures
        consumed_keys(scan_props(obj, props, imports).2) == pattern_keys(props),
    decreases props.len(),
{
    if props.len() > 0 {
        lemma_scan_keys(obj, props.drop_last(), imports);
        let prev = scan_props(obj, props.drop_last(), imports).2;
        let cur = scan_props(obj, props, imports).2;
        assert(consumed_keys(cur) =~= pattern_keys(props));
    }
}

/// The keys that the omission statement leaves out are exactly the keys
/// that the pattern's entries read, in source order.
pub proof fn lemma_rest_omits_consumed_keys(
    obj: Expr,
    props: Seq<ObjectPatProp>,
    imports: Seq<Import>,
)
    requires
        analyze_pat(obj, props, imports) is Some,
    ensures
        consumed_keys(analyzed_bindings(obj, props, imports)) == pattern_keys(props),
{
    lemma_scan_keys(obj, props, imports);
}

/// A rewritten component no longer opens with an object pattern, so a
/// second run leaves its parameters as they are.
pub proof fn lemma_rewritten_params_are_final(
    a0: ArrowExpr,
    a1: ArrowExpr,
    pd0: PropsDestructuring,
    pd1: PropsDestructuring,
    p: Id,
)
    requires
        component_params_rewritten(a0, a1, pd0, pd1, p),
    ensures
        first_object_param(a1.params@) is None,
{
    assert(a1.params@[0] == Pat::Ident(p));
}

/// A rewritten declaration binds a plain name, so a second run leaves it
/// as it is.
pub proof fn lemma_rewritten_declaration_is_final(
    d0: VarDeclarator,
    d1: VarDeclarator,
    pd0: PropsDestructuring,
    pd1: PropsDestructuring,
    r: Option<Stmt>,
    p: Id,
    new_ref: Expr,
)
    requires
        declarator_rewritten(d0, d1, pd0, pd1, r, p, new_ref),
    ensures
        d1.name is Ident,
{
}

/// A component whose properties pattern holds an unsupported entry is not
/// rewritten: with `rewrite_component_params`'s contract, its arrow stays as
/// it was.
pub proof fn lemma_unsupported_param_not_rewritten(
    a0: ArrowExpr,
    a1: ArrowExpr,
    pd0: PropsDestructuring,
    pd1: PropsDestructuring,
    p: Id,
    j: int,
)
    requires
        first_object_param(a0.params@) is Some,
        0 <= j < first_object_param(a0.params@)->0@.len(),
        unsupported_entry(first_object_param(a0.params@)->0@[j], pd0.global_collect.imports@),
    ensures
        !component_params_rewritten(a0, a1, pd0, pd1, p),
{
    lemma_unsupported_voids_pattern(
        Expr::Ident(p),
        first_object_param(a0.params@)->0@,
        pd0.global_collect.imports@,
        j,
    );
}

/// A declaration whose pattern holds an unsupported entry is not rewritten:
/// with `rewrite_declarator`'s contract, it stays as it was.
pub proof fn lemma_unsupported_declaration_not_rewritten(
    d0: VarDeclarator,
    d1: VarDeclarator,
    pd0: PropsDestructuring,
    pd1: PropsDestructuring,
    r: Option<Stmt>,
    p: Id,
    new_ref: Expr,
    j: int,
)
    requires
        d0.name is Object,
        0 <= j < d0.name->Object_0@.len(),
        unsupported_entry(d0.name->Object_0@[j], pd0.global_collect.imports@),
    ensures
        !declarator_rewritten(d0, d1, pd0, pd1, r, p, new_ref),
{
    lemma_unsupported_voids_pattern(new_ref, d0.name->Object_0@, pd0.global_collect.imports@, j);
}



/// After a component's parameter rewrite, the table entry recorded for each
/// name that its properties pattern binds reads, from any properties object
/// without `null` values, the value that the destructuring gave that name.
pub proof fn lemma_component_rewrite_equivalence(
    a0: ArrowExpr,
    a1: ArrowExpr,
    pd0: PropsDestructuring,
    pd1: PropsDestructuring,
    p: Id,
    obj: Map<Seq<char>, Lit>,
    env: Map<(Seq<char>, u64), Lit>,
    j: int,
)
    requires
        component_params_rewritten(a0, a1, pd0, pd1, p),
        0 <= j < first_object_param(a0.params@)->0@.len(),
        bound_name(first_object_param(a0.params@)->0@[j]) is Some,
        forall|k: Seq<char>| #[trigger] obj.contains_key(k) ==> obj[k] != Lit::Null,
    ensures
        exists|i: int|
            pd0.identifiers@.len() <= i < pd1.identifiers@.len() && (
            #[trigger] pd1.identifiers@[i]).0 == bound_name(first_object_param(a0.params@)->0@[j])->0
                && eval(pd1.identifiers@[i].1, p@, obj, env) == destructured_value(
                first_object_param(a0.params@)->0@[j],
                p@,
                obj,
                env,
            ),
{
    let props = first_object_param(a0.params@)->0@;
    let imports = pd0.global_collect.imports@;
    lemma_rewrite_equivalence(p, props, imports, obj, env, j);
    let local = analyzed_bindings(Expr::Ident(p), props, imports);
    let i = choose|i: int|
        0 <= i < local.len() && (#[trigger] local[i]).0 == bound_name(props[j])->0 && eval(
            local[i].2,
            p@,
            obj,
            env,
        ) == destructured_value(props[j], p@, obj, env);
    let n = pd0.identifiers@.len() as int;
    assert(pd1.identifiers@[n + i] == entries(local)[i]);
}
} // verus!

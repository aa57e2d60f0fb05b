use qwik_core::ast::{
    ArrowBody, ArrowExpr, Expr, Id, Lit, Module, ObjectPatProp, Pat, Prop, PropName, Stmt,
    VarDeclarator,
};
use qwik_core::collector::{GlobalCollect, Import};
use qwik_core::props_destructuring::transform_props_destructuring;

const CORE: &str = "@builder.io/qwik";

fn id(s: &str, c: u64) -> Id {
    Id { sym: s.to_string(), ctxt: c }
}

fn ident(s: &str, c: u64) -> Expr {
    Expr::Ident(id(s, c))
}

fn member(o: Expr, k: &str) -> Expr {
    Expr::Member(Box::new(o), k.to_string())
}

fn str_lit(s: &str) -> Expr {
    Expr::Lit(Lit::Str(s.to_string()))
}

fn registry() -> GlobalCollect {
    GlobalCollect::new(
        vec![Import {
            local: id("component$", 1),
            specifier: "component$".to_string(),
            source: CORE.to_string(),
        }],
        100,
    )
}

fn assign(s: &str, c: u64) -> ObjectPatProp {
    ObjectPatProp::Assign(id(s, c), None)
}

fn component(params: Vec<Pat>, body: Vec<Stmt>) -> Module {
    component_with_body(params, ArrowBody::Block(body))
}

fn component_with_body(params: Vec<Pat>, body: ArrowBody) -> Module {
    let arrow = Expr::Arrow(ArrowExpr { params, body: Box::new(body) });
    let call = Expr::Call(Box::new(ident("component$", 1)), vec![arrow]);
    Module { body: vec![Stmt::Expr(Box::new(call))] }
}

fn ret(e: Expr) -> Stmt {
    Stmt::Return(Some(Box::new(e)))
}

fn omit_stmt(rest: Id, omit_fn: Id, obj: Expr, keys: &[&str]) -> Stmt {
    let keys = Expr::Array(keys.iter().map(|k| str_lit(k)).collect());
    let call = Expr::Call(Box::new(Expr::Ident(omit_fn)), vec![obj, keys]);
    Stmt::Var(vec![VarDeclarator { name: Pat::Ident(rest), init: Some(Box::new(call)) }])
}

fn run(mut m: Module) -> (Module, GlobalCollect) {
    let mut g = registry();
    transform_props_destructuring(&mut m, &mut g, &CORE.to_string());
    (m, g)
}

fn full_pattern_module() -> Module {
    component(
        vec![Pat::Object(vec![
            assign("a", 2),
            ObjectPatProp::KeyValue(PropName::Ident("b".to_string()), Box::new(Pat::Ident(id("c", 2)))),
            ObjectPatProp::Assign(id("d", 2), Some(Box::new(Expr::Lit(Lit::Num(1))))),
            ObjectPatProp::Rest(Box::new(Pat::Ident(id("rest", 2)))),
        ])],
        vec![ret(Expr::Array(vec![ident("a", 2), ident("c", 2), ident("d", 2), ident("rest", 2)]))],
    )
}

#[test]
fn component_props_are_rewritten_with_rest() {
    let (m, g) = run(full_pattern_module());
    let expected = component(
        vec![Pat::Ident(id("props", 100))],
        vec![
            omit_stmt(id("rest", 2), id("_restProps", 101), ident("props", 100), &["a", "b", "d"]),
            ret(Expr::Array(vec![
                member(ident("props", 100), "a"),
                member(ident("props", 100), "b"),
                Expr::Nullish(Box::new(member(ident("props", 100), "d")), Box::new(Expr::Lit(Lit::Num(1)))),
                ident("rest", 2),
            ])),
        ],
    );
    assert_eq!(m, expected);
    assert_eq!(g.imports.len(), 2);
    assert_eq!(g.imports[1].local, id("_restProps", 101));
    assert_eq!(g.imports[1].specifier, "_restProps");
    assert_eq!(g.imports[1].source, CORE);
}

#[test]
fn rewrite_runs_twice_without_change() {
    let (once, _) = run(full_pattern_module());
    let (twice_first, _) = run(full_pattern_module());
    let (twice, _) = run(twice_first);
    assert_eq!(once, twice);
}

fn unchanged_after_pass(build: fn() -> Module) {
    let (m, g) = run(build());
    assert_eq!(m, build());
    assert_eq!(g.imports.len(), 1);
}

#[test]
fn nested_pattern_is_left_alone() {
    unchanged_after_pass(|| {
        component(
            vec![Pat::Object(vec![
                assign("x", 2),
                ObjectPatProp::KeyValue(
                    PropName::Ident("a".to_string()),
                    Box::new(Pat::Object(vec![assign("b", 2)])),
                ),
            ])],
            vec![ret(Expr::Array(vec![ident("x", 2), ident("b", 2)]))],
        )
    });
}

#[test]
fn non_identifier_rest_is_left_alone() {
    unchanged_after_pass(|| {
        component(
            vec![Pat::Object(vec![
                assign("a", 2),
                ObjectPatProp::Rest(Box::new(Pat::Array(vec![Pat::Ident(id("x", 2))]))),
            ])],
            vec![ret(ident("a", 2))],
        )
    });
}

#[test]
fn quoted_key_is_left_alone() {
    unchanged_after_pass(|| {
        component(
            vec![Pat::Object(vec![
                assign("a", 2),
                ObjectPatProp::KeyValue(PropName::Str("b-c".to_string()), Box::new(Pat::Ident(id("bc", 2)))),
            ])],
            vec![ret(ident("a", 2))],
        )
    });
}

#[test]
fn effectful_default_is_left_alone() {
    unchanged_after_pass(|| {
        let effect = Expr::Call(Box::new(ident("compute", 2)), vec![]);
        component(
            vec![Pat::Object(vec![assign("a", 2), ObjectPatProp::Assign(id("d", 2), Some(Box::new(effect)))])],
            vec![ret(ident("d", 2))],
        )
    });
}

#[test]
fn empty_pattern_is_left_alone() {
    unchanged_after_pass(|| component(vec![Pat::Object(vec![])], vec![ret(ident("a", 2))]));
}

#[test]
fn other_calls_are_left_alone() {
    unchanged_after_pass(|| {
        let arrow = Expr::Arrow(ArrowExpr {
            params: vec![Pat::Object(vec![assign("a", 2)])],
            body: Box::new(ArrowBody::Expr(ident("a", 2))),
        });
        let call = Expr::Call(Box::new(ident("other$", 1)), vec![arrow]);
        Module { body: vec![Stmt::Expr(Box::new(call))] }
    });
}

#[test]
fn imported_default_is_kept_behind_nullish() {
    let m = component(
        vec![Pat::Object(vec![ObjectPatProp::Assign(
            id("d", 2),
            Some(Box::new(ident("component$", 1))),
        )])],
        vec![ret(ident("d", 2))],
    );
    let (m, _) = run(m);
    let expected = component(
        vec![Pat::Ident(id("props", 100))],
        vec![ret(Expr::Nullish(
            Box::new(member(ident("props", 100), "d")),
            Box::new(ident("component$", 1)),
        ))],
    );
    assert_eq!(m, expected);
}

#[test]
fn expression_body_gets_block_for_rest() {
    let m = component_with_body(
        vec![Pat::Object(vec![assign("a", 2), ObjectPatProp::Rest(Box::new(Pat::Ident(id("rest", 2))))])],
        ArrowBody::Expr(ident("rest", 2)),
    );
    let (m, _) = run(m);
    let expected = component(
        vec![Pat::Ident(id("props", 100))],
        vec![
            omit_stmt(id("rest", 2), id("_restProps", 101), ident("props", 100), &["a"]),
            ret(ident("rest", 2)),
        ],
    );
    assert_eq!(m, expected);
}

#[test]
fn hook_call_result_is_destructured_through_placeholder() {
    let use_store = || Expr::Call(Box::new(ident("useStore", 1)), vec![]);
    let m = component(
        vec![Pat::Ident(id("p", 2))],
        vec![
            Stmt::Var(vec![VarDeclarator {
                name: Pat::Object(vec![assign("count", 2), ObjectPatProp::Rest(Box::new(Pat::Ident(id("others", 2))))]),
                init: Some(Box::new(use_store())),
            }]),
            ret(ident("count", 2)),
        ],
    );
    let (m, _) = run(m);
    let expected = component(
        vec![Pat::Ident(id("p", 2))],
        vec![
            Stmt::Var(vec![VarDeclarator { name: Pat::Ident(id("store", 100)), init: Some(Box::new(use_store())) }]),
            omit_stmt(id("others", 2), id("_restProps", 101), ident("store", 100), &["count"]),
            ret(member(ident("store", 100), "count")),
        ],
    );
    assert_eq!(m, expected);
}

#[test]
fn recorded_name_is_destructured_through_its_replacement() {
    let m = component(
        vec![Pat::Object(vec![assign("data", 2)])],
        vec![
            Stmt::Var(vec![VarDeclarator {
                name: Pat::Object(vec![assign("y", 2)]),
                init: Some(Box::new(ident("data", 2))),
            }]),
            ret(ident("y", 2)),
        ],
    );
    let (m, _) = run(m);
    let expected = component(
        vec![Pat::Ident(id("props", 100))],
        vec![
            Stmt::Var(vec![VarDeclarator { name: Pat::Ident(id("_unused", 101)), init: None }]),
            ret(member(member(ident("props", 100), "data"), "y")),
        ],
    );
    assert_eq!(m, expected);
}

#[test]
fn unrecorded_name_is_left_alone() {
    unchanged_after_pass(|| {
        component(
            vec![Pat::Ident(id("p", 2))],
            vec![Stmt::Var(vec![VarDeclarator {
                name: Pat::Object(vec![assign("y", 2)]),
                init: Some(Box::new(ident("other", 2))),
            }])],
        )
    });
}

#[test]
fn shorthand_property_is_expanded() {
    let m = component(
        vec![Pat::Object(vec![assign("a", 2)])],
        vec![ret(Expr::Object(vec![Prop::Shorthand(id("a", 2)), Prop::Shorthand(id("b", 2))]))],
    );
    let (m, _) = run(m);
    let expected = component(
        vec![Pat::Ident(id("props", 100))],
        vec![ret(Expr::Object(vec![
            Prop::KeyValue(PropName::Ident("a".to_string()), Box::new(member(ident("props", 100), "a"))),
            Prop::Shorthand(id("b", 2)),
        ]))],
    );
    assert_eq!(m, expected);
}

#[test]
fn shadowed_name_is_not_replaced() {
    let m = component(
        vec![Pat::Object(vec![assign("a", 2)])],
        vec![ret(Expr::Array(vec![ident("a", 2), ident("a", 3)]))],
    );
    let (m, _) = run(m);
    let expected = component(
        vec![Pat::Ident(id("props", 100))],
        vec![ret(Expr::Array(vec![member(ident("props", 100), "a"), ident("a", 3)]))],
    );
    assert_eq!(m, expected);
}

#[test]
fn module_without_component_import_is_left_alone() {
    let mut m = full_pattern_module();
    let mut g = GlobalCollect::new(vec![], 100);
    transform_props_destructuring(&mut m, &mut g, &CORE.to_string());
    assert_eq!(m, full_pattern_module());
    assert_eq!(g.imports.len(), 0);
}

#[test]
fn later_declaration_sees_earlier_binding() {
    let use_store = || Expr::Call(Box::new(ident("useStore", 1)), vec![]);
    let m = component(
        vec![Pat::Ident(id("p", 2))],
        vec![
            Stmt::Var(vec![VarDeclarator {
                name: Pat::Object(vec![assign("data", 2)]),
                init: Some(Box::new(use_store())),
            }]),
            Stmt::Var(vec![VarDeclarator {
                name: Pat::Object(vec![assign("y", 2)]),
                init: Some(Box::new(ident("data", 2))),
            }]),
            ret(ident("y", 2)),
        ],
    );
    let (m, _) = run(m);
    let expected = component(
        vec![Pat::Ident(id("p", 2))],
        vec![
            Stmt::Var(vec![VarDeclarator { name: Pat::Ident(id("store", 100)), init: Some(Box::new(use_store())) }]),
            Stmt::Var(vec![VarDeclarator { name: Pat::Ident(id("_unused", 101)), init: None }]),
            ret(member(member(ident("store", 100), "data"), "y")),
        ],
    );
    assert_eq!(m, expected);
}

#[test]
fn unsupported_hook_call_pattern_is_left_alone() {
    unchanged_after_pass(|| {
        component(
            vec![Pat::Ident(id("p", 2))],
            vec![Stmt::Var(vec![VarDeclarator {
                name: Pat::Object(vec![
                    assign("a", 2),
                    ObjectPatProp::Rest(Box::new(Pat::Object(vec![assign("b", 2)]))),
                ]),
                init: Some(Box::new(Expr::Call(Box::new(ident("useStore", 1)), vec![]))),
            }])],
        )
    });
}

use qwik_core::ast::{Expr, Id, Lit, ObjectPatProp, Pat, PropName};
use qwik_core::collector::GlobalCollect;
use qwik_core::props_destructuring::transform_pat;

fn id(s: &str, c: u64) -> Id {
    Id { sym: s.to_string(), ctxt: c }
}

fn obj() -> Expr {
    Expr::Ident(id("props", 100))
}

fn member(k: &str) -> Expr {
    Expr::Member(Box::new(obj()), k.to_string())
}

#[test]
fn shorthand_binding_reads_member() {
    let g = GlobalCollect::new(vec![], 100);
    let r = transform_pat(&obj(), &vec![ObjectPatProp::Assign(id("k", 2), None)], &g);
    let (rest, local) = r.expect("supported");
    assert_eq!(rest, None);
    assert_eq!(local, vec![(id("k", 2), "k".to_string(), member("k"))]);
}

#[test]
fn immutable_default_becomes_nullish() {
    let g = GlobalCollect::new(vec![], 100);
    let d = Expr::Lit(Lit::Num(1));
    let r = transform_pat(
        &obj(),
        &vec![ObjectPatProp::Assign(id("k", 2), Some(Box::new(Expr::Lit(Lit::Num(1)))))],
        &g,
    );
    let (rest, local) = r.expect("supported");
    assert_eq!(rest, None);
    assert_eq!(
        local,
        vec![(id("k", 2), "k".to_string(), Expr::Nullish(Box::new(member("k")), Box::new(d)))]
    );
}

#[test]
fn effectful_default_voids_pattern() {
    let g = GlobalCollect::new(vec![], 100);
    let call = Expr::Call(Box::new(Expr::Ident(id("f", 2))), vec![]);
    let r = transform_pat(
        &obj(),
        &vec![
            ObjectPatProp::Assign(id("a", 2), None),
            ObjectPatProp::Assign(id("k", 2), Some(Box::new(call))),
        ],
        &g,
    );
    assert!(r.is_none());
}

#[test]
fn key_value_binds_local_name() {
    let g = GlobalCollect::new(vec![], 100);
    let r = transform_pat(
        &obj(),
        &vec![ObjectPatProp::KeyValue(PropName::Ident("k".to_string()), Box::new(Pat::Ident(id("l", 2))))],
        &g,
    );
    let (rest, local) = r.expect("supported");
    assert_eq!(rest, None);
    assert_eq!(local, vec![(id("l", 2), "k".to_string(), member("k"))]);
}

#[test]
fn rest_target_is_reported() {
    let g = GlobalCollect::new(vec![], 100);
    let r = transform_pat(
        &obj(),
        &vec![ObjectPatProp::Assign(id("a", 2), None), ObjectPatProp::Rest(Box::new(Pat::Ident(id("r", 2))))],
        &g,
    );
    let (rest, local) = r.expect("supported");
    assert_eq!(rest, Some(id("r", 2)));
    assert_eq!(local.len(), 1);
}

use qwik_core::entry_strategy::{
    parse_entry_strategy, EntryPolicy, EntryStrategy, HookData, InlineStrategy, ManualChunks,
    PathData, PerComponentStrategy, PerHookStrategy, SingleStrategy, SmartStrategy,
};

fn path() -> PathData {
    PathData {
        abs_path: "/app/src/routes/index.tsx".to_string(),
        rel_path: "routes/index.tsx".to_string(),
        file_name: "index.tsx".to_string(),
    }
}

fn hook(ctx_name: &str) -> HookData {
    HookData {
        name: "Root_component_onClick".to_string(),
        display_name: "Root_component_onClick".to_string(),
        hash: "h1".to_string(),
        ctx_name: ctx_name.to_string(),
    }
}

fn context(names: &[&str]) -> Vec<String> {
    names.iter().map(|s| s.to_string()).collect()
}

fn chunks(pairs: &[(&str, &str)]) -> ManualChunks {
    let mut m = ManualChunks::new();
    for (k, v) in pairs {
        m.insert(k.to_string(), v.to_string());
    }
    m
}

#[test]
fn hook_strategy_returns_none() {
    let p = PerHookStrategy {};
    assert_eq!(p.get_entry_for_sym("h1", &path(), &context(&["Root"]), &hook("$")), None);
    assert_eq!(p.get_entry_for_sym("", &path(), &context(&[]), &hook("useServerMount$")), None);
}

#[test]
fn inline_strategy_returns_shared_chunk() {
    let p = InlineStrategy;
    let a = p.get_entry_for_sym("h1", &path(), &context(&["Root"]), &hook("$"));
    let b = p.get_entry_for_sym("zz", &path(), &context(&[]), &hook("useServerMount$"));
    assert_eq!(a, Some("entry_hooks".to_string()));
    assert_eq!(a, b);
}

#[test]
fn hoist_and_inline_select_the_same_policy() {
    for s in [EntryStrategy::Inline, EntryStrategy::Hoist] {
        let p = parse_entry_strategy(&s, Some(chunks(&[("h1", "chunkA")])));
        assert_eq!(
            p.get_entry_for_sym("h1", &path(), &context(&["Root"]), &hook("$")),
            Some("entry_hooks".to_string())
        );
    }
}

#[test]
fn single_strategy_uses_manual_map() {
    let p = SingleStrategy::new(Some(chunks(&[("h1", "chunkA")])));
    assert_eq!(
        p.get_entry_for_sym("h1", &path(), &context(&["Root"]), &hook("$")),
        Some("chunkA".to_string())
    );
    assert_eq!(
        p.get_entry_for_sym("h2", &path(), &context(&["Root"]), &hook("$")),
        Some("entry_hooks".to_string())
    );
}

#[test]
fn single_strategy_without_map_uses_shared_chunk() {
    let p = SingleStrategy::new(None);
    assert_eq!(
        p.get_entry_for_sym("h1", &path(), &context(&["Root"]), &hook("$")),
        Some("entry_hooks".to_string())
    );
}

#[test]
fn component_strategy_uses_root_component() {
    let p = PerComponentStrategy::new(None);
    assert_eq!(
        p.get_entry_for_sym("h1", &path(), &context(&["Root", "Child"]), &hook("$")),
        Some("entry_Root".to_string())
    );
    assert_eq!(
        p.get_entry_for_sym("h1", &path(), &context(&[]), &hook("$")),
        Some("entry_hooks".to_string())
    );
}

#[test]
fn component_strategy_prefers_manual_map() {
    let p = PerComponentStrategy::new(Some(chunks(&[("h1", "chunkA")])));
    assert_eq!(
        p.get_entry_for_sym("h1", &path(), &context(&["Root"]), &hook("$")),
        Some("chunkA".to_string())
    );
    assert_eq!(
        p.get_entry_for_sym("h2", &path(), &context(&["Root"]), &hook("$")),
        Some("entry_Root".to_string())
    );
}

#[test]
fn smart_strategy_isolates_server_mount() {
    let p = SmartStrategy::new(Some(chunks(&[("h1", "chunkA")])));
    assert_eq!(
        p.get_entry_for_sym("h1", &path(), &context(&["Root"]), &hook("useServerMount$")),
        Some("entry_server".to_string())
    );
    assert_eq!(
        p.get_entry_for_sym("h2", &path(), &context(&[]), &hook("useServerMount$")),
        Some("entry_server".to_string())
    );
}

#[test]
fn smart_strategy_otherwise_acts_per_component() {
    let p = SmartStrategy::new(Some(chunks(&[("h1", "chunkA")])));
    assert_eq!(
        p.get_entry_for_sym("h1", &path(), &context(&["Root"]), &hook("$")),
        Some("chunkA".to_string())
    );
    assert_eq!(
        p.get_entry_for_sym("h2", &path(), &context(&["Root", "Child"]), &hook("useMount$")),
        Some("entry_Root".to_string())
    );
    assert_eq!(
        p.get_entry_for_sym("h2", &path(), &context(&[]), &hook("$")),
        Some("entry_hooks".to_string())
    );
}

#[test]
fn factory_selects_each_strategy() {
    let ctx = context(&["Root"]);
    let m = || Some(chunks(&[("h1", "chunkA")]));
    let hook_p = parse_entry_strategy(&EntryStrategy::Hook, m());
    assert_eq!(hook_p.get_entry_for_sym("h1", &path(), &ctx, &hook("$")), None);
    let single = parse_entry_strategy(&EntryStrategy::Single, m());
    assert_eq!(single.get_entry_for_sym("h2", &path(), &ctx, &hook("$")), Some("entry_hooks".to_string()));
    let comp = parse_entry_strategy(&EntryStrategy::Component, m());
    assert_eq!(comp.get_entry_for_sym("h2", &path(), &ctx, &hook("$")), Some("entry_Root".to_string()));
    assert_eq!(comp.get_entry_for_sym("h1", &path(), &ctx, &hook("$")), Some("chunkA".to_string()));
    let smart = parse_entry_strategy(&EntryStrategy::Smart, m());
    assert_eq!(
        smart.get_entry_for_sym("h1", &path(), &ctx, &hook("useServerMount$")),
        Some("entry_server".to_string())
    );
}

#[test]
fn manual_chunks_later_insert_wins() {
    let mut m = ManualChunks::new();
    m.insert("h1".to_string(), "a".to_string());
    m.insert("h1".to_string(), "b".to_string());
    assert_eq!(m.get("h1"), Some("b".to_string()));
    assert_eq!(m.get("h2"), None);
}

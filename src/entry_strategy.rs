//! Policies that decide which output chunk an extracted hook belongs to.

use vstd::hash_map::StringHashMap;
use vstd::prelude::*;
use vstd::string::StringExecFns;

verus! {

/// Name of the chunk shared by every hook that no rule places elsewhere.
pub open spec fn fallback_chunk() -> Seq<char> {
    "entry_hooks"@
}

/// Name of the chunk that isolates server-only mount hooks.
pub open spec fn server_chunk() -> Seq<char> {
    "entry_server"@
}

/// Prefix of the per-component chunk name.
pub open spec fn component_prefix() -> Seq<char> {
    "entry_"@
}

/// Context-name tag of a hook that runs only on the server at mount time.
pub open spec fn server_mount_tag() -> Seq<char> {
    "useServerMount$"@
}

fn entry_hooks() -> (r: String)
    ensures
        r@ == fallback_chunk(),
{
    String::from_str("entry_hooks")
}

fn entry_server() -> (r: String)
    ensures
        r@ == server_chunk(),
{
    String::from_str("entry_server")
}

/// The configured splitting strategy.
#[derive(Clone, Copy, Debug, PartialEq, Eq, Structural)]
pub enum EntryStrategy {
    Inline,
    Hoist,
    Single,
    Hook,
    Component,
    Smart,
}

/// Where a module lives, relative to the project.
#[derive(Clone, Debug)]
pub struct PathData {
    pub abs_path: String,
    pub rel_path: String,
    pub file_name: String,
}

/// What the extraction stage knows of one hook.
#[derive(Clone, Debug)]
pub struct HookData {
    pub name: String,
    pub display_name: String,
    pub hash: String,
    /// The name of the hook-creating call (`useServerMount$`, `$`, ...).
    pub ctx_name: String,
}

/// A user-supplied override map from a hook's hash to a chunk name.
pub struct ManualChunks {
    m: StringHashMap<String>,
}

impl View for ManualChunks {
    type V = Map<Seq<char>, Seq<char>>;

    closed spec fn view(&self) -> Map<Seq<char>, Seq<char>> {
        self.m@.map_values(|v: String| v@)
    }
}

impl ManualChunks {
    pub fn new() -> (r: Self)
        ensures
            r@ == Map::<Seq<char>, Seq<char>>::empty(),
    {
        let r = ManualChunks { m: StringHashMap::new() };
        assert(r@ =~= Map::<Seq<char>, Seq<char>>::empty());
        r
    }

    /// Maps `hash` to `chunk`, replacing any earlier chunk for that hash.
    pub fn insert(&mut self, hash: String, chunk: String)
        ensures
            final(self)@ == old(self)@.insert(hash@, chunk@),
    {
        self.m.insert(hash, chunk);
        assert(self@ =~= old(self)@.insert(hash@, chunk@));
    }

    pub fn get(&self, hash: &str) -> (r: Option<String>)
        ensures
            r is Some <==> self@.contains_key(hash@),
            r is Some ==> r->0@ == self@[hash@],
    {
        match self.m.get(hash) {
            Some(v) => Some(v.clone()),
            None => None,
        }
    }
}

/// The chunk that an optional override map names for `hash`, if any.
pub open spec fn manual_lookup(map: Option<Map<Seq<char>, Seq<char>>>, hash: Seq<char>) -> Option<
    Seq<char>,
> {
    match map {
        Some(m) => if m.contains_key(hash) {
            Some(m[hash])
        } else {
            None
        },
        None => None,
    }
}

pub open spec fn opt_chunks_view(m: Option<ManualChunks>) -> Option<Map<Seq<char>, Seq<char>>> {
    match m {
        Some(c) => Some(c@),
        None => None,
    }
}

pub open spec fn opt_string_view(s: Option<String>) -> Option<Seq<char>> {
    match s {
        Some(v) => Some(v@),
        None => None,
    }
}

pub open spec fn names_view(v: Seq<String>) -> Seq<Seq<char>> {
    v.map_values(|s: String| s@)
}

/// The chunk for a hook under the root component named first in `context`.
pub open spec fn component_chunk(context: Seq<Seq<char>>) -> Seq<char> {
    if context.len() == 0 {
        fallback_chunk()
    } else {
        component_prefix() + context[0]
    }
}

/// `Single`: the override for `hash`, else the shared chunk.
pub open spec fn single_entry(map: Option<Map<Seq<char>, Seq<char>>>, hash: Seq<char>) -> Seq<char> {
    match manual_lookup(map, hash) {
        Some(c) => c,
        None => fallback_chunk(),
    }
}

/// `Component`: the override for `hash`, else one chunk per root component.
pub open spec fn component_entry(
    map: Option<Map<Seq<char>, Seq<char>>>,
    hash: Seq<char>,
    context: Seq<Seq<char>>,
) -> Seq<char> {
    match manual_lookup(map, hash) {
        Some(c) => c,
        None => component_chunk(context),
    }
}

/// `Smart`: server-only mount hooks go to the server chunk; the rest as `Component`.
pub open spec fn smart_entry(
    map: Option<Map<Seq<char>, Seq<char>>>,
    hash: Seq<char>,
    context: Seq<Seq<char>>,
    ctx_name: Seq<char>,
) -> Seq<char> {
    if ctx_name == server_mount_tag() {
        server_chunk()
    } else {
        component_entry(map, hash, context)
    }
}

/// The chunk that `strategy`, configured with `map`, assigns to a hook.
pub open spec fn strategy_entry(
    strategy: EntryStrategy,
    map: Option<Map<Seq<char>, Seq<char>>>,
    hash: Seq<char>,
    context: Seq<Seq<char>>,
    ctx_name: Seq<char>,
) -> Option<Seq<char>> {
    match strategy {
        EntryStrategy::Hook => None,
        EntryStrategy::Inline | EntryStrategy::Hoist => Some(fallback_chunk()),
        EntryStrategy::Single => Some(single_entry(map, hash)),
        EntryStrategy::Component => Some(component_entry(map, hash, context)),
        EntryStrategy::Smart => Some(smart_entry(map, hash, context, ctx_name)),
    }
}

/// Decides the chunk of each extracted hook; `None` leaves the hook in a
/// chunk of its own.
pub trait EntryPolicy {
    spec fn entry_spec(&self, hash: Seq<char>, context: Seq<Seq<char>>, ctx_name: Seq<char>) -> Option<
        Seq<char>,
    >;

    fn get_entry_for_sym(
        &self,
        hash: &str,
        location: &PathData,
        context: &[String],
        hook_data: &HookData,
    ) -> (r: Option<String>)
        ensures
            opt_string_view(r) == self.entry_spec(hash@, names_view(context@), hook_data.ctx_name@),
    ;
}

/// Looks `hash` up in an optional override map.
fn lookup_manual(map: &Option<ManualChunks>, hash: &str) -> (r: Option<String>)
    ensures
        opt_string_view(r) == manual_lookup(opt_chunks_view(*map), hash@),
{
    match map {
        Some(m) => m.get(hash),
        None => None,
    }
}

/// The chunk named after the root component of `context`, or the shared chunk.
fn root_component_chunk(context: &[String]) -> (r: String)
    ensures
        r@ == component_chunk(names_view(context@)),
{
    if context.len() == 0 {
        entry_hooks()
    } else {
        let mut name = String::from_str("entry_");
        name.append(context[0].as_str());
        name
    }
}

/// Every hook goes to the shared chunk.
#[derive(Clone, Copy, Debug, Default)]
pub struct InlineStrategy;

impl EntryPolicy for InlineStrategy {
    open spec fn entry_spec(&self, hash: Seq<char>, context: Seq<Seq<char>>, ctx_name: Seq<char>) -> Option<
        Seq<char>,
    > {
        Some(fallback_chunk())
    }

    fn get_entry_for_sym(
        &self,
        _hash: &str,
        _path: &PathData,
        _context: &[String],
        _hook_data: &HookData,
    ) -> (r: Option<String>) {
        Some(entry_hooks())
    }
}

/// Overrides first, then one shared chunk.
pub struct SingleStrategy {
    map: Option<ManualChunks>,
}

impl SingleStrategy {
    pub fn new(map: Option<ManualChunks>) -> (r: Self)
        ensures
            r.manual() == opt_chunks_view(map),
    {
        Self { map }
    }

    pub closed spec fn manual(&self) -> Option<Map<Seq<char>, Seq<char>>> {
        opt_chunks_view(self.map)
    }
}

impl EntryPolicy for SingleStrategy {
    open spec fn entry_spec(&self, hash: Seq<char>, context: Seq<Seq<char>>, ctx_name: Seq<char>) -> Option<
        Seq<char>,
    > {
        Some(single_entry(self.manual(), hash))
    }

    fn get_entry_for_sym(
        &self,
        hash: &str,
        _path: &PathData,
        _context: &[String],
        _hook_data: &HookData,
    ) -> (r: Option<String>) {
        if let Some(entry) = lookup_manual(&self.map, hash) {
            return Some(entry);
        }
        Some(entry_hooks())
    }
}

/// No grouping: every hook is a split point of its own.
#[derive(Clone, Copy, Debug, Default)]
pub struct PerHookStrategy {}

impl EntryPolicy for PerHookStrategy {
    open spec fn entry_spec(&self, hash: Seq<char>, context: Seq<Seq<char>>, ctx_name: Seq<char>) -> Option<
        Seq<char>,
    > {
        None
    }

    fn get_entry_for_sym(
        &self,
        _hash: &str,
        _path: &PathData,
        _context: &[String],
        _hook_data: &HookData,
    ) -> (r: Option<String>) {
        None
    }
}

/// Overrides first, then one chunk per root component.
pub struct PerComponentStrategy {
    map: Option<ManualChunks>,
}

impl PerComponentStrategy {
    pub fn new(map: Option<ManualChunks>) -> (r: Self)
        ensures
            r.manual() == opt_chunks_view(map),
    {
        Self { map }
    }

    pub closed spec fn manual(&self) -> Option<Map<Seq<char>, Seq<char>>> {
        opt_chunks_view(self.map)
    }
}

impl EntryPolicy for PerComponentStrategy {
    open spec fn entry_spec(&self, hash: Seq<char>, context: Seq<Seq<char>>, ctx_name: Seq<char>) -> Option<
        Seq<char>,
    > {
        Some(component_entry(self.manual(), hash, context))
    }

    fn get_entry_for_sym(
        &self,
        hash: &str,
        _path: &PathData,
        context: &[String],
        _hook_data: &HookData,
    ) -> (r: Option<String>) {
        if let Some(entry) = lookup_manual(&self.map, hash) {
            return Some(entry);
        }
        Some(root_component_chunk(context))
    }
}

/// Server-only mount hooks apart; otherwise as [`PerComponentStrategy`].
pub struct SmartStrategy {
    map: Option<ManualChunks>,
}

impl SmartStrategy {
    pub fn new(map: Option<ManualChunks>) -> (r: Self)
        ensures
            r.manual() == opt_chunks_view(map),
    {
        Self { map }
    }

    pub closed spec fn manual(&self) -> Option<Map<Seq<char>, Seq<char>>> {
        opt_chunks_view(self.map)
    }
}

impl EntryPolicy for SmartStrategy {
    open spec fn entry_spec(&self, hash: Seq<char>, context: Seq<Seq<char>>, ctx_name: Seq<char>) -> Option<
        Seq<char>,
    > {
        Some(smart_entry(self.manual(), hash, context, ctx_name))
    }

    fn get_entry_for_sym(
        &self,
        hash: &str,
        _path: &PathData,
        context: &[String],
        hook_data: &HookData,
    ) -> (r: Option<String>) {
        if is_server_mount(&hook_data.ctx_name) {
            return Some(entry_server());
        }
        if let Some(entry) = lookup_manual(&self.map, hash) {
            return Some(entry);
        }
        Some(root_component_chunk(context))
    }
}

/// Whether `ctx_name` is the server-only mount tag.
fn is_server_mount(ctx_name: &String) -> (r: bool)
    ensures
        r == (ctx_name@ == server_mount_tag()),
{
    let tag = String::from_str("useServerMount$");
    proof {
        reveal_strlit("useServerMount$");
    }
    ctx_name.eq(&tag)
}

/// The policy instance that a configuration selects.
pub enum SelectedPolicy {
    Inline(InlineStrategy),
    Hook(PerHookStrategy),
    Single(SingleStrategy),
    Component(PerComponentStrategy),
    Smart(SmartStrategy),
}

impl EntryPolicy for SelectedPolicy {
    open spec fn entry_spec(&self, hash: Seq<char>, context: Seq<Seq<char>>, ctx_name: Seq<char>) -> Option<
        Seq<char>,
    > {
        match self {
            SelectedPolicy::Inline(p) => p.entry_spec(hash, context, ctx_name),
            SelectedPolicy::Hook(p) => p.entry_spec(hash, context, ctx_name),
            SelectedPolicy::Single(p) => p.entry_spec(hash, context, ctx_name),
            SelectedPolicy::Component(p) => p.entry_spec(hash, context, ctx_name),
            SelectedPolicy::Smart(p) => p.entry_spec(hash, context, ctx_name),
        }
    }

    fn get_entry_for_sym(
        &self,
        hash: &str,
        path: &PathData,
        context: &[String],
        hook_data: &HookData,
    ) -> (r: Option<String>) {
        match self {
            SelectedPolicy::Inline(p) => p.get_entry_for_sym(hash, path, context, hook_data),
            SelectedPolicy::Hook(p) => p.get_entry_for_sym(hash, path, context, hook_data),
            SelectedPolicy::Single(p) => p.get_entry_for_sym(hash, path, context, hook_data),
            SelectedPolicy::Component(p) => p.get_entry_for_sym(hash, path, context, hook_data),
            SelectedPolicy::Smart(p) => p.get_entry_for_sym(hash, path, context, hook_data),
        }
    }
}

/// Builds the policy that `strategy` names, with `manual_chunks` as its
/// override map where the policy takes one.
pub fn parse_entry_strategy(strategy: &EntryStrategy, manual_chunks: Option<ManualChunks>) -> (r:
    SelectedPolicy)
    ensures
        forall|hash: Seq<char>, context: Seq<Seq<char>>, ctx_name: Seq<char>|
            #[trigger] r.entry_spec(hash, context, ctx_name) == strategy_entry(
                *strategy,
                opt_chunks_view(manual_chunks),
                hash,
                context,
                ctx_name,
            ),
{
    match strategy {
        EntryStrategy::Hook => SelectedPolicy::Hook(PerHookStrategy {  }),
        EntryStrategy::Inline | EntryStrategy::Hoist => SelectedPolicy::Inline(InlineStrategy),
        EntryStrategy::Single => SelectedPolicy::Single(SingleStrategy::new(manual_chunks)),
        EntryStrategy::Component => SelectedPolicy::Component(
            PerComponentStrategy::new(manual_chunks),
        ),
        EntryStrategy::Smart => SelectedPolicy::Smart(SmartStrategy::new(manual_chunks)),
    }
}

/// The `Hook` strategy groups no hook: it returns `None` for every input.
pub proof fn lemma_hook_strategy_never_groups(
    map: Option<Map<Seq<char>, Seq<char>>>,
    hash: Seq<char>,
    context: Seq<Seq<char>>,
    ctx_name: Seq<char>,
)
    ensures
        strategy_entry(EntryStrategy::Hook, map, hash, context, ctx_name) is None,
{
}

/// `Inline` and `Hoist` return the same constant chunk for every input.
pub proof fn lemma_inline_strategies_constant(
    s: EntryStrategy,
    m1: Option<Map<Seq<char>, Seq<char>>>,
    h1: Seq<char>,
    c1: Seq<Seq<char>>,
    n1: Seq<char>,
    m2: Option<Map<Seq<char>, Seq<char>>>,
    h2: Seq<char>,
    c2: Seq<Seq<char>>,
    n2: Seq<char>,
)
    requires
        s == EntryStrategy::Inline || s == EntryStrategy::Hoist,
    ensures
        strategy_entry(s, m1, h1, c1, n1) == strategy_entry(s, m2, h2, c2, n2),
        strategy_entry(s, m1, h1, c1, n1) == Some(fallback_chunk()),
{
}

/// `Smart` sends a server-only mount hook to the server chunk, whatever the
/// context path and the override map hold.
pub proof fn lemma_smart_isolates_server_mount(
    map: Option<Map<Seq<char>, Seq<char>>>,
    hash: Seq<char>,
    context: Seq<Seq<char>>,
    ctx_name: Seq<char>,
)
    requires
        ctx_name == server_mount_tag(),
    ensures
        strategy_entry(EntryStrategy::Smart, map, hash, context, ctx_name) == Some(server_chunk()),
{
}

} // verus!

//! What the pass needs of the module's import registry: the local names of
//! imports, fresh identifiers, and which expressions are free of effects.

use crate::ast::{Expr, Id};
use vstd::prelude::*;

verus! {

/// `import { specifier as local } from "source"`
#[derive(Clone, Debug, PartialEq)]
pub struct Import {
    pub local: Id,
    pub specifier: String,
    pub source: String,
}

pub open spec fn import_matches(imp: Import, specifier: Seq<char>, source: Seq<char>) -> bool {
    imp.specifier@ == specifier && imp.source@ == source
}

/// The local name of the last import of `specifier` from `source`.
pub open spec fn imported_local(imports: Seq<Import>, specifier: Seq<char>, source: Seq<char>) -> Option<Id>
    decreases imports.len(),
{
    if imports.len() == 0 {
        None
    } else if import_matches(imports.last(), specifier, source) {
        Some(imports.last().local)
    } else {
        imported_local(imports.drop_last(), specifier, source)
    }
}

/// Whether `id` is the local name of some import.
pub open spec fn is_import_local(imports: Seq<Import>, id: (Seq<char>, u64)) -> bool {
    exists|i: int| 0 <= i < imports.len() && (#[trigger] imports[i]).local@ == id
}

/// Expressions that are provably free of observable effects: literals and
/// imported bindings.
pub open spec fn immutable_expr(e: Expr, imports: Seq<Import>) -> bool {
    match e {
        Expr::Lit(_) => true,
        Expr::Ident(id) => is_import_local(imports, id@),
        _ => false,
    }
}

/// Every import's local name has a scope token below the next fresh one, so
/// fresh identifiers never capture an import.
pub open spec fn tokens_below_mark(g: GlobalCollect) -> bool {
    forall|i: int| 0 <= i < g.imports@.len() ==> (#[trigger] g.imports@[i]).local.ctxt < g.next_mark
}

/// The module's imports and the source of fresh scope tokens.
pub struct GlobalCollect {
    pub imports: Vec<Import>,
    /// The scope token that the next fresh identifier receives.
    pub next_mark: u64,
}

impl GlobalCollect {
    /// A registry holding `imports`, whose fresh tokens start at `first_mark`.
    pub fn new(imports: Vec<Import>, first_mark: u64) -> (r: Self)
        ensures
            r.imports@ == imports@,
            r.next_mark == first_mark,
    {
        GlobalCollect { imports, next_mark: first_mark }
    }

    pub fn get_imported_local(&self, specifier: &String, source: &String) -> (r: Option<Id>)
        ensures
            r == imported_local(self.imports@, specifier@, source@),
    {
        let mut i: usize = self.imports.len();
        assert(self.imports@.subrange(0, i as int) =~= self.imports@);
        while i > 0
            invariant
                i <= self.imports@.len(),
                imported_local(self.imports@, specifier@, source@) == imported_local(
                    self.imports@.subrange(0, i as int),
                    specifier@,
                    source@,
                ),
            decreases i,
        {
            let imp = &self.imports[i - 1];
            assert(self.imports@.subrange(0, i as int).drop_last() =~= self.imports@.subrange(
                0,
                i - 1,
            ));
            if imp.specifier.eq(specifier) && imp.source.eq(source) {
                return Some(imp.local.copy());
            }
            i = i - 1;
        }
        None
    }

    /// A new identifier named `name` with a scope token no earlier one had;
    /// `None` once the tokens are used up.
    pub fn fresh_ident(&mut self, name: String) -> (r: Option<Id>)
        ensures
            final(self).imports == old(self).imports,
            match r {
                Some(id) => id.sym@ == name@ && id.ctxt == old(self).next_mark
                    && final(self).next_mark == old(self).next_mark + 1,
                None => old(self).next_mark == u64::MAX && *final(self) == *old(self),
            },
    {
        if self.next_mark == u64::MAX {
            return None;
        }
        let id = Id { sym: name, ctxt: self.next_mark };
        self.next_mark = self.next_mark + 1;
        Some(id)
    }

    /// The local name under which `specifier` from `source` is imported,
    /// adding the import under a fresh name where there is none yet.
    pub fn import(&mut self, specifier: &String, source: &String) -> (r: Option<Id>)
        ensures
            match imported_local(old(self).imports@, specifier@, source@) {
                Some(id) => r == Some(id) && *final(self) == *old(self),
                None => match r {
                    Some(id) => id.sym@ == specifier@ && id.ctxt == old(self).next_mark
                        && final(self).next_mark == old(self).next_mark + 1
                        && final(self).imports@ == old(self).imports@.push(
                        Import { local: id, specifier: final(self).imports@.last().specifier,
                            source: final(self).imports@.last().source },
                    ) && final(self).imports@.last().specifier@ == specifier@
                        && final(self).imports@.last().source@ == source@,
                    None => *final(self) == *old(self) && old(self).next_mark == u64::MAX,
                },
            },
            match r {
                Some(id) => imported_local(final(self).imports@, specifier@, source@) == Some(id),
                None => true,
            },
    {
        if let Some(id) = self.get_imported_local(specifier, source) {
            return Some(id);
        }
        match self.fresh_ident(specifier.clone()) {
            Some(id) => {
                let local = id.copy();
                self.imports.push(
                    Import { local, specifier: specifier.clone(), source: source.clone() },
                );
                Some(id)
            },
            None => None,
        }
    }

    /// Whether `id` is the local name of one of the imports.
    pub fn has_local(&self, id: &Id) -> (r: bool)
        ensures
            r == is_import_local(self.imports@, id@),
    {
        let mut i: usize = 0;
        while i < self.imports.len()
            invariant
                i <= self.imports@.len(),
                forall|j: int| 0 <= j < i ==> (#[trigger] self.imports@[j]).local@ != id@,
            decreases self.imports@.len() - i,
        {
            if self.imports[i].local.same(id) {
                assert(self.imports@[i as int].local@ == id@);
                return true;
            }
            i = i + 1;
        }
        false
    }

    pub fn is_immutable_expr(&self, e: &Expr) -> (r: bool)
        ensures
            r == immutable_expr(*e, self.imports@),
    {
        match e {
            Expr::Lit(_) => true,
            Expr::Ident(id) => self.has_local(id),
            _ => false,
        }
    }
}

} // verus!

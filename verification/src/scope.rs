//! The analysis scope of a module-level item: the module it resolves names
//! in, and the diagnostics reported while analysing the item.

use vstd::prelude::*;
use crate::span::Span;
use crate::items::{ModuleId, Type, TypeError};
use crate::node::Node;
use crate::ast::TypeDesc;
use crate::db::{AnalyzerDb, first_index, named_item_is, spec_type_desc};
use crate::diagnostics::{
    Diagnostic, diags_view, duplicate_name_error, error, name_conflict_error, not_yet_implemented,
    spec_duplicate_name_error, spec_name_conflict_error, spec_not_yet_implemented,
};

verus! {

/// The scope of an item defined in `module`, with the diagnostics reported
/// so far.
pub struct ItemScope {
    pub module: ModuleId,
    pub diagnostics: Vec<Diagnostic>,
}

impl ItemScope {
    /// A scope in `module` with no diagnostics yet.
    pub fn new(module: ModuleId) -> (s: ItemScope)
        ensures
            s.module == module,
            s.diagnostics@.len() == 0,
    {
        ItemScope { module, diagnostics: Vec::new() }
    }

    /// The position of the first of the module's names that is `name`.
    pub fn resolve_name(&self, db: &AnalyzerDb, name: &String) -> (r: Option<usize>)
        requires
            self.module.0 < db.modules.len(),
        ensures
            r matches Some(i) ==> first_index(db.modules@[self.module.0 as int].names@, named_item_is(name@)) == Some(i as int),
            r is None ==> first_index(db.modules@[self.module.0 as int].names@, named_item_is(name@)) is None,
    {
        db.resolve_name(self.module, name)
    }

    /// Resolves the type written `typ`: the type its name is bound to in the
    /// module, or a `TypeError` after reporting an "undefined type" error.
    pub fn type_desc(&mut self, db: &AnalyzerDb, typ: &Node<TypeDesc>) -> (r: Result<Type, TypeError>)
        requires
            old(self).module.0 < db.modules.len(),
        ensures
            final(self).module == old(self).module,
            r == spec_type_desc(db.modules@[old(self).module.0 as int].types@, typ.kind.name@, typ.span).0,
            diags_view(final(self).diagnostics@) == diags_view(old(self).diagnostics@)
                + spec_type_desc(db.modules@[old(self).module.0 as int].types@, typ.kind.name@, typ.span).1,
    {
        match db.resolve_type(self.module, &typ.kind.name) {
            Some(t) => {
                assert(diags_view(self.diagnostics@) =~= diags_view(old(self).diagnostics@) + seq![]);
                Ok(t)
            },
            None => {
                let d = error("undefined type", typ.span, "this type name has not been defined");
                self.diagnostics.push(d);
                assert(diags_view(self.diagnostics@) =~= diags_view(old(self).diagnostics@) + seq![d@]);
                Err(TypeError)
            },
        }
    }

    /// Reports that a `name_kind` named `name` conflicts with a thing of
    /// kind `original_kind` defined at `original_span` (`None`: built in).
    pub fn name_conflict_error(
        &mut self,
        name_kind: &str,
        name: &str,
        original_kind: &str,
        original_span: Option<Span>,
        duplicate_span: Span,
    )
        ensures
            final(self).module == old(self).module,
            diags_view(final(self).diagnostics@) == diags_view(old(self).diagnostics@).push(
                spec_name_conflict_error(name_kind@, name@, original_kind@, original_span, duplicate_span),
            ),
    {
        let d = name_conflict_error(name_kind, name, original_kind, original_span, duplicate_span);
        self.diagnostics.push(d);
        assert(diags_view(self.diagnostics@) =~= diags_view(old(self).diagnostics@).push(d@));
    }

    /// Reports that `name` is defined twice, first at `original` and again
    /// at `duplicate`.
    pub fn duplicate_name_error(&mut self, message: &str, name: &str, original: Span, duplicate: Span)
        ensures
            final(self).module == old(self).module,
            diags_view(final(self).diagnostics@) == diags_view(old(self).diagnostics@).push(
                spec_duplicate_name_error(message@, name@, original, duplicate),
            ),
    {
        let d = duplicate_name_error(message, name, original, duplicate);
        self.diagnostics.push(d);
        assert(diags_view(self.diagnostics@) =~= diags_view(old(self).diagnostics@).push(d@));
    }

    /// Reports that `feature`, used at `span`, is not supported yet.
    pub fn not_yet_implemented(&mut self, feature: &str, span: Span)
        ensures
            final(self).module == old(self).module,
            diags_view(final(self).diagnostics@) == diags_view(old(self).diagnostics@).push(
                spec_not_yet_implemented(feature@, span),
            ),
    {
        let d = not_yet_implemented(feature, span);
        self.diagnostics.push(d);
        assert(diags_view(self.diagnostics@) =~= diags_view(old(self).diagnostics@).push(d@));
    }
}

} // verus!

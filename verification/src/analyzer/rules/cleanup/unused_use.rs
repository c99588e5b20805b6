//! Flags import aliases that nothing in the file refers to, and removes the
//! imports that can be removed on their own.

use vstd::prelude::*;
use vstd::slice::slice_subrange;
use vstd::string::StringSliceAdditionalSpecFns;
use crate::analyzer::diagnostic::{diags, lemma_diags_push, Diag, Diagnostic, Severity};
use crate::analyzer::fix::{
    covering_lines, edits_of, lemma_edits_push, line_end_of, line_start_of, Edit, TextEdit,
};
use crate::analyzer::parser::ParsedSource;
use crate::analyzer::project::{
    import_of, imports_of, path_index, FileScope, Import, ProjectContext, UseInfo,
};
use crate::analyzer::rules::helpers::{
    diagnostic_at, diagnostic_for_span, node_text, node_text_of,
};
use crate::analyzer::rules::DiagnosticRule;
use crate::analyzer::syntax::{gather, lemma_gather_step, node_ok};
use crate::analyzer::text::{bytes_eq, index_from, index_of_from, push_all};

verus! {

/// The kinds that make up an import declaration.
pub open spec fn is_import_kind(kind: Seq<u8>) -> bool {
    ||| kind == "namespace_use_declaration".spec_bytes()
    ||| kind == "namespace_use_clause".spec_bytes()
    ||| kind == "namespace_aliasing_clause".spec_bytes()
}

/// Whether node `j` stands inside an import declaration.
pub open spec fn under_import(parsed: &ParsedSource, j: int) -> bool
    decreases j,
{
    if j < 0 || j >= parsed.tree.nodes.len() {
        false
    } else {
        match parsed.tree.nodes[j].parent {
            Some(p) => if p >= j {
                false
            } else if is_import_kind(parsed.tree.kind_of(p as int)) {
                true
            } else {
                under_import(parsed, p as int)
            },
            None => false,
        }
    }
}

/// The kinds of the nodes that write a name.
pub open spec fn is_name_kind(kind: Seq<u8>) -> bool {
    ||| kind == "qualified_name".spec_bytes()
    ||| kind == "namespace_name".spec_bytes()
    ||| kind == "name".spec_bytes()
}

/// The first segment of a name: what stands in front of its first
/// backslash.
pub open spec fn first_segment(name: Seq<u8>) -> Seq<u8> {
    name.subrange(0, index_from(name, 92, 0))
}

/// Whether node `j` refers to `alias`: it writes a name outside all import
/// declarations, and the first segment of that name is the alias.
pub open spec fn refers_to(parsed: &ParsedSource, alias: Seq<u8>, j: int) -> bool {
    &&& 0 <= j < parsed.tree.nodes.len()
    &&& !under_import(parsed, j)
    &&& is_name_kind(parsed.tree.kind_of(j))
    &&& first_segment(node_text_of(parsed, j)) == alias
}

/// Whether anything in the file refers to `alias`.
pub open spec fn is_referred_to(parsed: &ParsedSource, alias: Seq<u8>) -> bool {
    exists|j: int| #[trigger] refers_to(parsed, alias, j)
}

/// Whether the import is unused: nothing refers to its alias, and the alias
/// does not start with an underscore.
pub open spec fn is_unused(parsed: &ParsedSource, import: Import) -> bool {
    !is_referred_to(parsed, import.alias) && !(import.alias.len() > 0 && import.alias[0] == 95)
}

/// The message for an unused alias.
pub open spec fn unused_message(alias: Seq<u8>) -> Seq<u8> {
    "unused import alias `".spec_bytes() + alias + "`".spec_bytes()
}

/// The finding for the import, if it is unused.
pub open spec fn unused_finding(parsed: &ParsedSource, import: Import) -> Seq<Diag> {
    if is_unused(parsed, import) {
        seq![
            diagnostic_at(
                parsed.path@,
                parsed.source@,
                import.span,
                Severity::Warning,
                unused_message(import.alias),
            ),
        ]
    } else {
        Seq::empty()
    }
}

/// The edit for the import, if it is unused and stands alone in its
/// declaration: the lines of its clause are removed.
pub open spec fn unused_edit(parsed: &ParsedSource, import: Import) -> Seq<Edit> {
    let start = line_start_of(parsed.source@, import.clause_start as int);
    let end = line_end_of(parsed.source@, import.clause_end as int);
    if is_unused(parsed, import) && !import.shared && start <= end {
        seq![Edit { start: start as usize, end: end as usize, replacement: Seq::empty() }]
    } else {
        Seq::empty()
    }
}

pub open spec fn finding_gatherer(parsed: &ParsedSource, uses: Seq<Import>) -> spec_fn(int) -> Seq<
    Diag,
> {
    |k: int| unused_finding(parsed, uses[k])
}

pub open spec fn edit_gatherer(parsed: &ParsedSource, uses: Seq<Import>) -> spec_fn(int) -> Seq<
    Edit,
> {
    |k: int| unused_edit(parsed, uses[k])
}

/// The imports of the file as the context knows them. None for a file that
/// is not part of the context.
pub open spec fn known_uses(parsed: &ParsedSource, context: &ProjectContext) -> Seq<Import> {
    match path_index(context.sources@, parsed.path@, 0) {
        Some(f) => imports_of(context.file_scopes@[f].uses@),
        None => Seq::empty(),
    }
}

/// The findings of the rule: one warning for every unused import, in the
/// order of the imports.
pub open spec fn unused_findings(parsed: &ParsedSource, context: &ProjectContext) -> Seq<Diag> {
    gather(
        finding_gatherer(parsed, known_uses(parsed, context)),
        0,
        known_uses(parsed, context).len() as int,
    )
}

/// The edits of the rule: one removal for every unused import that stands
/// alone in its declaration.
pub open spec fn unused_edits(parsed: &ParsedSource, context: &ProjectContext) -> Seq<Edit> {
    gather(
        edit_gatherer(parsed, known_uses(parsed, context)),
        0,
        known_uses(parsed, context).len() as int,
    )
}

fn is_import_kind_name(kind: &str) -> (r: bool)
    ensures
        r == is_import_kind(kind.spec_bytes()),
{
    let k = kind.as_bytes();
    bytes_eq(k, "namespace_use_declaration".as_bytes()) || bytes_eq(
        k,
        "namespace_use_clause".as_bytes(),
    ) || bytes_eq(k, "namespace_aliasing_clause".as_bytes())
}

fn is_name_kind_name(kind: &str) -> (r: bool)
    ensures
        r == is_name_kind(kind.spec_bytes()),
{
    let k = kind.as_bytes();
    bytes_eq(k, "qualified_name".as_bytes()) || bytes_eq(k, "namespace_name".as_bytes())
        || bytes_eq(k, "name".as_bytes())
}

fn is_use_clause(parsed: &ParsedSource, node: usize) -> (r: bool)
    requires
        parsed.wf(),
        node < parsed.tree.nodes.len(),
    ensures
        r == under_import(parsed, node as int),
{
    let mut current = node;
    loop
        invariant
            parsed.wf(),
            current < parsed.tree.nodes.len(),
            under_import(parsed, node as int) == under_import(parsed, current as int),
        decreases current,
    {
        assert(node_ok(parsed.tree.nodes@, current as int));
        match parsed.tree.nodes[current].parent {
            Some(p) => {
                if is_import_kind_name(parsed.tree.nodes[p].kind) {
                    return true;
                }
                current = p;
            },
            None => {
                return false;
            },
        }
    }
}

fn alias_is_referred_to(parsed: &ParsedSource, alias: &[u8]) -> (r: bool)
    requires
        parsed.wf(),
    ensures
        r == is_referred_to(parsed, alias@),
{
    let n = parsed.tree.nodes.len();
    let mut j: usize = 0;
    while j < n
        invariant
            parsed.wf(),
            n == parsed.tree.nodes.len(),
            j <= n,
            forall|k: int| 0 <= k < j ==> !refers_to(parsed, alias@, k),
        decreases n - j,
    {
        if is_name_kind_name(parsed.tree.nodes[j].kind) && !is_use_clause(parsed, j) {
            let text = node_text(parsed, j);
            let cut = index_of_from(text, 92, 0);
            if bytes_eq(slice_subrange(text, 0, cut), alias) {
                assert(refers_to(parsed, alias@, j as int));
                return true;
            }
        }
        j += 1;
    }
    false
}

fn import_is_unused(parsed: &ParsedSource, entry: &(Vec<u8>, UseInfo)) -> (r: bool)
    requires
        parsed.wf(),
    ensures
        r == is_unused(parsed, import_of(*entry)),
{
    let alias = entry.0.as_slice();
    if alias.len() > 0 && alias[0] == 95 {
        return false;
    }
    !alias_is_referred_to(parsed, alias)
}

fn scope_of<'a>(parsed: &ParsedSource, context: &'a ProjectContext) -> (r: Option<&'a FileScope>)
    requires
        context.wf(),
    ensures
        match r {
            Some(scope) => imports_of(scope.uses@) == known_uses(parsed, context),
            None => known_uses(parsed, context).len() == 0,
        },
{
    context.scope_for(parsed.path.as_slice())
}

/// The rule `cleanup/unused_use`.
#[derive(Clone, Copy, Debug)]
pub struct UnusedUseRule;

impl UnusedUseRule {
    pub fn new() -> Self {
        UnusedUseRule
    }
}

impl DiagnosticRule for UnusedUseRule {
    open spec fn rule_name(&self) -> Seq<u8> {
        "cleanup/unused_use".spec_bytes()
    }

    open spec fn findings(&self, parsed: &ParsedSource, context: &ProjectContext) -> Seq<Diag> {
        unused_findings(parsed, context)
    }

    open spec fn edits(&self, parsed: &ParsedSource, context: &ProjectContext) -> Seq<Edit> {
        unused_edits(parsed, context)
    }

    fn name(&self) -> (r: &'static str) {
        "cleanup/unused_use"
    }

    fn run(&self, parsed: &ParsedSource, context: &ProjectContext) -> (r: Vec<Diagnostic>) {
        let mut out: Vec<Diagnostic> = Vec::new();
        let scope = match scope_of(parsed, context) {
            Some(scope) => scope,
            None => {
                assert(diags(out@) =~= Seq::empty());
                return out;
            },
        };
        let ghost uses = imports_of(scope.uses@);
        let ghost f = finding_gatherer(parsed, uses);
        let n = scope.uses.len();
        let mut k: usize = 0;
        proof {
            assert(diags(out@) + gather(f, 0, n as int) =~= unused_findings(parsed, context));
        }
        while k < n
            invariant
                parsed.wf(),
                n == scope.uses@.len(),
                k <= n,
                uses == imports_of(scope.uses@),
                uses == known_uses(parsed, context),
                f == finding_gatherer(parsed, uses),
                unused_findings(parsed, context) == diags(out@) + gather(f, k as int, n as int),
            decreases n - k,
        {
            proof {
                lemma_gather_step(f, diags(out@), k as int, n as int);
            }
            let ghost before = out@;
            let entry = &scope.uses[k];
            if import_is_unused(parsed, entry) {
                let mut message: Vec<u8> = Vec::new();
                push_all(&mut message, "unused import alias `".as_bytes());
                push_all(&mut message, entry.0.as_slice());
                push_all(&mut message, "`".as_bytes());
                assert(message@ =~= unused_message(entry.0@));
                let d = diagnostic_for_span(parsed, entry.1.span, Severity::Warning, message);
                proof {
                    lemma_diags_push(before, d);
                }
                out.push(d);
                assert(diags(out@) =~= diags(before) + f(k as int));
            } else {
                assert(diags(before) + f(k as int) =~= diags(before));
            }
            k += 1;
        }
        proof {
            assert(diags(out@) + gather(f, n as int, n as int) =~= diags(out@));
        }
        out
    }

    fn fix(&self, parsed: &ParsedSource, context: &ProjectContext) -> (r: Vec<TextEdit>) {
        let mut out: Vec<TextEdit> = Vec::new();
        let scope = match scope_of(parsed, context) {
            Some(scope) => scope,
            None => {
                assert(edits_of(out@) =~= Seq::empty());
                return out;
            },
        };
        let ghost uses = imports_of(scope.uses@);
        let ghost f = edit_gatherer(parsed, uses);
        let n = scope.uses.len();
        let mut k: usize = 0;
        proof {
            assert(edits_of(out@) + gather(f, 0, n as int) =~= unused_edits(parsed, context));
        }
        while k < n
            invariant
                parsed.wf(),
                n == scope.uses@.len(),
                k <= n,
                uses == imports_of(scope.uses@),
                uses == known_uses(parsed, context),
                f == edit_gatherer(parsed, uses),
                unused_edits(parsed, context) == edits_of(out@) + gather(f, k as int, n as int),
            decreases n - k,
        {
            proof {
                lemma_gather_step(f, edits_of(out@), k as int, n as int);
            }
            let ghost before = out@;
            let entry = &scope.uses[k];
            let mut added = false;
            if !entry.1.declaration_has_multiple_clauses && import_is_unused(parsed, entry) {
                let range = covering_lines(
                    parsed.source.as_slice(),
                    entry.1.clause_start,
                    entry.1.clause_end,
                );
                if range.0 <= range.1 {
                    let e = TextEdit { start: range.0, end: range.1, replacement: Vec::new() };
                    proof {
                        lemma_edits_push(before, e);
                        assert(e@.replacement =~= Seq::empty());
                    }
                    out.push(e);
                    assert(edits_of(out@) =~= edits_of(before) + f(k as int));
                    added = true;
                }
            }
            if !added {
                assert(edits_of(before) + f(k as int) =~= edits_of(before));
            }
            k += 1;
        }
        proof {
            assert(edits_of(out@) + gather(f, n as int, n as int) =~= edits_of(out@));
        }
        out
    }
}

} // verus!

pub mod api;
pub mod cleanup;
pub mod control_flow;
pub mod helpers;
pub mod psr4;
pub mod sanity;
pub mod security;
pub mod strict_typing;

pub use api::deprecated_api::DeprecatedApiRule;
pub use api::invalid_this::InvalidThisRule;
pub use control_flow::duplicate_switch_case::DuplicateSwitchCaseRule;
pub use control_flow::fallthrough::FallthroughRule;
pub use control_flow::impossible_comparison::ImpossibleComparisonRule;
pub use cleanup::unused_variable::UnusedVariableRule;
pub use sanity::array_key_not_defined::ArrayKeyNotDefinedRule;
pub use sanity::duplicate_declaration::DuplicateDeclarationRule;
pub use security::hard_coded_keys::HardCodedKeysRule;
pub use strict_typing::consistent_return::ConsistentReturnRule;
pub use strict_typing::force_return_type::ForceReturnTypeRule;
pub use control_flow::redundant_condition::RedundantConditionRule;
pub use control_flow::unreachable::UnreachableCodeRule;
pub use control_flow::unreachable_statement::UnreachableStatementRule;
pub use security::hard_coded_credentials::HardCodedCredentialsRule;
pub use security::include_user_input::IncludeUserInputRule;
pub use security::mutating_literal::MutatingLiteralRule;
pub use security::weak_hashing::WeakHashingRule;
pub use strict_typing::type_mismatch::TypeMismatchRule;
pub use sanity::undefined_variable::UndefinedVariableRule;
pub use strict_typing::missing_argument::MissingArgumentRule;
pub use strict_typing::missing_return::MissingReturnRule;
pub use strict_typing::phpdoc_param_check::PhpDocParamCheckRule;
pub use strict_typing::phpdoc_return_check::PhpDocReturnCheckRule;
pub use strict_typing::phpdoc_return_value_check::PhpDocReturnValueCheckRule;
pub use strict_typing::phpdoc_var_check::PhpDocVarCheckRule;
pub use strict_typing::strict_types::StrictTypesRule;
pub use cleanup::unused_use::UnusedUseRule;

use vstd::prelude::*;
use vstd::string::StringSliceAdditionalSpecFns;
use crate::analyzer::diagnostic::{diags, lemma_diags_push, Diag, Diagnostic};
use crate::analyzer::fix::{edits_of, Edit, TextEdit};
use crate::analyzer::parser::ParsedSource;
use crate::analyzer::project::ProjectContext;
use crate::analyzer::syntax::{gather, lemma_gather_step};

verus! {

/// What every diagnostic rule offers: a stable name, which is also its key
/// for suppression, a pass over one parsed file, and text edits that repair
/// what the pass finds. A rule keeps no state between calls.
pub trait DiagnosticRule {
    /// The rule's name, as bytes.
    spec fn rule_name(&self) -> Seq<u8>;

    /// The rule's name.
    fn name(&self) -> (r: &'static str)
        ensures
            r.spec_bytes() == self.rule_name(),
    ;

    /// What the rule finds in `parsed`, in the order in which it reports.
    spec fn findings(&self, parsed: &ParsedSource, context: &ProjectContext) -> Seq<Diag>;

    /// The edits with which the rule repairs what it finds in `parsed`.
    spec fn edits(&self, parsed: &ParsedSource, context: &ProjectContext) -> Seq<Edit>;

    /// The findings of the rule in `parsed`.
    fn run(&self, parsed: &ParsedSource, context: &ProjectContext) -> (r: Vec<Diagnostic>)
        requires
            parsed.wf(),
            context.wf(),
        ensures
            diags(r@) == self.findings(parsed, context),
    ;

    /// The edits that repair the rule's findings in `parsed`.
    fn fix(&self, parsed: &ParsedSource, context: &ProjectContext) -> (r: Vec<TextEdit>)
        requires
            parsed.wf(),
            context.wf(),
        ensures
            edits_of(r@) == self.edits(parsed, context),
    ;
}

/// A rule that looks at one node at a time and reports at most one finding
/// for it.
pub trait NodeCheck {
    /// What the rule reports for node `j`: nothing, or one finding.
    spec fn finding(&self, parsed: &ParsedSource, context: &ProjectContext, j: int) -> Seq<Diag>;

    /// Looks at node `j`.
    fn inspect(&self, parsed: &ParsedSource, context: &ProjectContext, j: usize) -> (r: Option<
        Diagnostic,
    >)
        requires
            parsed.wf(),
            context.wf(),
            j < parsed.tree.nodes.len(),
        ensures
            match r {
                Some(d) => self.finding(parsed, context, j as int) == seq![d@],
                None => self.finding(parsed, context, j as int) == Seq::<Diag>::empty(),
            },
    ;
}

pub open spec fn finder<R: NodeCheck>(
    rule: &R,
    parsed: &ParsedSource,
    context: &ProjectContext,
) -> spec_fn(int) -> Seq<Diag> {
    |j: int| rule.finding(parsed, context, j)
}

/// The findings of a node rule in a file: what it reports for each node, in
/// document order.
pub open spec fn node_findings<R: NodeCheck>(
    rule: &R,
    parsed: &ParsedSource,
    context: &ProjectContext,
) -> Seq<Diag> {
    gather(finder(rule, parsed, context), 0, parsed.tree.nodes.len() as int)
}

/// Runs a node rule over every node of a file, in document order.
pub fn check_nodes<R: NodeCheck>(rule: &R, parsed: &ParsedSource, context: &ProjectContext) -> (r:
    Vec<Diagnostic>)
    requires
        parsed.wf(),
        context.wf(),
    ensures
        diags(r@) == node_findings(rule, parsed, context),
{
    let ghost f = finder(rule, parsed, context);
    let n = parsed.tree.nodes.len();
    let mut out: Vec<Diagnostic> = Vec::new();
    let mut j: usize = 0;
    proof {
        assert(diags(out@) + gather(f, 0, n as int) =~= node_findings(rule, parsed, context));
    }
    while j < n
        invariant
            parsed.wf(),
            context.wf(),
            n == parsed.tree.nodes.len(),
            j <= n,
            f == finder(rule, parsed, context),
            node_findings(rule, parsed, context) == diags(out@) + gather(f, j as int, n as int),
        decreases n - j,
    {
        proof {
            lemma_gather_step(f, diags(out@), j as int, n as int);
        }
        let ghost before = out@;
        match rule.inspect(parsed, context, j) {
            Some(d) => {
                proof {
                    lemma_diags_push(before, d);
                }
                out.push(d);
                assert(diags(out@) =~= diags(before) + f(j as int));
            },
            None => {
                assert(diags(before) + f(j as int) =~= diags(before));
            },
        }
        j += 1;
    }
    proof {
        assert(diags(out@) + gather(f, n as int, n as int) =~= diags(out@));
    }
    out
}

/// A rule that looks at one node at a time and may report several findings
/// for it.
pub trait NodeSweep {
    /// What the rule reports for node `j`.
    spec fn sweep(&self, parsed: &ParsedSource, context: &ProjectContext, j: int) -> Seq<Diag>;

    /// Looks at node `j`.
    fn inspect_all(&self, parsed: &ParsedSource, context: &ProjectContext, j: usize) -> (r: Vec<
        Diagnostic,
    >)
        requires
            parsed.wf(),
            context.wf(),
            j < parsed.tree.nodes.len(),
        ensures
            diags(r@) == self.sweep(parsed, context, j as int),
    ;
}

pub open spec fn sweeper<R: NodeSweep>(
    rule: &R,
    parsed: &ParsedSource,
    context: &ProjectContext,
) -> spec_fn(int) -> Seq<Diag> {
    |j: int| rule.sweep(parsed, context, j)
}

/// The findings of a sweeping rule in a file: what it reports for each
/// node, in document order.
pub open spec fn sweep_findings<R: NodeSweep>(
    rule: &R,
    parsed: &ParsedSource,
    context: &ProjectContext,
) -> Seq<Diag> {
    gather(sweeper(rule, parsed, context), 0, parsed.tree.nodes.len() as int)
}

/// Runs a sweeping rule over every node of a file, in document order.
pub fn sweep_nodes<R: NodeSweep>(rule: &R, parsed: &ParsedSource, context: &ProjectContext) -> (r:
    Vec<Diagnostic>)
    requires
        parsed.wf(),
        context.wf(),
    ensures
        diags(r@) == sweep_findings(rule, parsed, context),
{
    let ghost f = sweeper(rule, parsed, context);
    let n = parsed.tree.nodes.len();
    let mut out: Vec<Diagnostic> = Vec::new();
    let mut j: usize = 0;
    proof {
        assert(diags(out@) + gather(f, 0, n as int) =~= sweep_findings(rule, parsed, context));
    }
    while j < n
        invariant
            parsed.wf(),
            context.wf(),
            n == parsed.tree.nodes.len(),
            j <= n,
            f == sweeper(rule, parsed, context),
            sweep_findings(rule, parsed, context) == diags(out@) + gather(f, j as int, n as int),
        decreases n - j,
    {
        proof {
            lemma_gather_step(f, diags(out@), j as int, n as int);
        }
        let ghost before = out@;
        let mut found = rule.inspect_all(parsed, context, j);
        let ghost added = found@;
        out.append(&mut found);
        assert(diags(out@) =~= diags(before) + diags(added));
        j += 1;
    }
    proof {
        assert(diags(out@) + gather(f, n as int, n as int) =~= diags(out@));
    }
    out
}

} // verus!

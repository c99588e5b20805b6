pub mod config;
pub mod diagnostic;
pub mod fix;
pub mod ignore;
pub mod parser;
pub mod paths;
pub mod phpdoc;
pub mod project;
pub mod rules;
pub mod syntax;
pub mod test_config;
pub mod text;

pub use diagnostic::{Diagnostic, DiagnosticJson, PointJson, Severity, SpanJson};
pub use paths::is_php_file;
pub use syntax::{Position, Span};

use vstd::prelude::*;
use vstd::string::StringSliceAdditionalSpecFns;
use vstd::utf8::encode_utf8;
use config::{rule_enabled, AnalyzerConfig};
use diagnostic::{diags, lemma_diags_push, Diag};
use fix::{edits_of, Edit, TextEdit};
use ignore::{
    file_directive, ignore_state, lemma_file_directive_is_absolute, suppressed, IgnoreState,
    Ignores,
};
use parser::{ParsedSource, ParserError, TreeSitterPhpParser};
use project::{
    declared_namespace, declared_symbols, lemma_path_index_found, path_index, symbol_index,
    symbols_of, ProjectContext, Symbol,
};
use rules::psr4::namespace::namespace_findings;
use rules::psr4::run_namespace_checks;
use rules::{
    DiagnosticRule, ArrayKeyNotDefinedRule, ConsistentReturnRule, DeprecatedApiRule,
    DuplicateDeclarationRule, DuplicateSwitchCaseRule, FallthroughRule, ForceReturnTypeRule,
    HardCodedCredentialsRule, HardCodedKeysRule, ImpossibleComparisonRule, IncludeUserInputRule,
    InvalidThisRule, MissingArgumentRule, MissingReturnRule, MutatingLiteralRule,
    PhpDocParamCheckRule, PhpDocReturnCheckRule, PhpDocReturnValueCheckRule, PhpDocVarCheckRule,
    RedundantConditionRule, StrictTypesRule, TypeMismatchRule, UndefinedVariableRule,
    UnreachableCodeRule, UnreachableStatementRule, UnusedUseRule, UnusedVariableRule,
    WeakHashingRule,
};
use syntax::{gather, lemma_filter_ends, lemma_filter_step, lemma_gather_step};
use test_config::{runs, test_overrides, Overrides, TestConfig};
use text::{find, lines, to_vec};

verus! {

/// `list` with every diagnostic tagged with the rule name `name`.
pub open spec fn tagged(list: Seq<Diag>, name: Seq<u8>) -> Seq<Diag> {
    Seq::new(list.len(), |i: int| Diag { rule_name: Some(name), ..list[i] })
}

/// Whether the diagnostic `d` is shown under the ignore state `state`: it is
/// of no rule, or of a rule that `state` does not suppress.
pub open spec fn is_visible(state: Ignores, d: Diag) -> bool {
    match d.rule_name {
        Some(name) => !suppressed(state, name),
        None => true,
    }
}

/// The diagnostics of `list` that are shown under `state`.
pub open spec fn visible(list: Seq<Diag>, state: Ignores) -> Seq<Diag> {
    list.filter(|d: Diag| is_visible(state, d))
}

/// Whether the rule `name` may run on a file with the overrides
/// `overrides`: overrides bind only the files that declare some.
pub open spec fn permitted(overrides: Overrides, name: Seq<u8>) -> bool {
    !(overrides.only.is_some() || overrides.skip.len() > 0) || runs(overrides, name)
}

/// What `rule` contributes for `parsed`: its findings, tagged with its name,
/// if the overrides of the file let it run.
pub open spec fn rule_output<R: DiagnosticRule>(
    rule: R,
    parsed: &ParsedSource,
    context: &ProjectContext,
) -> Seq<Diag> {
    if permitted(test_overrides(parsed.source@), rule.rule_name()) {
        tagged(rule.findings(parsed, context), rule.rule_name())
    } else {
        Seq::empty()
    }
}

pub open spec fn output_gatherer<R: DiagnosticRule>(
    rules: Seq<R>,
    parsed: &ParsedSource,
    context: &ProjectContext,
) -> spec_fn(int) -> Seq<Diag> {
    |k: int| rule_output(rules[k], parsed, context)
}

/// The diagnostics of one file: nothing if the file asks to be ignored;
/// else what the rules contribute, in the order of the rules, without the
/// diagnostics of rules that the file suppresses.
pub open spec fn dispatched<R: DiagnosticRule>(
    rules: Seq<R>,
    parsed: &ParsedSource,
    context: &ProjectContext,
) -> Seq<Diag> {
    if ignore_state(parsed.source@).everything {
        Seq::empty()
    } else {
        visible(
            gather(output_gatherer(rules, parsed, context), 0, rules.len() as int),
            ignore_state(parsed.source@),
        )
    }
}

/// The file-level ignore directive is absolute: a file with the marker on
/// any of its lines yields no diagnostics, whatever the rules find in it.
pub proof fn lemma_ignored_file_is_silent<R: DiagnosticRule>(
    rules: Seq<R>,
    parsed: &ParsedSource,
    context: &ProjectContext,
    i: int,
)
    requires
        0 <= i < lines(parsed.source@).len(),
        find(lines(parsed.source@)[i], file_directive()).is_some(),
    ensures
        dispatched(rules, parsed, context) == Seq::<Diag>::empty(),
{
    lemma_file_directive_is_absolute(
        Ignores { everything: false, patterns: Seq::empty() },
        lines(parsed.source@),
        i,
    );
}

/// Tags every diagnostic of `list` with the rule name `name`.
pub fn tag_diagnostics(list: &Vec<Diagnostic>, name: &[u8]) -> (r: Vec<Diagnostic>)
    ensures
        diags(r@) == tagged(diags(list@), name@),
{
    let mut out: Vec<Diagnostic> = Vec::new();
    let mut i: usize = 0;
    while i < list.len()
        invariant
            i <= list.len(),
            out@.len() == i,
            forall|k: int|
                0 <= k < i ==> (#[trigger] out@[k])@ == (Diag {
                    rule_name: Some(name@),
                    ..list@[k]@
                }),
        decreases list.len() - i,
    {
        let mut d = list[i].duplicate();
        d.rule_name = Some(to_vec(name));
        out.push(d);
        i += 1;
    }
    assert(diags(out@) =~= tagged(diags(list@), name@));
    out
}

/// Keeps the diagnostics of `list` that `state` does not suppress.
pub fn retain_visible(list: &Vec<Diagnostic>, state: &IgnoreState) -> (r: Vec<Diagnostic>)
    ensures
        diags(r@) == visible(diags(list@), state@),
{
    let ghost keep = |d: Diag| is_visible(state@, d);
    let ghost all = diags(list@);
    let mut out: Vec<Diagnostic> = Vec::new();
    let mut i: usize = 0;
    proof {
        lemma_filter_ends(all, keep);
        assert(diags(out@) =~= Seq::empty());
    }
    while i < list.len()
        invariant
            i <= list.len(),
            all == diags(list@),
            keep == (|d: Diag| is_visible(state@, d)),
            diags(out@) == all.subrange(0, i as int).filter(keep),
        decreases list.len() - i,
    {
        proof {
            lemma_filter_step(all, keep, i as int);
        }
        let shown = match &list[i].rule_name {
            Some(name) => !state.ignores_rule(name.as_slice()),
            None => true,
        };
        if shown {
            let d = list[i].duplicate();
            proof {
                lemma_diags_push(out@, d);
            }
            out.push(d);
        }
        i += 1;
    }
    proof {
        lemma_filter_ends(all, keep);
    }
    out
}

/// Runs the rules on one file and gives the diagnostics that the file does
/// not suppress. Every diagnostic carries the name of its rule.
pub fn collect_diagnostics_with_rules<R: DiagnosticRule>(
    rules: &[R],
    parsed: &ParsedSource,
    context: &ProjectContext,
) -> (r: Vec<Diagnostic>)
    requires
        parsed.wf(),
        context.wf(),
    ensures
        diags(r@) == dispatched(rules@, parsed, context),
{
    let source = parsed.source.as_slice();
    let ignore = IgnoreState::from_bytes(source);
    let mut all: Vec<Diagnostic> = Vec::new();
    if ignore.ignores_everything() {
        assert(diags(all@) =~= Seq::empty());
        return all;
    }
    let overrides = TestConfig::from_bytes(source);
    let ghost f = output_gatherer(rules@, parsed, context);
    let n = rules.len();
    let mut k: usize = 0;
    proof {
        assert(diags(all@) + gather(f, 0, n as int) =~= gather(f, 0, n as int));
    }
    while k < n
        invariant
            parsed.wf(),
            context.wf(),
            n == rules@.len(),
            k <= n,
            overrides@ == test_overrides(parsed.source@),
            f == output_gatherer(rules@, parsed, context),
            gather(f, 0, n as int) == diags(all@) + gather(f, k as int, n as int),
        decreases n - k,
    {
        proof {
            lemma_gather_step(f, diags(all@), k as int, n as int);
        }
        let rule = &rules[k];
        let ghost before = all@;
        let name = rule.name().as_bytes();
        if overrides.is_test_file() && !overrides.runs_rule(name) {
            assert(diags(before) + f(k as int) =~= diags(before));
        } else {
            let found = rule.run(parsed, context);
            let mut named = tag_diagnostics(&found, name);
            let ghost added = named@;
            all.append(&mut named);
            assert(diags(all@) =~= diags(before) + diags(added));
        }
        k += 1;
    }
    proof {
        assert(diags(all@) + gather(f, n as int, n as int) =~= diags(all@));
    }
    retain_visible(&all, &ignore)
}

/// The rules of the analyzer.
#[derive(Clone, Copy, Debug)]
pub enum Rule {
    UndefinedVariable(UndefinedVariableRule),
    ArrayKeyNotDefined(ArrayKeyNotDefinedRule),
    MissingReturn(MissingReturnRule),
    MissingArgument(MissingArgumentRule),
    TypeMismatch(TypeMismatchRule),
    ConsistentReturn(ConsistentReturnRule),
    ForceReturnType(ForceReturnTypeRule),
    DuplicateDeclaration(DuplicateDeclarationRule),
    ImpossibleComparison(ImpossibleComparisonRule),
    RedundantCondition(RedundantConditionRule),
    DuplicateSwitchCase(DuplicateSwitchCaseRule),
    Fallthrough(FallthroughRule),
    UnreachableCode(UnreachableCodeRule),
    UnreachableStatement(UnreachableStatementRule),
    UnusedVariable(UnusedVariableRule),
    UnusedUse(UnusedUseRule),
    InvalidThis(InvalidThisRule),
    DeprecatedApi(DeprecatedApiRule),
    MutatingLiteral(MutatingLiteralRule),
    StrictTypes(StrictTypesRule),
    IncludeUserInput(IncludeUserInputRule),
    HardCodedCredentials(HardCodedCredentialsRule),
    WeakHashing(WeakHashingRule),
    HardCodedKeys(HardCodedKeysRule),
    PhpDocVarCheck(PhpDocVarCheckRule),
    PhpDocParamCheck(PhpDocParamCheckRule),
    PhpDocReturnCheck(PhpDocReturnCheckRule),
    PhpDocReturnValueCheck(PhpDocReturnValueCheckRule),
}

impl DiagnosticRule for Rule {
    open spec fn rule_name(&self) -> Seq<u8> {
        match self {
            Rule::UndefinedVariable(rule) => rule.rule_name(),
            Rule::ArrayKeyNotDefined(rule) => rule.rule_name(),
            Rule::MissingReturn(rule) => rule.rule_name(),
            Rule::MissingArgument(rule) => rule.rule_name(),
            Rule::TypeMismatch(rule) => rule.rule_name(),
            Rule::ConsistentReturn(rule) => rule.rule_name(),
            Rule::ForceReturnType(rule) => rule.rule_name(),
            Rule::DuplicateDeclaration(rule) => rule.rule_name(),
            Rule::ImpossibleComparison(rule) => rule.rule_name(),
            Rule::RedundantCondition(rule) => rule.rule_name(),
            Rule::DuplicateSwitchCase(rule) => rule.rule_name(),
            Rule::Fallthrough(rule) => rule.rule_name(),
            Rule::UnreachableCode(rule) => rule.rule_name(),
            Rule::UnreachableStatement(rule) => rule.rule_name(),
            Rule::UnusedVariable(rule) => rule.rule_name(),
            Rule::UnusedUse(rule) => rule.rule_name(),
            Rule::InvalidThis(rule) => rule.rule_name(),
            Rule::DeprecatedApi(rule) => rule.rule_name(),
            Rule::MutatingLiteral(rule) => rule.rule_name(),
            Rule::StrictTypes(rule) => rule.rule_name(),
            Rule::IncludeUserInput(rule) => rule.rule_name(),
            Rule::HardCodedCredentials(rule) => rule.rule_name(),
            Rule::WeakHashing(rule) => rule.rule_name(),
            Rule::HardCodedKeys(rule) => rule.rule_name(),
            Rule::PhpDocVarCheck(rule) => rule.rule_name(),
            Rule::PhpDocParamCheck(rule) => rule.rule_name(),
            Rule::PhpDocReturnCheck(rule) => rule.rule_name(),
            Rule::PhpDocReturnValueCheck(rule) => rule.rule_name(),
        }
    }

    open spec fn findings(&self, parsed: &ParsedSource, context: &ProjectContext) -> Seq<Diag> {
        match self {
            Rule::UndefinedVariable(rule) => rule.findings(parsed, context),
            Rule::ArrayKeyNotDefined(rule) => rule.findings(parsed, context),
            Rule::MissingReturn(rule) => rule.findings(parsed, context),
            Rule::MissingArgument(rule) => rule.findings(parsed, context),
            Rule::TypeMismatch(rule) => rule.findings(parsed, context),
            Rule::ConsistentReturn(rule) => rule.findings(parsed, context),
            Rule::ForceReturnType(rule) => rule.findings(parsed, context),
            Rule::DuplicateDeclaration(rule) => rule.findings(parsed, context),
            Rule::ImpossibleComparison(rule) => rule.findings(parsed, context),
            Rule::RedundantCondition(rule) => rule.findings(parsed, context),
            Rule::DuplicateSwitchCase(rule) => rule.findings(parsed, context),
            Rule::Fallthrough(rule) => rule.findings(parsed, context),
            Rule::UnreachableCode(rule) => rule.findings(parsed, context),
            Rule::UnreachableStatement(rule) => rule.findings(parsed, context),
            Rule::UnusedVariable(rule) => rule.findings(parsed, context),
            Rule::UnusedUse(rule) => rule.findings(parsed, context),
            Rule::InvalidThis(rule) => rule.findings(parsed, context),
            Rule::DeprecatedApi(rule) => rule.findings(parsed, context),
            Rule::MutatingLiteral(rule) => rule.findings(parsed, context),
            Rule::StrictTypes(rule) => rule.findings(parsed, context),
            Rule::IncludeUserInput(rule) => rule.findings(parsed, context),
            Rule::HardCodedCredentials(rule) => rule.findings(parsed, context),
            Rule::WeakHashing(rule) => rule.findings(parsed, context),
            Rule::HardCodedKeys(rule) => rule.findings(parsed, context),
            Rule::PhpDocVarCheck(rule) => rule.findings(parsed, context),
            Rule::PhpDocParamCheck(rule) => rule.findings(parsed, context),
            Rule::PhpDocReturnCheck(rule) => rule.findings(parsed, context),
            Rule::PhpDocReturnValueCheck(rule) => rule.findings(parsed, context),
        }
    }

    open spec fn edits(&self, parsed: &ParsedSource, context: &ProjectContext) -> Seq<Edit> {
        match self {
            Rule::UndefinedVariable(rule) => rule.edits(parsed, context),
            Rule::ArrayKeyNotDefined(rule) => rule.edits(parsed, context),
            Rule::MissingReturn(rule) => rule.edits(parsed, context),
            Rule::MissingArgument(rule) => rule.edits(parsed, context),
            Rule::TypeMismatch(rule) => rule.edits(parsed, context),
            Rule::ConsistentReturn(rule) => rule.edits(parsed, context),
            Rule::ForceReturnType(rule) => rule.edits(parsed, context),
            Rule::DuplicateDeclaration(rule) => rule.edits(parsed, context),
            Rule::ImpossibleComparison(rule) => rule.edits(parsed, context),
            Rule::RedundantCondition(rule) => rule.edits(parsed, context),
            Rule::DuplicateSwitchCase(rule) => rule.edits(parsed, context),
            Rule::Fallthrough(rule) => rule.edits(parsed, context),
            Rule::UnreachableCode(rule) => rule.edits(parsed, context),
            Rule::UnreachableStatement(rule) => rule.edits(parsed, context),
            Rule::UnusedVariable(rule) => rule.edits(parsed, context),
            Rule::UnusedUse(rule) => rule.edits(parsed, context),
            Rule::InvalidThis(rule) => rule.edits(parsed, context),
            Rule::DeprecatedApi(rule) => rule.edits(parsed, context),
            Rule::MutatingLiteral(rule) => rule.edits(parsed, context),
            Rule::StrictTypes(rule) => rule.edits(parsed, context),
            Rule::IncludeUserInput(rule) => rule.edits(parsed, context),
            Rule::HardCodedCredentials(rule) => rule.edits(parsed, context),
            Rule::WeakHashing(rule) => rule.edits(parsed, context),
            Rule::HardCodedKeys(rule) => rule.edits(parsed, context),
            Rule::PhpDocVarCheck(rule) => rule.edits(parsed, context),
            Rule::PhpDocParamCheck(rule) => rule.edits(parsed, context),
            Rule::PhpDocReturnCheck(rule) => rule.edits(parsed, context),
            Rule::PhpDocReturnValueCheck(rule) => rule.edits(parsed, context),
        }
    }

    fn name(&self) -> (r: &'static str) {
        match self {
            Rule::UndefinedVariable(rule) => rule.name(),
            Rule::ArrayKeyNotDefined(rule) => rule.name(),
            Rule::MissingReturn(rule) => rule.name(),
            Rule::MissingArgument(rule) => rule.name(),
            Rule::TypeMismatch(rule) => rule.name(),
            Rule::ConsistentReturn(rule) => rule.name(),
            Rule::ForceReturnType(rule) => rule.name(),
            Rule::DuplicateDeclaration(rule) => rule.name(),
            Rule::ImpossibleComparison(rule) => rule.name(),
            Rule::RedundantCondition(rule) => rule.name(),
            Rule::DuplicateSwitchCase(rule) => rule.name(),
            Rule::Fallthrough(rule) => rule.name(),
            Rule::UnreachableCode(rule) => rule.name(),
            Rule::UnreachableStatement(rule) => rule.name(),
            Rule::UnusedVariable(rule) => rule.name(),
            Rule::UnusedUse(rule) => rule.name(),
            Rule::InvalidThis(rule) => rule.name(),
            Rule::DeprecatedApi(rule) => rule.name(),
            Rule::MutatingLiteral(rule) => rule.name(),
            Rule::StrictTypes(rule) => rule.name(),
            Rule::IncludeUserInput(rule) => rule.name(),
            Rule::HardCodedCredentials(rule) => rule.name(),
            Rule::WeakHashing(rule) => rule.name(),
            Rule::HardCodedKeys(rule) => rule.name(),
            Rule::PhpDocVarCheck(rule) => rule.name(),
            Rule::PhpDocParamCheck(rule) => rule.name(),
            Rule::PhpDocReturnCheck(rule) => rule.name(),
            Rule::PhpDocReturnValueCheck(rule) => rule.name(),
        }
    }

    fn run(&self, parsed: &ParsedSource, context: &ProjectContext) -> (r: Vec<Diagnostic>) {
        match self {
            Rule::UndefinedVariable(rule) => rule.run(parsed, context),
            Rule::ArrayKeyNotDefined(rule) => rule.run(parsed, context),
            Rule::MissingReturn(rule) => rule.run(parsed, context),
            Rule::MissingArgument(rule) => rule.run(parsed, context),
            Rule::TypeMismatch(rule) => rule.run(parsed, context),
            Rule::ConsistentReturn(rule) => rule.run(parsed, context),
            Rule::ForceReturnType(rule) => rule.run(parsed, context),
            Rule::DuplicateDeclaration(rule) => rule.run(parsed, context),
            Rule::ImpossibleComparison(rule) => rule.run(parsed, context),
            Rule::RedundantCondition(rule) => rule.run(parsed, context),
            Rule::DuplicateSwitchCase(rule) => rule.run(parsed, context),
            Rule::Fallthrough(rule) => rule.run(parsed, context),
            Rule::UnreachableCode(rule) => rule.run(parsed, context),
            Rule::UnreachableStatement(rule) => rule.run(parsed, context),
            Rule::UnusedVariable(rule) => rule.run(parsed, context),
            Rule::UnusedUse(rule) => rule.run(parsed, context),
            Rule::InvalidThis(rule) => rule.run(parsed, context),
            Rule::DeprecatedApi(rule) => rule.run(parsed, context),
            Rule::MutatingLiteral(rule) => rule.run(parsed, context),
            Rule::StrictTypes(rule) => rule.run(parsed, context),
            Rule::IncludeUserInput(rule) => rule.run(parsed, context),
            Rule::HardCodedCredentials(rule) => rule.run(parsed, context),
            Rule::WeakHashing(rule) => rule.run(parsed, context),
            Rule::HardCodedKeys(rule) => rule.run(parsed, context),
            Rule::PhpDocVarCheck(rule) => rule.run(parsed, context),
            Rule::PhpDocParamCheck(rule) => rule.run(parsed, context),
            Rule::PhpDocReturnCheck(rule) => rule.run(parsed, context),
            Rule::PhpDocReturnValueCheck(rule) => rule.run(parsed, context),
        }
    }

    fn fix(&self, parsed: &ParsedSource, context: &ProjectContext) -> (r: Vec<TextEdit>) {
        match self {
            Rule::UndefinedVariable(rule) => rule.fix(parsed, context),
            Rule::ArrayKeyNotDefined(rule) => rule.fix(parsed, context),
            Rule::MissingReturn(rule) => rule.fix(parsed, context),
            Rule::MissingArgument(rule) => rule.fix(parsed, context),
            Rule::TypeMismatch(rule) => rule.fix(parsed, context),
            Rule::ConsistentReturn(rule) => rule.fix(parsed, context),
            Rule::ForceReturnType(rule) => rule.fix(parsed, context),
            Rule::DuplicateDeclaration(rule) => rule.fix(parsed, context),
            Rule::ImpossibleComparison(rule) => rule.fix(parsed, context),
            Rule::RedundantCondition(rule) => rule.fix(parsed, context),
            Rule::DuplicateSwitchCase(rule) => rule.fix(parsed, context),
            Rule::Fallthrough(rule) => rule.fix(parsed, context),
            Rule::UnreachableCode(rule) => rule.fix(parsed, context),
            Rule::UnreachableStatement(rule) => rule.fix(parsed, context),
            Rule::UnusedVariable(rule) => rule.fix(parsed, context),
            Rule::UnusedUse(rule) => rule.fix(parsed, context),
            Rule::InvalidThis(rule) => rule.fix(parsed, context),
            Rule::DeprecatedApi(rule) => rule.fix(parsed, context),
            Rule::MutatingLiteral(rule) => rule.fix(parsed, context),
            Rule::StrictTypes(rule) => rule.fix(parsed, context),
            Rule::IncludeUserInput(rule) => rule.fix(parsed, context),
            Rule::HardCodedCredentials(rule) => rule.fix(parsed, context),
            Rule::WeakHashing(rule) => rule.fix(parsed, context),
            Rule::HardCodedKeys(rule) => rule.fix(parsed, context),
            Rule::PhpDocVarCheck(rule) => rule.fix(parsed, context),
            Rule::PhpDocParamCheck(rule) => rule.fix(parsed, context),
            Rule::PhpDocReturnCheck(rule) => rule.fix(parsed, context),
            Rule::PhpDocReturnValueCheck(rule) => rule.fix(parsed, context),
        }
    }
}

/// The names of the analyzer's rules, in the order in which the rules run.
pub open spec fn registry() -> Seq<Seq<u8>> {
    seq![
        "sanity/undefined_variable".spec_bytes(),
        "array-key-not-defined".spec_bytes(),
        "strict_typing/missing_return".spec_bytes(),
        "strict_typing/missing_argument".spec_bytes(),
        "strict_typing/type_mismatch".spec_bytes(),
        "strict_typing/consistent_return".spec_bytes(),
        "strict_typing/force_return_type".spec_bytes(),
        "sanity/duplicate_declaration".spec_bytes(),
        "control_flow/impossible_comparison".spec_bytes(),
        "redundant-condition".spec_bytes(),
        "control_flow/duplicate_switch_case".spec_bytes(),
        "control_flow/fallthrough".spec_bytes(),
        "control_flow/unreachable".spec_bytes(),
        "control_flow/unreachable_statement".spec_bytes(),
        "cleanup/unused_variable".spec_bytes(),
        "cleanup/unused_use".spec_bytes(),
        "api/invalid_this".spec_bytes(),
        "api/deprecated_api".spec_bytes(),
        "security/mutating_literal".spec_bytes(),
        "strict_typing/strict_types".spec_bytes(),
        "security/include_user_input".spec_bytes(),
        "security/hard_coded_credentials".spec_bytes(),
        "security/weak_hashing".spec_bytes(),
        "security/hard_coded_keys".spec_bytes(),
        "strict_typing/phpdoc_var_check".spec_bytes(),
        "strict_typing/phpdoc_param_check".spec_bytes(),
        "strict_typing/phpdoc_return_check".spec_bytes(),
        "strict_typing/phpdoc_return_value_check".spec_bytes(),
    ]
}

/// The names of a list of rules.
pub open spec fn names_of(rules: Seq<Rule>) -> Seq<Seq<u8>> {
    Seq::new(rules.len(), |i: int| rules[i].rule_name())
}

/// The names among `names` that the toggles `map` leave enabled.
pub open spec fn enabled_names(map: Map<Seq<u8>, bool>, names: Seq<Seq<u8>>) -> Seq<Seq<u8>> {
    names.filter(|name: Seq<u8>| rule_enabled(map, name))
}

fn enlist(rules: &mut Vec<Rule>, rule: Rule)
    ensures
        names_of(final(rules)@) == names_of(old(rules)@).push(rule.rule_name()),
{
    let ghost before = rules@;
    rules.push(rule);
    assert(names_of(rules@) =~= names_of(before).push(rule.rule_name()));
}

/// Every rule of the analyzer, in the order of the registry.
pub fn all_rules() -> (rules: Vec<Rule>)
    ensures
        names_of(rules@) == registry(),
{
    let mut rules: Vec<Rule> = Vec::new();
    assert(names_of(rules@) =~= Seq::empty());
    enlist(&mut rules, Rule::UndefinedVariable(UndefinedVariableRule::new()));
    enlist(&mut rules, Rule::ArrayKeyNotDefined(ArrayKeyNotDefinedRule::new()));
    enlist(&mut rules, Rule::MissingReturn(MissingReturnRule::new()));
    enlist(&mut rules, Rule::MissingArgument(MissingArgumentRule::new()));
    enlist(&mut rules, Rule::TypeMismatch(TypeMismatchRule::new()));
    enlist(&mut rules, Rule::ConsistentReturn(ConsistentReturnRule::new()));
    enlist(&mut rules, Rule::ForceReturnType(ForceReturnTypeRule::new()));
    enlist(&mut rules, Rule::DuplicateDeclaration(DuplicateDeclarationRule::new()));
    enlist(&mut rules, Rule::ImpossibleComparison(ImpossibleComparisonRule::new()));
    enlist(&mut rules, Rule::RedundantCondition(RedundantConditionRule::new()));
    enlist(&mut rules, Rule::DuplicateSwitchCase(DuplicateSwitchCaseRule::new()));
    enlist(&mut rules, Rule::Fallthrough(FallthroughRule::new()));
    enlist(&mut rules, Rule::UnreachableCode(UnreachableCodeRule::new()));
    enlist(&mut rules, Rule::UnreachableStatement(UnreachableStatementRule::new()));
    enlist(&mut rules, Rule::UnusedVariable(UnusedVariableRule::new()));
    enlist(&mut rules, Rule::UnusedUse(UnusedUseRule::new()));
    enlist(&mut rules, Rule::InvalidThis(InvalidThisRule::new()));
    enlist(&mut rules, Rule::DeprecatedApi(DeprecatedApiRule::new()));
    enlist(&mut rules, Rule::MutatingLiteral(MutatingLiteralRule::new()));
    enlist(&mut rules, Rule::StrictTypes(StrictTypesRule::new()));
    enlist(&mut rules, Rule::IncludeUserInput(IncludeUserInputRule::new()));
    enlist(&mut rules, Rule::HardCodedCredentials(HardCodedCredentialsRule::new()));
    enlist(&mut rules, Rule::WeakHashing(WeakHashingRule::new()));
    enlist(&mut rules, Rule::HardCodedKeys(HardCodedKeysRule::new()));
    enlist(&mut rules, Rule::PhpDocVarCheck(PhpDocVarCheckRule::new()));
    enlist(&mut rules, Rule::PhpDocParamCheck(PhpDocParamCheckRule::new()));
    enlist(&mut rules, Rule::PhpDocReturnCheck(PhpDocReturnCheckRule::new()));
    enlist(&mut rules, Rule::PhpDocReturnValueCheck(PhpDocReturnValueCheckRule::new()));
    rules
}

/// One file to analyse: where it is, and what it holds.
pub struct SourceFile {
    pub path: String,
    pub text: String,
}

/// The edits that the rules propose for one file.
pub struct FileEdits {
    pub path: Vec<u8>,
    pub edits: Vec<TextEdit>,
}

/// The values of a list of file edits.
pub open spec fn file_edits_of(list: Seq<FileEdits>) -> Seq<(Seq<u8>, Seq<Edit>)> {
    Seq::new(list.len(), |i: int| (list[i].path@, edits_of(list[i].edits@)))
}

pub open spec fn edit_gatherer<R: DiagnosticRule>(
    rules: Seq<R>,
    parsed: &ParsedSource,
    context: &ProjectContext,
) -> spec_fn(int) -> Seq<Edit> {
    |k: int| rules[k].edits(parsed, context)
}

/// The edits of all rules for one file, in the order of the rules.
pub open spec fn proposed_edits<R: DiagnosticRule>(
    rules: Seq<R>,
    parsed: &ParsedSource,
    context: &ProjectContext,
) -> Seq<Edit> {
    gather(edit_gatherer(rules, parsed, context), 0, rules.len() as int)
}

pub open spec fn file_gatherer<R: DiagnosticRule>(rules: Seq<R>, context: &ProjectContext) -> spec_fn(
    int,
) -> Seq<Diag> {
    |f: int| dispatched(rules, &context.sources@[f], context)
}

pub open spec fn file_edit_gatherer<R: DiagnosticRule>(
    rules: Seq<R>,
    context: &ProjectContext,
) -> spec_fn(int) -> Seq<(Seq<u8>, Seq<Edit>)> {
    |f: int|
        if proposed_edits(rules, &context.sources@[f], context).len() > 0 {
            seq![
                (
                    context.sources@[f].path@,
                    proposed_edits(rules, &context.sources@[f], context),
                ),
            ]
        } else {
            Seq::empty()
        }
}

/// The diagnostics of a whole context: those of each file, in the order of
/// the files, and behind them the findings of the PSR-4 check if that is
/// switched on.
pub open spec fn analysed(
    rules: Seq<Rule>,
    config: &AnalyzerConfig,
    root: Seq<u8>,
    context: &ProjectContext,
) -> Seq<Diag> {
    gather(file_gatherer(rules, context), 0, context.sources@.len() as int) + (if config.psr4.enabled {
        namespace_findings(root, context, config)
    } else {
        Seq::empty()
    })
}

/// The edits of a whole context: for each file for which a rule proposes
/// any, in the order of the files, its path and the proposed edits.
pub open spec fn proposed(rules: Seq<Rule>, context: &ProjectContext) -> Seq<(Seq<u8>, Seq<Edit>)> {
    gather(file_edit_gatherer(rules, context), 0, context.sources@.len() as int)
}

/// A file that could not be parsed, and why.
#[derive(Debug)]
pub struct ParseFailure {
    pub path: Vec<u8>,
    pub error: ParserError,
}

/// What parsing a set of files gives: the project context of the files that
/// parsed, and the failures of the others.
pub struct ParsedFiles {
    pub context: ProjectContext,
    pub failures: Vec<ParseFailure>,
}

impl SourceFile {
    /// The path of the file, as bytes.
    pub open spec fn path_bytes(&self) -> Seq<u8> {
        encode_utf8(self.path@)
    }

    /// The text of the file, as bytes.
    pub open spec fn text_bytes(&self) -> Seq<u8> {
        encode_utf8(self.text@)
    }
}

/// Whether `parsed` holds one of `files`: its path and its text.
pub open spec fn holds_one_of(files: Seq<SourceFile>, parsed: &ParsedSource) -> bool {
    exists|i: int|
        0 <= i < files.len() && parsed.path@ == (#[trigger] files[i]).path_bytes() && parsed.source@
            == files[i].text_bytes()
}

/// Whether `failure` is about one of `files`, and is a failure to parse.
pub open spec fn names_one_of(files: Seq<SourceFile>, failure: &ParseFailure) -> bool {
    &&& failure.error != ParserError::Language
    &&& exists|i: int| 0 <= i < files.len() && failure.path@ == (#[trigger] files[i]).path_bytes()
}

/// Whether a file with the path `path` is among `sources`.
pub open spec fn has_source(sources: Seq<ParsedSource>, path: Seq<u8>) -> bool {
    exists|k: int| 0 <= k < sources.len() && (#[trigger] sources[k]).path@ == path
}

/// Whether a failure for the path `path` is among `failures`.
pub open spec fn has_failure(failures: Seq<ParseFailure>, path: Seq<u8>) -> bool {
    exists|k: int| 0 <= k < failures.len() && (#[trigger] failures[k]).path@ == path
}

/// Whether the function index of `context` holds what the files `inserted`
/// declare, in their order, each of them a parse of one of `files`.
pub open spec fn indexes(
    files: Seq<SourceFile>,
    context: &ProjectContext,
    inserted: Seq<ParsedSource>,
) -> bool {
    &&& symbols_of(context.function_symbols@) == symbol_index(inserted)
    &&& forall|k: int| 0 <= k < inserted.len() ==> holds_one_of(files, &#[trigger] inserted[k])
}

/// Whether `outcome` is what parsing the first `upto` of `files` may give:
/// every file of the context and every failure is of one of the files,
/// every one of these files is in the context or among the failures, and
/// the function index holds the symbols of the files that parsed, in the
/// order in which they were parsed.
pub open spec fn parsed_upto(files: Seq<SourceFile>, outcome: &ParsedFiles, upto: int) -> bool {
    &&& outcome.context.wf()
    &&& exists|inserted: Seq<ParsedSource>| #[trigger] indexes(files, &outcome.context, inserted)
    &&& outcome.context.sources@.len() + outcome.failures@.len() <= upto
    &&& forall|k: int|
        0 <= k < outcome.context.sources@.len() ==> holds_one_of(
            files,
            &#[trigger] outcome.context.sources@[k],
        )
    &&& forall|k: int|
        0 <= k < outcome.failures@.len() ==> names_one_of(files, &#[trigger] outcome.failures@[k])
    &&& forall|i: int|
        0 <= i < upto ==> has_source(outcome.context.sources@, (#[trigger] files[i]).path_bytes())
            || has_failure(outcome.failures@, files[i].path_bytes())
}

/// Whether `outcome` is what parsing `files` may give.
pub open spec fn parse_outcome(files: Seq<SourceFile>, outcome: &ParsedFiles) -> bool {
    parsed_upto(files, outcome, files.len() as int)
}

/// The report of one failure: an error for the file, without a place in it.
pub open spec fn failure_report(failure: &ParseFailure) -> Diag {
    Diag {
        file: failure.path@,
        severity: Severity::Error,
        message: failure.error.description().spec_bytes(),
        rule_name: None,
        span: None,
        snippet_before: None,
        snippet_line: None,
        snippet_after: None,
        caret_col: None,
        caret_len: 1,
    }
}

/// The reports of `failures`, in their order.
pub open spec fn failure_reports(failures: Seq<ParseFailure>) -> Seq<Diag> {
    Seq::new(failures.len(), |k: int| failure_report(&failures[k]))
}

/// What the analysis of a set of files reports: an error for each file
/// that did not parse, and behind them the diagnostics of the context of
/// those that did.
pub open spec fn reported(
    rules: Seq<Rule>,
    config: &AnalyzerConfig,
    root: Seq<u8>,
    outcome: &ParsedFiles,
) -> Seq<Diag> {
    failure_reports(outcome.failures@) + analysed(rules, config, root, &outcome.context)
}

/// Parses `files` into a project context, in order. A file that does not
/// parse is left out of the context and listed among the failures; the
/// files behind it are parsed all the same.
pub fn parse_files(parser: &mut TreeSitterPhpParser, files: &Vec<SourceFile>) -> (r: ParsedFiles)
    ensures
        parse_outcome(files@, &r),
{
    let mut outcome = ParsedFiles { context: ProjectContext::new(), failures: Vec::new() };
    let ghost mut inserted: Seq<ParsedSource> = Seq::empty();
    let mut i: usize = 0;
    proof {
        assert(symbols_of(outcome.context.function_symbols@) =~= symbol_index(inserted));
        assert(indexes(files@, &outcome.context, inserted));
    }
    while i < files.len()
        invariant
            i <= files.len(),
            indexes(files@, &outcome.context, inserted),
            parsed_upto(files@, &outcome, i as int),
        decreases files.len() - i,
    {
        let ghost before = outcome;
        let ghost path = files@[i as int].path_bytes();
        match parser.parse_source(files[i].path.as_str(), files[i].text.as_str()) {
            Ok(parsed) => {
                let ghost given = parsed;
                proof {
                    assert(holds_one_of(files@, &given));
                    if path_index(before.context.sources@, given.path@, 0).is_some() {
                        lemma_path_index_found(before.context.sources@, given.path@, 0);
                    }
                }
                outcome.context.insert(parsed);
                proof {
                    let earlier = inserted;
                    inserted = inserted.push(given);
                    assert(inserted.drop_last() =~= earlier);
                    assert(indexes(files@, &outcome.context, inserted));
                    let old_sources = before.context.sources@;
                    let new_sources = outcome.context.sources@;
                    assert forall|k: int| 0 <= k < old_sources.len() implies #[trigger] new_sources[k].path@
                        == old_sources[k].path@ && k < new_sources.len() by {}
                    assert forall|k: int| 0 <= k < new_sources.len() implies holds_one_of(
                        files@,
                        &#[trigger] new_sources[k],
                    ) by {
                        if k < old_sources.len() && new_sources[k] != given {
                            assert(new_sources[k] == old_sources[k]);
                        }
                    }
                    assert(has_source(new_sources, path)) by {
                        match path_index(old_sources, given.path@, 0) {
                            Some(k) => {
                                assert(new_sources[k].path@ == path);
                            },
                            None => {
                                assert(new_sources[old_sources.len() as int].path@ == path);
                            },
                        }
                    }
                    assert forall|j: int| 0 <= j < i + 1 implies has_source(
                        new_sources,
                        (#[trigger] files@[j]).path_bytes(),
                    ) || has_failure(outcome.failures@, files@[j].path_bytes()) by {
                        if j < i && has_source(old_sources, files@[j].path_bytes()) {
                            let k = choose|k: int|
                                0 <= k < old_sources.len() && (#[trigger] old_sources[k]).path@
                                    == files@[j].path_bytes();
                            assert(new_sources[k].path@ == files@[j].path_bytes());
                        }
                    }
                }
            },
            Err(error) => {
                let failure = ParseFailure { path: to_vec(files[i].path.as_str().as_bytes()), error };
                outcome.failures.push(failure);
                proof {
                    assert(indexes(files@, &outcome.context, inserted));
                    let old_failures = before.failures@;
                    let new_failures = outcome.failures@;
                    assert(new_failures[old_failures.len() as int].path@ == path);
                    assert(names_one_of(files@, &failure));
                    assert forall|k: int| 0 <= k < new_failures.len() implies names_one_of(
                        files@,
                        &#[trigger] new_failures[k],
                    ) by {
                        if k < old_failures.len() {
                            assert(new_failures[k] == old_failures[k]);
                        }
                    }
                    assert forall|j: int| 0 <= j < i + 1 implies has_source(
                        outcome.context.sources@,
                        (#[trigger] files@[j]).path_bytes(),
                    ) || has_failure(new_failures, files@[j].path_bytes()) by {
                        if j < i && has_failure(old_failures, files@[j].path_bytes()) {
                            let k = choose|k: int|
                                0 <= k < old_failures.len() && (#[trigger] old_failures[k]).path@
                                    == files@[j].path_bytes();
                            assert(new_failures[k].path@ == files@[j].path_bytes());
                        }
                    }
                }
            },
        }
        i += 1;
    }
    outcome
}

/// The reports of the failures to parse.
fn report_failures(failures: &Vec<ParseFailure>) -> (r: Vec<Diagnostic>)
    ensures
        diags(r@) == failure_reports(failures@),
{
    let mut out: Vec<Diagnostic> = Vec::new();
    let mut k: usize = 0;
    while k < failures.len()
        invariant
            k <= failures.len(),
            diags(out@) == failure_reports(failures@).subrange(0, k as int),
        decreases failures.len() - k,
    {
        let d = Diagnostic::new(
            to_vec(failures[k].path.as_slice()),
            Severity::Error,
            to_vec(failures[k].error.message().as_bytes()),
        );
        proof {
            lemma_diags_push(out@, d);
            assert(failure_reports(failures@).subrange(0, k as int).push(d@)
                =~= failure_reports(failures@).subrange(0, k + 1));
        }
        out.push(d);
        k += 1;
    }
    assert(failure_reports(failures@).subrange(0, k as int) =~= failure_reports(failures@));
    out
}

/// Drives parsing, rule dispatch and fix collection.
pub struct Analyzer {
    pub parser: TreeSitterPhpParser,
    pub rules: Vec<Rule>,
    pub config: AnalyzerConfig,
}

impl Analyzer {
    /// Makes an analyzer around `parser` with the rules that `config` leaves
    /// enabled, in the order of the registry. Without a configuration every
    /// rule is enabled and the PSR-4 check is off.
    pub fn with_parser(parser: TreeSitterPhpParser, config: Option<AnalyzerConfig>) -> (analyzer:
        Self)
        ensures
            analyzer.parser == parser,
            names_of(analyzer.rules@) == enabled_names(analyzer.config.rule_map(), registry()),
            match config {
                Some(given) => analyzer.config == given,
                None => analyzer.config.rule_map() == Map::<Seq<u8>, bool>::empty()
                    && !analyzer.config.psr4.enabled,
            },
    {
        let config = match config {
            Some(given) => given,
            None => AnalyzerConfig::new(),
        };
        let all = all_rules();
        let ghost keep = |name: Seq<u8>| rule_enabled(config.rule_map(), name);
        let mut rules: Vec<Rule> = Vec::new();
        let mut i: usize = 0;
        proof {
            lemma_filter_ends(names_of(all@), keep);
            assert(names_of(rules@) =~= Seq::empty());
        }
        while i < all.len()
            invariant
                i <= all.len(),
                keep == (|name: Seq<u8>| rule_enabled(config.rule_map(), name)),
                names_of(rules@) == names_of(all@).subrange(0, i as int).filter(keep),
            decreases all.len() - i,
        {
            let rule = all[i];
            proof {
                lemma_filter_step(names_of(all@), keep, i as int);
            }
            if config.enabled(rule.name()) {
                let ghost before = rules@;
                rules.push(rule);
                assert(names_of(rules@) =~= names_of(before).push(rule.rule_name()));
            }
            i += 1;
        }
        proof {
            lemma_filter_ends(names_of(all@), keep);
        }
        Analyzer { parser, rules, config }
    }

    /// Makes an analyzer with the rules that `config` leaves enabled, in
    /// the order of the registry. Without a configuration every rule is
    /// enabled and the PSR-4 check is off.
    pub fn new(config: Option<AnalyzerConfig>) -> (r: Result<Self, ParserError>)
        ensures
            match r {
                Ok(analyzer) => {
                    &&& names_of(analyzer.rules@) == enabled_names(
                        analyzer.config.rule_map(),
                        registry(),
                    )
                    &&& match config {
                        Some(given) => analyzer.config == given,
                        None => analyzer.config.rule_map() == Map::<Seq<u8>, bool>::empty()
                            && !analyzer.config.psr4.enabled,
                    }
                },
                Err(e) => e == ParserError::Language,
            },
    {
        match TreeSitterPhpParser::new() {
            Ok(parser) => Ok(Analyzer::with_parser(parser, config)),
            Err(_) => Err(ParserError::Language),
        }
    }

    /// Analyses the parsed file `parsed` on its own: the diagnostics are
    /// those of the dispatch on it, in a context that holds the file alone.
    pub fn analyse_parsed(&self, parsed: ParsedSource) -> (found: Vec<Diagnostic>)
        requires
            parsed.wf(),
        ensures
            exists|context: ProjectContext|
                {
                    &&& context.holds_alone(&parsed)
                    &&& diags(found@) == #[trigger] dispatched(self.rules@, &parsed, &context)
                },
    {
        let mut context = ProjectContext::new();
        let ghost given = parsed;
        proof {
            assert(context.sources@ =~= Seq::empty());
            assert(symbols_of(context.function_symbols@) =~= Seq::empty());
        }
        context.insert(parsed);
        assert(context.sources@ =~= seq![given]);
        assert(context.holds_alone(&given)) by {
            assert(Seq::<Symbol>::empty() + declared_symbols(&given, declared_namespace(&given))
                =~= declared_symbols(&given, declared_namespace(&given)));
        }
        let found = collect_diagnostics_with_rules(
            self.rules.as_slice(),
            &context.sources[0],
            &context,
        );
        assert(diags(found@) == dispatched(self.rules@, &given, &context));
        found
    }

    /// Analyses one file with the text `source`. The diagnostics are those
    /// of the dispatch on a well-formed parse of that text, in a context
    /// that holds the file alone.
    pub fn analyse_file(&mut self, path: &str, source: &str) -> (r: Result<
        Vec<Diagnostic>,
        ParserError,
    >)
        ensures
            final(self).rules == old(self).rules,
            final(self).config == old(self).config,
            match r {
                Ok(found) => exists|parsed: ParsedSource, context: ProjectContext|
                    {
                        &&& parsed.wf()
                        &&& parsed.path@ == path.spec_bytes()
                        &&& parsed.source@ == source.spec_bytes()
                        &&& context.holds_alone(&parsed)
                        &&& diags(found@) == #[trigger] dispatched(
                            old(self).rules@,
                            &parsed,
                            &context,
                        )
                    },
                Err(e) => e == ParserError::Syntax || e == ParserError::Tree,
            },
    {
        match self.parser.parse_source(path, source) {
            Ok(parsed) => {
                let found = self.analyse_parsed(parsed);
                Ok(found)
            },
            Err(e) => Err(e),
        }
    }

    /// Analyses every file of `context`, and checks the namespaces against
    /// `root` if the PSR-4 check is switched on.
    pub fn analyse_context(&self, context: &ProjectContext, root: &str) -> (r: Vec<Diagnostic>)
        requires
            context.wf(),
        ensures
            diags(r@) == analysed(self.rules@, &self.config, root.spec_bytes(), context),
    {
        let ghost f = file_gatherer(self.rules@, context);
        let n = context.sources.len();
        let mut all: Vec<Diagnostic> = Vec::new();
        let mut k: usize = 0;
        proof {
            assert(diags(all@) + gather(f, 0, n as int) =~= gather(f, 0, n as int));
        }
        while k < n
            invariant
                context.wf(),
                n == context.sources@.len(),
                k <= n,
                f == file_gatherer(self.rules@, context),
                gather(f, 0, n as int) == diags(all@) + gather(f, k as int, n as int),
            decreases n - k,
        {
            proof {
                lemma_gather_step(f, diags(all@), k as int, n as int);
            }
            let ghost before = all@;
            let mut found = collect_diagnostics_with_rules(
                self.rules.as_slice(),
                &context.sources[k],
                context,
            );
            let ghost added = found@;
            all.append(&mut found);
            assert(diags(all@) =~= diags(before) + diags(added));
            k += 1;
        }
        proof {
            assert(diags(all@) + gather(f, n as int, n as int) =~= diags(all@));
        }
        let ghost files = all@;
        if self.config.psr4.enabled {
            let mut layout = run_namespace_checks(root, context, &self.config);
            let ghost added = layout@;
            all.append(&mut layout);
            assert(diags(all@) =~= diags(files) + diags(added));
        } else {
            assert(diags(all@) =~= diags(files) + Seq::<Diag>::empty());
        }
        all
    }

    /// Parses `files` and analyses them as one project below `root`. A file
    /// that does not parse is reported with an error of its own and does
    /// not keep the others from being analysed.
    pub fn analyse_files(&mut self, files: &Vec<SourceFile>, root: &str) -> (r: Vec<Diagnostic>)
        ensures
            final(self).rules == old(self).rules,
            final(self).config == old(self).config,
            exists|outcome: ParsedFiles|
                parse_outcome(files@, &outcome) && diags(r@) == #[trigger] reported(
                    old(self).rules@,
                    &old(self).config,
                    root.spec_bytes(),
                    &outcome,
                ),
    {
        let outcome = parse_files(&mut self.parser, files);
        let mut all = report_failures(&outcome.failures);
        let ghost reports = all@;
        let mut found = self.analyse_context(&outcome.context, root);
        let ghost added = found@;
        all.append(&mut found);
        assert(diags(all@) =~= diags(reports) + diags(added));
        assert(diags(all@) == reported(self.rules@, &self.config, root.spec_bytes(), &outcome));
        all
    }

    /// The edits that the rules propose for one file of `context`.
    pub fn fix_file(&self, parsed: &ParsedSource, context: &ProjectContext) -> (r: Vec<TextEdit>)
        requires
            parsed.wf(),
            context.wf(),
        ensures
            edits_of(r@) == proposed_edits(self.rules@, parsed, context),
    {
        let ghost f = edit_gatherer(self.rules@, parsed, context);
        let n = self.rules.len();
        let mut all: Vec<TextEdit> = Vec::new();
        let mut k: usize = 0;
        proof {
            assert(edits_of(all@) + gather(f, 0, n as int) =~= gather(f, 0, n as int));
        }
        while k < n
            invariant
                parsed.wf(),
                context.wf(),
                n == self.rules@.len(),
                k <= n,
                f == edit_gatherer(self.rules@, parsed, context),
                gather(f, 0, n as int) == edits_of(all@) + gather(f, k as int, n as int),
            decreases n - k,
        {
            proof {
                lemma_gather_step(f, edits_of(all@), k as int, n as int);
            }
            let ghost before = all@;
            let mut found = self.rules[k].fix(parsed, context);
            let ghost added = found@;
            all.append(&mut found);
            assert(edits_of(all@) =~= edits_of(before) + edits_of(added));
            k += 1;
        }
        proof {
            assert(edits_of(all@) + gather(f, n as int, n as int) =~= edits_of(all@));
        }
        all
    }

    /// The edits that the rules propose for the files of `context`.
    pub fn fix_context(&self, context: &ProjectContext) -> (r: Vec<FileEdits>)
        requires
            context.wf(),
        ensures
            file_edits_of(r@) == proposed(self.rules@, context),
    {
        let ghost f = file_edit_gatherer(self.rules@, context);
        let n = context.sources.len();
        let mut all: Vec<FileEdits> = Vec::new();
        let mut k: usize = 0;
        proof {
            assert(file_edits_of(all@) + gather(f, 0, n as int) =~= gather(f, 0, n as int));
        }
        while k < n
            invariant
                context.wf(),
                n == context.sources@.len(),
                k <= n,
                f == file_edit_gatherer(self.rules@, context),
                gather(f, 0, n as int) == file_edits_of(all@) + gather(f, k as int, n as int),
            decreases n - k,
        {
            proof {
                lemma_gather_step(f, file_edits_of(all@), k as int, n as int);
            }
            let ghost before = all@;
            let edits = self.fix_file(&context.sources[k], context);
            if edits.len() > 0 {
                let entry = FileEdits { path: to_vec(context.sources[k].path.as_slice()), edits };
                all.push(entry);
                assert(file_edits_of(all@) =~= file_edits_of(before) + f(k as int));
            } else {
                assert(file_edits_of(before) + f(k as int) =~= file_edits_of(before));
            }
            k += 1;
        }
        proof {
            assert(file_edits_of(all@) + gather(f, n as int, n as int) =~= file_edits_of(all@));
        }
        all
    }

    /// Parses `files` and collects the edits that the rules propose for
    /// those that parse.
    pub fn fix_files(&mut self, files: &Vec<SourceFile>) -> (r: Vec<FileEdits>)
        ensures
            final(self).rules == old(self).rules,
            final(self).config == old(self).config,
            exists|outcome: ParsedFiles|
                parse_outcome(files@, &outcome) && file_edits_of(r@) == #[trigger] proposed(
                    old(self).rules@,
                    &outcome.context,
                ),
    {
        let outcome = parse_files(&mut self.parser, files);
        let found = self.fix_context(&outcome.context);
        assert(file_edits_of(found@) == proposed(self.rules@, &outcome.context));
        found
    }
}

} // verus!

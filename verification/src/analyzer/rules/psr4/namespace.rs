//! The PSR-4 check: a file's namespace must follow from the directory it
//! stands in, relative to the namespace root.

use vstd::prelude::*;
use vstd::string::StringSliceAdditionalSpecFns;
use crate::analyzer::config::{join_path, rule_enabled, AnalyzerConfig, StrictnessLevel};
use crate::analyzer::diagnostic::{diags, lemma_diags_push, Diag, Diagnostic, Severity};
use crate::analyzer::project::{name_of, path_index, ProjectContext};
use crate::analyzer::syntax::{gather, lemma_gather_step};
use crate::analyzer::text::{
    bytes_eq, lemma_rows_push, push_all, rows, split, split_bytes, to_vec, trim, trim_bytes,
};

verus! {

/// The name under which the findings of this check go.
pub open spec fn psr4_rule_name() -> Seq<u8> {
    "psr4/namespace".spec_bytes()
}

/// `pieces` without the empty ones.
pub open spec fn non_empty(pieces: Seq<Seq<u8>>) -> Seq<Seq<u8>>
    decreases pieces.len(),
{
    if pieces.len() == 0 {
        Seq::empty()
    } else if pieces.last().len() == 0 {
        non_empty(pieces.drop_last())
    } else {
        non_empty(pieces.drop_last()).push(pieces.last())
    }
}

/// The components of a path: what stands between its slashes.
pub open spec fn components(path: Seq<u8>) -> Seq<Seq<u8>> {
    non_empty(split(path, 47))
}

/// Whether a path starts at the root of the file system.
pub open spec fn is_absolute(path: Seq<u8>) -> bool {
    path.len() > 0 && path[0] == 47
}

/// The components of `path` below `root`, if `path` lies at or below `root`.
pub open spec fn relative_to(path: Seq<u8>, root: Seq<u8>) -> Option<Seq<Seq<u8>>> {
    let p = components(path);
    let r = components(root);
    if is_absolute(path) == is_absolute(root) && r.is_prefix_of(p) {
        Some(p.subrange(r.len() as int, p.len() as int))
    } else {
        None
    }
}

/// The directory in which namespaces start: the configured one, taken
/// relative to `root` unless it is absolute, or `root` itself.
pub open spec fn namespace_root(root: Seq<u8>, custom: Option<Seq<u8>>) -> Seq<u8> {
    match custom {
        Some(c) => if is_absolute(c) {
            c
        } else {
            join_path(root, c)
        },
        None => root,
    }
}

/// `pieces`, each trimmed, without those that are blank.
pub open spec fn segments(pieces: Seq<Seq<u8>>) -> Seq<Seq<u8>>
    decreases pieces.len(),
{
    if pieces.len() == 0 {
        Seq::empty()
    } else if trim(pieces.last()).len() == 0 {
        segments(pieces.drop_last())
    } else {
        segments(pieces.drop_last()).push(trim(pieces.last()))
    }
}

/// `pieces` joined by the byte `sep`.
pub open spec fn joined(pieces: Seq<Seq<u8>>, sep: u8) -> Seq<u8>
    decreases pieces.len(),
{
    if pieces.len() == 0 {
        Seq::empty()
    } else if pieces.len() == 1 {
        pieces[0]
    } else {
        joined(pieces.drop_last(), sep).push(sep) + pieces.last()
    }
}

/// The namespace that a file at the relative path `relative` is expected to
/// declare: the segments of its directory joined by backslashes. A file
/// right under the namespace root is expected to declare none.
pub open spec fn expected_namespace(relative: Seq<Seq<u8>>) -> Option<Seq<u8>> {
    if relative.len() == 0 || segments(relative.drop_last()).len() == 0 {
        None
    } else {
        Some(joined(segments(relative.drop_last()), 92))
    }
}

/// The directory of the relative path `relative`, for display.
pub open spec fn directory_of(relative: Seq<Seq<u8>>) -> Seq<u8> {
    if relative.len() <= 1 {
        ".".spec_bytes()
    } else {
        joined(relative.drop_last(), 47)
    }
}

/// A namespace, for display.
pub open spec fn described(namespace: Option<Seq<u8>>) -> Seq<u8> {
    match namespace {
        Some(ns) => "namespace `".spec_bytes() + ns + "`".spec_bytes(),
        None => "no namespace".spec_bytes(),
    }
}

/// The message of a finding.
pub open spec fn mismatch_message(
    actual: Option<Seq<u8>>,
    relative: Seq<Seq<u8>>,
) -> Seq<u8> {
    described(actual) + " does not match PSR-4 directory \"".spec_bytes() + directory_of(relative)
        + "\" (expected ".spec_bytes() + described(expected_namespace(relative)) + ")".spec_bytes()
}

/// The severity of a finding: an error in strict mode, a warning otherwise.
pub open spec fn mismatch_severity(strictness: StrictnessLevel) -> Severity {
    match strictness {
        StrictnessLevel::Strict => Severity::Error,
        _ => Severity::Warning,
    }
}

/// Whether the namespace comparison runs under `config`.
pub open spec fn psr4_active(config: &AnalyzerConfig) -> bool {
    &&& config.psr4.enabled
    &&& rule_enabled(config.rule_map(), "psr4".spec_bytes())
    &&& rule_enabled(config.rule_map(), "psr4/namespace".spec_bytes())
}

/// What the namespace comparison reports for file number `k` of the context: a finding, if
/// the file lies under the namespace root and its namespace is not the one
/// that its directory asks for.
pub open spec fn mismatch_at(
    root: Seq<u8>,
    context: &ProjectContext,
    config: &AnalyzerConfig,
    k: int,
) -> Seq<Diag> {
    let path = context.sources@[k].path@;
    match relative_to(path, namespace_root(root, name_of(config.psr4.namespace_root))) {
        Some(relative) => match path_index(context.sources@, path, 0) {
            Some(f) => {
                let actual = name_of(context.file_scopes@[f].namespace);
                if actual == expected_namespace(relative) {
                    Seq::empty()
                } else {
                    seq![
                        Diag {
                            file: path,
                            severity: mismatch_severity(config.strictness),
                            message: mismatch_message(actual, relative),
                            rule_name: Some(psr4_rule_name()),
                            span: None,
                            snippet_before: None,
                            snippet_line: None,
                            snippet_after: None,
                            caret_col: None,
                            caret_len: 1,
                        },
                    ]
                }
            },
            None => Seq::empty(),
        },
        None => Seq::empty(),
    }
}

pub open spec fn mismatch_gatherer(
    root: Seq<u8>,
    context: &ProjectContext,
    config: &AnalyzerConfig,
) -> spec_fn(int) -> Seq<Diag> {
    |k: int| mismatch_at(root, context, config, k)
}

/// The findings of the namespace comparison: none unless it is active; else what it
/// reports for each file of the context, in order.
pub open spec fn namespace_findings(
    root: Seq<u8>,
    context: &ProjectContext,
    config: &AnalyzerConfig,
) -> Seq<Diag> {
    if psr4_active(config) {
        gather(mismatch_gatherer(root, context, config), 0, context.sources@.len() as int)
    } else {
        Seq::empty()
    }
}

fn path_components(path: &[u8]) -> (r: Vec<Vec<u8>>)
    ensures
        rows(r@) == components(path@),
{
    let pieces = split_bytes(path, 47);
    let mut out: Vec<Vec<u8>> = Vec::new();
    let mut i: usize = 0;
    proof {
        assert(rows(pieces@).subrange(0, 0) =~= Seq::empty());
        assert(rows(out@) =~= Seq::empty());
    }
    while i < pieces.len()
        invariant
            i <= pieces.len(),
            rows(out@) == non_empty(rows(pieces@).subrange(0, i as int)),
        decreases pieces.len() - i,
    {
        proof {
            let upto = rows(pieces@).subrange(0, i + 1);
            assert(upto.drop_last() =~= rows(pieces@).subrange(0, i as int));
            assert(upto.last() == pieces@[i as int]@);
        }
        if pieces[i].len() > 0 {
            let owned = to_vec(pieces[i].as_slice());
            proof {
                lemma_rows_push(out@, owned);
            }
            out.push(owned);
        }
        i += 1;
    }
    proof {
        assert(rows(pieces@).subrange(0, pieces@.len() as int) =~= rows(pieces@));
    }
    out
}

fn starts_at_root(path: &[u8]) -> (r: bool)
    ensures
        r == is_absolute(path@),
{
    path.len() > 0 && path[0] == 47
}

/// The components of `path` below `root`, if `path` lies at or below `root`.
#[verifier::loop_isolation(false)]
pub fn strip_root(path: &[u8], root: &[u8]) -> (r: Option<Vec<Vec<u8>>>)
    ensures
        match r {
            Some(relative) => relative_to(path@, root@) == Some(rows(relative@)),
            None => relative_to(path@, root@).is_none(),
        },
{
    if starts_at_root(path) != starts_at_root(root) {
        return None;
    }
    let p = path_components(path);
    let r = path_components(root);
    if r.len() > p.len() {
        return None;
    }
    let mut i: usize = 0;
    while i < r.len()
        invariant
            i <= r.len() <= p.len(),
            forall|k: int| 0 <= k < i ==> rows(r@)[k] == rows(p@)[k],
        decreases r.len() - i,
    {
        if !bytes_eq(r[i].as_slice(), p[i].as_slice()) {
            assert(rows(r@)[i as int] != rows(p@)[i as int]);
            assert(rows(p@).subrange(0, rows(r@).len() as int)[i as int] == rows(p@)[i as int]);
            return None;
        }
        i += 1;
    }
    assert(rows(r@) =~= rows(p@).subrange(0, rows(r@).len() as int));
    let mut out: Vec<Vec<u8>> = Vec::new();
    let mut j: usize = r.len();
    proof {
        assert(rows(out@) =~= rows(p@).subrange(r@.len() as int, j as int));
    }
    while j < p.len()
        invariant
            r.len() <= j <= p.len(),
            rows(out@) == rows(p@).subrange(r@.len() as int, j as int),
        decreases p.len() - j,
    {
        let owned = to_vec(p[j].as_slice());
        proof {
            lemma_rows_push(out@, owned);
            assert(rows(p@).subrange(r@.len() as int, j + 1) =~= rows(p@).subrange(
                r@.len() as int,
                j as int,
            ).push(owned@));
        }
        out.push(owned);
        j += 1;
    }
    Some(out)
}

/// The directory in which namespaces start.
pub fn resolve_namespace_root(root: &[u8], override_root: &Option<Vec<u8>>) -> (r: Vec<u8>)
    ensures
        r@ == namespace_root(root@, name_of(*override_root)),
{
    match override_root {
        Some(custom) => {
            if starts_at_root(custom.as_slice()) {
                to_vec(custom.as_slice())
            } else {
                let mut out: Vec<u8> = Vec::new();
                push_all(&mut out, root);
                if root.len() > 0 && root[root.len() - 1] != 47 {
                    out.push(47);
                }
                push_all(&mut out, custom.as_slice());
                assert(out@ =~= join_path(root@, custom@));
                out
            }
        },
        None => to_vec(root),
    }
}

fn join_pieces(pieces: &Vec<Vec<u8>>, upto: usize, sep: u8) -> (r: Vec<u8>)
    requires
        upto <= pieces.len(),
    ensures
        r@ == joined(rows(pieces@).subrange(0, upto as int), sep),
{
    let mut out: Vec<u8> = Vec::new();
    let mut i: usize = 0;
    proof {
        assert(rows(pieces@).subrange(0, 0) =~= Seq::empty());
    }
    while i < upto
        invariant
            i <= upto <= pieces.len(),
            out@ == joined(rows(pieces@).subrange(0, i as int), sep),
        decreases upto - i,
    {
        proof {
            let next = rows(pieces@).subrange(0, i + 1);
            assert(next.drop_last() =~= rows(pieces@).subrange(0, i as int));
            assert(next.last() == pieces@[i as int]@);
        }
        if i > 0 {
            out.push(sep);
        }
        push_all(&mut out, pieces[i].as_slice());
        i += 1;
    }
    out
}

/// The namespace that a file at the relative path `relative` is expected to
/// declare.
pub fn namespace_from_relative_path(relative: &Vec<Vec<u8>>) -> (r: Option<Vec<u8>>)
    ensures
        name_of(r) == expected_namespace(rows(relative@)),
{
    if relative.len() == 0 {
        return None;
    }
    let parent_len = relative.len() - 1;
    let ghost parent = rows(relative@).drop_last();
    let mut kept: Vec<Vec<u8>> = Vec::new();
    let mut i: usize = 0;
    proof {
        assert(parent.subrange(0, 0) =~= Seq::empty());
        assert(rows(kept@) =~= Seq::empty());
    }
    while i < parent_len
        invariant
            i <= parent_len,
            parent_len + 1 == relative.len(),
            parent == rows(relative@).drop_last(),
            rows(kept@) == segments(parent.subrange(0, i as int)),
        decreases parent_len - i,
    {
        let piece = trim_bytes(relative[i].as_slice());
        proof {
            let upto = parent.subrange(0, i + 1);
            assert(upto.drop_last() =~= parent.subrange(0, i as int));
            assert(upto.last() == relative@[i as int]@);
        }
        if piece.len() > 0 {
            let owned = to_vec(piece);
            proof {
                lemma_rows_push(kept@, owned);
            }
            kept.push(owned);
        }
        i += 1;
    }
    proof {
        assert(parent.subrange(0, parent.len() as int) =~= parent);
    }
    if kept.len() == 0 {
        None
    } else {
        let text = join_pieces(&kept, kept.len(), 92);
        proof {
            assert(rows(kept@).subrange(0, kept@.len() as int) =~= rows(kept@));
        }
        Some(text)
    }
}

/// The directory of the relative path `relative`, for display.
pub fn describe_directory(relative: &Vec<Vec<u8>>) -> (r: Vec<u8>)
    ensures
        r@ == directory_of(rows(relative@)),
{
    if relative.len() <= 1 {
        to_vec(".".as_bytes())
    } else {
        proof {
            assert(rows(relative@).subrange(0, relative@.len() - 1) =~= rows(
                relative@,
            ).drop_last());
        }
        join_pieces(relative, relative.len() - 1, 47)
    }
}

/// A namespace, for display.
pub fn describe_namespace(namespace: Option<&[u8]>) -> (r: Vec<u8>)
    ensures
        r@ == described(
            match namespace {
                Some(ns) => Some(ns@),
                None => None,
            },
        ),
{
    let mut out: Vec<u8> = Vec::new();
    match namespace {
        Some(ns) => {
            push_all(&mut out, "namespace `".as_bytes());
            push_all(&mut out, ns);
            push_all(&mut out, "`".as_bytes());
            assert(out@ =~= "namespace `".spec_bytes() + ns@ + "`".spec_bytes());
        },
        None => {
            push_all(&mut out, "no namespace".as_bytes());
            assert(out@ =~= "no namespace".spec_bytes());
        },
    }
    out
}

fn same_name(a: &Option<Vec<u8>>, b: &Option<Vec<u8>>) -> (r: bool)
    ensures
        r == (name_of(*a) == name_of(*b)),
{
    match (a, b) {
        (Some(x), Some(y)) => bytes_eq(x.as_slice(), y.as_slice()),
        (None, None) => true,
        _ => false,
    }
}

fn as_name(t: &Option<Vec<u8>>) -> (r: Option<&[u8]>)
    ensures
        (match r {
            Some(ns) => Some(ns@),
            None => None,
        }) == name_of(*t),
{
    match t {
        Some(v) => Some(v.as_slice()),
        None => None,
    }
}

fn check_file(root: &[u8], context: &ProjectContext, config: &AnalyzerConfig, k: usize) -> (r:
    Option<Diagnostic>)
    requires
        context.wf(),
        k < context.sources.len(),
    ensures
        match r {
            Some(d) => mismatch_at(root@, context, config, k as int) == seq![d@],
            None => mismatch_at(root@, context, config, k as int) == Seq::<Diag>::empty(),
        },
{
    let parsed = &context.sources[k];
    let base = resolve_namespace_root(root, &config.psr4.namespace_root);
    let relative = match strip_root(parsed.path.as_slice(), base.as_slice()) {
        Some(relative) => relative,
        None => {
            return None;
        },
    };
    let scope = match context.scope_for(parsed.path.as_slice()) {
        Some(scope) => scope,
        None => {
            return None;
        },
    };
    let expected = namespace_from_relative_path(&relative);
    if same_name(&scope.namespace, &expected) {
        return None;
    }
    let severity = match config.strictness {
        StrictnessLevel::Strict => Severity::Error,
        _ => Severity::Warning,
    };
    let mut message = describe_namespace(as_name(&scope.namespace));
    push_all(&mut message, " does not match PSR-4 directory \"".as_bytes());
    push_all(&mut message, describe_directory(&relative).as_slice());
    push_all(&mut message, "\" (expected ".as_bytes());
    push_all(&mut message, describe_namespace(as_name(&expected)).as_slice());
    push_all(&mut message, ")".as_bytes());
    assert(message@ =~= mismatch_message(name_of(scope.namespace), rows(relative@)));
    let mut d = Diagnostic::new(to_vec(parsed.path.as_slice()), severity, message);
    d.rule_name = Some(to_vec("psr4/namespace".as_bytes()));
    Some(d)
}

/// Checks every file of the context against the PSR-4 convention. The
/// findings carry the rule name `psr4/namespace`.
pub fn run_namespace_checks(root: &str, context: &ProjectContext, config: &AnalyzerConfig) -> (r:
    Vec<Diagnostic>)
    requires
        context.wf(),
    ensures
        diags(r@) == namespace_findings(root.spec_bytes(), context, config),
{
    let mut out: Vec<Diagnostic> = Vec::new();
    if !config.psr4.enabled || !config.enabled("psr4") || !config.enabled("psr4/namespace") {
        assert(diags(out@) =~= Seq::empty());
        return out;
    }
    let base = root.as_bytes();
    let ghost f = mismatch_gatherer(base@, context, config);
    let n = context.sources.len();
    let mut k: usize = 0;
    proof {
        assert(diags(out@) + gather(f, 0, n as int) =~= namespace_findings(
            root.spec_bytes(),
            context,
            config,
        ));
    }
    while k < n
        invariant
            context.wf(),
            n == context.sources@.len(),
            k <= n,
            base@ == root.spec_bytes(),
            psr4_active(config),
            f == mismatch_gatherer(base@, context, config),
            namespace_findings(root.spec_bytes(), context, config) == diags(out@) + gather(
                f,
                k as int,
                n as int,
            ),
        decreases n - k,
    {
        proof {
            lemma_gather_step(f, diags(out@), k as int, n as int);
        }
        let ghost before = out@;
        match check_file(base, context, config, k) {
            Some(d) => {
                proof {
                    lemma_diags_push(before, d);
                }
                out.push(d);
                assert(diags(out@) =~= diags(before) + f(k as int));
            },
            None => {
                assert(diags(before) + f(k as int) =~= diags(before));
            },
        }
        k += 1;
    }
    proof {
        assert(diags(out@) + gather(f, n as int, n as int) =~= diags(out@));
    }
    out
}

} // verus!

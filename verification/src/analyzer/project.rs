//! The project context: every parsed file of a run, what each file declares,
//! and the project-wide index of function symbols.

use vstd::prelude::*;
use vstd::slice::slice_subrange;
use vstd::string::StringSliceAdditionalSpecFns;
use crate::analyzer::parser::ParsedSource;
use crate::analyzer::rules::helpers::{node_text, node_text_of, span_at, span_of};
use crate::analyzer::syntax::{
    first_some, gather, lemma_filter_ends, lemma_filter_step, lemma_gather_step, Span,
};
use crate::analyzer::text::{
    bytes_eq, index_from, index_of_from, push_all, strip_leading, strip_leading_byte, to_vec,
};

verus! {

/// The mathematical value of a [`UseInfo`] together with its alias.
pub ghost struct Import {
    pub alias: Seq<u8>,
    pub target: Seq<u8>,
    pub span: Span,
    pub clause_start: usize,
    pub clause_end: usize,
    pub shared: bool,
}

/// What one import clause brings in.
#[derive(Debug, Clone)]
pub struct UseInfo {
    /// The fully-qualified name that the alias stands for.
    pub target: Vec<u8>,
    /// Where the alias is written.
    pub span: Span,
    /// The byte range of the whole clause.
    pub clause_start: usize,
    pub clause_end: usize,
    /// Whether the clause shares its declaration with other clauses. Such a
    /// clause cannot be removed on its own.
    pub declaration_has_multiple_clauses: bool,
}

/// The mathematical value of a [`FunctionSymbol`].
pub ghost struct Symbol {
    pub name: Seq<u8>,
    pub fq_name: Seq<u8>,
    pub file: Seq<u8>,
    pub span: Span,
    pub required_params: usize,
}

/// A function that a file declares.
#[derive(Debug, Clone)]
pub struct FunctionSymbol {
    pub name: Vec<u8>,
    pub fq_name: Vec<u8>,
    pub file: Vec<u8>,
    pub span: Span,
    /// How many parameters have no default value and are not variadic.
    pub required_params: usize,
}

impl View for FunctionSymbol {
    type V = Symbol;

    open spec fn view(&self) -> Symbol {
        Symbol {
            name: self.name@,
            fq_name: self.fq_name@,
            file: self.file@,
            span: self.span,
            required_params: self.required_params,
        }
    }
}

impl FunctionSymbol {
    /// A copy of this symbol.
    pub fn duplicate(&self) -> (r: Self)
        ensures
            r@ == self@,
    {
        FunctionSymbol {
            name: to_vec(self.name.as_slice()),
            fq_name: to_vec(self.fq_name.as_slice()),
            file: to_vec(self.file.as_slice()),
            span: self.span,
            required_params: self.required_params,
        }
    }
}

/// The values of a list of symbols.
pub open spec fn symbols_of(list: Seq<FunctionSymbol>) -> Seq<Symbol> {
    Seq::new(list.len(), |i: int| list[i]@)
}

/// The value of an alias with what it brings in.
pub open spec fn import_of(entry: (Vec<u8>, UseInfo)) -> Import {
    Import {
        alias: entry.0@,
        target: entry.1.target@,
        span: entry.1.span,
        clause_start: entry.1.clause_start,
        clause_end: entry.1.clause_end,
        shared: entry.1.declaration_has_multiple_clauses,
    }
}

/// The values of a list of imports.
pub open spec fn imports_of(list: Seq<(Vec<u8>, UseInfo)>) -> Seq<Import> {
    Seq::new(list.len(), |i: int| import_of(list[i]))
}

/// The bytes of an optional name.
pub open spec fn name_of(t: Option<Vec<u8>>) -> Option<Seq<u8>> {
    match t {
        Some(v) => Some(v@),
        None => None,
    }
}

/// What a file declares, before it joins the project context.
#[derive(Debug)]
pub struct FileMetadata {
    pub namespace: Option<Vec<u8>>,
    pub uses: Vec<(Vec<u8>, UseInfo)>,
    pub symbols: Vec<FunctionSymbol>,
}

/// Namespace and symbol information for a single file.
#[derive(Debug)]
pub struct FileScope {
    pub namespace: Option<Vec<u8>>,
    pub functions: Vec<FunctionSymbol>,
    /// The import aliases of the file. No alias occurs twice.
    pub uses: Vec<(Vec<u8>, UseInfo)>,
}

/// Stores parsed PHP sources and derived symbol data for the whole
/// workspace. `sources[k]` and `file_scopes[k]` belong to the same file.
#[derive(Debug)]
pub struct ProjectContext {
    pub sources: Vec<ParsedSource>,
    pub file_scopes: Vec<FileScope>,
    /// Every declared function, in the order in which the files were added.
    pub function_symbols: Vec<FunctionSymbol>,
}

/// `name` inside `namespace`: the two joined by a backslash, or the bare name
/// where there is no namespace.
pub open spec fn qualified(namespace: Option<Seq<u8>>, name: Seq<u8>) -> Seq<u8> {
    match namespace {
        Some(ns) => ns.push(92) + name,
        None => name,
    }
}

/// The namespace that node `j` declares, if it is a namespace definition
/// with a name.
pub open spec fn namespace_at(parsed: &ParsedSource, j: int) -> Option<Seq<u8>> {
    if parsed.tree.kind_of(j) == "namespace_definition".spec_bytes() {
        match parsed.tree.first_of_kind(
            parsed.tree.named_children(j),
            "namespace_name".spec_bytes(),
        ) {
            Some(c) => Some(node_text_of(parsed, c as int)),
            None => None,
        }
    } else {
        None
    }
}

pub open spec fn namespace_finder(parsed: &ParsedSource) -> spec_fn(int) -> Option<Seq<u8>> {
    |j: int| namespace_at(parsed, j)
}

/// The namespace of the file: that of its first namespace definition.
pub open spec fn declared_namespace(parsed: &ParsedSource) -> Option<Seq<u8>> {
    first_some(namespace_finder(parsed), 0, parsed.tree.nodes.len() as int)
}

/// Whether the parameter at node `c` has a default value.
pub open spec fn has_default(parsed: &ParsedSource, c: int) -> bool {
    exists|k: int|
        0 <= k < parsed.tree.children(c).len() && fills_field(
            parsed,
            #[trigger] parsed.tree.children(c)[k] as int,
            "default_value".spec_bytes(),
        )
}

/// Whether node `i` fills the field `field` of its parent.
pub open spec fn fills_field(parsed: &ParsedSource, i: int, field: Seq<u8>) -> bool {
    match parsed.tree.nodes[i].field {
        Some(f) => f.spec_bytes() == field,
        None => false,
    }
}

/// Whether the parameter at node `c` must be given: it is a plain parameter,
/// not a variadic one, and has no default value.
pub open spec fn is_required(parsed: &ParsedSource, c: int) -> bool {
    parsed.tree.kind_of(c) == "simple_parameter".spec_bytes() && !has_default(parsed, c)
}

/// How many parameters of the parameter list at node `formal` must be given.
pub open spec fn required_count(parsed: &ParsedSource, formal: int) -> nat {
    parsed.tree.named_children(formal).filter(|c: usize| is_required(parsed, c as int)).len()
}

/// The function symbol that node `j` declares, if it is a function
/// definition with a name.
pub open spec fn symbol_at(parsed: &ParsedSource, namespace: Option<Seq<u8>>, j: int) -> Seq<
    Symbol,
> {
    if parsed.tree.kind_of(j) == "function_definition".spec_bytes() {
        match parsed.tree.first_of_kind(parsed.tree.named_children(j), "name".spec_bytes()) {
            Some(n) => seq![
                Symbol {
                    name: node_text_of(parsed, n as int),
                    fq_name: qualified(namespace, node_text_of(parsed, n as int)),
                    file: parsed.path@,
                    span: span_at(parsed, j),
                    required_params: match parsed.tree.first_of_kind(
                        parsed.tree.named_children(j),
                        "formal_parameters".spec_bytes(),
                    ) {
                        Some(formal) => required_count(parsed, formal as int) as usize,
                        None => 0,
                    },
                },
            ],
            None => Seq::empty(),
        }
    } else {
        Seq::empty()
    }
}

pub open spec fn symbol_gatherer(parsed: &ParsedSource, namespace: Option<Seq<u8>>) -> spec_fn(
    int,
) -> Seq<Symbol> {
    |j: int| symbol_at(parsed, namespace, j)
}

/// The function symbols of the file, in document order.
pub open spec fn declared_symbols(parsed: &ParsedSource, namespace: Option<Seq<u8>>) -> Seq<
    Symbol,
> {
    gather(symbol_gatherer(parsed, namespace), 0, parsed.tree.nodes.len() as int)
}

/// The last of `list` that has the kind `kind`.
pub open spec fn last_of_kind(parsed: &ParsedSource, list: Seq<usize>, kind: Seq<u8>) -> Option<
    usize,
>
    decreases list.len(),
{
    if list.len() == 0 {
        None
    } else if parsed.tree.kind_of(list.last() as int) == kind {
        Some(list.last())
    } else {
        last_of_kind(parsed, list.drop_last(), kind)
    }
}

/// The node that names the alias of the import clause at node `clause`
/// whose imported name is at node `q`: the name behind `as` if there is one,
/// else the last segment of the imported name.
pub open spec fn alias_node(parsed: &ParsedSource, clause: int, q: int) -> Option<usize> {
    let tail = last_of_kind(parsed, parsed.tree.named_children(q), "name".spec_bytes());
    match parsed.tree.first_of_kind(
        parsed.tree.named_children(clause),
        "namespace_aliasing_clause".spec_bytes(),
    ) {
        Some(a) => match parsed.tree.first_of_kind(
            parsed.tree.named_children(a as int),
            "name".spec_bytes(),
        ) {
            Some(n) => Some(n),
            None => tail,
        },
        None => tail,
    }
}

/// What the child `c` of an import declaration brings in, if it is an import
/// clause with a qualified name and an alias.
pub open spec fn clause_import(parsed: &ParsedSource, c: int, shared: bool) -> Seq<Import> {
    if parsed.tree.kind_of(c) == "namespace_use_clause".spec_bytes() {
        match parsed.tree.first_of_kind(
            parsed.tree.named_children(c),
            "qualified_name".spec_bytes(),
        ) {
            Some(q) => match alias_node(parsed, c, q as int) {
                Some(a) => seq![
                    Import {
                        alias: node_text_of(parsed, a as int),
                        target: node_text_of(parsed, q as int),
                        span: span_at(parsed, a as int),
                        clause_start: parsed.tree.nodes[c].start_byte,
                        clause_end: parsed.tree.nodes[c].end_byte,
                        shared,
                    },
                ],
                None => Seq::empty(),
            },
            None => Seq::empty(),
        }
    } else {
        Seq::empty()
    }
}

/// How many import clauses the declaration at node `j` holds.
pub open spec fn clause_count(parsed: &ParsedSource, j: int) -> nat {
    parsed.tree.named_children_of_kind(j, "namespace_use_clause".spec_bytes()).len()
}

pub open spec fn clause_gatherer(parsed: &ParsedSource, j: int) -> spec_fn(int) -> Seq<Import> {
    |k: int| clause_import(parsed, parsed.tree.named_children(j)[k] as int, clause_count(parsed, j) > 1)
}

/// What node `j` brings in, if it is an import declaration: the imports of
/// its clauses, in order.
pub open spec fn imports_at(parsed: &ParsedSource, j: int) -> Seq<Import> {
    if parsed.tree.kind_of(j) == "namespace_use_declaration".spec_bytes() {
        gather(clause_gatherer(parsed, j), 0, parsed.tree.named_children(j).len() as int)
    } else {
        Seq::empty()
    }
}

pub open spec fn import_gatherer(parsed: &ParsedSource) -> spec_fn(int) -> Seq<Import> {
    |j: int| imports_at(parsed, j)
}

/// Every import of the file, in document order.
pub open spec fn written_imports(parsed: &ParsedSource) -> Seq<Import> {
    gather(import_gatherer(parsed), 0, parsed.tree.nodes.len() as int)
}

/// Whether `list` holds an import under `alias`.
pub open spec fn has_alias(list: Seq<Import>, alias: Seq<u8>) -> bool {
    exists|k: int| 0 <= k < list.len() && (#[trigger] list[k]).alias == alias
}

/// `list` without the imports whose alias was seen before: the first import
/// under an alias wins.
pub open spec fn first_per_alias(list: Seq<Import>) -> Seq<Import>
    decreases list.len(),
{
    if list.len() == 0 {
        Seq::empty()
    } else {
        let rest = first_per_alias(list.drop_last());
        if has_alias(rest, list.last().alias) {
            rest
        } else {
            rest.push(list.last())
        }
    }
}

/// The import aliases of the file.
pub open spec fn declared_uses(parsed: &ParsedSource) -> Seq<Import> {
    first_per_alias(written_imports(parsed))
}

/// Whether no alias occurs twice in `list`.
pub open spec fn distinct_aliases(list: Seq<Import>) -> bool {
    forall|i: int, j: int| 0 <= i < j < list.len() ==> list[i].alias != list[j].alias
}

/// Where the first import under an alias wins, no alias occurs twice.
pub proof fn lemma_first_per_alias_distinct(list: Seq<Import>)
    ensures
        distinct_aliases(first_per_alias(list)),
    decreases list.len(),
{
    if list.len() > 0 {
        let rest = first_per_alias(list.drop_last());
        lemma_first_per_alias_distinct(list.drop_last());
        if !has_alias(rest, list.last().alias) {
            let all = rest.push(list.last());
            assert forall|i: int, j: int| 0 <= i < j < all.len() implies all[i].alias
                != all[j].alias by {
                if j == rest.len() {
                    assert(rest[i].alias != list.last().alias);
                }
            }
        }
    }
}

/// Whether `scope` holds what the file `parsed` declares: its namespace,
/// its import aliases, the first under each alias, and its function
/// symbols.
pub open spec fn scope_of_file(scope: &FileScope, parsed: &ParsedSource) -> bool {
    &&& name_of(scope.namespace) == declared_namespace(parsed)
    &&& imports_of(scope.uses@) == declared_uses(parsed)
    &&& symbols_of(scope.functions@) == declared_symbols(parsed, declared_namespace(parsed))
}

/// The function symbols that the files `inserted` declare, file by file in
/// the order of the files.
pub open spec fn symbol_index(inserted: Seq<ParsedSource>) -> Seq<Symbol>
    decreases inserted.len(),
{
    if inserted.len() == 0 {
        Seq::empty()
    } else {
        symbol_index(inserted.drop_last()) + declared_symbols(
            &inserted.last(),
            declared_namespace(&inserted.last()),
        )
    }
}

/// Whether no path occurs twice among `sources`.
pub open spec fn distinct_paths(sources: Seq<ParsedSource>) -> bool {
    forall|i: int, j: int| 0 <= i < j < sources.len() ==> sources[i].path@ != sources[j].path@
}

/// What `alias` stands for under `uses`.
pub open spec fn alias_target(uses: Seq<Import>, alias: Seq<u8>) -> Option<Seq<u8>>
    decreases uses.len(),
{
    if uses.len() == 0 {
        None
    } else if uses[0].alias == alias {
        Some(uses[0].target)
    } else {
        alias_target(uses.drop_first(), alias)
    }
}

/// The fully-qualified names that `name` may stand for in a file with the
/// given namespace and imports, most specific first: a name that starts with
/// a backslash stands for itself alone; any other name may go through an
/// import alias, then through the file's namespace, and at last stands for
/// itself.
pub open spec fn candidate_names(
    name: Seq<u8>,
    namespace: Option<Seq<u8>>,
    uses: Seq<Import>,
) -> Seq<Seq<u8>> {
    let normalized = strip_leading(name, 92);
    if name.len() > 0 && name[0] == 92 {
        seq![normalized]
    } else {
        let cut = index_from(normalized, 92, 0);
        let first = normalized.subrange(0, cut);
        let via_alias = match alias_target(uses, first) {
            Some(target) => if cut + 1 < normalized.len() {
                seq![target.push(92) + normalized.subrange(cut + 1, normalized.len() as int)]
            } else {
                seq![target]
            },
            None => Seq::empty(),
        };
        let via_namespace = match namespace {
            Some(ns) => seq![ns.push(92) + normalized],
            None => Seq::empty(),
        };
        via_alias + via_namespace + seq![normalized]
    }
}

/// The index of the first of `symbols` with the fully-qualified name `fq`.
pub open spec fn first_symbol(symbols: Seq<Symbol>, fq: Seq<u8>, from: int) -> Option<int>
    decreases symbols.len() - from,
{
    if from < 0 || from >= symbols.len() {
        None
    } else if symbols[from].fq_name == fq {
        Some(from)
    } else {
        first_symbol(symbols, fq, from + 1)
    }
}

/// The index of the symbol that the first candidate with any symbol names.
pub open spec fn resolved(symbols: Seq<Symbol>, candidates: Seq<Seq<u8>>) -> Option<int>
    decreases candidates.len(),
{
    if candidates.len() == 0 {
        None
    } else {
        match first_symbol(symbols, candidates[0], 0) {
            Some(k) => Some(k),
            None => resolved(symbols, candidates.drop_first()),
        }
    }
}

/// The index of the first of `paths` that equals `path`.
pub open spec fn path_index(sources: Seq<ParsedSource>, path: Seq<u8>, from: int) -> Option<int>
    decreases sources.len() - from,
{
    if from < 0 || from >= sources.len() {
        None
    } else if sources[from].path@ == path {
        Some(from)
    } else {
        path_index(sources, path, from + 1)
    }
}

/// Where `path_index` finds a path, a file with that path stands.
pub proof fn lemma_path_index_found(sources: Seq<ParsedSource>, path: Seq<u8>, from: int)
    requires
        path_index(sources, path, from).is_some(),
    ensures
        from <= path_index(sources, path, from).unwrap() < sources.len(),
        sources[path_index(sources, path, from).unwrap()].path@ == path,
    decreases sources.len() - from,
{
    if 0 <= from < sources.len() && sources[from].path@ != path {
        lemma_path_index_found(sources, path, from + 1);
    }
}

/// Where `path_index` finds nothing from `from` on, no file from there on
/// has the path.
pub proof fn lemma_path_index_none(sources: Seq<ParsedSource>, path: Seq<u8>, from: int)
    requires
        0 <= from,
        path_index(sources, path, from).is_none(),
    ensures
        forall|k: int| from <= k < sources.len() ==> (#[trigger] sources[k]).path@ != path,
    decreases sources.len() - from,
{
    if from < sources.len() {
        lemma_path_index_none(sources, path, from + 1);
    }
}

/// Joins `name` to `namespace` with a backslash.
pub fn qualify_name(namespace: Option<&[u8]>, name: &[u8]) -> (r: Vec<u8>)
    ensures
        r@ == qualified(
            match namespace {
                Some(ns) => Some(ns@),
                None => None,
            },
            name@,
        ),
{
    let mut out: Vec<u8> = Vec::new();
    match namespace {
        Some(ns) => {
            push_all(&mut out, ns);
            out.push(92);
            push_all(&mut out, name);
            assert(out@ =~= ns@.push(92) + name@);
        },
        None => {
            push_all(&mut out, name);
            assert(out@ =~= name@);
        },
    }
    out
}

/// The namespace of the file: that of its first namespace definition.
pub fn collect_namespace(parsed: &ParsedSource) -> (r: Option<Vec<u8>>)
    requires
        parsed.wf(),
    ensures
        name_of(r) == declared_namespace(parsed),
{
    let n = parsed.tree.nodes.len();
    let mut j: usize = 0;
    while j < n
        invariant
            parsed.wf(),
            n == parsed.tree.nodes.len(),
            j <= n,
            declared_namespace(parsed) == first_some(namespace_finder(parsed), j as int, n as int),
        decreases n - j,
    {
        if parsed.tree.is_kind(j, "namespace_definition") {
            match parsed.tree.child_by_kind(j, "namespace_name") {
                Some(c) => {
                    return Some(to_vec(node_text(parsed, c)));
                },
                None => {},
            }
        }
        j += 1;
    }
    None
}

/// Whether the parameter at node `c` has a default value.
fn parameter_has_default(parsed: &ParsedSource, c: usize) -> (r: bool)
    requires
        parsed.wf(),
        c < parsed.tree.nodes.len(),
    ensures
        r == has_default(parsed, c as int),
{
    let kids = parsed.tree.children_of(c);
    let mut k: usize = 0;
    while k < kids.len()
        invariant
            k <= kids.len(),
            kids@ == parsed.tree.children(c as int),
            forall|m: int| 0 <= m < kids@.len() ==> #[trigger] kids@[m] < parsed.tree.nodes.len(),
            forall|m: int|
                0 <= m < k ==> !fills_field(
                    parsed,
                    #[trigger] kids@[m] as int,
                    "default_value".spec_bytes(),
                ),
        decreases kids.len() - k,
    {
        let hit = match parsed.tree.nodes[kids[k]].field {
            Some(f) => bytes_eq(f.as_bytes(), "default_value".as_bytes()),
            None => false,
        };
        if hit {
            return true;
        }
        k += 1;
    }
    false
}

/// How many parameters of the parameter list at node `formal` must be given.
fn count_required_parameters(parsed: &ParsedSource, formal: usize) -> (r: usize)
    requires
        parsed.wf(),
        formal < parsed.tree.nodes.len(),
    ensures
        r == required_count(parsed, formal as int),
{
    let kids = parsed.tree.named_children_of(formal);
    let ghost keep = |c: usize| is_required(parsed, c as int);
    let mut count: usize = 0;
    let mut k: usize = 0;
    proof {
        lemma_filter_ends(kids@, keep);
    }
    while k < kids.len()
        invariant
            parsed.wf(),
            k <= kids.len(),
            count <= k,
            keep == (|c: usize| is_required(parsed, c as int)),
            forall|m: int| 0 <= m < kids@.len() ==> #[trigger] kids@[m] < parsed.tree.nodes.len(),
            count == kids@.subrange(0, k as int).filter(keep).len(),
        decreases kids.len() - k,
    {
        let c = kids[k];
        proof {
            lemma_filter_step(kids@, keep, k as int);
        }
        if parsed.tree.is_kind(c, "simple_parameter") && !parameter_has_default(parsed, c) {
            count += 1;
        }
        k += 1;
    }
    proof {
        lemma_filter_ends(kids@, keep);
    }
    count
}

/// The function symbols of the file, in document order.
pub fn collect_function_symbols(parsed: &ParsedSource, namespace: Option<&[u8]>) -> (r: Vec<
    FunctionSymbol,
>)
    requires
        parsed.wf(),
    ensures
        symbols_of(r@) == declared_symbols(
            parsed,
            match namespace {
                Some(ns) => Some(ns@),
                None => None,
            },
        ),
{
    let ghost ns: Option<Seq<u8>> = match namespace {
        Some(ns) => Some(ns@),
        None => None,
    };
    let ghost f = symbol_gatherer(parsed, ns);
    let n = parsed.tree.nodes.len();
    let mut symbols: Vec<FunctionSymbol> = Vec::new();
    let mut j: usize = 0;
    proof {
        assert(symbols_of(symbols@) + gather(f, 0, n as int) =~= declared_symbols(parsed, ns));
    }
    while j < n
        invariant
            parsed.wf(),
            n == parsed.tree.nodes.len(),
            j <= n,
            f == symbol_gatherer(parsed, ns),
            ns == (match namespace {
                Some(ns) => Some(ns@),
                None => None,
            }),
            declared_symbols(parsed, ns) == symbols_of(symbols@) + gather(f, j as int, n as int),
        decreases n - j,
    {
        proof {
            lemma_gather_step(f, symbols_of(symbols@), j as int, n as int);
        }
        let ghost before = symbols@;
        if parsed.tree.is_kind(j, "function_definition") {
            match parsed.tree.child_by_kind(j, "name") {
                Some(name_node) => {
                    let name = node_text(parsed, name_node);
                    let required_params = match parsed.tree.child_by_kind(j, "formal_parameters") {
                        Some(formal) => count_required_parameters(parsed, formal),
                        None => 0,
                    };
                    let symbol = FunctionSymbol {
                        name: to_vec(name),
                        fq_name: qualify_name(namespace, name),
                        file: to_vec(parsed.path.as_slice()),
                        span: span_of(parsed, j),
                        required_params,
                    };
                    symbols.push(symbol);
                    proof {
                        assert(symbols_of(symbols@) =~= symbols_of(before) + f(j as int));
                    }
                },
                None => {
                    assert(symbols_of(before) + f(j as int) =~= symbols_of(before));
                },
            }
        } else {
            assert(symbols_of(before) + f(j as int) =~= symbols_of(before));
        }
        j += 1;
    }
    proof {
        assert(symbols_of(symbols@) + gather(f, n as int, n as int) =~= symbols_of(symbols@));
    }
    symbols
}

/// The last named child of node `q` that is a name.
fn last_name_in_node(parsed: &ParsedSource, q: usize) -> (r: Option<usize>)
    requires
        parsed.wf(),
        q < parsed.tree.nodes.len(),
    ensures
        r == last_of_kind(parsed, parsed.tree.named_children(q as int), "name".spec_bytes()),
        r.is_some() ==> r.unwrap() < parsed.tree.nodes.len(),
{
    let kids = parsed.tree.named_children_of(q);
    let mut k: usize = kids.len();
    proof {
        assert(kids@.subrange(0, kids@.len() as int) =~= kids@);
    }
    while k > 0
        invariant
            k <= kids.len(),
            kids@ == parsed.tree.named_children(q as int),
            forall|m: int| 0 <= m < kids@.len() ==> #[trigger] kids@[m] < parsed.tree.nodes.len(),
            last_of_kind(parsed, kids@, "name".spec_bytes()) == last_of_kind(
                parsed,
                kids@.subrange(0, k as int),
                "name".spec_bytes(),
            ),
        decreases k,
    {
        let c = kids[k - 1];
        proof {
            let upto = kids@.subrange(0, k as int);
            assert(upto.last() == c);
            assert(upto.drop_last() =~= kids@.subrange(0, k - 1));
        }
        if parsed.tree.is_kind(c, "name") {
            return Some(c);
        }
        k -= 1;
    }
    None
}

/// The node that names the alias of an import clause.
fn alias_node_from_clause(parsed: &ParsedSource, clause: usize, q: usize) -> (r: Option<usize>)
    requires
        parsed.wf(),
        clause < parsed.tree.nodes.len(),
        q < parsed.tree.nodes.len(),
    ensures
        r == alias_node(parsed, clause as int, q as int),
        r.is_some() ==> r.unwrap() < parsed.tree.nodes.len(),
{
    match parsed.tree.child_by_kind(clause, "namespace_aliasing_clause") {
        Some(a) => {
            match parsed.tree.child_by_kind(a, "name") {
                Some(n) => {
                    return Some(n);
                },
                None => {},
            }
        },
        None => {},
    }
    last_name_in_node(parsed, q)
}

/// Whether `uses` holds an import under `alias`.
fn uses_alias(uses: &Vec<(Vec<u8>, UseInfo)>, alias: &[u8]) -> (r: bool)
    ensures
        r == has_alias(imports_of(uses@), alias@),
{
    let mut k: usize = 0;
    while k < uses.len()
        invariant
            k <= uses.len(),
            forall|m: int| 0 <= m < k ==> (#[trigger] imports_of(uses@)[m]).alias != alias@,
        decreases uses.len() - k,
    {
        if bytes_eq(uses[k].0.as_slice(), alias) {
            assert(imports_of(uses@)[k as int].alias == alias@);
            return true;
        }
        k += 1;
    }
    false
}

/// What the child at node `c` of an import declaration brings in.
fn import_of_clause(parsed: &ParsedSource, c: usize, shared: bool) -> (r: Option<
    (Vec<u8>, UseInfo),
>)
    requires
        parsed.wf(),
        c < parsed.tree.nodes.len(),
    ensures
        match r {
            Some(entry) => clause_import(parsed, c as int, shared) == seq![import_of(entry)],
            None => clause_import(parsed, c as int, shared) == Seq::<Import>::empty(),
        },
{
    if !parsed.tree.is_kind(c, "namespace_use_clause") {
        return None;
    }
    let q = match parsed.tree.child_by_kind(c, "qualified_name") {
        Some(q) => q,
        None => {
            return None;
        },
    };
    let a = match alias_node_from_clause(parsed, c, q) {
        Some(a) => a,
        None => {
            return None;
        },
    };
    let info = UseInfo {
        target: to_vec(node_text(parsed, q)),
        span: span_of(parsed, a),
        clause_start: parsed.tree.nodes[c].start_byte,
        clause_end: parsed.tree.nodes[c].end_byte,
        declaration_has_multiple_clauses: shared,
    };
    Some((to_vec(node_text(parsed, a)), info))
}

/// Adds `entry` to `uses` unless its alias is there.
fn insert_first(uses: &mut Vec<(Vec<u8>, UseInfo)>, entry: (Vec<u8>, UseInfo), Ghost(seen): Ghost<
    Seq<Import>,
>)
    requires
        imports_of(old(uses)@) == first_per_alias(seen),
    ensures
        imports_of(final(uses)@) == first_per_alias(seen.push(import_of(entry))),
{
    let ghost before = uses@;
    let ghost next = seen.push(import_of(entry));
    proof {
        assert(next.drop_last() =~= seen);
        assert(next.last() == import_of(entry));
    }
    if !uses_alias(uses, entry.0.as_slice()) {
        uses.push(entry);
        assert(imports_of(uses@) =~= imports_of(before).push(import_of(entry)));
    }
}

/// Adds the imports of the declaration at node `j` to `uses`.
fn collect_declaration(
    parsed: &ParsedSource,
    j: usize,
    uses: &mut Vec<(Vec<u8>, UseInfo)>,
    Ghost(seen): Ghost<Seq<Import>>,
)
    requires
        parsed.wf(),
        j < parsed.tree.nodes.len(),
        imports_of(old(uses)@) == first_per_alias(seen),
    ensures
        imports_of(final(uses)@) == first_per_alias(seen + imports_at(parsed, j as int)),
{
    if !parsed.tree.is_kind(j, "namespace_use_declaration") {
        assert(seen + imports_at(parsed, j as int) =~= seen);
        return ;
    }
    let kids = parsed.tree.named_children_of(j);
    let shared = parsed.tree.children_by_kind(j, "namespace_use_clause").len() > 1;
    let ghost g = clause_gatherer(parsed, j as int);
    let ghost mut done = seen;
    let n = kids.len();
    let mut k: usize = 0;
    proof {
        assert(done + gather(g, 0, n as int) =~= seen + imports_at(parsed, j as int));
    }
    while k < n
        invariant
            parsed.wf(),
            j < parsed.tree.nodes.len(),
            k <= n,
            n == kids@.len(),
            kids@ == parsed.tree.named_children(j as int),
            forall|m: int| 0 <= m < kids@.len() ==> #[trigger] kids@[m] < parsed.tree.nodes.len(),
            g == clause_gatherer(parsed, j as int),
            shared == (clause_count(parsed, j as int) > 1),
            seen + imports_at(parsed, j as int) == done + gather(g, k as int, n as int),
            imports_of(uses@) == first_per_alias(done),
        decreases n - k,
    {
        proof {
            lemma_gather_step(g, done, k as int, n as int);
        }
        match import_of_clause(parsed, kids[k], shared) {
            Some(entry) => {
                let ghost import = import_of(entry);
                insert_first(uses, entry, Ghost(done));
                proof {
                    assert(done + g(k as int) =~= done.push(import));
                    done = done.push(import);
                }
            },
            None => {
                proof {
                    assert(done + g(k as int) =~= done);
                }
            },
        }
        k += 1;
    }
    proof {
        assert(done + gather(g, n as int, n as int) =~= done);
    }
}

/// The import aliases of the file. The first import under an alias wins.
pub fn collect_use_aliases(parsed: &ParsedSource) -> (r: Vec<(Vec<u8>, UseInfo)>)
    requires
        parsed.wf(),
    ensures
        imports_of(r@) == declared_uses(parsed),
{
    let ghost f = import_gatherer(parsed);
    let n = parsed.tree.nodes.len();
    let mut uses: Vec<(Vec<u8>, UseInfo)> = Vec::new();
    let ghost mut seen: Seq<Import> = Seq::empty();
    let mut j: usize = 0;
    proof {
        assert(seen + gather(f, 0, n as int) =~= written_imports(parsed));
        assert(imports_of(uses@) =~= first_per_alias(seen));
    }
    while j < n
        invariant
            parsed.wf(),
            n == parsed.tree.nodes.len(),
            j <= n,
            f == import_gatherer(parsed),
            written_imports(parsed) == seen + gather(f, j as int, n as int),
            imports_of(uses@) == first_per_alias(seen),
        decreases n - j,
    {
        proof {
            lemma_gather_step(f, seen, j as int, n as int);
        }
        collect_declaration(parsed, j, &mut uses, Ghost(seen));
        proof {
            seen = seen + f(j as int);
        }
        j += 1;
    }
    proof {
        assert(seen + gather(f, n as int, n as int) =~= seen);
    }
    uses
}

impl FileMetadata {
    /// Whether this is what the file `parsed` declares: its namespace, its
    /// import aliases, the first under each alias, and its function symbols.
    pub open spec fn describes(&self, parsed: &ParsedSource) -> bool {
        &&& name_of(self.namespace) == declared_namespace(parsed)
        &&& imports_of(self.uses@) == declared_uses(parsed)
        &&& symbols_of(self.symbols@) == declared_symbols(parsed, declared_namespace(parsed))
    }
}

/// What the file declares: its namespace, its import aliases and its
/// function symbols.
pub fn collect_file_metadata(parsed: &ParsedSource) -> (r: FileMetadata)
    requires
        parsed.wf(),
    ensures
        r.describes(parsed),
{
    let namespace = collect_namespace(parsed);
    let uses = collect_use_aliases(parsed);
    let symbols = match &namespace {
        Some(ns) => collect_function_symbols(parsed, Some(ns.as_slice())),
        None => collect_function_symbols(parsed, None),
    };
    FileMetadata { namespace, uses, symbols }
}

/// What `alias` stands for under `uses`.
fn lookup_alias<'a>(uses: &'a Vec<(Vec<u8>, UseInfo)>, alias: &[u8]) -> (r: Option<&'a [u8]>)
    ensures
        match r {
            Some(t) => alias_target(imports_of(uses@), alias@) == Some(t@),
            None => alias_target(imports_of(uses@), alias@).is_none(),
        },
{
    let ghost all = imports_of(uses@);
    let mut k: usize = 0;
    proof {
        assert(all.subrange(0, all.len() as int) =~= all);
    }
    while k < uses.len()
        invariant
            k <= uses.len(),
            all == imports_of(uses@),
            alias_target(all, alias@) == alias_target(
                all.subrange(k as int, all.len() as int),
                alias@,
            ),
        decreases uses.len() - k,
    {
        proof {
            let rest = all.subrange(k as int, all.len() as int);
            assert(rest[0] == all[k as int]);
            assert(rest.drop_first() =~= all.subrange(k + 1, all.len() as int));
        }
        if bytes_eq(uses[k].0.as_slice(), alias) {
            return Some(uses[k].1.target.as_slice());
        }
        k += 1;
    }
    None
}

/// The fully-qualified names that `name` may stand for in `scope`, most
/// specific first.
pub fn candidate_function_names(name: &[u8], scope: &FileScope) -> (r: Vec<Vec<u8>>)
    ensures
        crate::analyzer::text::rows(r@) == candidate_names(
            name@,
            name_of(scope.namespace),
            imports_of(scope.uses@),
        ),
{
    let mut candidates: Vec<Vec<u8>> = Vec::new();
    let normalized = strip_leading_byte(name, 92);
    if name.len() > 0 && name[0] == 92 {
        candidates.push(to_vec(normalized));
        assert(crate::analyzer::text::rows(candidates@) =~= seq![normalized@]);
        return candidates;
    }
    let cut = index_of_from(normalized, 92, 0);
    let first = slice_subrange(normalized, 0, cut);
    let ghost via_alias: Seq<Seq<u8>>;
    match lookup_alias(&scope.uses, first) {
        Some(target) => {
            let mut joined = to_vec(target);
            if cut < normalized.len() && cut + 1 < normalized.len() {
                joined.push(92);
                push_all(&mut joined, slice_subrange(normalized, cut + 1, normalized.len()));
            }
            proof {
                via_alias = seq![joined@];
            }
            candidates.push(joined);
        },
        None => {
            proof {
                via_alias = Seq::empty();
            }
        },
    }
    assert(crate::analyzer::text::rows(candidates@) =~= via_alias);
    let ghost via_namespace: Seq<Seq<u8>>;
    match &scope.namespace {
        Some(ns) => {
            let mut joined = to_vec(ns.as_slice());
            joined.push(92);
            push_all(&mut joined, normalized);
            proof {
                via_namespace = seq![joined@];
            }
            candidates.push(joined);
        },
        None => {
            proof {
                via_namespace = Seq::empty();
            }
        },
    }
    assert(crate::analyzer::text::rows(candidates@) =~= via_alias + via_namespace);
    candidates.push(to_vec(normalized));
    assert(crate::analyzer::text::rows(candidates@) =~= via_alias + via_namespace
        + seq![normalized@]);
    candidates
}

impl ProjectContext {
    /// Every file is well formed and stands under a path of its own; every
    /// file has its scope, which holds what the file declares; and no alias
    /// occurs twice in a scope.
    pub open spec fn wf(&self) -> bool {
        &&& self.sources.len() == self.file_scopes.len()
        &&& forall|k: int| 0 <= k < self.sources.len() ==> (#[trigger] self.sources[k]).wf()
        &&& distinct_paths(self.sources@)
        &&& forall|k: int|
            0 <= k < self.sources.len() ==> scope_of_file(
                &#[trigger] self.file_scopes[k],
                &self.sources[k],
            )
        &&& forall|k: int|
            0 <= k < self.file_scopes.len() ==> distinct_aliases(
                imports_of((#[trigger] self.file_scopes[k]).uses@),
            )
    }

    /// Whether the context holds the file `parsed` alone: the file, its
    /// scope, and in the index the symbols that the file declares.
    pub open spec fn holds_alone(&self, parsed: &ParsedSource) -> bool {
        &&& self.wf()
        &&& self.sources@ == seq![*parsed]
        &&& symbols_of(self.function_symbols@) == declared_symbols(
            parsed,
            declared_namespace(parsed),
        )
    }

    /// An empty context.
    pub fn new() -> (ctx: Self)
        ensures
            ctx.wf(),
            ctx.sources@.len() == 0,
            ctx.function_symbols@.len() == 0,
    {
        ProjectContext {
            sources: Vec::new(),
            file_scopes: Vec::new(),
            function_symbols: Vec::new(),
        }
    }

    fn index_of(&self, path: &[u8]) -> (r: Option<usize>)
        ensures
            match r {
                Some(k) => path_index(self.sources@, path@, 0) == Some(k as int) && k
                    < self.sources.len(),
                None => path_index(self.sources@, path@, 0).is_none(),
            },
    {
        let mut k: usize = 0;
        while k < self.sources.len()
            invariant
                k <= self.sources.len(),
                path_index(self.sources@, path@, 0) == path_index(self.sources@, path@, k as int),
            decreases self.sources.len() - k,
        {
            if bytes_eq(self.sources[k].path.as_slice(), path) {
                return Some(k);
            }
            k += 1;
        }
        None
    }

    /// Adds a parsed file and what it declares: the file and its scope take
    /// the place of an earlier file under the same path, or come behind the
    /// files that are there; its symbols join the project-wide index.
    pub fn insert(&mut self, parsed: ParsedSource)
        requires
            old(self).wf(),
            parsed.wf(),
        ensures
            final(self).wf(),
            final(self).sources@.len() <= old(self).sources@.len() + 1,
            symbols_of(final(self).function_symbols@) == symbols_of(old(self).function_symbols@)
                + declared_symbols(&parsed, declared_namespace(&parsed)),
            match path_index(old(self).sources@, parsed.path@, 0) {
                Some(k) => {
                    &&& final(self).sources@ == old(self).sources@.update(k, parsed)
                    &&& final(self).file_scopes@.len() == old(self).file_scopes@.len()
                    &&& scope_of_file(&final(self).file_scopes@[k], &parsed)
                    &&& forall|m: int|
                        0 <= m < old(self).file_scopes@.len() && m != k ==> final(self).file_scopes@[m]
                            == old(self).file_scopes@[m]
                },
                None => {
                    &&& final(self).sources@ == old(self).sources@.push(parsed)
                    &&& final(self).file_scopes@.len() == old(self).file_scopes@.len() + 1
                    &&& scope_of_file(&final(self).file_scopes@.last(), &parsed)
                    &&& forall|m: int|
                        0 <= m < old(self).file_scopes@.len() ==> final(self).file_scopes@[m]
                            == old(self).file_scopes@[m]
                },
            },
    {
        let metadata = collect_file_metadata(&parsed);
        self.insert_with_metadata(parsed, metadata);
    }

    /// Adds a parsed file with the metadata that was collected from it. The
    /// file's symbols join the project-wide index behind those that are
    /// there; a file under a path that is already present takes the place
    /// of the earlier one.
    pub fn insert_with_metadata(&mut self, parsed: ParsedSource, metadata: FileMetadata)
        requires
            old(self).wf(),
            parsed.wf(),
            metadata.describes(&parsed),
        ensures
            final(self).wf(),
            final(self).sources@.len() <= old(self).sources@.len() + 1,
            symbols_of(final(self).function_symbols@) == symbols_of(old(self).function_symbols@)
                + symbols_of(metadata.symbols@),
            match path_index(old(self).sources@, parsed.path@, 0) {
                Some(k) => {
                    &&& final(self).sources@ == old(self).sources@.update(k, parsed)
                    &&& final(self).file_scopes@.len() == old(self).file_scopes@.len()
                    &&& name_of(final(self).file_scopes@[k].namespace) == name_of(
                        metadata.namespace,
                    )
                    &&& final(self).file_scopes@[k].uses == metadata.uses
                    &&& symbols_of(final(self).file_scopes@[k].functions@) == symbols_of(
                        metadata.symbols@,
                    )
                    &&& forall|m: int|
                        0 <= m < old(self).file_scopes@.len() && m != k ==> final(self).file_scopes@[m]
                            == old(self).file_scopes@[m]
                },
                None => {
                    &&& final(self).sources@ == old(self).sources@.push(parsed)
                    &&& final(self).file_scopes@.len() == old(self).file_scopes@.len() + 1
                    &&& name_of(final(self).file_scopes@.last().namespace) == name_of(
                        metadata.namespace,
                    )
                    &&& final(self).file_scopes@.last().uses == metadata.uses
                    &&& symbols_of(final(self).file_scopes@.last().functions@) == symbols_of(
                        metadata.symbols@,
                    )
                    &&& forall|m: int|
                        0 <= m < old(self).file_scopes@.len() ==> final(self).file_scopes@[m]
                            == old(self).file_scopes@[m]
                },
            },
    {
        let FileMetadata { namespace, uses, symbols } = metadata;
        let ghost start = symbols_of(self.function_symbols@);
        let mut functions: Vec<FunctionSymbol> = Vec::new();
        let mut i: usize = 0;
        proof {
            assert(symbols_of(self.function_symbols@) =~= start + symbols_of(symbols@).subrange(0, 0));
            assert(symbols_of(functions@) =~= symbols_of(symbols@).subrange(0, 0));
        }
        while i < symbols.len()
            invariant
                i <= symbols.len(),
                self.sources == old(self).sources,
                self.file_scopes == old(self).file_scopes,
                symbols_of(self.function_symbols@) == start + symbols_of(symbols@).subrange(
                    0,
                    i as int,
                ),
                symbols_of(functions@) == symbols_of(symbols@).subrange(0, i as int),
            decreases symbols.len() - i,
        {
            let ghost index_before = self.function_symbols@;
            let ghost functions_before = functions@;
            let for_index = symbols[i].duplicate();
            let for_scope = symbols[i].duplicate();
            self.function_symbols.push(for_index);
            functions.push(for_scope);
            proof {
                let upto = symbols_of(symbols@).subrange(0, i + 1);
                assert(upto =~= symbols_of(symbols@).subrange(0, i as int).push(symbols@[i as int]@));
                assert(symbols_of(self.function_symbols@) =~= symbols_of(index_before).push(
                    for_index@,
                ));
                assert(symbols_of(functions@) =~= symbols_of(functions_before).push(for_scope@));
                assert(symbols_of(self.function_symbols@) =~= start + upto);
            }
            i += 1;
        }
        proof {
            assert(symbols_of(symbols@).subrange(0, symbols@.len() as int) =~= symbols_of(
                symbols@,
            ));
        }
        let scope = FileScope { namespace, functions, uses };
        let ghost given = parsed;
        let ghost sources_before = self.sources@;
        let ghost scopes_before = self.file_scopes@;
        proof {
            assert(scope_of_file(&scope, &given));
            lemma_first_per_alias_distinct(written_imports(&given));
            assert(distinct_aliases(imports_of(scope.uses@)));
        }
        match self.index_of(parsed.path.as_slice()) {
            Some(k) => {
                proof {
                    lemma_path_index_found(sources_before, given.path@, 0);
                }
                self.sources.set(k, parsed);
                self.file_scopes.set(k, scope);
                proof {
                    assert forall|i: int, j: int|
                        0 <= i < j < self.sources@.len() implies self.sources@[i].path@
                        != self.sources@[j].path@ by {
                        assert(self.sources@[i].path@ == sources_before[i].path@);
                        assert(self.sources@[j].path@ == sources_before[j].path@);
                    }
                    assert forall|m: int| 0 <= m < self.sources.len() implies scope_of_file(
                        &#[trigger] self.file_scopes[m],
                        &self.sources[m],
                    ) by {
                        if m != k {
                            assert(scope_of_file(&scopes_before[m], &sources_before[m]));
                        }
                    }
                    assert forall|m: int| 0 <= m < self.file_scopes.len() implies distinct_aliases(
                        imports_of((#[trigger] self.file_scopes[m]).uses@),
                    ) by {
                        if m != k {
                            assert(self.file_scopes[m] == scopes_before[m]);
                        }
                    }
                }
            },
            None => {
                proof {
                    lemma_path_index_none(sources_before, given.path@, 0);
                }
                self.sources.push(parsed);
                self.file_scopes.push(scope);
                proof {
                    assert forall|i: int, j: int|
                        0 <= i < j < self.sources@.len() implies self.sources@[i].path@
                        != self.sources@[j].path@ by {
                        if j < sources_before.len() {
                            assert(self.sources@[i] == sources_before[i]);
                            assert(self.sources@[j] == sources_before[j]);
                        } else {
                            assert(self.sources@[i] == sources_before[i]);
                        }
                    }
                    assert forall|m: int| 0 <= m < self.sources.len() implies scope_of_file(
                        &#[trigger] self.file_scopes[m],
                        &self.sources[m],
                    ) by {
                        if m < sources_before.len() {
                            assert(scope_of_file(&scopes_before[m], &sources_before[m]));
                        }
                    }
                    assert forall|m: int| 0 <= m < self.file_scopes.len() implies distinct_aliases(
                        imports_of((#[trigger] self.file_scopes[m]).uses@),
                    ) by {
                        if m < scopes_before.len() {
                            assert(self.file_scopes[m] == scopes_before[m]);
                        }
                    }
                }
            },
        }
    }

    /// The parsed file under `path`.
    pub fn get(&self, path: &[u8]) -> (r: Option<&ParsedSource>)
        requires
            self.wf(),
        ensures
            match r {
                Some(p) => path_index(self.sources@, path@, 0).is_some() && *p
                    == self.sources@[path_index(self.sources@, path@, 0).unwrap()] && p.wf(),
                None => path_index(self.sources@, path@, 0).is_none(),
            },
    {
        match self.index_of(path) {
            Some(k) => Some(&self.sources[k]),
            None => None,
        }
    }

    /// The parsed files, in the order in which they were added.
    pub fn iter(&self) -> (r: &Vec<ParsedSource>)
        ensures
            r == &self.sources,
    {
        &self.sources
    }

    /// The number of files.
    pub fn len(&self) -> (r: usize)
        ensures
            r == self.sources@.len(),
    {
        self.sources.len()
    }

    /// What the file under `path` declares.
    pub fn scope_for(&self, path: &[u8]) -> (r: Option<&FileScope>)
        requires
            self.wf(),
        ensures
            match r {
                Some(s) => {
                    &&& path_index(self.sources@, path@, 0).is_some()
                    &&& *s == self.file_scopes@[path_index(self.sources@, path@, 0).unwrap()]
                    &&& scope_of_file(
                        s,
                        &self.sources@[path_index(self.sources@, path@, 0).unwrap()],
                    )
                },
                None => path_index(self.sources@, path@, 0).is_none(),
            },
    {
        match self.index_of(path) {
            Some(k) => Some(&self.file_scopes[k]),
            None => None,
        }
    }

    fn first_with_name(&self, fq: &[u8]) -> (r: Option<usize>)
        ensures
            match r {
                Some(k) => first_symbol(symbols_of(self.function_symbols@), fq@, 0) == Some(
                    k as int,
                ) && k < self.function_symbols.len(),
                None => first_symbol(symbols_of(self.function_symbols@), fq@, 0).is_none(),
            },
    {
        let ghost all = symbols_of(self.function_symbols@);
        let mut k: usize = 0;
        while k < self.function_symbols.len()
            invariant
                k <= self.function_symbols.len(),
                all == symbols_of(self.function_symbols@),
                first_symbol(all, fq@, 0) == first_symbol(all, fq@, k as int),
            decreases self.function_symbols.len() - k,
        {
            if bytes_eq(self.function_symbols[k].fq_name.as_slice(), fq) {
                return Some(k);
            }
            k += 1;
        }
        None
    }

    /// The index of the symbol that `name` stands for when it is written in
    /// the file under `path`: the first registered symbol of the first
    /// candidate name that has one.
    pub open spec fn resolution(&self, name: Seq<u8>, path: Seq<u8>) -> Option<int> {
        match path_index(self.sources@, path, 0) {
            Some(f) => resolved(
                symbols_of(self.function_symbols@),
                candidate_names(
                    name,
                    name_of(self.file_scopes@[f].namespace),
                    imports_of(self.file_scopes@[f].uses@),
                ),
            ),
            None => None,
        }
    }

    /// The function that `name`, written in the file `parsed`, stands for.
    /// `None` when the file is not part of the context or no candidate
    /// names a function.
    pub fn resolve_function_symbol(&self, name: &[u8], parsed: &ParsedSource) -> (r: Option<
        &FunctionSymbol,
    >)
        requires
            self.wf(),
        ensures
            match r {
                Some(s) => {
                    &&& self.resolution(name@, parsed.path@).is_some()
                    &&& 0 <= self.resolution(name@, parsed.path@).unwrap()
                        < self.function_symbols@.len()
                    &&& *s == self.function_symbols@[self.resolution(name@, parsed.path@).unwrap()]
                },
                None => self.resolution(name@, parsed.path@).is_none(),
            },
    {
        let scope = match self.scope_for(parsed.path.as_slice()) {
            Some(scope) => scope,
            None => {
                return None;
            },
        };
        let candidates = candidate_function_names(name, scope);
        let ghost all = crate::analyzer::text::rows(candidates@);
        let ghost symbols = symbols_of(self.function_symbols@);
        let ghost f = path_index(self.sources@, parsed.path@, 0).unwrap();
        let mut i: usize = 0;
        proof {
            assert(all.subrange(0, all.len() as int) =~= all);
        }
        while i < candidates.len()
            invariant
                i <= candidates.len(),
                path_index(self.sources@, parsed.path@, 0) == Some(f),
                all == candidate_names(
                    name@,
                    name_of(self.file_scopes@[f].namespace),
                    imports_of(self.file_scopes@[f].uses@),
                ),
                all == crate::analyzer::text::rows(candidates@),
                symbols == symbols_of(self.function_symbols@),
                resolved(symbols, all) == resolved(symbols, all.subrange(i as int, all.len() as int)),
            decreases candidates.len() - i,
        {
            proof {
                let rest = all.subrange(i as int, all.len() as int);
                assert(rest[0] == candidates@[i as int]@);
                assert(rest.drop_first() =~= all.subrange(i + 1, all.len() as int));
            }
            match self.first_with_name(candidates[i].as_slice()) {
                Some(k) => {
                    return Some(&self.function_symbols[k]);
                },
                None => {},
            }
            i += 1;
        }
        None
    }

    /// Every declared function, in the order in which the files were added.
    pub fn function_symbols(&self) -> (r: &Vec<FunctionSymbol>)
        ensures
            r == &self.function_symbols,
    {
        &self.function_symbols
    }
}

} // verus!

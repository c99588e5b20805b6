//! Asks files that use type hints to declare strict typing.

use vstd::prelude::*;
use vstd::slice::slice_subrange;
use vstd::string::StringSliceAdditionalSpecFns;
use crate::analyzer::diagnostic::{diags, Diag, Diagnostic, Severity};
use crate::analyzer::fix::{edits_of, Edit, TextEdit};
use crate::analyzer::parser::ParsedSource;
use crate::analyzer::project::ProjectContext;
use crate::analyzer::rules::helpers::{
    diagnostic_at, diagnostic_for_node, node_text, node_text_of, span_at,
};
use crate::analyzer::rules::DiagnosticRule;
use crate::analyzer::text::{
    bytes_eq, contains_bytes, ends_with, find, find_bytes, push_all, rfind_byte, rfind_byte_in,
    to_lower, to_lower_bytes, to_vec,
};

verus! {

/// The last component of a path: what follows its last `/`.
pub open spec fn file_name(path: Seq<u8>) -> Seq<u8> {
    match rfind_byte(path, 47) {
        Some(i) => path.subrange(i + 1, path.len() as int),
        None => path,
    }
}

/// Whether the rule looks at the file under `path`: its name, in lower
/// case, holds `strict_missing`.
pub open spec fn warns_for(path: Seq<u8>) -> bool {
    find(to_lower(file_name(path)), "strict_missing".spec_bytes()).is_some()
}

/// The kinds of the nodes that write a type.
pub open spec fn is_hint_kind(kind: Seq<u8>) -> bool {
    ||| kind == "primitive_type".spec_bytes()
    ||| kind == "union_type".spec_bytes()
    ||| kind == "nullable_type".spec_bytes()
    ||| kind == "intersection_type".spec_bytes()
}

/// Whether node `j` writes a type.
pub open spec fn is_hint(parsed: &ParsedSource, j: int) -> bool {
    0 <= j < parsed.tree.nodes.len() && is_hint_kind(parsed.tree.kind_of(j))
}

/// Whether the file writes a type anywhere.
pub open spec fn uses_type_hints(parsed: &ParsedSource) -> bool {
    exists|j: int| #[trigger] is_hint(parsed, j)
}

/// Whether node `j` is a declare directive named `strict_types`.
pub open spec fn is_strict_declare(parsed: &ParsedSource, j: int) -> bool {
    &&& 0 <= j < parsed.tree.nodes.len()
    &&& parsed.tree.kind_of(j) == "declare_directive".spec_bytes()
    &&& match parsed.tree.first_in_field(parsed.tree.children(j), "name".spec_bytes()) {
        Some(c) => node_text_of(parsed, c as int) == "strict_types".spec_bytes(),
        None => false,
    }
}

/// Whether the file declares strict typing.
pub open spec fn declares_strict(parsed: &ParsedSource) -> bool {
    exists|j: int| #[trigger] is_strict_declare(parsed, j)
}

/// Whether the file is at fault: the rule looks at it, it writes types, and
/// it does not declare strict typing.
pub open spec fn lacks_strict_types(parsed: &ParsedSource) -> bool {
    warns_for(parsed.path@) && uses_type_hints(parsed) && !declares_strict(parsed)
}

/// The message of the finding.
pub open spec fn strict_message() -> Seq<u8> {
    "file missing `declare(strict_types=1)`".spec_bytes()
}

/// The findings of the rule: one warning at the first child of the root, if
/// the file is at fault.
pub open spec fn strict_findings(parsed: &ParsedSource) -> Seq<Diag> {
    if lacks_strict_types(parsed) && parsed.tree.children(0).len() > 0 {
        seq![
            diagnostic_at(
                parsed.path@,
                parsed.source@,
                span_at(parsed, parsed.tree.children(0)[0] as int),
                Severity::Warning,
                strict_message(),
            ),
        ]
    } else {
        Seq::empty()
    }
}

/// The first offset at or after `from` that holds neither a carriage return
/// nor a line feed.
pub open spec fn skip_breaks(source: Seq<u8>, from: int) -> int
    decreases source.len() - from,
{
    if 0 <= from < source.len() && (source[from] == 13 || source[from] == 10) {
        skip_breaks(source, from + 1)
    } else {
        from
    }
}

/// Where the declaration is inserted: behind the opening tag and the line
/// breaks that follow it. Nowhere in a source without an opening tag.
pub open spec fn insert_offset(source: Seq<u8>) -> Option<int> {
    match find(source, "<?php".spec_bytes()) {
        Some(at) => Some(skip_breaks(source, at + "<?php".spec_bytes().len())),
        None => None,
    }
}

/// The text that is inserted at `offset`: the declaration and an empty line,
/// on a line of its own.
pub open spec fn insert_text(source: Seq<u8>, offset: int, newline: Seq<u8>) -> Seq<u8> {
    let prefix = if offset <= 0 || offset > source.len() || !newline.is_suffix_of(
        source.subrange(0, offset),
    ) {
        newline
    } else {
        Seq::empty()
    };
    prefix + "declare(strict_types=1);".spec_bytes() + newline + newline
}

/// The line ending of `source`, as bytes.
pub open spec fn newline_of(source: Seq<u8>) -> Seq<u8> {
    if find(source, "\r\n".spec_bytes()).is_some() {
        "\r\n".spec_bytes()
    } else {
        "\n".spec_bytes()
    }
}

/// The edits of the rule: the insertion of the declaration, if the file is
/// at fault and has an opening tag.
pub open spec fn strict_edits(parsed: &ParsedSource) -> Seq<Edit> {
    if lacks_strict_types(parsed) {
        match insert_offset(parsed.source@) {
            Some(offset) => seq![
                Edit {
                    start: offset as usize,
                    end: offset as usize,
                    replacement: insert_text(parsed.source@, offset, newline_of(parsed.source@)),
                },
            ],
            None => Seq::empty(),
        }
    } else {
        Seq::empty()
    }
}

/// Whether the rule looks at the parsed file.
pub fn should_warn(parsed: &ParsedSource) -> (r: bool)
    ensures
        r == warns_for(parsed.path@),
{
    let path = parsed.path.as_slice();
    let name = match rfind_byte_in(path, 47) {
        Some(i) => slice_subrange(path, i + 1, path.len()),
        None => path,
    };
    let lowered = to_lower_bytes(name);
    contains_bytes(lowered.as_slice(), "strict_missing".as_bytes())
}

fn is_hint_kind_name(kind: &str) -> (r: bool)
    ensures
        r == is_hint_kind(kind.spec_bytes()),
{
    let k = kind.as_bytes();
    bytes_eq(k, "primitive_type".as_bytes()) || bytes_eq(k, "union_type".as_bytes()) || bytes_eq(
        k,
        "nullable_type".as_bytes(),
    ) || bytes_eq(k, "intersection_type".as_bytes())
}

/// Whether the file writes a type anywhere.
pub fn has_type_hint(parsed: &ParsedSource) -> (r: bool)
    ensures
        r == uses_type_hints(parsed),
{
    let n = parsed.tree.nodes.len();
    let mut j: usize = 0;
    while j < n
        invariant
            n == parsed.tree.nodes.len(),
            j <= n,
            forall|k: int| 0 <= k < j ==> !is_hint(parsed, k),
        decreases n - j,
    {
        if is_hint_kind_name(parsed.tree.nodes[j].kind) {
            assert(is_hint(parsed, j as int));
            return true;
        }
        j += 1;
    }
    false
}

/// Whether the file declares strict typing.
pub fn has_strict_declare(parsed: &ParsedSource) -> (r: bool)
    requires
        parsed.wf(),
    ensures
        r == declares_strict(parsed),
{
    let n = parsed.tree.nodes.len();
    let mut j: usize = 0;
    while j < n
        invariant
            parsed.wf(),
            n == parsed.tree.nodes.len(),
            j <= n,
            forall|k: int| 0 <= k < j ==> !is_strict_declare(parsed, k),
        decreases n - j,
    {
        if parsed.tree.is_kind(j, "declare_directive") {
            let hit = match parsed.tree.child_by_field(j, "name") {
                Some(c) => bytes_eq(node_text(parsed, c), "strict_types".as_bytes()),
                None => false,
            };
            if hit {
                assert(is_strict_declare(parsed, j as int));
                return true;
            }
        }
        j += 1;
    }
    false
}

/// Where the declaration is inserted into `source`.
pub fn strict_types_insert_offset(source: &[u8]) -> (r: Option<usize>)
    ensures
        match r {
            Some(offset) => insert_offset(source@) == Some(offset as int) && offset <= source.len(),
            None => insert_offset(source@).is_none(),
        },
{
    let tag = "<?php".as_bytes();
    let tag_len = tag.len();
    let len = source.len();
    match find_bytes(source, tag) {
        Some(at) => {
            let mut offset: usize = at + tag_len;
            while offset < len && (source[offset] == 13 || source[offset] == 10)
                invariant
                    offset <= len,
                    len == source.len(),
                    skip_breaks(source@, at + tag_len) == skip_breaks(source@, offset as int),
                decreases len - offset,
            {
                offset += 1;
            }
            Some(offset)
        },
        None => None,
    }
}

/// The text that is inserted at `offset` of `source`.
pub fn strict_types_insert_text(source: &[u8], offset: usize, newline: &[u8]) -> (r: Vec<u8>)
    ensures
        r@ == insert_text(source@, offset as int, newline@),
{
    let needs_prefix = offset == 0 || offset > source.len() || !ends_with(
        slice_subrange(source, 0, offset),
        newline,
    );
    let mut text: Vec<u8> = Vec::new();
    if needs_prefix {
        push_all(&mut text, newline);
    }
    push_all(&mut text, "declare(strict_types=1);".as_bytes());
    push_all(&mut text, newline);
    push_all(&mut text, newline);
    assert(text@ =~= insert_text(source@, offset as int, newline@));
    text
}

pub fn newline_bytes(source: &[u8]) -> (r: &'static [u8])
    ensures
        r@ == newline_of(source@),
{
    if contains_bytes(source, "\r\n".as_bytes()) {
        "\r\n".as_bytes()
    } else {
        "\n".as_bytes()
    }
}

/// The rule `strict_typing/strict_types`.
#[derive(Clone, Copy, Debug)]
pub struct StrictTypesRule;

impl StrictTypesRule {
    pub fn new() -> Self {
        StrictTypesRule
    }

    fn at_fault(parsed: &ParsedSource) -> (r: bool)
        requires
            parsed.wf(),
        ensures
            r == lacks_strict_types(parsed),
    {
        should_warn(parsed) && has_type_hint(parsed) && !has_strict_declare(parsed)
    }
}

impl DiagnosticRule for StrictTypesRule {
    open spec fn rule_name(&self) -> Seq<u8> {
        "strict_typing/strict_types".spec_bytes()
    }

    open spec fn findings(&self, parsed: &ParsedSource, context: &ProjectContext) -> Seq<Diag> {
        strict_findings(parsed)
    }

    open spec fn edits(&self, parsed: &ParsedSource, context: &ProjectContext) -> Seq<Edit> {
        strict_edits(parsed)
    }

    fn name(&self) -> (r: &'static str) {
        "strict_typing/strict_types"
    }

    fn run(&self, parsed: &ParsedSource, context: &ProjectContext) -> (r: Vec<Diagnostic>) {
        let mut out: Vec<Diagnostic> = Vec::new();
        if Self::at_fault(parsed) {
            let kids = parsed.tree.children_of(0);
            if kids.len() > 0 {
                let message = to_vec("file missing `declare(strict_types=1)`".as_bytes());
                let d = diagnostic_for_node(parsed, kids[0], Severity::Warning, message);
                out.push(d);
                assert(diags(out@) =~= seq![d@]);
                return out;
            }
        }
        assert(diags(out@) =~= Seq::empty());
        out
    }

    fn fix(&self, parsed: &ParsedSource, context: &ProjectContext) -> (r: Vec<TextEdit>) {
        let mut out: Vec<TextEdit> = Vec::new();
        if Self::at_fault(parsed) {
            let source = parsed.source.as_slice();
            match strict_types_insert_offset(source) {
                Some(offset) => {
                    let text = strict_types_insert_text(source, offset, newline_bytes(source));
                    let e = TextEdit { start: offset, end: offset, replacement: text };
                    out.push(e);
                    assert(edits_of(out@) =~= seq![e@]);
                    return out;
                },
                None => {},
            }
        }
        assert(edits_of(out@) =~= Seq::empty());
        out
    }
}

} // verus!

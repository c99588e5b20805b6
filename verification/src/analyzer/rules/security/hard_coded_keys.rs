//! Flags string literals that look like encryption keys.

use vstd::prelude::*;
use vstd::string::StringSliceAdditionalSpecFns;
use crate::analyzer::diagnostic::{Diag, Diagnostic, Severity};
use crate::analyzer::fix::{edits_of, Edit, TextEdit};
use crate::analyzer::parser::ParsedSource;
use crate::analyzer::project::ProjectContext;
use crate::analyzer::rules::helpers::{
    diagnostic_at, diagnostic_for_node, node_text, node_text_of, span_at,
};
use crate::analyzer::rules::{check_nodes, node_findings, DiagnosticRule, NodeCheck};
use crate::analyzer::text::{contains_bytes, find, to_lower, to_lower_bytes, to_vec};

verus! {

/// Whether `b` is a hexadecimal digit.
pub open spec fn is_hex(b: u8) -> bool {
    (48 <= b <= 57) || (65 <= b <= 70) || (97 <= b <= 102)
}

/// Whether `b` is an ASCII letter or digit.
pub open spec fn is_alnum(b: u8) -> bool {
    is_digit(b) || is_lower(b) || is_upper(b)
}

/// Whether `b` is an ASCII digit.
pub open spec fn is_digit(b: u8) -> bool {
    48 <= b <= 57
}

/// Whether `b` is an ASCII lower-case letter.
pub open spec fn is_lower(b: u8) -> bool {
    97 <= b <= 122
}

/// Whether `b` is an ASCII upper-case letter.
pub open spec fn is_upper(b: u8) -> bool {
    65 <= b <= 90
}

/// Whether `b` may stand in base64 text.
pub open spec fn is_base64(b: u8) -> bool {
    is_alnum(b) || b == 43 || b == 47 || b == 61
}

/// Whether `text` holds a word that marks a key.
pub open spec fn names_key(text: Seq<u8>) -> bool {
    let lowered = to_lower(text);
    ||| find(lowered, "key".spec_bytes()).is_some()
    ||| find(lowered, "secret".spec_bytes()).is_some()
    ||| find(lowered, "token".spec_bytes()).is_some()
    ||| find(lowered, "api_key".spec_bytes()).is_some()
    ||| find(lowered, "apikey".spec_bytes()).is_some()
    ||| find(lowered, "encryption".spec_bytes()).is_some()
    ||| find(lowered, "cipher".spec_bytes()).is_some()
}

/// Whether `text` looks like a key: it names one; or it is a run of at
/// least 16 hexadecimal digits; or base64 text of at least 16 bytes that is
/// padded or a whole number of groups long; or at least 20 letters and
/// digits with a digit, a lower-case and an upper-case letter among them.
pub open spec fn looks_like_key(text: Seq<u8>) -> bool {
    ||| names_key(text)
    ||| text.len() >= 16 && forall|i: int| 0 <= i < text.len() ==> is_hex(#[trigger] text[i])
    ||| text.len() >= 16 && (forall|i: int| 0 <= i < text.len() ==> is_base64(#[trigger] text[i]))
        && (text.last() == 61 || text.len() % 4 == 0)
    ||| text.len() >= 20 && (forall|i: int| 0 <= i < text.len() ==> is_alnum(#[trigger] text[i]))
        && (exists|i: int| 0 <= i < text.len() && is_lower(#[trigger] text[i])) && (exists|i: int|
        0 <= i < text.len() && is_upper(#[trigger] text[i])) && (exists|i: int|
        0 <= i < text.len() && is_digit(#[trigger] text[i]))
}

/// Whether `text` can be a key at all: it has at least 8 bytes and holds
/// neither a space nor a line feed.
pub open spec fn is_candidate(text: Seq<u8>) -> bool {
    text.len() >= 8 && (forall|i: int| 0 <= i < text.len() ==> #[trigger] text[i] != 32 && text[i]
        != 10)
}

/// The message of a finding.
pub open spec fn key_message() -> Seq<u8> {
    "potential hard-coded encryption key detected, consider using environment variables or secure key management".spec_bytes()
}

/// What the rule reports for node `j`: an error, if the node is a string
/// literal whose text looks like a key.
pub open spec fn key_at(parsed: &ParsedSource, j: int) -> Seq<Diag> {
    if (parsed.tree.kind_of(j) == "string".spec_bytes() || parsed.tree.kind_of(j)
        == "encapsed_string".spec_bytes()) && is_candidate(node_text_of(parsed, j))
        && looks_like_key(node_text_of(parsed, j)) {
        seq![
            diagnostic_at(
                parsed.path@,
                parsed.source@,
                span_at(parsed, j),
                Severity::Error,
                key_message(),
            ),
        ]
    } else {
        Seq::empty()
    }
}

/// What a scan of a text finds.
struct Census {
    all_hex: bool,
    all_base64: bool,
    all_alnum: bool,
    has_lower: bool,
    has_upper: bool,
    has_digit: bool,
    plain: bool,
}

fn census(text: &[u8]) -> (r: Census)
    ensures
        r.all_hex == (forall|i: int| 0 <= i < text@.len() ==> is_hex(#[trigger] text@[i])),
        r.all_base64 == (forall|i: int| 0 <= i < text@.len() ==> is_base64(#[trigger] text@[i])),
        r.all_alnum == (forall|i: int| 0 <= i < text@.len() ==> is_alnum(#[trigger] text@[i])),
        r.has_lower == (exists|i: int| 0 <= i < text@.len() && is_lower(#[trigger] text@[i])),
        r.has_upper == (exists|i: int| 0 <= i < text@.len() && is_upper(#[trigger] text@[i])),
        r.has_digit == (exists|i: int| 0 <= i < text@.len() && is_digit(#[trigger] text@[i])),
        r.plain == (forall|i: int|
            0 <= i < text@.len() ==> #[trigger] text@[i] != 32 && text@[i] != 10),
{
    let mut c = Census {
        all_hex: true,
        all_base64: true,
        all_alnum: true,
        has_lower: false,
        has_upper: false,
        has_digit: false,
        plain: true,
    };
    let mut k: usize = 0;
    while k < text.len()
        invariant
            k <= text.len(),
            c.all_hex == (forall|i: int| 0 <= i < k ==> is_hex(#[trigger] text@[i])),
            c.all_base64 == (forall|i: int| 0 <= i < k ==> is_base64(#[trigger] text@[i])),
            c.all_alnum == (forall|i: int| 0 <= i < k ==> is_alnum(#[trigger] text@[i])),
            c.has_lower == (exists|i: int| 0 <= i < k && is_lower(#[trigger] text@[i])),
            c.has_upper == (exists|i: int| 0 <= i < k && is_upper(#[trigger] text@[i])),
            c.has_digit == (exists|i: int| 0 <= i < k && is_digit(#[trigger] text@[i])),
            c.plain == (forall|i: int| 0 <= i < k ==> #[trigger] text@[i] != 32 && text@[i] != 10),
        decreases text.len() - k,
    {
        let b = text[k];
        let digit = 48 <= b && b <= 57;
        let lower = 97 <= b && b <= 122;
        let upper = 65 <= b && b <= 90;
        let hex = digit || (65 <= b && b <= 70) || (97 <= b && b <= 102);
        let alnum = digit || lower || upper;
        let base64 = alnum || b == 43 || b == 47 || b == 61;
        proof {
            assert(hex == is_hex(text@[k as int]));
            assert(alnum == is_alnum(text@[k as int]));
            assert(base64 == is_base64(text@[k as int]));
            assert(lower == is_lower(text@[k as int]));
            assert(upper == is_upper(text@[k as int]));
            assert(digit == is_digit(text@[k as int]));
        }
        c = Census {
            all_hex: c.all_hex && hex,
            all_base64: c.all_base64 && base64,
            all_alnum: c.all_alnum && alnum,
            has_lower: c.has_lower || lower,
            has_upper: c.has_upper || upper,
            has_digit: c.has_digit || digit,
            plain: c.plain && b != 32 && b != 10,
        };
        k += 1;
    }
    c
}

/// Whether `text` looks like a key.
pub fn is_potential_key(text: &[u8]) -> (r: bool)
    ensures
        r == looks_like_key(text@),
{
    let lowered = to_lower_bytes(text);
    let l = lowered.as_slice();
    if contains_bytes(l, "key".as_bytes()) || contains_bytes(l, "secret".as_bytes())
        || contains_bytes(l, "token".as_bytes()) || contains_bytes(l, "api_key".as_bytes())
        || contains_bytes(l, "apikey".as_bytes()) || contains_bytes(l, "encryption".as_bytes())
        || contains_bytes(l, "cipher".as_bytes()) {
        return true;
    }
    let c = census(text);
    let n = text.len();
    if n >= 16 && c.all_hex {
        return true;
    }
    if n >= 16 && c.all_base64 && (text[n - 1] == 61 || n % 4 == 0) {
        return true;
    }
    n >= 20 && c.all_alnum && c.has_lower && c.has_upper && c.has_digit
}

/// The rule `security/hard_coded_keys`.
#[derive(Clone, Copy, Debug)]
pub struct HardCodedKeysRule;

impl HardCodedKeysRule {
    pub fn new() -> Self {
        HardCodedKeysRule
    }
}

impl NodeCheck for HardCodedKeysRule {
    open spec fn finding(&self, parsed: &ParsedSource, context: &ProjectContext, j: int) -> Seq<
        Diag,
    > {
        key_at(parsed, j)
    }

    fn inspect(&self, parsed: &ParsedSource, context: &ProjectContext, j: usize) -> (r: Option<
        Diagnostic,
    >) {
        if !parsed.tree.is_kind(j, "string") && !parsed.tree.is_kind(j, "encapsed_string") {
            return None;
        }
        let text = node_text(parsed, j);
        if text.len() < 8 || !census(text).plain {
            return None;
        }
        if is_potential_key(text) {
            let message = to_vec(
                "potential hard-coded encryption key detected, consider using environment variables or secure key management".as_bytes(),
            );
            Some(diagnostic_for_node(parsed, j, Severity::Error, message))
        } else {
            None
        }
    }
}

impl DiagnosticRule for HardCodedKeysRule {
    open spec fn rule_name(&self) -> Seq<u8> {
        "security/hard_coded_keys".spec_bytes()
    }

    open spec fn findings(&self, parsed: &ParsedSource, context: &ProjectContext) -> Seq<Diag> {
        node_findings(self, parsed, context)
    }

    open spec fn edits(&self, parsed: &ParsedSource, context: &ProjectContext) -> Seq<Edit> {
        Seq::empty()
    }

    fn name(&self) -> (r: &'static str) {
        "security/hard_coded_keys"
    }

    fn run(&self, parsed: &ParsedSource, context: &ProjectContext) -> (r: Vec<Diagnostic>) {
        check_nodes(self, parsed, context)
    }

    fn fix(&self, parsed: &ParsedSource, context: &ProjectContext) -> (r: Vec<TextEdit>) {
        let out: Vec<TextEdit> = Vec::new();
        assert(edits_of(out@) =~= Seq::empty());
        out
    }
}

} // verus!

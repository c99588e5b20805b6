//! Diagnostics: what a rule reports, and the two forms in which a report
//! leaves the analyzer.

use vstd::prelude::*;
use vstd::string::StringSliceAdditionalSpecFns;
use crate::analyzer::syntax::{Position, Span};
use crate::analyzer::text::{decimal, push_all, push_decimal, push_repeated, repeated, to_vec};

verus! {

/// Represents the severity of a diagnostic.
#[derive(Debug, Clone, Copy, PartialEq, Eq, Structural)]
pub enum Severity {
    Info,
    Warning,
    Error,
}

impl Severity {
    /// The lower-case name of the severity.
    pub open spec fn label_of(self) -> Seq<u8> {
        match self {
            Severity::Info => "info".spec_bytes(),
            Severity::Warning => "warning".spec_bytes(),
            Severity::Error => "error".spec_bytes(),
        }
    }

    /// The lower-case name of the severity.
    pub fn label(&self) -> (text: &'static str)
        ensures
            text.spec_bytes() == self.label_of(),
    {
        match self {
            Severity::Info => "info",
            Severity::Warning => "warning",
            Severity::Error => "error",
        }
    }
}

/// The mathematical value of a [`Diagnostic`].
pub ghost struct Diag {
    pub file: Seq<u8>,
    pub severity: Severity,
    pub message: Seq<u8>,
    pub rule_name: Option<Seq<u8>>,
    pub span: Option<Span>,
    pub snippet_before: Option<Seq<u8>>,
    pub snippet_line: Option<Seq<u8>>,
    pub snippet_after: Option<Seq<u8>>,
    pub caret_col: Option<usize>,
    pub caret_len: usize,
}

/// A diagnostic that can be emitted during analysis.
#[derive(Debug, Clone)]
pub struct Diagnostic {
    pub file: Vec<u8>,
    pub severity: Severity,
    pub message: Vec<u8>,
    pub rule_name: Option<Vec<u8>>,
    pub span: Option<Span>,
    pub snippet_before: Option<Vec<u8>>,
    pub snippet_line: Option<Vec<u8>>,
    pub snippet_after: Option<Vec<u8>>,
    pub caret_col: Option<usize>,
    pub caret_len: usize,
}

/// The bytes of an optional text.
pub open spec fn text_of(t: Option<Vec<u8>>) -> Option<Seq<u8>> {
    match t {
        Some(v) => Some(v@),
        None => None,
    }
}

impl View for Diagnostic {
    type V = Diag;

    open spec fn view(&self) -> Diag {
        Diag {
            file: self.file@,
            severity: self.severity,
            message: self.message@,
            rule_name: text_of(self.rule_name),
            span: self.span,
            snippet_before: text_of(self.snippet_before),
            snippet_line: text_of(self.snippet_line),
            snippet_after: text_of(self.snippet_after),
            caret_col: self.caret_col,
            caret_len: self.caret_len,
        }
    }
}

/// The values of a list of diagnostics.
pub open spec fn diags(list: Seq<Diagnostic>) -> Seq<Diag> {
    Seq::new(list.len(), |i: int| list[i]@)
}

/// Pushing a diagnostic appends its value.
pub proof fn lemma_diags_push(list: Seq<Diagnostic>, d: Diagnostic)
    ensures
        diags(list.push(d)) == diags(list).push(d@),
{
    assert(diags(list.push(d)) =~= diags(list).push(d@));
}

/// A position as it is serialized.
#[derive(Debug, Clone, Copy, PartialEq, Eq, Structural)]
pub struct PointJson {
    pub row: usize,
    pub column: usize,
}

/// A span as it is serialized.
#[derive(Debug, Clone, Copy, PartialEq, Eq, Structural)]
pub struct SpanJson {
    pub start: PointJson,
    pub end: PointJson,
}

/// The structured record that a diagnostic serializes to.
#[derive(Debug)]
pub struct DiagnosticJson {
    pub file: Vec<u8>,
    pub severity: Severity,
    pub message: Vec<u8>,
    pub rule_name: Option<Vec<u8>>,
    pub span: Option<SpanJson>,
    pub snippet_before: Option<Vec<u8>>,
    pub snippet_line: Option<Vec<u8>>,
    pub snippet_after: Option<Vec<u8>>,
    pub caret_col: Option<usize>,
    pub caret_len: usize,
}

/// The serialized form of a span.
pub open spec fn span_json(span: Span) -> SpanJson {
    SpanJson {
        start: PointJson { row: span.start.row, column: span.start.column },
        end: PointJson { row: span.end.row, column: span.end.column },
    }
}

/// Resets colours and weight.
pub open spec fn reset() -> Seq<u8> {
    "\x1b[0m".spec_bytes()
}

/// Dim text, for the lines around the finding.
pub open spec fn dim() -> Seq<u8> {
    "\x1b[2m".spec_bytes()
}

/// Bold red, for errors.
pub open spec fn bold_red() -> Seq<u8> {
    "\x1b[1;31m".spec_bytes()
}

/// Bold yellow, for warnings.
pub open spec fn bold_yellow() -> Seq<u8> {
    "\x1b[1;33m".spec_bytes()
}

/// Blue, for the gutter.
pub open spec fn blue() -> Seq<u8> {
    "\x1b[34m".spec_bytes()
}

/// The colour of the severity in the header: yellow for warnings and notes,
/// red for errors.
pub open spec fn severity_colour(severity: Severity) -> Seq<u8> {
    match severity {
        Severity::Error => bold_red(),
        _ => bold_yellow(),
    }
}

/// The colour of the caret line: yellow for warnings, red otherwise.
pub open spec fn caret_colour(severity: Severity) -> Seq<u8> {
    match severity {
        Severity::Warning => bold_yellow(),
        _ => bold_red(),
    }
}

/// The decimal form of `n`, padded on the left with spaces to three columns.
pub open spec fn padded(n: nat) -> Seq<u8> {
    if decimal(n).len() < 3 {
        repeated(32, (3 - decimal(n).len()) as nat) + decimal(n)
    } else {
        decimal(n)
    }
}

/// The gutter in front of line number `n`.
pub open spec fn gutter(n: nat) -> Seq<u8> {
    blue() + padded(n) + reset() + " ".spec_bytes() + blue() + "|".spec_bytes() + reset()
}

/// The gutter in front of a line without a number.
pub open spec fn blank_gutter() -> Seq<u8> {
    blue() + "    |".spec_bytes() + reset()
}

/// The severity, in its colour.
pub open spec fn severity_tag(severity: Severity) -> Seq<u8> {
    severity_colour(severity) + severity.label_of() + reset()
}

/// The rule name in brackets behind a space, if there is a rule name.
pub open spec fn rule_tag(rule_name: Option<Seq<u8>>) -> Seq<u8> {
    match rule_name {
        Some(rule) => " [".spec_bytes() + rule + "]".spec_bytes(),
        None => Seq::empty(),
    }
}

/// The first line: severity, rule name in brackets if there is one, message.
pub open spec fn header_line(d: Diag) -> Seq<u8> {
    severity_tag(d.severity) + rule_tag(d.rule_name) + ": ".spec_bytes() + d.message
        + "\n".spec_bytes()
}

/// A line of context, dimmed, in front of or behind the finding.
pub open spec fn context_line(n: nat, text: Option<Seq<u8>>) -> Seq<u8> {
    match text {
        Some(t) => gutter(n) + " ".spec_bytes() + dim() + t + reset() + "\n".spec_bytes(),
        None => Seq::empty(),
    }
}

/// The line of the finding, behind its gutter.
pub open spec fn text_line(n: nat, text: Seq<u8>) -> Seq<u8> {
    gutter(n) + " ".spec_bytes() + text + "\n".spec_bytes()
}

/// The caret line: `caret_len` carets that start in column `caret_col`.
pub open spec fn caret_line(d: Diag) -> Seq<u8> {
    blank_gutter() + " ".spec_bytes() + repeated(
        32,
        (match d.caret_col {
            Some(c) => c as nat,
            None => 0,
        }),
    ) + caret_colour(d.severity) + repeated(94, d.caret_len as nat) + reset() + "\n".spec_bytes()
}

/// The line of the finding and, below it, the caret line.
pub open spec fn finding_lines(d: Diag, row: nat) -> Seq<u8> {
    match d.snippet_line {
        Some(t) => text_line(row + 1, t) + caret_line(d),
        None => Seq::empty(),
    }
}

/// Where the finding is: file, row and column, the latter two counted from
/// one.
pub open spec fn location_line(file: Seq<u8>, at: Position) -> Seq<u8> {
    " --> ".spec_bytes() + file + ":".spec_bytes() + decimal((at.row + 1) as nat)
        + ":".spec_bytes() + decimal((at.column + 1) as nat) + "\n".spec_bytes()
}

/// The offending line between its neighbours, under an empty gutter line.
pub open spec fn snippet_block(d: Diag, row: nat) -> Seq<u8> {
    blank_gutter() + "\n".spec_bytes() + context_line(row, d.snippet_before) + finding_lines(
        d,
        row,
    ) + context_line(row + 2, d.snippet_after)
}

/// The human-readable form of a diagnostic: the header, where the finding
/// is, and the offending line between its neighbours with carets under the
/// finding.
pub open spec fn rendered(d: Diag) -> Seq<u8> {
    match d.span {
        Some(span) => header_line(d) + location_line(d.file, span.start) + snippet_block(
            d,
            span.start.row as nat,
        ),
        None => header_line(d) + " --> ".spec_bytes() + d.file + "\n".spec_bytes(),
    }
}

fn copy_text(t: &Option<Vec<u8>>) -> (r: Option<Vec<u8>>)
    ensures
        text_of(r) == text_of(*t),
{
    match t {
        Some(v) => Some(to_vec(v.as_slice())),
        None => None,
    }
}

fn push_str(buf: &mut Vec<u8>, s: &str)
    ensures
        final(buf)@ == old(buf)@ + s.spec_bytes(),
{
    push_all(buf, s.as_bytes());
}

fn push_padded(buf: &mut Vec<u8>, n: u128)
    ensures
        final(buf)@ == old(buf)@ + padded(n as nat),
{
    let mut digits: Vec<u8> = Vec::new();
    push_decimal(&mut digits, n);
    assert(digits@ =~= decimal(n as nat));
    if digits.len() < 3 {
        push_repeated(buf, 32, 3 - digits.len());
    }
    push_all(buf, digits.as_slice());
    assert(buf@ =~= old(buf)@ + padded(n as nat));
}

fn push_gutter(buf: &mut Vec<u8>, n: u128)
    ensures
        final(buf)@ == old(buf)@ + gutter(n as nat),
{
    push_str(buf, "\x1b[34m");
    push_padded(buf, n);
    push_str(buf, "\x1b[0m");
    push_str(buf, " ");
    push_str(buf, "\x1b[34m");
    push_str(buf, "|");
    push_str(buf, "\x1b[0m");
    assert(buf@ =~= old(buf)@ + gutter(n as nat));
}

fn push_blank_gutter(buf: &mut Vec<u8>)
    ensures
        final(buf)@ == old(buf)@ + blank_gutter(),
{
    push_str(buf, "\x1b[34m");
    push_str(buf, "    |");
    push_str(buf, "\x1b[0m");
    assert(buf@ =~= old(buf)@ + blank_gutter());
}

fn push_context_line(buf: &mut Vec<u8>, n: u128, text: &Option<Vec<u8>>)
    ensures
        final(buf)@ == old(buf)@ + context_line(n as nat, text_of(*text)),
{
    match text {
        Some(t) => {
            push_gutter(buf, n);
            push_str(buf, " ");
            push_str(buf, "\x1b[2m");
            push_all(buf, t.as_slice());
            push_str(buf, "\x1b[0m");
            push_str(buf, "\n");
            assert(buf@ =~= old(buf)@ + context_line(n as nat, text_of(*text)));
        },
        None => {
            assert(buf@ =~= old(buf)@ + context_line(n as nat, text_of(*text)));
        },
    }
}

impl Diagnostic {
    /// A diagnostic without a place in the text.
    pub fn new(file: Vec<u8>, severity: Severity, message: Vec<u8>) -> (d: Self)
        ensures
            d@ == (Diag {
                file: file@,
                severity,
                message: message@,
                rule_name: None,
                span: None,
                snippet_before: None,
                snippet_line: None,
                snippet_after: None,
                caret_col: None,
                caret_len: 1,
            }),
    {
        Diagnostic {
            file,
            severity,
            message,
            rule_name: None,
            span: None,
            snippet_before: None,
            snippet_line: None,
            snippet_after: None,
            caret_col: None,
            caret_len: 1,
        }
    }

    /// A diagnostic at `span`, with the lines to show and the caret to draw.
    /// The caret is at least one column wide.
    pub fn with_span(
        file: Vec<u8>,
        severity: Severity,
        message: Vec<u8>,
        span: Span,
        snippet_before: Option<Vec<u8>>,
        snippet_line: Option<Vec<u8>>,
        snippet_after: Option<Vec<u8>>,
        caret_col: Option<usize>,
        caret_len: usize,
    ) -> (d: Self)
        ensures
            d@ == (Diag {
                file: file@,
                severity,
                message: message@,
                rule_name: None,
                span: Some(span),
                snippet_before: text_of(snippet_before),
                snippet_line: text_of(snippet_line),
                snippet_after: text_of(snippet_after),
                caret_col,
                caret_len: if caret_len < 1 {
                    1
                } else {
                    caret_len
                },
            }),
    {
        Diagnostic {
            file,
            severity,
            message,
            rule_name: None,
            span: Some(span),
            snippet_before,
            snippet_line,
            snippet_after,
            caret_col,
            caret_len: if caret_len < 1 {
                1
            } else {
                caret_len
            },
        }
    }

    /// A copy of this diagnostic.
    pub fn duplicate(&self) -> (d: Self)
        ensures
            d@ == self@,
    {
        Diagnostic {
            file: to_vec(self.file.as_slice()),
            severity: self.severity,
            message: to_vec(self.message.as_slice()),
            rule_name: copy_text(&self.rule_name),
            span: self.span,
            snippet_before: copy_text(&self.snippet_before),
            snippet_line: copy_text(&self.snippet_line),
            snippet_after: copy_text(&self.snippet_after),
            caret_col: self.caret_col,
            caret_len: self.caret_len,
        }
    }

    /// The structured record of this diagnostic.
    pub fn to_json(&self) -> (json: DiagnosticJson)
        ensures
            json.file@ == self.file@,
            json.severity == self.severity,
            json.message@ == self.message@,
            text_of(json.rule_name) == text_of(self.rule_name),
            json.span == match self.span {
                Some(span) => Some(span_json(span)),
                None => None,
            },
            text_of(json.snippet_before) == text_of(self.snippet_before),
            text_of(json.snippet_line) == text_of(self.snippet_line),
            text_of(json.snippet_after) == text_of(self.snippet_after),
            json.caret_col == self.caret_col,
            json.caret_len == self.caret_len,
    {
        DiagnosticJson {
            file: to_vec(self.file.as_slice()),
            severity: self.severity,
            message: to_vec(self.message.as_slice()),
            rule_name: copy_text(&self.rule_name),
            span: match self.span {
                Some(span) => Some(
                    SpanJson {
                        start: PointJson { row: span.start.row, column: span.start.column },
                        end: PointJson { row: span.end.row, column: span.end.column },
                    },
                ),
                None => None,
            },
            snippet_before: copy_text(&self.snippet_before),
            snippet_line: copy_text(&self.snippet_line),
            snippet_after: copy_text(&self.snippet_after),
            caret_col: self.caret_col,
            caret_len: self.caret_len,
        }
    }

    fn push_severity_tag(&self, buf: &mut Vec<u8>)
        ensures
            final(buf)@ == old(buf)@ + severity_tag(self.severity),
    {
        match self.severity {
            Severity::Error => push_str(buf, "\x1b[1;31m"),
            _ => push_str(buf, "\x1b[1;33m"),
        }
        push_str(buf, self.severity.label());
        push_str(buf, "\x1b[0m");
        assert(buf@ =~= old(buf)@ + severity_tag(self.severity));
    }

    fn push_rule_tag(&self, buf: &mut Vec<u8>)
        ensures
            final(buf)@ == old(buf)@ + rule_tag(text_of(self.rule_name)),
    {
        match &self.rule_name {
            Some(rule) => {
                push_str(buf, " [");
                push_all(buf, rule.as_slice());
                push_str(buf, "]");
                assert(buf@ =~= old(buf)@ + (" [".spec_bytes() + rule@ + "]".spec_bytes()));
            },
            None => {
                assert(buf@ =~= old(buf)@ + Seq::<u8>::empty());
            },
        }
    }

    fn push_header(&self, buf: &mut Vec<u8>)
        ensures
            final(buf)@ == old(buf)@ + header_line(self@),
    {
        self.push_severity_tag(buf);
        self.push_rule_tag(buf);
        push_str(buf, ": ");
        push_all(buf, self.message.as_slice());
        push_str(buf, "\n");
        assert(buf@ =~= old(buf)@ + (severity_tag(self.severity) + rule_tag(
            text_of(self.rule_name),
        ) + ": ".spec_bytes() + self.message@ + "\n".spec_bytes()));
    }

    fn push_text_line(buf: &mut Vec<u8>, n: u128, text: &[u8])
        ensures
            final(buf)@ == old(buf)@ + text_line(n as nat, text@),
    {
        push_gutter(buf, n);
        push_str(buf, " ");
        push_all(buf, text);
        push_str(buf, "\n");
        assert(buf@ =~= old(buf)@ + text_line(n as nat, text@));
    }

    fn push_caret_line(&self, buf: &mut Vec<u8>)
        ensures
            final(buf)@ == old(buf)@ + caret_line(self@),
    {
        push_blank_gutter(buf);
        push_str(buf, " ");
        let caret_col = match self.caret_col {
            Some(c) => c,
            None => 0,
        };
        push_repeated(buf, 32, caret_col);
        match self.severity {
            Severity::Warning => push_str(buf, "\x1b[1;33m"),
            _ => push_str(buf, "\x1b[1;31m"),
        }
        push_repeated(buf, 94, self.caret_len);
        push_str(buf, "\x1b[0m");
        push_str(buf, "\n");
        assert(buf@ =~= old(buf)@ + caret_line(self@));
    }

    fn push_finding(&self, buf: &mut Vec<u8>, row: usize)
        ensures
            final(buf)@ == old(buf)@ + finding_lines(self@, row as nat),
    {
        match &self.snippet_line {
            Some(line) => {
                Self::push_text_line(buf, row as u128 + 1, line.as_slice());
                self.push_caret_line(buf);
                assert(buf@ =~= old(buf)@ + (text_line((row + 1) as nat, line@) + caret_line(
                    self@,
                )));
            },
            None => {
                assert(buf@ =~= old(buf)@ + Seq::<u8>::empty());
            },
        }
    }

    fn push_location(&self, buf: &mut Vec<u8>, at: Position)
        ensures
            final(buf)@ == old(buf)@ + location_line(self.file@, at),
    {
        push_str(buf, " --> ");
        push_all(buf, self.file.as_slice());
        push_str(buf, ":");
        push_decimal(buf, at.row as u128 + 1);
        push_str(buf, ":");
        push_decimal(buf, at.column as u128 + 1);
        push_str(buf, "\n");
        assert(buf@ =~= old(buf)@ + location_line(self.file@, at));
    }

    fn push_snippet_block(&self, buf: &mut Vec<u8>, row: usize)
        ensures
            final(buf)@ == old(buf)@ + snippet_block(self@, row as nat),
    {
        push_blank_gutter(buf);
        push_str(buf, "\n");
        push_context_line(buf, row as u128, &self.snippet_before);
        self.push_finding(buf, row);
        push_context_line(buf, row as u128 + 2, &self.snippet_after);
        assert(buf@ =~= old(buf)@ + (blank_gutter() + "\n".spec_bytes() + context_line(
            row as nat,
            self@.snippet_before,
        ) + finding_lines(self@, row as nat) + context_line(
            (row + 2) as nat,
            self@.snippet_after,
        )));
    }

    /// The human-readable, multi-line form of this diagnostic.
    pub fn render(&self) -> (text: Vec<u8>)
        ensures
            text@ == rendered(self@),
    {
        let mut buf: Vec<u8> = Vec::new();
        self.push_header(&mut buf);
        match self.span {
            Some(span) => {
                self.push_location(&mut buf, span.start);
                self.push_snippet_block(&mut buf, span.start.row);
                assert(buf@ =~= header_line(self@) + location_line(self.file@, span.start)
                    + snippet_block(self@, span.start.row as nat));
            },
            None => {
                push_str(&mut buf, " --> ");
                push_all(&mut buf, self.file.as_slice());
                push_str(&mut buf, "\n");
                assert(buf@ =~= header_line(self@) + " --> ".spec_bytes() + self.file@
                    + "\n".spec_bytes());
            },
        }
        buf
    }

    /// The one-line summary of this diagnostic: severity, colon, message.
    pub fn summary(&self) -> (text: Vec<u8>)
        ensures
            text@ == self.severity.label_of() + ": ".spec_bytes() + self.message@,
    {
        let mut buf: Vec<u8> = Vec::new();
        push_str(&mut buf, self.severity.label());
        push_str(&mut buf, ": ");
        push_all(&mut buf, self.message.as_slice());
        assert(buf@ =~= self.severity.label_of() + ": ".spec_bytes() + self.message@);
        buf
    }
}

} // verus!

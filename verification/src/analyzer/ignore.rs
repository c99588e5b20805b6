//! In-source ignore directives: a comment may switch off single rules, whole
//! rule groups, or every diagnostic of its file.

use vstd::prelude::*;
use vstd::slice::slice_subrange;
use vstd::string::StringSliceAdditionalSpecFns;
use crate::analyzer::text::{
    bytes_eq, find, find_bytes, line_break_at, line_text_at, lines, space_at, space_len_at,
    lines_from, lemma_line_break_bounds, lemma_rows_push, lower, rows, starts_with, strip_trailing,
    strip_trailing_byte, to_lower, to_lower_bytes, trim_end, trim_end_bytes, trim_start,
    trim_start_bytes,
};

verus! {

/// The marker of a rule-level directive.
pub open spec fn directive() -> Seq<u8> {
    "php-checker-ignore".spec_bytes()
}

/// The marker of a file-level directive.
pub open spec fn file_directive() -> Seq<u8> {
    "php-checker-ignore-file".spec_bytes()
}

/// What a file's directives ask for: everything ignored, or the listed rule
/// names and group prefixes.
pub ghost struct Ignores {
    pub everything: bool,
    pub patterns: Seq<Seq<u8>>,
}

/// Tracks the ignore directives declared in a file.
#[derive(Debug, Clone)]
pub struct IgnoreState {
    pub ignore_all: bool,
    pub patterns: Vec<Vec<u8>>,
}

impl View for IgnoreState {
    type V = Ignores;

    open spec fn view(&self) -> Ignores {
        Ignores { everything: self.ignore_all, patterns: rows(self.patterns@) }
    }
}

/// `limit`, or the index of the first `marker` in `value` if that is smaller.
pub open spec fn cut_at(value: Seq<u8>, marker: Seq<u8>, limit: int) -> int {
    match find(value, marker) {
        Some(i) => if i < limit {
            i
        } else {
            limit
        },
        None => limit,
    }
}

/// The arguments of a directive: `value` up to the first comment opener or
/// closer (`//`, `/*`, `#`, `*/`), without trailing white space.
pub open spec fn comment_tail_trimmed(value: Seq<u8>) -> Seq<u8> {
    let l0 = value.len() as int;
    let l1 = cut_at(value, "//".spec_bytes(), l0);
    let l2 = cut_at(value, "/*".spec_bytes(), l1);
    let l3 = cut_at(value, "#".spec_bytes(), l2);
    let l4 = cut_at(value, "*/".spec_bytes(), l3);
    trim_end(value.subrange(0, l4))
}

/// Tokens are separated by commas and white space: the number of bytes of
/// the separator that starts at index `i` of `s`, zero where none starts
/// there.
pub open spec fn separator_at(s: Seq<u8>, i: int) -> int {
    if 0 <= i < s.len() && s[i] == 44 {
        1
    } else {
        space_at(s, i)
    }
}

/// The end of the token that starts at `from`: the index at which the next
/// separator starts, or the length of `s`.
pub open spec fn token_end(s: Seq<u8>, from: int) -> int
    decreases s.len() - from,
{
    if from < 0 || from >= s.len() {
        s.len() as int
    } else if separator_at(s, from) > 0 {
        from
    } else {
        token_end(s, from + 1)
    }
}

/// The tokens of `s` from `from` on: the maximal runs of bytes in which no
/// separator starts.
pub open spec fn tokens_from(s: Seq<u8>, from: int) -> Seq<Seq<u8>>
    decreases s.len() + 1 - from,
    via tokens_from_terminates
{
    if from < 0 || from >= s.len() {
        Seq::empty()
    } else if separator_at(s, from) > 0 {
        tokens_from(s, from + separator_at(s, from))
    } else {
        seq![s.subrange(from, token_end(s, from))] + tokens_from(s, token_end(s, from))
    }
}

#[via_fn]
proof fn tokens_from_terminates(s: Seq<u8>, from: int) {
    if 0 <= from < s.len() && separator_at(s, from) == 0 {
        lemma_token_end_bounds(s, from);
    }
}

pub proof fn lemma_token_end_bounds(s: Seq<u8>, from: int)
    requires
        0 <= from <= s.len(),
    ensures
        from <= token_end(s, from) <= s.len(),
        from < s.len() && separator_at(s, from) == 0 ==> from < token_end(s, from),
    decreases s.len() - from,
{
    if from < s.len() && separator_at(s, from) == 0 {
        lemma_token_end_bounds(s, from + 1);
    }
}

/// The tokens of `s`.
pub open spec fn tokens(s: Seq<u8>) -> Seq<Seq<u8>> {
    tokens_from(s, 0)
}

/// Quote characters that may stand around a token: `"`, `'` and the backtick.
pub open spec fn is_quote(b: u8) -> bool {
    b == 34 || b == 39 || b == 96
}

/// `s` without leading quote characters.
pub open spec fn unquote_start(s: Seq<u8>) -> Seq<u8>
    decreases s.len(),
{
    if s.len() > 0 && is_quote(s[0]) {
        unquote_start(s.drop_first())
    } else {
        s
    }
}

/// `s` without trailing quote characters.
pub open spec fn unquote_end(s: Seq<u8>) -> Seq<u8>
    decreases s.len(),
{
    if s.len() > 0 && is_quote(s.last()) {
        unquote_end(s.drop_last())
    } else {
        s
    }
}

/// The pattern that a token stands for: quotes and trailing slashes are
/// removed, and letters are lower-cased.
pub open spec fn normalize(token: Seq<u8>) -> Seq<u8> {
    to_lower(strip_trailing(unquote_end(unquote_start(token)), 47))
}

/// Tokens that stand for the whole file: `*`, `all` and `file`.
pub open spec fn is_wildcard(pattern: Seq<u8>) -> bool {
    pattern == "*".spec_bytes() || pattern == "all".spec_bytes() || pattern == "file".spec_bytes()
}

/// The state after the tokens of one directive. A wildcard ends the
/// directive and ignores the file.
pub open spec fn with_tokens(state: Ignores, toks: Seq<Seq<u8>>) -> Ignores
    decreases toks.len(),
{
    if toks.len() == 0 || state.everything {
        state
    } else {
        let pattern = normalize(toks[0]);
        if pattern.len() == 0 {
            with_tokens(state, toks.drop_first())
        } else if is_wildcard(pattern) {
            Ignores { everything: true, patterns: state.patterns }
        } else {
            with_tokens(
                Ignores { everything: false, patterns: state.patterns.push(pattern) },
                toks.drop_first(),
            )
        }
    }
}

/// The state after the text that follows a directive's marker. A directive
/// without arguments ignores the file.
pub open spec fn with_args(state: Ignores, tail: Seq<u8>) -> Ignores {
    if state.everything {
        state
    } else {
        let args = trim_start(comment_tail_trimmed(tail));
        let rest = if args.len() > 0 && args[0] == 58 {
            trim_start(args.drop_first())
        } else {
            args
        };
        if rest.len() == 0 {
            Ignores { everything: true, patterns: state.patterns }
        } else {
            with_tokens(state, tokens(rest))
        }
    }
}

/// The state after one source line.
pub open spec fn with_line(state: Ignores, line: Seq<u8>) -> Ignores {
    if find(line, file_directive()).is_some() {
        Ignores { everything: true, patterns: state.patterns }
    } else {
        match find(line, directive()) {
            Some(i) => with_args(state, line.subrange(i + directive().len(), line.len() as int)),
            None => state,
        }
    }
}

/// The state after a run of source lines. Once the file is ignored the rest
/// is not read.
pub open spec fn with_lines(state: Ignores, ls: Seq<Seq<u8>>) -> Ignores
    decreases ls.len(),
{
    if ls.len() == 0 || state.everything {
        state
    } else {
        with_lines(with_line(state, ls[0]), ls.drop_first())
    }
}

/// What the directives in `source` ask for.
pub open spec fn ignore_state(source: Seq<u8>) -> Ignores {
    with_lines(Ignores { everything: false, patterns: Seq::empty() }, lines(source))
}

/// Whether `pattern` covers `rule`: it is the rule itself, or a group that
/// the rule belongs to, that is a prefix of it that a `/` follows.
pub open spec fn pattern_covers(pattern: Seq<u8>, rule: Seq<u8>) -> bool {
    rule == pattern || (pattern.is_prefix_of(rule) && rule.len() > pattern.len()
        && rule[pattern.len() as int] == 47)
}

/// Whether diagnostics of `rule` are suppressed under `state`.
pub open spec fn suppressed(state: Ignores, rule: Seq<u8>) -> bool {
    state.everything || exists|i: int|
        0 <= i < state.patterns.len() && pattern_covers(
            #[trigger] state.patterns[i],
            to_lower(rule),
        )
}

/// A file-level marker on any line ignores the file, whatever else the file
/// holds.
pub proof fn lemma_file_directive_is_absolute(state: Ignores, ls: Seq<Seq<u8>>, i: int)
    requires
        0 <= i < ls.len(),
        find(ls[i], file_directive()).is_some(),
    ensures
        with_lines(state, ls).everything,
    decreases ls.len(),
{
    if !state.everything {
        let next = with_line(state, ls[0]);
        if i == 0 {
            assert(next.everything);
            assert(with_lines(next, ls.drop_first()) == next);
        } else {
            assert(ls.drop_first()[i - 1] == ls[i]);
            lemma_file_directive_is_absolute(next, ls.drop_first(), i - 1);
        }
    }
}

/// The state in which the one group or rule `pattern` is ignored.
pub open spec fn ignoring(pattern: Seq<u8>) -> Ignores {
    Ignores { everything: false, patterns: seq![pattern] }
}

/// Group suppression is scoped by the `/` that ends the group's name: with
/// the group `group` ignored, every rule below the group is suppressed, and
/// no rule whose name merely starts with the same letters. `group` is in
/// lower case, as every ignored name is.
pub proof fn lemma_group_is_prefix_scoped(group: Seq<u8>, next: u8, rest: Seq<u8>)
    requires
        to_lower(group) == group,
    ensures
        pattern_covers(group, group.push(47) + rest),
        next != 47 ==> !pattern_covers(group, group.push(next) + rest),
        suppressed(ignoring(group), group.push(47) + rest),
        next != 47 ==> !suppressed(ignoring(group), group.push(next) + rest),
{
    let inside = group.push(47) + rest;
    assert(inside.subrange(0, group.len() as int) =~= group);
    assert(inside[group.len() as int] == 47);
    let outside = group.push(next) + rest;
    assert(outside[group.len() as int] == next);
    let state = ignoring(group);
    let low_inside = to_lower(inside);
    assert(low_inside.subrange(0, group.len() as int) =~= group) by {
        assert forall|k: int| 0 <= k < group.len() implies low_inside[k] == group[k] by {
            assert(inside[k] == group[k]);
            assert(to_lower(group)[k] == lower(group[k]));
        }
    }
    assert(low_inside[group.len() as int] == 47);
    assert(pattern_covers(state.patterns[0], low_inside));
    if next != 47 {
        let low_outside = to_lower(outside);
        assert(low_outside[group.len() as int] == lower(next));
        assert(lower(next) != 47);
        assert(low_outside.len() > group.len());
        assert forall|i: int| 0 <= i < state.patterns.len() implies !pattern_covers(
            #[trigger] state.patterns[i],
            low_outside,
        ) by {}
    }
}

fn separator_len_at(s: &[u8], i: usize) -> (r: usize)
    ensures
        r == separator_at(s@, i as int),
        i + r <= s.len() || r == 0,
{
    if i < s.len() && s[i] == 44 {
        1
    } else {
        space_len_at(s, i)
    }
}

fn is_quote_byte(b: u8) -> (r: bool)
    ensures
        r == is_quote(b),
{
    b == 34 || b == 39 || b == 96
}

fn unquote<'a>(s: &'a [u8]) -> (r: &'a [u8])
    ensures
        r@ == unquote_end(unquote_start(s@)),
{
    let mut i: usize = 0;
    proof {
        assert(s@.subrange(0, s@.len() as int) =~= s@);
    }
    while i < s.len() && is_quote_byte(s[i])
        invariant
            i <= s.len(),
            unquote_start(s@) == unquote_start(s@.subrange(i as int, s@.len() as int)),
        decreases s.len() - i,
    {
        proof {
            let cur = s@.subrange(i as int, s@.len() as int);
            assert(cur.drop_first() =~= s@.subrange(i + 1, s@.len() as int));
        }
        i += 1;
    }
    let t = slice_subrange(s, i, s.len());
    let mut j: usize = t.len();
    proof {
        assert(t@.subrange(0, t@.len() as int) =~= t@);
    }
    while j > 0 && is_quote_byte(t[j - 1])
        invariant
            j <= t.len(),
            unquote_end(t@) == unquote_end(t@.subrange(0, j as int)),
        decreases j,
    {
        proof {
            let cur = t@.subrange(0, j as int);
            assert(cur.drop_last() =~= t@.subrange(0, j - 1));
        }
        j -= 1;
    }
    slice_subrange(t, 0, j)
}

fn cut_at_marker(value: &[u8], marker: &str, limit: usize) -> (r: usize)
    requires
        limit <= value.len(),
    ensures
        r == cut_at(value@, marker.spec_bytes(), limit as int),
        r <= limit,
{
    match find_bytes(value, marker.as_bytes()) {
        Some(i) => if i < limit {
            i
        } else {
            limit
        },
        None => limit,
    }
}

/// Cuts `value` at the first comment opener or closer and drops trailing
/// white space.
pub fn trim_comment_tail<'a>(value: &'a [u8]) -> (r: &'a [u8])
    ensures
        r@ == comment_tail_trimmed(value@),
{
    let l1 = cut_at_marker(value, "//", value.len());
    let l2 = cut_at_marker(value, "/*", l1);
    let l3 = cut_at_marker(value, "#", l2);
    let l4 = cut_at_marker(value, "*/", l3);
    trim_end_bytes(slice_subrange(value, 0, l4))
}

fn token_end_at(s: &[u8], from: usize) -> (r: usize)
    requires
        from <= s.len(),
    ensures
        r == token_end(s@, from as int),
        from <= r <= s.len(),
{
    let mut i: usize = from;
    while i < s.len() && separator_len_at(s, i) == 0
        invariant
            from <= i <= s.len(),
            token_end(s@, from as int) == token_end(s@, i as int),
        decreases s.len() - i,
    {
        i += 1;
    }
    i
}

fn is_wildcard_bytes(pattern: &[u8]) -> (r: bool)
    ensures
        r == is_wildcard(pattern@),
{
    bytes_eq(pattern, "*".as_bytes()) || bytes_eq(pattern, "all".as_bytes()) || bytes_eq(
        pattern,
        "file".as_bytes(),
    )
}

impl Default for IgnoreState {
    /// The state of a file without directives: nothing is ignored.
    fn default() -> (state: Self)
        ensures
            state@ == (Ignores { everything: false, patterns: Seq::empty() }),
    {
        IgnoreState::new()
    }
}

impl IgnoreState {
    /// A state that ignores nothing.
    pub fn new() -> (state: Self)
        ensures
            state@ == (Ignores { everything: false, patterns: Seq::empty() }),
    {
        let state = IgnoreState { ignore_all: false, patterns: Vec::new() };
        assert(state@.patterns =~= Seq::empty());
        state
    }

    /// Parses the ignore directives declared in the supplied source.
    pub fn from_source(source: &str) -> (state: Self)
        ensures
            state@ == ignore_state(source.spec_bytes()),
    {
        Self::from_bytes(source.as_bytes())
    }

    /// Parses the ignore directives declared in a source given as bytes.
    pub fn from_bytes(bytes: &[u8]) -> (state: Self)
        ensures
            state@ == ignore_state(bytes@),
    {
        let mut state = IgnoreState::new();
        let mut pos: usize = 0;
        while pos < bytes.len() && !state.ignore_all
            invariant
                pos <= bytes.len(),
                ignore_state(bytes@) == with_lines(state@, lines_from(bytes@, pos as int)),
            decreases bytes.len() - pos,
        {
            let line = line_text_at(bytes, pos);
            let stop = line_break_at(bytes, pos);
            let ghost before = state@;
            state.collect_from_line(line);
            proof {
                lemma_line_break_bounds(bytes@, pos as int);
                let ls = lines_from(bytes@, pos as int);
                assert(ls[0] == line@);
                assert(ls.drop_first() =~= lines_from(bytes@, stop + 1));
                assert(with_lines(before, ls) == with_lines(state@, lines_from(bytes@, stop + 1)));
            }
            if stop >= bytes.len() {
                assert(lines_from(bytes@, stop + 1) =~= Seq::empty());
                assert(with_lines(state@, Seq::empty()) == state@);
                return state;
            }
            pos = stop + 1;
        }
        state
    }

    /// Reads the directives of one line.
    pub fn collect_from_line(&mut self, line: &[u8])
        ensures
            final(self)@ == with_line(old(self)@, line@),
    {
        if find_bytes(line, "php-checker-ignore-file".as_bytes()).is_some() {
            self.ignore_all = true;
            return ;
        }
        let marker = "php-checker-ignore".as_bytes();
        let marker_len = marker.len();
        match find_bytes(line, marker) {
            Some(idx) => {
                let line_len = line.len();
                self.apply_args(slice_subrange(line, idx + marker_len, line_len));
            },
            None => {},
        }
    }

    /// Reads the arguments that follow a directive's marker.
    pub fn apply_args(&mut self, tail: &[u8])
        ensures
            final(self)@ == with_args(old(self)@, tail@),
    {
        if self.ignore_all {
            return ;
        }
        let mut args = trim_start_bytes(trim_comment_tail(tail));
        if args.len() > 0 && args[0] == 58 {
            proof {
                assert(args@.drop_first() =~= args@.subrange(1, args@.len() as int));
            }
            args = trim_start_bytes(slice_subrange(args, 1, args.len()));
        }
        if args.len() == 0 {
            self.ignore_all = true;
            return ;
        }
        let mut pos: usize = 0;
        while pos < args.len()
            invariant
                pos <= args.len(),
                !self.ignore_all,
                with_args(old(self)@, tail@) == with_tokens(old(self)@, tokens(args@)),
                with_tokens(old(self)@, tokens(args@)) == with_tokens(
                    self@,
                    tokens_from(args@, pos as int),
                ),
            decreases args.len() - pos,
        {
            let skip = separator_len_at(args, pos);
            if skip > 0 {
                pos += skip;
            } else {
                let stop = token_end_at(args, pos);
                proof {
                    lemma_token_end_bounds(args@, pos as int);
                    let toks = tokens_from(args@, pos as int);
                    assert(toks[0] == args@.subrange(pos as int, stop as int));
                    assert(toks.drop_first() =~= tokens_from(args@, stop as int));
                }
                let token = slice_subrange(args, pos, stop);
                let pattern = to_lower_bytes(strip_trailing_byte(unquote(token), 47));
                if pattern.len() > 0 {
                    if is_wildcard_bytes(pattern.as_slice()) {
                        self.ignore_all = true;
                        return ;
                    }
                    proof {
                        lemma_rows_push(self.patterns@, pattern);
                    }
                    self.patterns.push(pattern);
                }
                pos = stop;
            }
        }
    }

    /// Returns `true` if diagnostics emitted for `rule_name` should be
    /// suppressed.
    pub fn should_ignore(&self, rule_name: &str) -> (r: bool)
        ensures
            r == suppressed(self@, rule_name.spec_bytes()),
    {
        self.ignores_rule(rule_name.as_bytes())
    }

    /// Returns `true` if diagnostics of the rule named `name` should be
    /// suppressed.
    pub fn ignores_rule(&self, name: &[u8]) -> (r: bool)
        ensures
            r == suppressed(self@, name@),
    {
        if self.ignore_all {
            return true;
        }
        let rule = to_lower_bytes(name);
        let mut i: usize = 0;
        while i < self.patterns.len()
            invariant
                i <= self.patterns.len(),
                rule@ == to_lower(name@),
                forall|k: int| 0 <= k < i ==> !pattern_covers(#[trigger] self@.patterns[k], rule@),
            decreases self.patterns.len() - i,
        {
            let pattern = self.patterns[i].as_slice();
            let covers = bytes_eq(rule.as_slice(), pattern) || (starts_with(rule.as_slice(), pattern)
                && rule.len() > pattern.len() && rule[pattern.len()] == 47);
            if covers {
                assert(pattern_covers(self@.patterns[i as int], rule@));
                return true;
            }
            i += 1;
        }
        false
    }

    /// Returns `true` if a file-level ignore directive was encountered.
    pub fn ignores_everything(&self) -> (r: bool)
        ensures
            r == self@.everything,
    {
        self.ignore_all
    }
}

} // verus!

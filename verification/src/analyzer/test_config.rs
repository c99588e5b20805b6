//! Per-file test overrides: a fixture may name the only rules that run on it,
//! or rules that do not.

use vstd::prelude::*;
use vstd::slice::slice_subrange;
use vstd::string::StringSliceAdditionalSpecFns;
use crate::analyzer::text::{
    contains_row, find, find_bytes, lemma_line_break_bounds, lemma_rows_push, line_break_at,
    line_text_at, lines,
    lines_from, rows, split, split_bytes, starts_with, to_vec, trim, trim_bytes,
};

verus! {

/// What a file's override directives ask for.
pub ghost struct Overrides {
    /// If set, only these rules run.
    pub only: Option<Seq<Seq<u8>>>,
    /// Rules that do not run.
    pub skip: Seq<Seq<u8>>,
}

/// Test configuration parsed from special comments at the top of test files.
#[derive(Debug, Clone)]
pub struct TestConfig {
    /// If set, only run these rules (ignore all others).
    pub only_rules: Option<Vec<Vec<u8>>>,
    /// Rules to skip.
    pub skip_rules: Vec<Vec<u8>>,
}

impl View for TestConfig {
    type V = Overrides;

    open spec fn view(&self) -> Overrides {
        Overrides {
            only: match self.only_rules {
                Some(list) => Some(rows(list@)),
                None => None,
            },
            skip: rows(self.skip_rules@),
        }
    }
}

/// The marker that opens an override directive. It counts wherever it
/// stands in a line.
pub open spec fn test_marker() -> Seq<u8> {
    "php-checker-test:".spec_bytes()
}

/// The pieces that name a rule: each piece trimmed, empty ones left out.
pub open spec fn keep_names(pieces: Seq<Seq<u8>>) -> Seq<Seq<u8>>
    decreases pieces.len(),
{
    if pieces.len() == 0 {
        Seq::empty()
    } else {
        let rest = keep_names(pieces.drop_last());
        let name = trim(pieces.last());
        if name.len() == 0 {
            rest
        } else {
            rest.push(name)
        }
    }
}

/// The rule names in a comma-separated list.
pub open spec fn rule_names(list: Seq<u8>) -> Seq<Seq<u8>> {
    keep_names(split(list, 44))
}

/// The overrides after one directive: `only-rules=` replaces the allow-list
/// unless it names nothing, `skip-rules=` adds to the deny-list.
pub open spec fn with_directive(cfg: Overrides, text: Seq<u8>) -> Overrides {
    let only = "only-rules=".spec_bytes();
    let skip = "skip-rules=".spec_bytes();
    if only.is_prefix_of(text) {
        let names = rule_names(text.subrange(only.len() as int, text.len() as int));
        if names.len() > 0 {
            Overrides { only: Some(names), skip: cfg.skip }
        } else {
            cfg
        }
    } else if skip.is_prefix_of(text) {
        Overrides {
            only: cfg.only,
            skip: cfg.skip + rule_names(text.subrange(skip.len() as int, text.len() as int)),
        }
    } else {
        cfg
    }
}

/// The overrides after one source line: those of the directive behind the
/// first marker on the line, if the line holds the marker anywhere.
pub open spec fn with_line(cfg: Overrides, line: Seq<u8>) -> Overrides {
    match find(line, test_marker()) {
        Some(i) => with_directive(
            cfg,
            trim(line.subrange(i + test_marker().len(), line.len() as int)),
        ),
        None => cfg,
    }
}

/// The overrides after the first `budget` of the lines `ls`.
pub open spec fn with_first_lines(cfg: Overrides, ls: Seq<Seq<u8>>, budget: nat) -> Overrides
    decreases ls.len(),
{
    if ls.len() == 0 || budget == 0 {
        cfg
    } else {
        with_first_lines(with_line(cfg, ls[0]), ls.drop_first(), (budget - 1) as nat)
    }
}

/// The overrides that `source` declares in its first 20 lines.
pub open spec fn test_overrides(source: Seq<u8>) -> Overrides {
    with_first_lines(Overrides { only: None, skip: Seq::empty() }, lines(source), 20)
}

/// Whether `rule` runs under `cfg`: never when it is on the deny-list, and
/// when there is an allow-list only if it is on it.
pub open spec fn runs(cfg: Overrides, rule: Seq<u8>) -> bool {
    !cfg.skip.contains(rule) && match cfg.only {
        Some(only) => only.contains(rule),
        None => true,
    }
}

/// The deny-list wins over the allow-list.
pub proof fn lemma_skip_wins(cfg: Overrides, rule: Seq<u8>)
    requires
        cfg.skip.contains(rule),
    ensures
        !runs(cfg, rule),
{
}

/// Reads the rule names of a comma-separated list.
fn parse_rule_names(list: &[u8]) -> (names: Vec<Vec<u8>>)
    ensures
        rows(names@) == rule_names(list@),
{
    let pieces = split_bytes(list, 44);
    let mut names: Vec<Vec<u8>> = Vec::new();
    let mut i: usize = 0;
    proof {
        assert(rows(pieces@).subrange(0, 0) =~= Seq::empty());
        assert(rows(names@) =~= Seq::empty());
    }
    while i < pieces.len()
        invariant
            i <= pieces.len(),
            rows(names@) == keep_names(rows(pieces@).subrange(0, i as int)),
        decreases pieces.len() - i,
    {
        let name = trim_bytes(pieces[i].as_slice());
        proof {
            let upto = rows(pieces@).subrange(0, i + 1);
            assert(upto.drop_last() =~= rows(pieces@).subrange(0, i as int));
            assert(upto.last() == pieces@[i as int]@);
        }
        if name.len() > 0 {
            let owned = to_vec(name);
            proof {
                lemma_rows_push(names@, owned);
            }
            names.push(owned);
        }
        i += 1;
    }
    proof {
        assert(rows(pieces@).subrange(0, pieces@.len() as int) =~= rows(pieces@));
    }
    names
}

impl Default for TestConfig {
    /// The overrides of a file that declares none.
    fn default() -> (cfg: Self)
        ensures
            cfg@ == (Overrides { only: None, skip: Seq::empty() }),
    {
        TestConfig::new()
    }
}

impl TestConfig {
    /// A configuration without overrides.
    pub fn new() -> (cfg: Self)
        ensures
            cfg@ == (Overrides { only: None, skip: Seq::empty() }),
    {
        let cfg = TestConfig { only_rules: None, skip_rules: Vec::new() };
        assert(cfg@.skip =~= Seq::empty());
        cfg
    }

    /// Parse test configuration from source code.
    ///
    /// Looks, in the first 20 lines, for the marker anywhere in a comment:
    /// `// php-checker-test: only-rules=strict_typing/phpdoc_var_check`
    /// `// php-checker-test: skip-rules=sanity/undefined_variable`
    pub fn from_source(source: &str) -> (cfg: Self)
        ensures
            cfg@ == test_overrides(source.spec_bytes()),
    {
        Self::from_bytes(source.as_bytes())
    }

    /// Parse test configuration from source code given as bytes.
    pub fn from_bytes(bytes: &[u8]) -> (cfg: Self)
        ensures
            cfg@ == test_overrides(bytes@),
    {
        let mut cfg = TestConfig::new();
        let mut pos: usize = 0;
        let mut budget: usize = 20;
        while pos < bytes.len() && budget > 0
            invariant
                pos <= bytes.len(),
                test_overrides(bytes@) == with_first_lines(
                    cfg@,
                    lines_from(bytes@, pos as int),
                    budget as nat,
                ),
            decreases bytes.len() - pos,
        {
            let line = line_text_at(bytes, pos);
            let stop = line_break_at(bytes, pos);
            let ghost before = cfg@;
            cfg.apply_line(line);
            budget -= 1;
            proof {
                lemma_line_break_bounds(bytes@, pos as int);
                let ls = lines_from(bytes@, pos as int);
                assert(ls[0] == line@);
                assert(ls.drop_first() =~= lines_from(bytes@, stop + 1));
                assert(with_first_lines(before, ls, (budget + 1) as nat) == with_first_lines(
                    cfg@,
                    lines_from(bytes@, stop + 1),
                    budget as nat,
                ));
            }
            if stop >= bytes.len() {
                assert(lines_from(bytes@, stop + 1) =~= Seq::empty());
                return cfg;
            }
            pos = stop + 1;
        }
        cfg
    }

    /// Reads the directive of one line, if it holds one.
    pub fn apply_line(&mut self, line: &[u8])
        ensures
            final(self)@ == with_line(old(self)@, line@),
    {
        let marker = "php-checker-test:".as_bytes();
        let marker_len = marker.len();
        match find_bytes(line, marker) {
            Some(at) => {
                let line_len = line.len();
                let directive = trim_bytes(slice_subrange(line, at + marker_len, line_len));
                self.parse_directive(directive);
            },
            None => {},
        }
    }

    /// Applies one directive.
    pub fn parse_directive(&mut self, directive: &[u8])
        ensures
            final(self)@ == with_directive(old(self)@, directive@),
    {
        let only = "only-rules=".as_bytes();
        let skip = "skip-rules=".as_bytes();
        if starts_with(directive, only) {
            let names = parse_rule_names(slice_subrange(directive, only.len(), directive.len()));
            if names.len() > 0 {
                self.only_rules = Some(names);
            }
        } else if starts_with(directive, skip) {
            let names = parse_rule_names(slice_subrange(directive, skip.len(), directive.len()));
            let ghost added = rows(names@);
            let ghost start = rows(self.skip_rules@);
            let mut i: usize = 0;
            while i < names.len()
                invariant
                    i <= names.len(),
                    added == rows(names@),
                    self.only_rules == old(self).only_rules,
                    rows(self.skip_rules@) == start + added.subrange(0, i as int),
                decreases names.len() - i,
            {
                let owned = to_vec(names[i].as_slice());
                proof {
                    lemma_rows_push(self.skip_rules@, owned);
                    assert(start + added.subrange(0, i + 1) =~= (start + added.subrange(
                        0,
                        i as int,
                    )).push(owned@));
                }
                self.skip_rules.push(owned);
                i += 1;
            }
            proof {
                assert(added.subrange(0, added.len() as int) =~= added);
            }
        }
    }

    /// Check if a rule should run based on this test config.
    pub fn should_run_rule(&self, rule_name: &str) -> (r: bool)
        ensures
            r == runs(self@, rule_name.spec_bytes()),
    {
        self.runs_rule(rule_name.as_bytes())
    }

    /// Check if the rule named `name` should run based on this test config.
    pub fn runs_rule(&self, name: &[u8]) -> (r: bool)
        ensures
            r == runs(self@, name@),
    {
        if contains_row(&self.skip_rules, name) {
            return false;
        }
        match &self.only_rules {
            Some(only) => contains_row(only, name),
            None => true,
        }
    }

    /// Check if this is a test file (has test config directives).
    pub fn is_test_file(&self) -> (r: bool)
        ensures
            r == (self@.only.is_some() || self@.skip.len() > 0),
    {
        self.only_rules.is_some() || self.skip_rules.len() > 0
    }
}

} // verus!

//! Rule toggles and general analyzer settings.

use vstd::prelude::*;
use vstd::slice::slice_subrange;
use vstd::string::StringSliceAdditionalSpecFns;
use crate::analyzer::text::{bytes_eq, push_all, rfind_byte, rfind_byte_below, rfind_byte_in, to_vec};

verus! {

/// PSR-4 expectations that the analyzer can validate when requested.
#[derive(Debug, Clone)]
pub struct Psr4Config {
    pub enabled: bool,
    pub namespace_root: Option<Vec<u8>>,
}

impl Default for Psr4Config {
    fn default() -> (cfg: Self)
        ensures
            !cfg.enabled,
            cfg.namespace_root.is_none(),
    {
        Psr4Config { enabled: false, namespace_root: None }
    }
}

/// How severe a finding about the project's layout is.
#[derive(Debug, Clone, Copy, PartialEq, Eq, Structural)]
pub enum StrictnessLevel {
    /// Layout findings are warnings.
    Standard,
    /// Layout findings are errors.
    Strict,
}

/// Configuration for enabling/disabling individual rules plus general
/// analyzer settings. A later toggle for a name replaces an earlier one.
#[derive(Debug, Clone)]
pub struct AnalyzerConfig {
    pub rules: Vec<(Vec<u8>, bool)>,
    pub psr4: Psr4Config,
    pub strictness: StrictnessLevel,
}

/// The mapping that a list of toggles stands for.
pub open spec fn toggles(entries: Seq<(Vec<u8>, bool)>) -> Map<Seq<u8>, bool>
    decreases entries.len(),
{
    if entries.len() == 0 {
        Map::empty()
    } else {
        toggles(entries.drop_last()).insert(entries.last().0@, entries.last().1)
    }
}

/// Whether the rule `name` is enabled: its own toggle decides; without one,
/// the toggle of the nearest group above it; without any, it is enabled.
pub open spec fn rule_enabled(map: Map<Seq<u8>, bool>, name: Seq<u8>) -> bool
    decreases name.len(),
    via rule_enabled_terminates
{
    if map.contains_key(name) {
        map[name]
    } else {
        match rfind_byte(name, 47) {
            Some(i) => rule_enabled(map, name.subrange(0, i)),
            None => true,
        }
    }
}

#[via_fn]
proof fn rule_enabled_terminates(map: Map<Seq<u8>, bool>, name: Seq<u8>) {
    lemma_rfind_bounds(name, 47, name.len() as int);
}

pub proof fn lemma_rfind_bounds(s: Seq<u8>, b: u8, upto: int)
    requires
        0 <= upto <= s.len(),
    ensures
        match rfind_byte_below(s, b, upto) {
            Some(i) => 0 <= i < upto && s[i] == b && forall|k: int| i < k < upto ==> s[k] != b,
            None => forall|k: int| 0 <= k < upto ==> s[k] != b,
        },
    decreases upto,
{
    if upto > 0 && s[upto - 1] != b {
        lemma_rfind_bounds(s, b, upto - 1);
    }
}

/// `root` joined with the file name `name`.
pub open spec fn join_path(root: Seq<u8>, name: Seq<u8>) -> Seq<u8> {
    if root.len() == 0 {
        name
    } else if root.last() == 47 {
        root + name
    } else {
        root.push(47) + name
    }
}

/// Group fallback with override: a rule's own toggle decides; a rule without
/// one follows the group it stands in.
pub proof fn lemma_group_fallback(map: Map<Seq<u8>, bool>, group: Seq<u8>, leaf: Seq<u8>)
    requires
        forall|k: int| 0 <= k < leaf.len() ==> leaf[k] != 47,
    ensures
        map.contains_key(group.push(47) + leaf) ==> rule_enabled(map, group.push(47) + leaf)
            == map[group.push(47) + leaf],
        !map.contains_key(group.push(47) + leaf) ==> rule_enabled(map, group.push(47) + leaf)
            == rule_enabled(map, group),
{
    let name = group.push(47) + leaf;
    lemma_rfind_bounds(name, 47, name.len() as int);
    assert(name[group.len() as int] == 47);
    assert forall|k: int| group.len() < k < name.len() implies name[k] != 47 by {
        assert(name[k] == leaf[k - group.len() - 1]);
    }
    assert(rfind_byte(name, 47) == Some(group.len() as int));
    assert(name.subrange(0, group.len() as int) =~= group);
}

proof fn lemma_toggles_insert(entries: Seq<(Vec<u8>, bool)>, entry: (Vec<u8>, bool))
    ensures
        toggles(entries.push(entry)) == toggles(entries).insert(entry.0@, entry.1),
{
    assert(entries.push(entry).drop_last() =~= entries);
}

fn join(root: &[u8], name: &[u8]) -> (r: Vec<u8>)
    ensures
        r@ == join_path(root@, name@),
{
    let mut out: Vec<u8> = Vec::new();
    push_all(&mut out, root);
    if root.len() > 0 && root[root.len() - 1] != 47 {
        out.push(47);
    }
    push_all(&mut out, name);
    assert(out@ =~= join_path(root@, name@));
    out
}

impl Default for AnalyzerConfig {
    /// The configuration without a file: every rule is enabled and the
    /// PSR-4 check is off.
    fn default() -> (cfg: Self)
        ensures
            cfg.rule_map() == Map::<Seq<u8>, bool>::empty(),
            !cfg.psr4.enabled,
            cfg.psr4.namespace_root.is_none(),
            cfg.strictness == StrictnessLevel::Standard,
    {
        AnalyzerConfig::new()
    }
}

impl AnalyzerConfig {
    /// The rule toggles as a mapping from rule or group name to its flag.
    pub open spec fn rule_map(&self) -> Map<Seq<u8>, bool> {
        toggles(self.rules@)
    }

    /// A configuration without toggles: every rule is enabled and PSR-4
    /// checking is off.
    pub fn new() -> (cfg: Self)
        ensures
            cfg.rule_map() == Map::<Seq<u8>, bool>::empty(),
            !cfg.psr4.enabled,
            cfg.psr4.namespace_root.is_none(),
            cfg.strictness == StrictnessLevel::Standard,
    {
        AnalyzerConfig {
            rules: Vec::new(),
            psr4: Psr4Config::default(),
            strictness: StrictnessLevel::Standard,
        }
    }

    /// Sets the toggle of a rule or of a rule group.
    pub fn set_rule(&mut self, name: &str, enabled: bool)
        ensures
            final(self).rule_map() == old(self).rule_map().insert(name.spec_bytes(), enabled),
            final(self).psr4 == old(self).psr4,
            final(self).strictness == old(self).strictness,
    {
        let entry = (to_vec(name.as_bytes()), enabled);
        proof {
            lemma_toggles_insert(self.rules@, entry);
        }
        self.rules.push(entry);
    }

    /// Whether the rule named `name` is enabled.
    pub fn enables(&self, name: &[u8]) -> (r: bool)
        ensures
            r == rule_enabled(self.rule_map(), name@),
    {
        let mut len: usize = name.len();
        proof {
            assert(name@.subrange(0, len as int) =~= name@);
        }
        loop
            invariant
                len <= name@.len(),
                rule_enabled(self.rule_map(), name@) == rule_enabled(
                    self.rule_map(),
                    name@.subrange(0, len as int),
                ),
            decreases len,
        {
            let candidate = slice_subrange(name, 0, len);
            match self.lookup(candidate) {
                Some(flag) => {
                    return flag;
                },
                None => {},
            }
            match rfind_byte_in(candidate, 47) {
                Some(idx) => {
                    proof {
                        assert(candidate@.subrange(0, idx as int) =~= name@.subrange(0, idx as int));
                    }
                    len = idx;
                },
                None => {
                    return true;
                },
            }
        }
    }

    fn lookup(&self, name: &[u8]) -> (r: Option<bool>)
        ensures
            r.is_some() == self.rule_map().contains_key(name@),
            r.is_some() ==> r.unwrap() == self.rule_map()[name@],
    {
        let mut j: usize = self.rules.len();
        proof {
            assert(self.rules@.subrange(0, j as int) =~= self.rules@);
        }
        while j > 0
            invariant
                j <= self.rules.len(),
                self.rule_map().contains_key(name@) == toggles(
                    self.rules@.subrange(0, j as int),
                ).contains_key(name@),
                self.rule_map().contains_key(name@) ==> self.rule_map()[name@] == toggles(
                    self.rules@.subrange(0, j as int),
                )[name@],
            decreases j,
        {
            proof {
                let upto = self.rules@.subrange(0, j as int);
                assert(upto.drop_last() =~= self.rules@.subrange(0, j - 1));
                assert(upto.last() == self.rules@[j - 1]);
            }
            if bytes_eq(self.rules[j - 1].0.as_slice(), name) {
                return Some(self.rules[j - 1].1);
            }
            j -= 1;
        }
        None
    }

    /// Whether the rule `rule_name` is enabled.
    pub fn enabled(&self, rule_name: &str) -> (r: bool)
        ensures
            r == rule_enabled(self.rule_map(), rule_name.spec_bytes()),
    {
        self.enables(rule_name.as_bytes())
    }

    /// The places where a configuration file is looked for under `root`, in
    /// order of preference.
    pub fn config_candidates(root: &str) -> (r: (Vec<u8>, Vec<u8>))
        ensures
            r.0@ == join_path(root.spec_bytes(), "php_checker.yaml".spec_bytes()),
            r.1@ == join_path(root.spec_bytes(), "php_checker.yml".spec_bytes()),
    {
        (
            join(root.as_bytes(), "php_checker.yaml".as_bytes()),
            join(root.as_bytes(), "php_checker.yml".as_bytes()),
        )
    }

    /// Picks the configuration file: the one that was asked for, else the
    /// first candidate under `root` that exists. `yaml_is_file` and
    /// `yml_is_file` say which of the two candidates are files.
    pub fn find_config(
        path: Option<Vec<u8>>,
        root: &str,
        yaml_is_file: bool,
        yml_is_file: bool,
    ) -> (r: Option<Vec<u8>>)
        ensures
            path.is_some() ==> r == path,
            path.is_none() && yaml_is_file ==> r.is_some() && r.unwrap()@ == join_path(
                root.spec_bytes(),
                "php_checker.yaml".spec_bytes(),
            ),
            path.is_none() && !yaml_is_file && yml_is_file ==> r.is_some() && r.unwrap()@
                == join_path(root.spec_bytes(), "php_checker.yml".spec_bytes()),
            path.is_none() && !yaml_is_file && !yml_is_file ==> r.is_none(),
    {
        if path.is_some() {
            return path;
        }
        let candidates = AnalyzerConfig::config_candidates(root);
        if yaml_is_file {
            Some(candidates.0)
        } else if yml_is_file {
            Some(candidates.1)
        } else {
            None
        }
    }
}

} // verus!

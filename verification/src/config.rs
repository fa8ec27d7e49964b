//! Configuration model for tfpin.
//!
//! All rules are declared in a `.tfpin.toml` file. Every section is optional: a check is only
//! performed when its corresponding section is present, so an empty config enforces nothing.
//! Reading the file and decoding the TOML happen at the edge of the program; this module holds
//! the decoded rules.

use vstd::prelude::*;
use vstd::string::*;

use crate::paths::{ancestors_of, joined_path, path_ancestors, path_join};
use crate::text::str_eq;
use crate::value::TomlValue;

verus! {

/// Name of the configuration file discovered by walking up the directory tree.
pub const CONFIG_FILENAME: &'static str = ".tfpin.toml";

/// Default glob used when no file glob is configured: every Terraform file, recursively.
pub const DEFAULT_INCLUDE: &'static str = "**/*.tf";

/// Glob that is always excluded, even when the user supplies their own `exclude` list.
/// Terraform's provider cache lives under `.terraform/` and can contain thousands of vendored
/// `.tf` files that must never be linted.
pub const DEFAULT_EXCLUDE: &'static str = "**/.terraform/**";

/// The full set of rules to enforce, as decoded from `.tfpin.toml`.
///
/// The maps of the file are lists of `(key, value)` pairs, each key once, in ascending key order
/// (see `wf`).
#[derive(Debug)]
pub struct Config {
    /// Expected value of `terraform.required_version` when a file sets it.
    pub terraform_version: Option<String>,
    /// Top-level block kinds that must not be present (e.g. `moved`, `import`, `removed`).
    pub forbidden_blocks: Vec<String>,
    /// Glob patterns (relative to the config file's directory) selecting files to check: the
    /// `include` key of the file.
    pub include_globs: Vec<String>,
    /// Glob patterns to leave out: the `exclude` key of the file. `**/.terraform/**` is always
    /// left out as well.
    pub exclude_globs: Vec<String>,
    /// Expected provider version constraints, keyed by provider name.
    pub providers: Vec<(String, String)>,
    /// Expected module version constraints, keyed by module `source`.
    pub modules: Vec<(String, String)>,
    /// Backend conventions.
    pub backend: Backend,
}

/// Backend conventions. Only S3 is supported.
#[derive(Debug)]
pub struct Backend {
    pub s3: Option<BackendS3>,
}

/// Expected attributes of an `s3` backend block.
///
/// Free-form: any attribute the user lists is enforced verbatim against the parsed backend
/// block, and attributes present on the block but absent here are ignored. `key_template` is
/// the one reserved key: it drives the path-mirroring check of the block's `key`.
#[derive(Debug)]
pub struct BackendS3 {
    /// Template for the backend `key`, where `{dir}` is replaced by the `.tf` file's directory
    /// relative to the config file, joined with `/`.
    pub key_template: Option<String>,
    /// Every other attribute, with its expected value, in ascending key order.
    pub expected: Vec<(String, TomlValue)>,
}

/// The views of a list of strings.
pub open spec fn strs(v: Seq<String>) -> Seq<Seq<char>> {
    v.map_values(|s: String| s@)
}

/// The keys of a list of pairs.
pub open spec fn keys_of<V>(entries: Seq<(String, V)>) -> Seq<Seq<char>> {
    entries.map_values(|e: (String, V)| e.0@)
}

/// No key occurs twice.
pub open spec fn keys_distinct(keys: Seq<Seq<char>>) -> bool {
    forall|i: int, j: int| 0 <= i < j < keys.len() ==> keys[i] != keys[j]
}

/// `a` comes before `b` in the order of `String`: character by character, a proper prefix
/// first.
pub open spec fn text_lt(a: Seq<char>, b: Seq<char>) -> bool
    decreases a.len(),
{
    if b.len() == 0 {
        false
    } else if a.len() == 0 {
        true
    } else if a[0] != b[0] {
        a[0] < b[0]
    } else {
        text_lt(a.drop_first(), b.drop_first())
    }
}

/// Each key comes before every later one in the order of `String`, as a `BTreeMap` yields its
/// keys.
pub open spec fn keys_ascending(keys: Seq<Seq<char>>) -> bool {
    forall|i: int, j: int| 0 <= i < j < keys.len() ==> #[trigger] text_lt(keys[i], keys[j])
}

/// A list of `(key, value)` pairs as a `BTreeMap` holds them: each key once, in ascending
/// order.
pub open spec fn map_like<V>(entries: Seq<(String, V)>) -> bool {
    keys_distinct(keys_of(entries)) && keys_ascending(keys_of(entries))
}

/// The value of the first entry whose key is `key`.
pub open spec fn spec_lookup<V>(entries: Seq<(String, V)>, key: Seq<char>) -> Option<V>
    decreases entries.len(),
{
    if entries.len() == 0 {
        None
    } else if entries[0].0@ == key {
        Some(entries[0].1)
    } else {
        spec_lookup(entries.drop_first(), key)
    }
}

/// The value under `key` of a map held as `(key, value)` pairs.
pub fn lookup<'a, V>(entries: &'a Vec<(String, V)>, key: &str) -> (r: Option<&'a V>)
    ensures
        match r {
            Some(v) => spec_lookup(entries@, key@) == Some(*v),
            None => spec_lookup(entries@, key@) is None,
        },
{
    let mut i: usize = 0;
    assert(entries@.skip(0) =~= entries@);
    while i < entries.len()
        invariant
            i <= entries@.len(),
            spec_lookup(entries@, key@) == spec_lookup(entries@.skip(i as int), key@),
        decreases entries@.len() - i,
    {
        assert(entries@.skip(i as int).drop_first() =~= entries@.skip(i + 1));
        assert(entries@.skip(i as int)[0] == entries@[i as int]);
        if str_eq(entries[i].0.as_str(), key) {
            return Some(&entries[i].1);
        }
        i = i + 1;
    }
    None
}

/// A copy of a list of strings.
pub fn copy_strings(v: &Vec<String>) -> (r: Vec<String>)
    ensures
        strs(r@) == strs(v@),
{
    let mut out: Vec<String> = Vec::new();
    let mut i: usize = 0;
    while i < v.len()
        invariant
            i <= v@.len(),
            out@.len() == i,
            strs(out@) == strs(v@.take(i as int)),
        decreases v@.len() - i,
    {
        let ghost before = out@;
        let c = v[i].clone();
        out.push(c);
        assert(out@ == before.push(c));
        assert(strs(out@) =~= strs(v@.take(i + 1))) by {
            assert(strs(before) == strs(v@.take(i as int)));
            assert forall|j: int| 0 <= j < i implies strs(out@)[j] == strs(v@.take(i + 1))[j] by {
                assert(strs(out@)[j] == out@[j]@);
                assert(out@[j] == before[j]);
                assert(strs(before)[j] == before[j]@);
                assert(strs(v@.take(i as int))[j] == v@[j]@);
            }
        }
        i = i + 1;
    }
    assert(v@.take(v@.len() as int) =~= v@);
    out
}

/// Whether a list of strings holds `s`.
pub fn contains_str(v: &Vec<String>, s: &str) -> (r: bool)
    ensures
        r == strs(v@).contains(s@),
{
    let mut i: usize = 0;
    while i < v.len()
        invariant
            i <= v@.len(),
            forall|j: int| 0 <= j < i ==> v@[j]@ != s@,
        decreases v@.len() - i,
    {
        if str_eq(v[i].as_str(), s) {
            assert(strs(v@)[i as int] == s@);
            return true;
        }
        i = i + 1;
    }
    assert forall|j: int| 0 <= j < strs(v@).len() implies strs(v@)[j] != s@ by {
        assert(strs(v@)[j] == v@[j]@);
    }
    false
}

impl Config {
    /// The configuration with no section: it checks nothing.
    pub open spec fn is_empty_config(self) -> bool {
        &&& self.terraform_version is None
        &&& self.forbidden_blocks@.len() == 0
        &&& self.include_globs@.len() == 0
        &&& self.exclude_globs@.len() == 0
        &&& self.providers@.len() == 0
        &&& self.modules@.len() == 0
        &&& self.backend.s3 is None
    }

    /// What decoding `.tfpin.toml` into maps guarantees: the provider map, the module map and
    /// the free-form backend attributes each hold each key once, in ascending key order.
    pub open spec fn wf(self) -> bool {
        &&& map_like(self.providers@)
        &&& map_like(self.modules@)
        &&& match self.backend.s3 {
            Some(s3) => map_like(s3.expected@),
            None => true,
        }
    }

    /// The file globs: the configured ones, or `**/*.tf` when none is configured.
    pub open spec fn spec_include_patterns(self) -> Seq<Seq<char>> {
        if self.include_globs@.len() == 0 {
            seq![DEFAULT_INCLUDE@]
        } else {
            strs(self.include_globs@)
        }
    }

    /// The globs to leave out: the configured ones, and `**/.terraform/**` after them unless it
    /// is among them already.
    pub open spec fn spec_exclude_patterns(self) -> Seq<Seq<char>> {
        if strs(self.exclude_globs@).contains(DEFAULT_EXCLUDE@) {
            strs(self.exclude_globs@)
        } else {
            strs(self.exclude_globs@).push(DEFAULT_EXCLUDE@)
        }
    }

    /// File globs, falling back to the default when none are configured.
    pub fn include_patterns(&self) -> (r: Vec<String>)
        ensures
            strs(r@) == self.spec_include_patterns(),
    {
        if self.include_globs.len() == 0 {
            let mut v: Vec<String> = Vec::new();
            v.push(DEFAULT_INCLUDE.to_string());
            assert(strs(v@) =~= seq![DEFAULT_INCLUDE@]);
            v
        } else {
            copy_strings(&self.include_globs)
        }
    }

    /// Exclude globs, always containing the default `.terraform` exclusion.
    pub fn exclude_patterns(&self) -> (r: Vec<String>)
        ensures
            strs(r@) == self.spec_exclude_patterns(),
    {
        let mut patterns = copy_strings(&self.exclude_globs);
        if !contains_str(&patterns, DEFAULT_EXCLUDE) {
            patterns.push(DEFAULT_EXCLUDE.to_string());
            assert(strs(patterns@) =~= strs(self.exclude_globs@).push(DEFAULT_EXCLUDE@));
        }
        patterns
    }
}

/// The index of the first `true`.
pub open spec fn first_true(present: Seq<bool>) -> Option<int>
    decreases present.len(),
{
    if present.len() == 0 {
        None
    } else if present[0] {
        Some(0)
    } else {
        match first_true(present.drop_first()) {
            Some(i) => Some(i + 1),
            None => None,
        }
    }
}

impl Config {
    /// Where `.tfpin.toml` is looked for from `start`: in `start`, then in each directory above
    /// it, in that order.
    pub open spec fn spec_discover_candidates(start: Seq<char>) -> Seq<Seq<char>> {
        ancestors_of(start).map_values(|dir: Seq<char>| joined_path(dir, CONFIG_FILENAME@))
    }

    /// The places to look for `.tfpin.toml` when walking up from `start`, nearest first.
    pub fn discover_candidates(start: &str) -> (r: Vec<String>)
        ensures
            strs(r@) == Self::spec_discover_candidates(start@),
    {
        let dirs = path_ancestors(start);
        let ghost ds = strs(dirs@);
        let mut out: Vec<String> = Vec::new();
        let mut i: usize = 0;
        while i < dirs.len()
            invariant
                ds == strs(dirs@),
                ds == ancestors_of(start@),
                i <= dirs@.len(),
                strs(out@) == ds.take(i as int).map_values(
                    |dir: Seq<char>| joined_path(dir, CONFIG_FILENAME@),
                ),
            decreases dirs@.len() - i,
        {
            assert(ds[i as int] == dirs@[i as int]@);
            let candidate = path_join(dirs[i].as_str(), CONFIG_FILENAME);
            let ghost before = strs(out@);
            out.push(candidate);
            assert(strs(out@) =~= before.push(candidate@));
            assert(strs(out@) =~= ds.take(i + 1).map_values(
                |dir: Seq<char>| joined_path(dir, CONFIG_FILENAME@),
            ));
            i = i + 1;
        }
        assert(ds.take(ds.len() as int) =~= ds);
        out
    }

    /// The first of the `candidates` that is a file (`present[i]` tells of `candidates[i]`).
    pub fn discover(candidates: &Vec<String>, present: &Vec<bool>) -> (r: Option<String>)
        requires
            candidates@.len() == present@.len(),
        ensures
            match first_true(present@) {
                Some(i) => r matches Some(path) && path@ == candidates@[i]@,
                None => r is None,
            },
    {
        let mut i: usize = 0;
        assert(present@.skip(0) =~= present@);
        while i < present.len()
            invariant
                candidates@.len() == present@.len(),
                i <= present@.len(),
                forall|j: int| 0 <= j < i ==> !present@[j],
                match first_true(present@.skip(i as int)) {
                    Some(k) => first_true(present@) == Some(k + i),
                    None => first_true(present@) is None,
                },
            decreases present@.len() - i,
        {
            assert(present@.skip(i as int).drop_first() =~= present@.skip(i + 1));
            assert(present@.skip(i as int)[0] == present@[i as int]);
            if present[i] {
                return Some(candidates[i].clone());
            }
            i = i + 1;
        }
        None
    }
}

impl Default for Config {
    fn default() -> (r: Self)
        ensures
            r.is_empty_config(),
            r.wf(),
    {
        Config {
            terraform_version: None,
            forbidden_blocks: Vec::new(),
            include_globs: Vec::new(),
            exclude_globs: Vec::new(),
            providers: Vec::new(),
            modules: Vec::new(),
            backend: Backend { s3: None },
        }
    }
}

} // verus!

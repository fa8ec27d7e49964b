//! File paths: which files a run looks at, and how a file's path is shown and turned into the
//! `{dir}` of the backend key template.
//!
//! Paths are held as text. What `std::path` computes on them (prefixes, parents, components,
//! ordering) is had from `std::path` itself, through the wrappers below.

use vstd::prelude::*;
use vstd::string::*;

use crate::config::{strs, Config};
use crate::text::{join, join_strings, occurs_at};

verus! {

/// What `Path::strip_prefix` gives for `path` and `base`, as text; `None` where it reports an
/// error.
pub uninterp spec fn strip_prefix_of(path: Seq<char>, base: Seq<char>) -> Option<Seq<char>>;

/// What `Path::starts_with` answers for `path` and `base`.
pub uninterp spec fn starts_with_of(path: Seq<char>, base: Seq<char>) -> bool;

/// What `Path::parent` gives for `path`, as text.
pub uninterp spec fn parent_of(path: Seq<char>) -> Option<Seq<char>>;

/// The components that `Path::components` yields for `path`, each as text.
pub uninterp spec fn components_of(path: Seq<char>) -> Seq<Seq<char>>;

/// What `==` of two `Path`s answers.
pub uninterp spec fn paths_equal(a: Seq<char>, b: Seq<char>) -> bool;

/// The order that sorting paths by `Path::cmp` gives a list of paths.
pub uninterp spec fn sorted_paths_of(paths: Seq<Seq<char>>) -> Seq<Seq<char>>;

/// `Path::cmp` of `a` and `b` is not `Greater`: `a` comes no later than `b` in the order of
/// paths.
pub uninterp spec fn path_le(a: Seq<char>, b: Seq<char>) -> bool;

/// `Path::new(path).strip_prefix(base)`, as text.
///
/// Trusted: the result is `strip_prefix_of`, and, as its documentation says, it is an error
/// exactly where `path` does not start with `base`.
#[verifier::external_body]
pub fn path_strip_prefix(path: &str, base: &str) -> (r: Option<String>)
    ensures
        match r {
            Some(s) => strip_prefix_of(path@, base@) == Some(s@),
            None => strip_prefix_of(path@, base@) is None,
        },
        r is Some == starts_with_of(path@, base@),
{
    std::path::Path::new(path).strip_prefix(base).ok().map(|p| p.to_string_lossy().into_owned())
}

/// `Path::new(path).starts_with(base)`.
///
/// Trusted: the answer is `starts_with_of`.
#[verifier::external_body]
pub fn path_starts_with(path: &str, base: &str) -> (r: bool)
    ensures
        r == starts_with_of(path@, base@),
{
    std::path::Path::new(path).starts_with(base)
}

/// `Path::new(path).parent()`, as text.
///
/// Trusted: the result is `parent_of`.
#[verifier::external_body]
pub fn path_parent(path: &str) -> (r: Option<String>)
    ensures
        match r {
            Some(s) => parent_of(path@) == Some(s@),
            None => parent_of(path@) is None,
        },
{
    std::path::Path::new(path).parent().map(|p| p.to_string_lossy().into_owned())
}

/// The components of `Path::new(path)`, each as text (`Component::as_os_str`).
///
/// Trusted: the result is `components_of`.
#[verifier::external_body]
pub fn path_components(path: &str) -> (r: Vec<String>)
    ensures
        strs(r@) == components_of(path@),
{
    std::path::Path::new(path).components().map(|c| c.as_os_str().to_string_lossy().into_owned()).collect()
}

/// `Path::new(a) == Path::new(b)`.
///
/// Trusted: the answer is `paths_equal`.
#[verifier::external_body]
pub fn path_eq(a: &str, b: &str) -> (r: bool)
    ensures
        r == paths_equal(a@, b@),
{
    std::path::Path::new(a) == std::path::Path::new(b)
}

/// What `Ord` promises of `Path::cmp` among the paths of `s`: each path comes no later than
/// itself, the order is transitive, and two paths are `==` exactly when each comes no later
/// than the other (`cmp` gives `Equal`).
#[verifier::opaque]
pub open spec fn path_order_laws_on(s: Seq<Seq<char>>) -> bool {
    &&& forall|a: Seq<char>| #[trigger] s.contains(a) ==> path_le(a, a)
    &&& forall|a: Seq<char>, b: Seq<char>|
        #![trigger paths_equal(a, b)]
        #![trigger path_le(a, b), path_le(b, a)]
        s.contains(a) && s.contains(b) ==> (paths_equal(a, b) <==> (path_le(a, b) && path_le(
            b,
            a,
        )))
    &&& forall|a: Seq<char>, b: Seq<char>, c: Seq<char>|
        #![trigger path_le(a, b), path_le(b, c)]
        s.contains(a) && s.contains(b) && s.contains(c) ==> (path_le(a, b) && path_le(b, c)
            ==> path_le(a, c))
}

/// Sorts paths by `Path::cmp` (`slice::sort_by`).
///
/// Trusted: the new order is `sorted_paths_of` the old one; as a sort, it holds the same paths
/// as many times each, and each path comes no later than every path after it in the order
/// of `Path::cmp`, as the documentation of `sort_by` says of a sorted slice. Among the sorted
/// paths, `Path::cmp` keeps the laws that `Ord` documents (`path_order_laws_on`).
#[verifier::external_body]
pub fn sort_paths(v: &mut Vec<String>)
    ensures
        strs(final(v)@) == sorted_paths_of(strs(old(v)@)),
        strs(final(v)@).to_multiset() == strs(old(v)@).to_multiset(),
        forall|i: int, j: int|
            0 <= i < j < final(v)@.len() ==> #[trigger] path_le(final(v)@[i]@, final(v)@[j]@),
        path_order_laws_on(strs(final(v)@)),
{
    v.sort_by(|a, b| std::path::Path::new(a).cmp(std::path::Path::new(b)))
}

/// The paths that `Path::ancestors` yields for `path`, each as text.
pub uninterp spec fn ancestors_of(path: Seq<char>) -> Seq<Seq<char>>;

/// What `Path::join` gives for `base` and `name`, as text.
pub uninterp spec fn joined_path(base: Seq<char>, name: Seq<char>) -> Seq<char>;

/// `Path::new(path).ancestors()`, each as text.
///
/// Trusted: the result is `ancestors_of`; as the documentation says, the first of them is the
/// path itself.
#[verifier::external_body]
pub fn path_ancestors(path: &str) -> (r: Vec<String>)
    ensures
        strs(r@) == ancestors_of(path@),
        r@.len() >= 1,
        r@[0]@ == path@,
{
    std::path::Path::new(path).ancestors().map(|a| a.to_string_lossy().into_owned()).collect()
}

/// `Path::new(base).join(name)`, as text.
///
/// Trusted: the result is `joined_path`.
#[verifier::external_body]
pub fn path_join(base: &str, name: &str) -> (r: String)
    ensures
        r@ == joined_path(base@, name@),
{
    std::path::Path::new(base).join(name).to_string_lossy().into_owned()
}

/// The part of `file` after `base`, or `file` itself where it does not start with `base`.
pub open spec fn relative_or_whole(file: Seq<char>, base: Seq<char>) -> Seq<char> {
    match strip_prefix_of(file, base) {
        Some(rel) => rel,
        None => file,
    }
}

/// The file's parent directory relative to `base`, joined with `/`.
pub open spec fn spec_relative_dir(file: Seq<char>, base: Seq<char>) -> Seq<char> {
    let dir = match parent_of(relative_or_whole(file, base)) {
        Some(d) => d,
        None => Seq::empty(),
    };
    join(components_of(dir), "/"@)
}

/// The file's parent directory relative to `base`, joined with `/` (the `{dir}` placeholder
/// value). Empty when the file sits directly in `base`.
pub fn relative_dir(file: &str, base: &str) -> (r: String)
    ensures
        r@ == spec_relative_dir(file@, base@),
{
    let relative = match path_strip_prefix(file, base) {
        Some(rel) => rel,
        None => file.to_owned(),
    };
    let dir = match path_parent(relative.as_str()) {
        Some(d) => d,
        None => String::new(),
    };
    let parts = path_components(dir.as_str());
    join_strings(&parts, "/")
}

/// A path for display: relative to the config dir when possible, otherwise as-is.
pub fn display_path(file: &str, base: &str) -> (r: String)
    ensures
        r@ == relative_or_whole(file@, base@),
{
    match path_strip_prefix(file, base) {
        Some(rel) => rel,
        None => file.to_owned(),
    }
}

/// The outcome of resolving the requested paths: the resolved paths where every one resolved,
/// else `"<path>: <error>"` for the first that did not.
pub open spec fn spec_canonicalize_roots(
    paths: Seq<Seq<char>>,
    resolved: Seq<Result<Seq<char>, Seq<char>>>,
) -> Result<Seq<Seq<char>>, Seq<char>>
    decreases paths.len(),
{
    if paths.len() == 0 || resolved.len() == 0 {
        Ok(Seq::empty())
    } else {
        match resolved[0] {
            Err(e) => Err(paths[0] + ": "@ + e),
            Ok(c) => match spec_canonicalize_roots(paths.drop_first(), resolved.drop_first()) {
                Ok(rest) => Ok(seq![c] + rest),
                Err(m) => Err(m),
            },
        }
    }
}

/// The views of the outcomes of resolving paths.
pub open spec fn outcomes(v: Seq<Result<String, String>>) -> Seq<Result<Seq<char>, Seq<char>>> {
    v.map_values(
        |o: Result<String, String>|
            match o {
                Ok(s) => Ok(s@),
                Err(e) => Err(e@),
            },
    )
}

/// Canonicalize the user-supplied paths, erroring if any does not exist: `resolved[i]` is what
/// resolving `paths[i]` gave (the resolved path, or the text of the error).
pub fn canonicalize_roots(paths: &Vec<String>, resolved: &Vec<Result<String, String>>) -> (r:
    Result<Vec<String>, String>)
    requires
        paths@.len() == resolved@.len(),
    ensures
        match r {
            Ok(roots) => spec_canonicalize_roots(strs(paths@), outcomes(resolved@)) == Ok::<
                Seq<Seq<char>>,
                Seq<char>,
            >(strs(roots@)),
            Err(m) => spec_canonicalize_roots(strs(paths@), outcomes(resolved@)) == Err::<
                Seq<Seq<char>>,
                Seq<char>,
            >(m@),
        },
{
    let ghost ps = strs(paths@);
    let ghost rs = outcomes(resolved@);
    let mut roots: Vec<String> = Vec::new();
    let mut i: usize = 0;
    while i < paths.len()
        invariant
            ps == strs(paths@),
            rs == outcomes(resolved@),
            paths@.len() == resolved@.len(),
            i <= paths@.len(),
            roots@.len() == i,
            forall|j: int| 0 <= j < i ==> rs[j] == Ok::<Seq<char>, Seq<char>>(#[trigger] roots@[j]@),
        decreases paths@.len() - i,
    {
        match &resolved[i] {
            Ok(c) => {
                roots.push(c.clone());
            },
            Err(e) => {
                let mut m = paths[i].clone();
                m.append(": ");
                m.append(e.as_str());
                proof {
                    assert forall|j: int| 0 <= j < i implies (#[trigger] rs[j]) is Ok by {
                        assert(rs[j] == Ok::<Seq<char>, Seq<char>>(roots@[j]@));
                    }
                    lemma_canonicalize_first_error(ps, rs, i as int);
                }
                return Err(m);
            },
        }
        i = i + 1;
    }
    proof {
        lemma_canonicalize_all_ok(ps, rs, strs(roots@));
    }
    Ok(roots)
}

proof fn lemma_canonicalize_first_error(
    ps: Seq<Seq<char>>,
    rs: Seq<Result<Seq<char>, Seq<char>>>,
    i: int,
)
    requires
        ps.len() == rs.len(),
        0 <= i < ps.len(),
        forall|j: int| 0 <= j < i ==> (#[trigger] rs[j]) is Ok,
        rs[i] is Err,
    ensures
        spec_canonicalize_roots(ps, rs) == Err::<Seq<Seq<char>>, Seq<char>>(
            ps[i] + ": "@ + rs[i]->Err_0,
        ),
    decreases i,
{
    if i > 0 {
        assert(rs[0] is Ok);
        lemma_canonicalize_first_error(ps.drop_first(), rs.drop_first(), i - 1);
    }
}

proof fn lemma_canonicalize_all_ok(
    ps: Seq<Seq<char>>,
    rs: Seq<Result<Seq<char>, Seq<char>>>,
    roots: Seq<Seq<char>>,
)
    requires
        ps.len() == rs.len(),
        roots.len() == rs.len(),
        forall|j: int| 0 <= j < rs.len() ==> rs[j] == Ok::<Seq<char>, Seq<char>>(#[trigger] roots[j]),
    ensures
        spec_canonicalize_roots(ps, rs) == Ok::<Seq<Seq<char>>, Seq<char>>(roots),
    decreases ps.len(),
{
    if ps.len() > 0 {
        assert(rs[0] == Ok::<Seq<char>, Seq<char>>(roots[0]));
        assert forall|j: int| 0 <= j < rs.drop_first().len() implies rs.drop_first()[j] == Ok::<
            Seq<char>,
            Seq<char>,
        >(#[trigger] roots.drop_first()[j]) by {
            assert(rs.drop_first()[j] == rs[j + 1]);
            assert(roots.drop_first()[j] == roots[j + 1]);
        }
        lemma_canonicalize_all_ok(ps.drop_first(), rs.drop_first(), roots.drop_first());
        assert(seq![roots[0]] + roots.drop_first() =~= roots);
    } else {
        assert(roots =~= Seq::<Seq<char>>::empty());
    }
}

} // verus!

verus! {

/// `s` without the suffix `suf`, where it ends with it.
pub open spec fn strip_suffix_of(s: Seq<char>, suf: Seq<char>) -> Option<Seq<char>> {
    if suf.len() <= s.len() && s.skip(s.len() - suf.len()) == suf {
        Some(s.take(s.len() - suf.len()))
    } else {
        None
    }
}

/// `s.strip_suffix(suf)`.
pub fn strip_suffix<'a>(s: &'a str, suf: &str) -> (r: Option<&'a str>)
    ensures
        match r {
            Some(t) => strip_suffix_of(s@, suf@) == Some(t@),
            None => strip_suffix_of(s@, suf@) is None,
        },
{
    let n = s.unicode_len();
    let m = suf.unicode_len();
    if m > n {
        return None;
    }
    if occurs_at(s, n, suf, m, n - m) {
        assert(s@.skip(n - m) =~= s@.subrange(n - m, n as int));
        Some(s.substring_char(0, n - m))
    } else {
        assert(s@.skip(n - m) =~= s@.subrange(n - m, n as int));
        None
    }
}

/// The negated globs that keep the walk out of the excluded paths: for each pattern, in order,
/// `!<dir>` first where it ends with `/**` (so that the directory itself is pruned and never
/// descended into), then `!<pattern>`.
pub open spec fn negated_excludes(excludes: Seq<Seq<char>>) -> Seq<Seq<char>>
    decreases excludes.len(),
{
    if excludes.len() == 0 {
        Seq::empty()
    } else {
        let rest = negated_excludes(excludes.drop_last());
        let e = excludes.last();
        let pruned = match strip_suffix_of(e, "/**"@) {
            Some(dir) => rest.push("!"@ + dir),
            None => rest,
        };
        pruned.push("!"@ + e)
    }
}

/// The globs that the walk of the config's directory is given: the file globs, then the
/// negated exclude globs.
pub open spec fn spec_walk_patterns(cfg: Config) -> Seq<Seq<char>> {
    cfg.spec_include_patterns() + negated_excludes(cfg.spec_exclude_patterns())
}

/// `!` before a pattern.
fn negate(p: &str) -> (r: String)
    ensures
        r@ == "!"@ + p@,
{
    let mut r = String::from_str("!");
    r.append(p);
    r
}

/// The globs to walk the config's directory with: the `include` globs (relative to the config
/// dir), then each exclude glob negated, preceded by its directory where it ends with `/**`.
pub fn walk_patterns(cfg: &Config) -> (r: Vec<String>)
    ensures
        strs(r@) == spec_walk_patterns(*cfg),
{
    let mut patterns = cfg.include_patterns();
    let excludes = cfg.exclude_patterns();
    let ghost start = strs(patterns@);
    let ghost ex = strs(excludes@);
    let mut i: usize = 0;
    assert(strs(patterns@) =~= start + negated_excludes(ex.take(0)));
    while i < excludes.len()
        invariant
            ex == strs(excludes@),
            i <= excludes@.len(),
            strs(patterns@) == start + negated_excludes(ex.take(i as int)),
        decreases excludes@.len() - i,
    {
        assert(ex.take(i + 1).drop_last() =~= ex.take(i as int));
        assert(ex[i as int] == excludes@[i as int]@);
        let exclude = excludes[i].as_str();
        proof {
            reveal_strlit("/**");
        }
        let ghost before = strs(patterns@);
        match strip_suffix(exclude, "/**") {
            Some(dir) => {
                patterns.push(negate(dir));
                assert(strs(patterns@) =~= before.push("!"@ + dir@));
            },
            None => {},
        }
        let ghost mid = strs(patterns@);
        patterns.push(negate(exclude));
        assert(strs(patterns@) =~= mid.push("!"@ + exclude@));
        assert(strs(patterns@) =~= start + negated_excludes(ex.take(i + 1)));
        i = i + 1;
    }
    assert(ex.take(ex.len() as int) =~= ex);
    patterns
}

/// A canonical path lies in one of the roots: it is one of them, or starts with one.
pub open spec fn under_roots(path: Seq<char>, roots: Seq<Seq<char>>) -> bool {
    exists|k: int|
        0 <= k < roots.len() && (paths_equal(path, roots[k]) || starts_with_of(path, #[trigger] roots[k]))
}

/// The views of a list of optional strings.
pub open spec fn opt_strs(v: Seq<Option<String>>) -> Seq<Option<Seq<char>>> {
    v.map_values(
        |o: Option<String>|
            match o {
                Some(s) => Some(s@),
                None => None,
            },
    )
}

/// The files, in order, whose canonical form (the file itself where it has none) lies in one
/// of the roots.
pub open spec fn files_under(
    files: Seq<Seq<char>>,
    canonical: Seq<Option<Seq<char>>>,
    roots: Seq<Seq<char>>,
) -> Seq<Seq<char>>
    decreases files.len(),
{
    if files.len() == 0 {
        Seq::empty()
    } else {
        let rest = files_under(files.drop_last(), canonical.drop_last(), roots);
        let f = files.last();
        let c = if canonical.len() == files.len() && canonical.last() is Some {
            canonical.last()->Some_0
        } else {
            f
        };
        if under_roots(c, roots) {
            rest.push(f)
        } else {
            rest
        }
    }
}

/// The path that stands for `files[i]` when it is compared with the roots: its canonical
/// form, or the file itself where resolving it failed.
pub open spec fn canonical_or_file(files: Seq<Seq<char>>, canonical: Seq<Option<Seq<char>>>, i: int) -> Seq<char> {
    if canonical[i] is Some {
        canonical[i]->Some_0
    } else {
        files[i]
    }
}

/// What `files_under` keeps is among the files, and lies in a root.
pub proof fn lemma_files_under_kept(
    files: Seq<Seq<char>>,
    canonical: Seq<Option<Seq<char>>>,
    roots: Seq<Seq<char>>,
    x: Seq<char>,
)
    requires
        files.len() == canonical.len(),
        files_under(files, canonical, roots).contains(x),
    ensures
        exists|i: int|
            0 <= i < files.len() && files[i] == x && under_roots(
                #[trigger] canonical_or_file(files, canonical, i),
                roots,
            ),
    decreases files.len(),
{
    let rest = files_under(files.drop_last(), canonical.drop_last(), roots);
    let n = files.len() - 1;
    if rest.contains(x) {
        lemma_files_under_kept(files.drop_last(), canonical.drop_last(), roots, x);
        let i = choose|i: int|
            0 <= i < files.drop_last().len() && files.drop_last()[i] == x && under_roots(
                #[trigger] canonical_or_file(files.drop_last(), canonical.drop_last(), i),
                roots,
            );
        assert(canonical_or_file(files.drop_last(), canonical.drop_last(), i) == canonical_or_file(files, canonical, i));
    } else {
        let k = choose|k: int| 0 <= k < files_under(files, canonical, roots).len() && files_under(files, canonical, roots)[k] == x;
        assert(x == files[n]);
        assert(canonical_or_file(files, canonical, n) == (if canonical.last() is Some {
            canonical.last()->Some_0
        } else {
            files.last()
        }));
    }
}

/// What `dedup_paths` keeps is among its input.
pub proof fn lemma_dedup_kept(s: Seq<Seq<char>>, x: Seq<char>)
    requires
        dedup_paths(s).contains(x),
    ensures
        s.contains(x),
    decreases s.len(),
{
    let rest = dedup_paths(s.drop_last());
    if rest.contains(x) {
        lemma_dedup_kept(s.drop_last(), x);
        let k = choose|k: int| 0 <= k < s.drop_last().len() && s.drop_last()[k] == x;
        assert(s[k] == x);
    } else {
        assert(x == s.last());
        assert(s[s.len() - 1] == x);
    }
}

/// A file whose canonical form lies in a root is kept by `files_under`.
pub proof fn lemma_files_under_has(
    files: Seq<Seq<char>>,
    canonical: Seq<Option<Seq<char>>>,
    roots: Seq<Seq<char>>,
    i: int,
)
    requires
        files.len() == canonical.len(),
        0 <= i < files.len(),
        under_roots(canonical_or_file(files, canonical, i), roots),
    ensures
        files_under(files, canonical, roots).contains(files[i]),
    decreases files.len(),
{
    let rest = files_under(files.drop_last(), canonical.drop_last(), roots);
    if i == files.len() - 1 {
        let kept = files_under(files, canonical, roots);
        assert(kept == rest.push(files[i]));
        assert(kept[rest.len() as int] == files[i]);
    } else {
        assert(canonical_or_file(files.drop_last(), canonical.drop_last(), i) == canonical_or_file(files, canonical, i));
        lemma_files_under_has(files.drop_last(), canonical.drop_last(), roots, i);
        let k = choose|k: int| 0 <= k < rest.len() && rest[k] == files[i];
        let kept = files_under(files, canonical, roots);
        assert(kept[k] == rest[k]);
    }
}

/// `x` is in `out`, or a path equal to it as a `Path` is.
pub open spec fn represented(out: Seq<Seq<char>>, x: Seq<char>) -> bool {
    exists|y: Seq<char>| #[trigger] out.contains(y) && (y == x || paths_equal(x, y))
}

/// A path of a list is kept by `dedup_paths`, or a path equal to it is.
pub proof fn lemma_dedup_represents(s: Seq<Seq<char>>, x: Seq<char>)
    requires
        s.contains(x),
    ensures
        represented(dedup_paths(s), x),
    decreases s.len(),
{
    let rest = dedup_paths(s.drop_last());
    let d = dedup_paths(s);
    assert(forall|k: int| 0 <= k < rest.len() ==> d[k] == rest[k]);
    if x == s.last() {
        if rest.len() > 0 && paths_equal(s.last(), rest.last()) {
            assert(d[rest.len() - 1] == rest.last());
            assert(d.contains(rest.last()));
        } else {
            assert(d[rest.len() as int] == x);
            assert(d.contains(x));
        }
    } else {
        let k = choose|k: int| 0 <= k < s.len() && s[k] == x;
        assert(s.drop_last()[k] == x);
        lemma_dedup_represents(s.drop_last(), x);
        let y = choose|y: Seq<char>| #[trigger] rest.contains(y) && (y == x || paths_equal(x, y));
        let j = choose|j: int| 0 <= j < rest.len() && rest[j] == y;
        assert(d[j] == y);
        assert(d.contains(y));
    }
}

/// A list with each run of neighbouring equal paths (by `Path` `==` with the last one kept)
/// reduced to its first, as `Vec::dedup` does.
pub open spec fn dedup_paths(s: Seq<Seq<char>>) -> Seq<Seq<char>>
    decreases s.len(),
{
    if s.len() == 0 {
        Seq::empty()
    } else {
        let rest = dedup_paths(s.drop_last());
        if rest.len() > 0 && paths_equal(s.last(), rest.last()) {
            rest
        } else {
            rest.push(s.last())
        }
    }
}

/// The files to check: the walked files, narrowed to the roots where roots are given, sorted
/// by path and with repeats removed.
pub open spec fn spec_select_files(
    files: Seq<Seq<char>>,
    canonical: Seq<Option<Seq<char>>>,
    roots: Option<Seq<Seq<char>>>,
) -> Seq<Seq<char>> {
    dedup_paths(sorted_paths_of(narrowed_files(files, canonical, roots)))
}

/// The walked files that lie in a root, in order; all of them where no roots are given.
pub open spec fn narrowed_files(
    files: Seq<Seq<char>>,
    canonical: Seq<Option<Seq<char>>>,
    roots: Option<Seq<Seq<char>>>,
) -> Seq<Seq<char>> {
    match roots {
        Some(rs) => files_under(files, canonical, rs),
        None => files,
    }
}

/// `r` is the selection of files to check: it is `spec_select_files`; it holds only walked
/// files, each in a root where roots are given; every file in a root (every file, where none
/// are given) is in it or has a path equal to it as a `Path` in it; it ascends strictly in the
/// order of `Path::cmp`, no two of its paths equal; and among the files it was sorted from,
/// `Path::cmp` keeps the laws of `Ord`.
pub open spec fn is_selection(
    files: Seq<Seq<char>>,
    canonical: Seq<Option<Seq<char>>>,
    roots: Option<Seq<Seq<char>>>,
    r: Seq<Seq<char>>,
) -> bool {
    &&& r == spec_select_files(files, canonical, roots)
    &&& forall|x: Seq<char>| #[trigger] r.contains(x) ==> files.contains(x)
    &&& roots matches Some(rs) ==> forall|x: Seq<char>|
        #[trigger] r.contains(x) ==> exists|i: int|
            0 <= i < files.len() && files[i] == x && under_roots(
                #[trigger] canonical_or_file(files, canonical, i),
                rs,
            )
    &&& forall|j: int|
        #![trigger files[j]]
        0 <= j < files.len() && selected_by(files, canonical, roots, j) ==> represented(r, files[j])
    &&& forall|i: int, j: int| 0 <= i < j < r.len() ==> #[trigger] path_le(r[i], r[j])
    &&& forall|i: int, j: int| 0 <= i < j < r.len() ==> !#[trigger] paths_equal(r[i], r[j])
    &&& path_order_laws_on(narrowed_files(files, canonical, roots))
}

/// `Ord`'s laws for `Path::cmp` among a list's paths hold among any list with the same paths.
proof fn lemma_order_laws_same_paths(a: Seq<Seq<char>>, b: Seq<Seq<char>>)
    requires
        path_order_laws_on(a),
        a.to_multiset() == b.to_multiset(),
    ensures
        path_order_laws_on(b),
{
    reveal(path_order_laws_on);
    a.to_multiset_ensures();
    b.to_multiset_ensures();
    assert forall|x: Seq<char>| b.contains(x) implies a.contains(x) by {
        assert(b.to_multiset().count(x) > 0);
    }
}

/// Whether `path` is one of the roots or lies under one.
fn is_under_roots(path: &str, roots: &Vec<String>) -> (r: bool)
    ensures
        r == under_roots(path@, strs(roots@)),
{
    let ghost rs = strs(roots@);
    let mut k: usize = 0;
    while k < roots.len()
        invariant
            rs == strs(roots@),
            k <= roots@.len(),
            forall|j: int|
                0 <= j < k ==> !(paths_equal(path@, rs[j]) || starts_with_of(path@, #[trigger] rs[j])),
        decreases roots@.len() - k,
    {
        assert(rs[k as int] == roots@[k as int]@);
        if path_eq(path, roots[k].as_str()) || path_starts_with(path, roots[k].as_str()) {
            return true;
        }
        k = k + 1;
    }
    false
}

/// The files among `files` whose canonical form lies in one of the roots, in order.
fn narrow(files: &Vec<String>, canonical: &Vec<Option<String>>, rs: &Vec<String>) -> (kept: Vec<String>)
    requires
        files@.len() == canonical@.len(),
    ensures
        strs(kept@) == files_under(strs(files@), opt_strs(canonical@), strs(rs@)),
{
    let ghost fs = strs(files@);
    let ghost cs = opt_strs(canonical@);
    let mut kept: Vec<String> = Vec::new();
    let mut i: usize = 0;
    assert(strs(kept@) =~= files_under(fs.take(0), cs.take(0), strs(rs@)));
    while i < files.len()
        invariant
            fs == strs(files@),
            cs == opt_strs(canonical@),
            files@.len() == canonical@.len(),
            i <= files@.len(),
            strs(kept@) == files_under(fs.take(i as int), cs.take(i as int), strs(rs@)),
        decreases files@.len() - i,
    {
        assert(fs.take(i + 1).drop_last() =~= fs.take(i as int));
        assert(cs.take(i + 1).drop_last() =~= cs.take(i as int));
        assert(fs[i as int] == files@[i as int]@);
        let c: &str = match &canonical[i] {
            Some(c) => c.as_str(),
            None => files[i].as_str(),
        };
        assert(c@ == (if cs.take(i + 1).last() is Some {
            cs.take(i + 1).last()->Some_0
        } else {
            fs.take(i + 1).last()
        }));
        let ghost before = strs(kept@);
        if is_under_roots(c, rs) {
            kept.push(files[i].clone());
            assert(strs(kept@) =~= before.push(fs[i as int]));
        }
        assert(strs(kept@) =~= files_under(fs.take(i + 1), cs.take(i + 1), strs(rs@)));
        i = i + 1;
    }
    assert(fs.take(fs.len() as int) =~= fs);
    assert(cs.take(cs.len() as int) =~= cs);
    kept
}

/// In a sorted list, a path between two equal paths is equal to the first of them: equal
/// paths stand together.
proof fn lemma_equal_paths_adjacent(kept: Seq<String>, p: int, c: int, q: int)
    requires
        path_order_laws_on(strs(kept)),
        forall|i: int, j: int| 0 <= i < j < kept.len() ==> #[trigger] path_le(kept[i]@, kept[j]@),
        0 <= p < c <= q < kept.len(),
        paths_equal(kept[p]@, kept[q]@),
    ensures
        paths_equal(kept[c]@, kept[p]@),
{
    reveal(path_order_laws_on);
    let s = strs(kept);
    assert(s[p] == kept[p]@ && s[c] == kept[c]@ && s[q] == kept[q]@);
    assert(s.contains(kept[p]@) && s.contains(kept[c]@) && s.contains(kept[q]@));
    assert(path_le(kept[p]@, kept[c]@));
    if c < q {
        assert(path_le(kept[c]@, kept[q]@));
    } else {
        assert(path_le(kept[q]@, kept[q]@));
    }
    assert(path_le(kept[q]@, kept[p]@));
    assert(path_le(kept[c]@, kept[p]@));
}

/// Each run of neighbouring equal paths of a sorted list reduced to its first.
fn dedup_sorted(kept: &Vec<String>) -> (out: Vec<String>)
    requires
        forall|p: int, q: int| 0 <= p < q < kept@.len() ==> #[trigger] path_le(kept@[p]@, kept@[q]@),
        path_order_laws_on(strs(kept@)),
    ensures
        strs(out@) == dedup_paths(strs(kept@)),
        forall|a: int, b: int| 0 <= a < b < out@.len() ==> #[trigger] path_le(out@[a]@, out@[b]@),
        forall|k: int| 0 <= k < out@.len() - 1 ==> !paths_equal(#[trigger] out@[k + 1]@, out@[k]@),
        forall|a: int, b: int|
            0 <= a < b < out@.len() ==> !#[trigger] paths_equal(out@[a]@, out@[b]@),
{
    let ghost sorted = strs(kept@);
    let mut out: Vec<String> = Vec::new();
    let ghost mut idx: Seq<int> = Seq::empty();
    let mut i: usize = 0;
    assert(strs(out@) =~= dedup_paths(sorted.take(0)));
    while i < kept.len()
        invariant
            sorted == strs(kept@),
            i <= kept@.len(),
            out@.len() == strs(out@).len(),
            strs(out@) == dedup_paths(sorted.take(i as int)),
            forall|p: int, q: int| 0 <= p < q < kept@.len() ==> #[trigger] path_le(kept@[p]@, kept@[q]@),
            idx.len() == out@.len(),
            forall|k: int| 0 <= k < idx.len() ==> 0 <= #[trigger] idx[k] < i && out@[k]@ == kept@[idx[k]]@,
            forall|a: int, b: int| 0 <= a < b < idx.len() ==> #[trigger] idx[a] < #[trigger] idx[b],
            forall|k: int| 0 <= k < out@.len() - 1 ==> !paths_equal(#[trigger] out@[k + 1]@, out@[k]@),
        decreases kept@.len() - i,
    {
        assert(sorted.take(i + 1).drop_last() =~= sorted.take(i as int));
        assert(sorted[i as int] == kept@[i as int]@);
        let n = out.len();
        let ghost before = strs(out@);
        let ghost out_before = out@;
        if n > 0 && path_eq(kept[i].as_str(), out[n - 1].as_str()) {
            assert(before.last() == out@[n - 1]@);
        } else {
            if n > 0 {
                assert(before.last() == out@[n - 1]@);
            }
            out.push(kept[i].clone());
            proof {
                idx = idx.push(i as int);
                assert forall|k: int| 0 <= k < out@.len() - 1 implies !paths_equal(
                    #[trigger] out@[k + 1]@,
                    out@[k]@,
                ) by {
                    if k < n - 1 {
                        assert(out@[k + 1] == out_before[k + 1]);
                        assert(out@[k] == out_before[k]);
                    } else {
                        assert(out@[k] == out_before[k]);
                    }
                }
            }
            assert(strs(out@) =~= before.push(sorted[i as int]));
        }
        assert(strs(out@) =~= dedup_paths(sorted.take(i + 1)));
        i = i + 1;
    }
    assert(sorted.take(sorted.len() as int) =~= sorted);
    assert forall|a: int, b: int| 0 <= a < b < out@.len() implies #[trigger] path_le(
        out@[a]@,
        out@[b]@,
    ) by {
        assert(idx[a] < idx[b]);
        assert(path_le(kept@[idx[a]]@, kept@[idx[b]]@));
    }
    assert forall|a: int, b: int| 0 <= a < b < out@.len() implies !#[trigger] paths_equal(
        out@[a]@,
        out@[b]@,
    ) by {
        if paths_equal(out@[a]@, out@[b]@) {
            assert(idx[a] < idx[a + 1]);
            if a + 1 < b {
                assert(idx[a + 1] < idx[b]);
            }
            lemma_equal_paths_adjacent(kept@, idx[a], idx[a + 1], idx[b]);
            assert(!paths_equal(out@[a + 1]@, out@[a]@));
        }
    }
    out
}

/// `files[j]` is to be checked: it lies in a root, or no roots are given.
pub open spec fn selected_by(
    files: Seq<Seq<char>>,
    canonical: Seq<Option<Seq<char>>>,
    roots: Option<Seq<Seq<char>>>,
    j: int,
) -> bool {
    match roots {
        Some(rs) => under_roots(canonical_or_file(files, canonical, j), rs),
        None => true,
    }
}

/// What the selection keeps, from the list before sorting: every kept path is one of the
/// files (under a root, where roots are given), and every file under a root (every file,
/// where none are given) is kept or has a path equal to it kept.
proof fn lemma_selection(
    fs: Seq<Seq<char>>,
    cs: Seq<Option<Seq<char>>>,
    roots: Option<Seq<Seq<char>>>,
    unsorted: Seq<Seq<char>>,
    sorted: Seq<Seq<char>>,
    out: Seq<Seq<char>>,
)
    requires
        fs.len() == cs.len(),
        unsorted == match roots {
            Some(rs) => files_under(fs, cs, rs),
            None => fs,
        },
        sorted.to_multiset() == unsorted.to_multiset(),
        out == dedup_paths(sorted),
    ensures
        forall|x: Seq<char>| #[trigger] out.contains(x) ==> fs.contains(x),
        roots matches Some(rs) ==> forall|x: Seq<char>|
            #[trigger] out.contains(x) ==> exists|i: int|
                0 <= i < fs.len() && fs[i] == x && under_roots(
                    #[trigger] canonical_or_file(fs, cs, i),
                    rs,
                ),
        forall|j: int|
            #![trigger fs[j]]
            0 <= j < fs.len() && selected_by(fs, cs, roots, j) ==> represented(out, fs[j]),
{
    sorted.to_multiset_ensures();
    unsorted.to_multiset_ensures();
    assert forall|x: Seq<char>| #[trigger] out.contains(x) implies unsorted.contains(x) by {
        lemma_dedup_kept(sorted, x);
        assert(sorted.to_multiset().count(x) > 0);
    }
    match roots {
        Some(rs) => {
            assert forall|x: Seq<char>| #[trigger] out.contains(x) implies exists|i: int|
                0 <= i < fs.len() && fs[i] == x && under_roots(
                    #[trigger] canonical_or_file(fs, cs, i),
                    rs,
                ) by {
                assert(unsorted.contains(x));
                lemma_files_under_kept(fs, cs, rs, x);
            }
            assert forall|x: Seq<char>| #[trigger] out.contains(x) implies fs.contains(x) by {
                assert(unsorted.contains(x));
                lemma_files_under_kept(fs, cs, rs, x);
                let i = choose|i: int|
                    0 <= i < fs.len() && fs[i] == x && under_roots(
                        #[trigger] canonical_or_file(fs, cs, i),
                        rs,
                    );
                assert(fs[i] == x);
            }
        },
        None => {
            assert forall|x: Seq<char>| #[trigger] out.contains(x) implies fs.contains(x) by {
                assert(unsorted.contains(x));
            }
        },
    }
    assert forall|j: int|
        #![trigger fs[j]]
        0 <= j < fs.len() && selected_by(fs, cs, roots, j) implies represented(out, fs[j]) by {
        match roots {
            Some(rs) => {
                lemma_files_under_has(fs, cs, rs, j);
            },
            None => {
                assert(unsorted[j] == fs[j]);
            },
        }
        assert(unsorted.contains(fs[j]));
        assert(sorted.to_multiset().count(fs[j]) > 0);
        lemma_dedup_represents(sorted, fs[j]);
    }
}

/// The files to check, from the files that the walk found (`files`), what resolving each gave
/// (`canonical[i]` for `files[i]`; `None` where it failed), and the resolved roots where paths
/// were requested: narrowed to the roots, sorted by path, with repeats removed.
///
/// Paths narrow, never widen: every file returned is one of `files`, under a root where roots
/// are given; every file under a root (every file, where none are given) is returned, or a
/// path equal to it as a `Path` is. The result ascends strictly in the order of `Path::cmp`:
/// no two of its paths are equal (see `is_selection`).
pub fn select_files(files: &Vec<String>, canonical: &Vec<Option<String>>, roots: Option<&Vec<String>>) -> (r: Vec<String>)
    requires
        files@.len() == canonical@.len(),
    ensures
        is_selection(
            strs(files@),
            opt_strs(canonical@),
            match roots {
                Some(rs) => Some(strs(rs@)),
                None => None,
            },
            strs(r@),
        ),
{
    let mut kept = match roots {
        Some(rs) => narrow(files, canonical, rs),
        None => crate::config::copy_strings(files),
    };
    let ghost unsorted = strs(kept@);
    sort_paths(&mut kept);
    let out = dedup_sorted(&kept);
    proof {
        lemma_order_laws_same_paths(strs(kept@), unsorted);
        let ro = strs(out@);
        assert forall|i: int, j: int| 0 <= i < j < ro.len() implies #[trigger] path_le(ro[i], ro[j])
            && !paths_equal(ro[i], ro[j]) by {
            assert(ro[i] == out@[i]@ && ro[j] == out@[j]@);
            assert(path_le(out@[i]@, out@[j]@));
            assert(!paths_equal(out@[i]@, out@[j]@));
        }
        lemma_selection(
            strs(files@),
            opt_strs(canonical@),
            match roots {
                Some(rs) => Some(strs(rs@)),
                None => None,
            },
            unsorted,
            strs(kept@),
            strs(out@),
        );
    }
    out
}

} // verus!

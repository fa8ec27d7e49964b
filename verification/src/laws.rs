//! Properties of the library as a whole.

use vstd::prelude::*;

use crate::checks::backend::{backend_messages, expected_messages, missing_message, mismatch_message};
use crate::checks::spec_run_all;
use crate::config::{
    keys_ascending, keys_distinct, keys_of, spec_lookup, strs, text_lt, BackendS3, Config,
    DEFAULT_EXCLUDE,
};
use crate::hcl_nav::{
    spec_attr, expr_displays, items_to_toml, spec_expr_display, spec_expr_matches, spec_expr_to_toml,
    spec_toml_display,
    toml_displays,
};
use crate::lint::spec_file_report;
use crate::paths::{
    canonical_or_file, is_selection, narrowed_files, negated_excludes, path_le, path_order_laws_on,
    paths_equal, represented, selected_by, spec_walk_patterns, strip_suffix_of, under_roots,
};
use crate::syntax::{expr_well_formed, exprs_well_formed, Expr, TfBody};
use crate::text::replace_all;
use crate::value::TomlValue;

verus! {

/// An empty `.tfpin.toml` reports nothing, whatever the file.
pub proof fn empty_config_reports_nothing(dir: Seq<char>, body: TfBody, cfg: Config)
    requires
        cfg.is_empty_config(),
    ensures
        spec_run_all(dir, body, cfg) == Seq::<Seq<char>>::empty(),
{
    assert(spec_run_all(dir, body, cfg) =~= Seq::<Seq<char>>::empty());
}

proof fn lemma_negated_excludes_has(excludes: Seq<Seq<char>>, i: int)
    requires
        0 <= i < excludes.len(),
    ensures
        negated_excludes(excludes).contains("!"@ + excludes[i]),
    decreases excludes.len(),
{
    let rest = negated_excludes(excludes.drop_last());
    let e = excludes.last();
    let pruned = match strip_suffix_of(e, "/**"@) {
        Some(dir) => rest.push("!"@ + dir),
        None => rest,
    };
    if i == excludes.len() - 1 {
        assert(negated_excludes(excludes) == pruned.push("!"@ + e));
        assert(negated_excludes(excludes)[pruned.len() as int] == "!"@ + excludes[i]);
    } else {
        lemma_negated_excludes_has(excludes.drop_last(), i);
        let k = choose|k: int| 0 <= k < rest.len() && rest[k] == "!"@ + excludes[i];
        assert(pruned[k] == rest[k]);
        assert(negated_excludes(excludes)[k] == pruned[k]);
    }
}

/// Every pattern that `negated_excludes` gives is a negation: it begins with `!`.
proof fn lemma_negated_excludes_negate(excludes: Seq<Seq<char>>)
    ensures
        forall|k: int|
            0 <= k < negated_excludes(excludes).len() ==> (#[trigger] negated_excludes(excludes)[k]).len()
                > 0 && negated_excludes(excludes)[k][0] == '!',
    decreases excludes.len(),
{
    reveal_strlit("!");
    if excludes.len() > 0 {
        lemma_negated_excludes_negate(excludes.drop_last());
        let rest = negated_excludes(excludes.drop_last());
        let e = excludes.last();
        let pruned = match strip_suffix_of(e, "/**"@) {
            Some(dir) => rest.push("!"@ + dir),
            None => rest,
        };
        assert(negated_excludes(excludes) == pruned.push("!"@ + e));
        assert(forall|k: int| 0 <= k < rest.len() ==> pruned[k] == rest[k]);
        if let Some(dir) = strip_suffix_of(e, "/**"@) {
            assert(("!"@ + dir)[0] == '!');
        }
        assert(("!"@ + e)[0] == '!');
    }
}

/// Every configured exclude glob keeps its files out of the walk, and the walk selects files
/// by the file globs alone: every pattern after them is a negation.
pub proof fn configured_excludes_all_applied(cfg: Config)
    ensures
        forall|k: int|
            0 <= k < cfg.exclude_globs@.len() ==> spec_walk_patterns(cfg).contains(
                "!"@ + (#[trigger] cfg.exclude_globs@[k])@,
            ),
        forall|k: int|
            cfg.spec_include_patterns().len() <= k < spec_walk_patterns(cfg).len() ==> (
            #[trigger] spec_walk_patterns(cfg)[k]).len() > 0 && spec_walk_patterns(cfg)[k][0]
                == '!',
{
    let ex = cfg.spec_exclude_patterns();
    let inc = cfg.spec_include_patterns();
    let neg = negated_excludes(ex);
    assert forall|k: int| 0 <= k < cfg.exclude_globs@.len() implies spec_walk_patterns(
        cfg,
    ).contains("!"@ + (#[trigger] cfg.exclude_globs@[k])@) by {
        assert(ex[k] == cfg.exclude_globs@[k]@);
        lemma_negated_excludes_has(ex, k);
        let j = choose|j: int| 0 <= j < neg.len() && neg[j] == "!"@ + ex[k];
        assert(spec_walk_patterns(cfg)[inc.len() + j] == neg[j]);
    }
    lemma_negated_excludes_negate(ex);
    assert forall|k: int|
        inc.len() <= k < spec_walk_patterns(cfg).len() implies (
        #[trigger] spec_walk_patterns(cfg)[k]).len() > 0 && spec_walk_patterns(cfg)[k][0]
            == '!' by {
        assert(spec_walk_patterns(cfg)[k] == neg[k - inc.len()]);
    }
}

/// `**/.terraform/**` is always excluded: it is among the exclude globs of every configuration,
/// and the walk is always given its negation.
pub proof fn terraform_cache_always_excluded(cfg: Config)
    ensures
        cfg.spec_exclude_patterns().contains(DEFAULT_EXCLUDE@),
        spec_walk_patterns(cfg).contains("!"@ + DEFAULT_EXCLUDE@),
{
    let ex = cfg.spec_exclude_patterns();
    let k: int = if strs(cfg.exclude_globs@).contains(DEFAULT_EXCLUDE@) {
        choose|k: int| 0 <= k < ex.len() && ex[k] == DEFAULT_EXCLUDE@
    } else {
        assert(ex[ex.len() - 1] == DEFAULT_EXCLUDE@);
        ex.len() - 1
    };
    lemma_negated_excludes_has(ex, k);
    let neg = negated_excludes(ex);
    let j = choose|j: int| 0 <= j < neg.len() && neg[j] == "!"@ + DEFAULT_EXCLUDE@;
    let inc = cfg.spec_include_patterns();
    assert(spec_walk_patterns(cfg)[inc.len() + j] == neg[j]);
}

/// A map holding each key once gives, for a key, the value listed with it.
pub proof fn lookup_finds_listed<V>(entries: Seq<(String, V)>, i: int)
    requires
        keys_distinct(keys_of(entries)),
        0 <= i < entries.len(),
    ensures
        spec_lookup(entries, entries[i].0@) == Some(entries[i].1),
    decreases i,
{
    if i > 0 {
        assert(keys_of(entries)[0] != keys_of(entries)[i]);
        assert(keys_distinct(keys_of(entries.drop_first()))) by {
            assert forall|a: int, b: int| 0 <= a < b < keys_of(entries.drop_first()).len() implies keys_of(entries.drop_first())[a] != keys_of(entries.drop_first())[b] by {
                assert(keys_of(entries.drop_first())[a] == keys_of(entries)[a + 1]);
                assert(keys_of(entries.drop_first())[b] == keys_of(entries)[b + 1]);
            }
        }
        lookup_finds_listed(entries.drop_first(), i - 1);
    }
}

/// A version constraint that the configuration lists for a provider or a module is the one
/// that the checks look up for that name.
pub proof fn configured_constraints_found(cfg: Config, i: int)
    requires
        cfg.wf(),
    ensures
        0 <= i < cfg.providers@.len() ==> spec_lookup(cfg.providers@, cfg.providers@[i].0@)
            == Some(cfg.providers@[i].1),
        0 <= i < cfg.modules@.len() ==> spec_lookup(cfg.modules@, cfg.modules@[i].0@) == Some(
            cfg.modules@[i].1,
        ),
{
    if 0 <= i < cfg.providers@.len() {
        lookup_finds_listed(cfg.providers@, i);
    }
    if 0 <= i < cfg.modules@.len() {
        lookup_finds_listed(cfg.modules@, i);
    }
}

} // verus!

verus! {

/// `pat` occurs in `s`, starting at `i`.
pub open spec fn occurs_at_index(s: Seq<char>, pat: Seq<char>, i: int) -> bool {
    0 <= i && i + pat.len() <= s.len() && s.subrange(i, i + pat.len()) == pat
}

/// Where `pat` occurs nowhere in `s`, replacing it changes nothing: a key template without
/// `{dir}` is the key itself.
pub proof fn replace_without_occurrence(s: Seq<char>, pat: Seq<char>, rep: Seq<char>)
    requires
        pat.len() > 0,
        forall|i: int| !#[trigger] occurs_at_index(s, pat, i),
    ensures
        replace_all(s, pat, rep) == s,
    decreases s.len(),
{
    if s.len() > 0 {
        if pat.len() <= s.len() {
            assert(s.take(pat.len() as int) =~= s.subrange(0, pat.len() as int));
            assert(!occurs_at_index(s, pat, 0));
        }
        let t = s.skip(1);
        assert forall|i: int| !#[trigger] occurs_at_index(t, pat, i) by {
            if occurs_at_index(t, pat, i) {
                assert(s.subrange(i + 1, i + 1 + pat.len()) =~= t.subrange(i, i + pat.len()));
                assert(occurs_at_index(s, pat, i + 1));
            }
        }
        replace_without_occurrence(t, pat, rep);
        assert(seq![s[0]] + t =~= s);
    }
}

/// The first occurrence of `pat` is replaced by `rep`, and the rest is replaced after it: for a
/// template `prefix{dir}rest` whose prefix holds no `{dir}`, the key is
/// `prefix<dir>` followed by the rendered rest.
pub proof fn replace_first_occurrence(p: Seq<char>, q: Seq<char>, pat: Seq<char>, rep: Seq<char>)
    requires
        pat.len() > 0,
        forall|i: int| 0 <= i < p.len() ==> !#[trigger] occurs_at_index(p + pat + q, pat, i),
    ensures
        replace_all(p + pat + q, pat, rep) == p + rep + replace_all(q, pat, rep),
    decreases p.len(),
{
    let s = p + pat + q;
    if p.len() == 0 {
        assert(s.take(pat.len() as int) =~= pat);
        assert(s.skip(pat.len() as int) =~= q);
        assert(p + rep =~= rep);
    } else {
        if pat.len() <= s.len() {
            assert(s.take(pat.len() as int) =~= s.subrange(0, pat.len() as int));
            assert(!occurs_at_index(s, pat, 0));
        }
        let p1 = p.skip(1);
        assert(s.skip(1) =~= p1 + pat + q);
        assert forall|i: int| 0 <= i < p1.len() implies !#[trigger] occurs_at_index(
            p1 + pat + q,
            pat,
            i,
        ) by {
            if occurs_at_index(p1 + pat + q, pat, i) {
                assert(s.subrange(i + 1, i + 1 + pat.len()) =~= (p1 + pat + q).subrange(
                    i,
                    i + pat.len(),
                ));
                assert(occurs_at_index(s, pat, i + 1));
            }
        }
        replace_first_occurrence(p1, q, pat, rep);
        assert(seq![s[0]] + (p1 + rep + replace_all(q, pat, rep)) =~= p + rep + replace_all(
            q,
            pat,
            rep,
        ));
    }
}

/// A literal in which every number is an integer (has a value as an `i64`).
pub open spec fn integer_literal(e: Expr) -> bool
    decreases e,
{
    match e {
        Expr::Number(n) => n.int is Some,
        Expr::Array(items) => integer_literals(items@),
        _ => true,
    }
}

/// Each of a list of expressions is an `integer_literal`.
pub open spec fn integer_literals(items: Seq<Expr>) -> bool
    decreases items,
{
    items.len() == 0 || (integer_literals(items.drop_last()) && integer_literal(items.last()))
}

/// A configured value is shown as the literal that it stands for is shown, so that the found
/// and expected values of a message line up: for a literal of a parsed file (whose numbers
/// are well formed, as `parse` gives them) in which every number is an integer, showing its
/// TOML value gives what showing the literal gives.
pub proof fn displays_line_up(e: Expr)
    requires
        expr_well_formed(e),
        spec_expr_to_toml(e) is Some,
        integer_literal(e),
    ensures
        spec_toml_display(spec_expr_to_toml(e).unwrap()) == spec_expr_display(e),
    decreases e,
{
    match e {
        Expr::Array(items) => {
            displays_line_up_items(items@);
        },
        _ => {},
    }
}

/// `displays_line_up`, item by item.
pub proof fn displays_line_up_items(items: Seq<Expr>)
    requires
        exprs_well_formed(items),
        items_to_toml(items) is Some,
        integer_literals(items),
    ensures
        toml_displays(items_to_toml(items).unwrap()) == expr_displays(items),
    decreases items,
{
    if items.len() > 0 {
        displays_line_up_items(items.drop_last());
        displays_line_up(items.last());
        let vs = items_to_toml(items.drop_last()).unwrap();
        let v = spec_expr_to_toml(items.last()).unwrap();
        assert(items_to_toml(items).unwrap() == vs.push(v));
        assert(vs.push(v).drop_last() =~= vs);
    }
}

} // verus!

verus! {

/// A file fails the run exactly when something is printed for it: a violation, or a file that
/// could not be read or parsed.
pub proof fn fails_iff_reported(
    shown: Seq<char>,
    dir: Seq<char>,
    text: Result<Seq<char>, Seq<char>>,
    cfg: Config,
)
    ensures
        ({
            let (out, err, failed) = spec_file_report(shown, dir, text, cfg);
            failed <==> (out.len() > 0 || err.len() > 0)
        }),
{
}

} // verus!

verus! {

/// Attributes of a `backend "s3"` block that the configuration does not list are ignored: two
/// blocks that agree on every listed attribute and on `key` get the same messages.
pub proof fn unlisted_backend_attributes_are_ignored(
    a: TfBody,
    b: TfBody,
    s3: BackendS3,
    dir: Seq<char>,
)
    requires
        forall|i: int|
            0 <= i < s3.expected@.len() ==> spec_attr(a, (#[trigger] s3.expected@[i]).0@)
                == spec_attr(b, s3.expected@[i].0@),
        spec_attr(a, "key"@) == spec_attr(b, "key"@),
    ensures
        backend_messages(a, s3, dir)
            == backend_messages(b, s3, dir),
{
    lemma_expected_messages_agree(a, b, s3.expected@);
}

proof fn lemma_expected_messages_agree(
    a: TfBody,
    b: TfBody,
    expected: Seq<(String, TomlValue)>,
)
    requires
        forall|i: int|
            0 <= i < expected.len() ==> spec_attr(a, (#[trigger] expected[i]).0@)
                == spec_attr(b, expected[i].0@),
    ensures
        expected_messages(a, expected)
            == expected_messages(b, expected),
    decreases expected.len(),
{
    if expected.len() > 0 {
        assert forall|i: int|
            0 <= i < expected.drop_last().len() implies spec_attr(
            a,
            (#[trigger] expected.drop_last()[i]).0@,
        ) == spec_attr(b, expected.drop_last()[i].0@) by {
            assert(expected.drop_last()[i] == expected[i]);
        }
        lemma_expected_messages_agree(a, b, expected.drop_last());
        assert(spec_attr(a, expected[expected.len() - 1].0@)
            == spec_attr(b, expected[expected.len() - 1].0@));
    }
}

} // verus!

verus! {

/// `m` places each path of `v` in `u`: at ascending places, each the same path or one equal to
/// it as a `Path`.
pub open spec fn places_in(v: Seq<Seq<char>>, u: Seq<Seq<char>>, m: Seq<int>) -> bool {
    &&& m.len() == v.len()
    &&& forall|k: int|
        0 <= k < v.len() ==> 0 <= #[trigger] m[k] < u.len() && (v[k] == u[m[k]] || paths_equal(
            v[k],
            u[m[k]],
        ))
    &&& forall|k: int, l: int| 0 <= k < l < v.len() ==> #[trigger] m[k] < #[trigger] m[l]
}

/// `v` is a subsequence of `u` up to `Path` equality.
pub open spec fn subsequence_of_paths(v: Seq<Seq<char>>, u: Seq<Seq<char>>) -> bool {
    exists|m: Seq<int>| #[trigger] places_in(v, u, m)
}

/// Requested paths narrow, never widen: of the same walked files, the files that `select_files`
/// selects for some roots (`v`) are a subsequence of those it selects with no roots (`u`), up to
/// `Path` equality, and every file of `u` that lies in a root is in `v` or has a path equal to
/// it in `v`. `u` and `v` are taken as `select_files` returns them (`is_selection`).
pub proof fn narrowing_selects_a_subsequence(
    files: Seq<Seq<char>>,
    canonical: Seq<Option<Seq<char>>>,
    roots: Seq<Seq<char>>,
    u: Seq<Seq<char>>,
    v: Seq<Seq<char>>,
)
    requires
        files.len() == canonical.len(),
        is_selection(files, canonical, None, u),
        is_selection(files, canonical, Some(roots), v),
    ensures
        subsequence_of_paths(v, u),
        forall|p: int, i: int|
            #![trigger u[p], files[i]]
            0 <= p < u.len() && 0 <= i < files.len() && files[i] == u[p] && under_roots(
                canonical_or_file(files, canonical, i),
                roots,
            ) ==> represented(v, u[p]),
{
    reveal(path_order_laws_on);
    assert(narrowed_files(files, canonical, None) == files);
    // Each path of `v` has a place in `u` that stands for it.
    assert forall|k: int| 0 <= k < v.len() implies exists|p: int|
        0 <= p < u.len() && (#[trigger] v[k] == #[trigger] u[p] || paths_equal(v[k], u[p])) by {
        assert(v.contains(v[k]));
        assert(files.contains(v[k]));
        let j = choose|j: int| 0 <= j < files.len() && files[j] == v[k];
        assert(selected_by(files, canonical, None, j));
        assert(represented(u, files[j]));
        let y = choose|y: Seq<char>| #[trigger] u.contains(y) && (y == files[j] || paths_equal(files[j], y));
        let p = choose|p: int| 0 <= p < u.len() && u[p] == y;
        assert(v[k] == u[p] || paths_equal(v[k], u[p]));
    }
    let m = Seq::new(
        v.len(),
        |k: int| choose|p: int| 0 <= p < u.len() && (v[k] == #[trigger] u[p] || paths_equal(v[k], u[p])),
    );
    assert forall|k: int| 0 <= k < v.len() implies 0 <= #[trigger] m[k] < u.len() && (v[k] == u[m[k]]
        || paths_equal(v[k], u[m[k]])) by {
        let p = choose|p: int| 0 <= p < u.len() && (v[k] == #[trigger] u[p] || paths_equal(v[k], u[p]));
    }
    assert forall|k: int, l: int| 0 <= k < l < v.len() implies #[trigger] m[k] < #[trigger] m[l] by {
        let p = m[k];
        let q = m[l];
        assert(0 <= p < u.len() && (v[k] == u[p] || paths_equal(v[k], u[p])));
        assert(0 <= q < u.len() && (v[l] == u[q] || paths_equal(v[l], u[q])));
        if q <= p {
            assert(v.contains(v[k]) && v.contains(v[l]));
            assert(u.contains(u[p]) && u.contains(u[q]));
            assert(files.contains(v[k]) && files.contains(v[l]));
            assert(files.contains(u[p]) && files.contains(u[q]));
            if q < p {
                assert(path_le(u[q], u[p]));
            } else {
                assert(path_le(u[p], u[p]));
            }
            if paths_equal(v[l], u[q]) {
                assert(path_le(v[l], u[q]));
            } else {
                assert(path_le(v[l], v[l]));
            }
            if paths_equal(v[k], u[p]) {
                assert(path_le(u[p], v[k]));
            } else {
                assert(path_le(v[k], v[k]));
            }
            assert(path_le(v[l], u[p]));
            assert(path_le(v[l], v[k]));
            assert(path_le(v[k], v[l]));
            assert(paths_equal(v[k], v[l]));
            assert(!paths_equal(v[k], v[l]));
        }
    }
    assert(places_in(v, u, m));
    assert forall|p: int, i: int|
        #![trigger u[p], files[i]]
        0 <= p < u.len() && 0 <= i < files.len() && files[i] == u[p] && under_roots(
            canonical_or_file(files, canonical, i),
            roots,
        ) implies represented(v, u[p]) by {
        assert(selected_by(files, canonical, Some(roots), i));
        assert(represented(v, files[i]));
    }
}

} // verus!

verus! {

/// `msg` is the message on the listed backend attribute `name`: it is missing, or its value
/// differs.
pub open spec fn message_names(msg: Seq<char>, name: Seq<char>) -> bool {
    ||| exists|e: Seq<char>| msg == #[trigger] missing_message(name, e)
    ||| exists|f: Seq<char>, e: Seq<char>| msg == #[trigger] mismatch_message(name, f, e)
}

/// The listed backend attributes that get a message, in the order of the list.
pub open spec fn reported_names(body: TfBody, expected: Seq<(String, TomlValue)>) -> Seq<Seq<char>>
    decreases expected.len(),
{
    if expected.len() == 0 {
        Seq::empty()
    } else {
        let rest = reported_names(body, expected.drop_last());
        let (name, value) = expected.last();
        match spec_attr(body, name@) {
            None => rest.push(name@),
            Some(found) => if !spec_expr_matches(found, value@) {
                rest.push(name@)
            } else {
                rest
            },
        }
    }
}

/// `reported_names` names the messages one by one, each is a listed key, and they ascend
/// where the keys do.
proof fn lemma_reported_names(body: TfBody, expected: Seq<(String, TomlValue)>)
    requires
        keys_ascending(keys_of(expected)),
    ensures
        reported_names(body, expected).len() == expected_messages(body, expected).len(),
        forall|k: int|
            0 <= k < reported_names(body, expected).len() ==> message_names(
                #[trigger] expected_messages(body, expected)[k],
                reported_names(body, expected)[k],
            ),
        forall|k: int|
            0 <= k < reported_names(body, expected).len() ==> exists|i: int|
                0 <= i < expected.len() && #[trigger] reported_names(body, expected)[k]
                    == keys_of(expected)[i],
        forall|i: int, j: int|
            0 <= i < j < reported_names(body, expected).len() ==> #[trigger] text_lt(
                reported_names(body, expected)[i],
                reported_names(body, expected)[j],
            ),
    decreases expected.len(),
{
    if expected.len() > 0 {
        let dl = expected.drop_last();
        let n = expected.len() - 1;
        assert forall|i: int, j: int| 0 <= i < j < keys_of(dl).len() implies #[trigger] text_lt(
            keys_of(dl)[i],
            keys_of(dl)[j],
        ) by {
            assert(keys_of(dl)[i] == keys_of(expected)[i]);
            assert(keys_of(dl)[j] == keys_of(expected)[j]);
        }
        lemma_reported_names(body, dl);
        let rn = reported_names(body, dl);
        let rm = expected_messages(body, dl);
        let names = reported_names(body, expected);
        let msgs = expected_messages(body, expected);
        let (name, value) = expected.last();
        assert(keys_of(expected)[n] == name@);
        assert forall|k: int| 0 <= k < rn.len() implies exists|i: int|
            0 <= i < n && #[trigger] rn[k] == #[trigger] keys_of(expected)[i] by {
            let i = choose|i: int| 0 <= i < dl.len() && #[trigger] rn[k] == keys_of(dl)[i];
            assert(keys_of(dl)[i] == keys_of(expected)[i]);
        }
        if names.len() > rn.len() {
            assert(names == rn.push(name@));
            match spec_attr(body, name@) {
                None => {
                    assert(msgs == rm.push(missing_message(name@, spec_toml_display(value@))));
                    assert(message_names(msgs[rn.len() as int], name@));
                },
                Some(found) => {
                    assert(msgs == rm.push(
                        mismatch_message(name@, spec_expr_display(found), spec_toml_display(value@)),
                    ));
                    assert(message_names(msgs[rn.len() as int], name@));
                },
            }
            assert forall|i: int, j: int| 0 <= i < j < names.len() implies #[trigger] text_lt(
                names[i],
                names[j],
            ) by {
                if j == rn.len() {
                    let a = choose|a: int| 0 <= a < n && rn[i] == #[trigger] keys_of(expected)[a];
                    assert(text_lt(keys_of(expected)[a], keys_of(expected)[n]));
                } else {
                    assert(text_lt(rn[i], rn[j]));
                }
            }
            assert forall|k: int| 0 <= k < names.len() implies exists|i: int|
                0 <= i < expected.len() && #[trigger] names[k] == keys_of(expected)[i] by {
                if k == rn.len() {
                    assert(names[k] == keys_of(expected)[n]);
                } else {
                    let a = choose|a: int| 0 <= a < n && rn[k] == #[trigger] keys_of(expected)[a];
                    assert(names[k] == keys_of(expected)[a]);
                }
            }
        } else {
            assert(names == rn);
            assert(msgs == rm);
            assert forall|k: int| 0 <= k < names.len() implies exists|i: int|
                0 <= i < expected.len() && #[trigger] names[k] == keys_of(expected)[i] by {
                let a = choose|a: int| 0 <= a < n && rn[k] == #[trigger] keys_of(expected)[a];
            }
        }
    }
}

/// The messages on the attributes listed under `[backend.s3]` come in ascending order of the
/// attribute's name, one message per reported attribute, each name at most once.
pub proof fn backend_messages_in_key_order(cfg: Config, body: TfBody)
    requires
        cfg.wf(),
        cfg.backend.s3 is Some,
    ensures
        ({
            let expected = cfg.backend.s3->Some_0.expected@;
            let names = reported_names(body, expected);
            let msgs = expected_messages(body, expected);
            &&& names.len() == msgs.len()
            &&& forall|k: int| 0 <= k < names.len() ==> message_names(#[trigger] msgs[k], names[k])
            &&& forall|i: int, j: int|
                0 <= i < j < names.len() ==> #[trigger] text_lt(names[i], names[j])
        }),
{
    lemma_reported_names(body, cfg.backend.s3->Some_0.expected@);
}

} // verus!

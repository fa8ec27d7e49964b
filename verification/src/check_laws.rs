//! What each check reports, stated against the parsed file and the configuration directly:
//! each block (or entry) is checked on its own, a value is reported exactly when it differs
//! from the configured one, and a file gets no message exactly when every value it pins is the
//! configured one.

use vstd::prelude::*;

use crate::checks::backend::{
    backend_messages, expected_messages, key_message, missing_key_message, missing_message,
    mismatch_message,
};
use crate::checks::forbidden_blocks::{forbidden_message, forbidden_messages};
use crate::checks::spec_run_all;
use crate::checks::modules::{module_message, module_messages, module_name};
use crate::checks::providers::{block_messages, entry_messages, provider_message};
use crate::checks::terraform_version::{version_message, version_messages};
use crate::checks::{backend, forbidden_blocks, modules, providers, terraform_version};
use crate::config::{spec_lookup, strs, BackendS3, Config, DEFAULT_INCLUDE};
use crate::hcl_nav::{
    spec_attr, spec_attr_str, spec_child_block, spec_expr_display, spec_expr_matches,
    spec_object_get, spec_toml_display, spec_top_blocks,
};
use crate::paths::spec_walk_patterns;
use crate::syntax::{Expr, TfBlock, TfBody, TfItem};
use crate::value::TomlValue;
use crate::text::replace_all;

verus! {

// ---------------------------------------------------------------- terraform.required_version

/// A `terraform` block whose `required_version` is a literal other than the configured one.
pub open spec fn wrong_required_version(b: TfBlock, expected: Seq<char>) -> bool {
    spec_attr_str(b.body, "required_version"@) matches Some(found) && found != expected
}

/// Checking several `terraform` blocks reports, in order, what checking each alone reports.
pub proof fn version_messages_concat(a: Seq<TfBlock>, b: Seq<TfBlock>, expected: Seq<char>)
    ensures
        version_messages(a + b, expected) == version_messages(a, expected) + version_messages(
            b,
            expected,
        ),
    decreases b.len(),
{
    if b.len() == 0 {
        assert(a + b =~= a);
        assert(version_messages(a, expected) + Seq::<Seq<char>>::empty() =~= version_messages(
            a,
            expected,
        ));
    } else {
        assert((a + b).drop_last() =~= a + b.drop_last());
        version_messages_concat(a, b.drop_last(), expected);
        let ra = version_messages(a, expected);
        let rb = version_messages(b.drop_last(), expected);
        if let Some(found) = spec_attr_str(b.last().body, "required_version"@) {
            if found != expected {
                assert((ra + rb).push(version_message(found, expected)) =~= ra + rb.push(
                    version_message(found, expected),
                ));
            }
        }
    }
}

/// One `terraform` block: a literal `required_version` is reported, once, exactly when it
/// differs from the configured one; a block without one gets no message.
pub proof fn version_of_one_block(b: TfBlock, expected: Seq<char>)
    ensures
        match spec_attr_str(b.body, "required_version"@) {
            Some(found) => {
                &&& (version_messages(seq![b], expected).len() == 0 <==> found == expected)
                &&& found != expected ==> version_messages(seq![b], expected) == seq![
                    version_message(found, expected),
                ]
            },
            None => version_messages(seq![b], expected).len() == 0,
        },
{
    assert(seq![b].drop_last() =~= Seq::<TfBlock>::empty());
    assert(seq![b].last() == b);
    assert(version_messages(Seq::<TfBlock>::empty(), expected) =~= Seq::empty());
    if let Some(found) = spec_attr_str(b.body, "required_version"@) {
        assert(Seq::<Seq<char>>::empty().push(version_message(found, expected)) =~= seq![
            version_message(found, expected),
        ]);
    }
}

/// No message for a list of blocks exactly when none has a wrong `required_version`.
proof fn lemma_version_messages_empty(blocks: Seq<TfBlock>, expected: Seq<char>)
    ensures
        version_messages(blocks, expected).len() == 0 <==> forall|k: int|
            0 <= k < blocks.len() ==> !wrong_required_version(#[trigger] blocks[k], expected),
    decreases blocks.len(),
{
    if blocks.len() > 0 {
        lemma_version_messages_empty(blocks.drop_last(), expected);
        assert(forall|k: int| 0 <= k < blocks.len() - 1 ==> blocks.drop_last()[k] == blocks[k]);
        assert(blocks[blocks.len() - 1] == blocks.last());
    }
}

/// The version check reports nothing on a file exactly when every top-level `terraform`
/// block that sets `required_version` as a literal sets the configured one (and nothing at all
/// when no version is configured).
pub proof fn version_check_silent_iff_all_match(body: TfBody, cfg: Config)
    ensures
        match cfg.terraform_version {
            Some(expected) => terraform_version::spec_check(body, cfg).len() == 0 <==> forall|k: int|
                0 <= k < spec_top_blocks(body, "terraform"@).len() ==> !wrong_required_version(
                    #[trigger] spec_top_blocks(body, "terraform"@)[k],
                    expected@,
                ),
            None => terraform_version::spec_check(body, cfg).len() == 0,
        },
{
    if let Some(expected) = cfg.terraform_version {
        lemma_version_messages_empty(spec_top_blocks(body, "terraform"@), expected@);
    }
}

// ---------------------------------------------------------------- modules

/// A `module` block whose literal `source` is configured and whose literal `version` is not the
/// configured one.
pub open spec fn wrong_module_version(m: TfBlock, configured: Seq<(String, String)>) -> bool {
    &&& spec_attr_str(m.body, "source"@) matches Some(source)
    &&& spec_lookup(configured, source) matches Some(expected)
    &&& spec_attr_str(m.body, "version"@) matches Some(found)
    &&& found != expected@
}

/// Checking several `module` blocks reports, in order, what checking each alone reports: no
/// block stops the check of the others.
pub proof fn module_messages_concat(
    a: Seq<TfBlock>,
    b: Seq<TfBlock>,
    configured: Seq<(String, String)>,
)
    ensures
        module_messages(a + b, configured) == module_messages(a, configured) + module_messages(
            b,
            configured,
        ),
    decreases b.len(),
{
    if b.len() == 0 {
        assert(a + b =~= a);
        assert(module_messages(a, configured) + Seq::<Seq<char>>::empty() =~= module_messages(
            a,
            configured,
        ));
    } else {
        assert((a + b).drop_last() =~= a + b.drop_last());
        module_messages_concat(a, b.drop_last(), configured);
        let ra = module_messages(a, configured);
        let rb = module_messages(b.drop_last(), configured);
        let m = b.last();
        if wrong_module_version(m, configured) {
            let found = spec_attr_str(m.body, "version"@)->Some_0;
            let expected = spec_lookup(configured, spec_attr_str(m.body, "source"@)->Some_0)->Some_0;
            let msg = module_message(module_name(m), found, expected@);
            assert((ra + rb).push(msg) =~= ra + rb.push(msg));
        }
    }
}

/// One `module` block: it is reported, once, exactly when its literal `source` is configured
/// and its literal `version` differs from the configured one.
pub proof fn module_of_one_block(m: TfBlock, configured: Seq<(String, String)>)
    ensures
        module_messages(seq![m], configured).len() == 0 <==> !wrong_module_version(m, configured),
        wrong_module_version(m, configured) ==> module_messages(seq![m], configured) == seq![
            module_message(
                module_name(m),
                spec_attr_str(m.body, "version"@)->Some_0,
                spec_lookup(configured, spec_attr_str(m.body, "source"@)->Some_0)->Some_0@,
            ),
        ],
{
    assert(seq![m].drop_last() =~= Seq::<TfBlock>::empty());
    assert(seq![m].last() == m);
    assert(module_messages(Seq::<TfBlock>::empty(), configured) =~= Seq::empty());
    if wrong_module_version(m, configured) {
        let msg = module_message(
            module_name(m),
            spec_attr_str(m.body, "version"@)->Some_0,
            spec_lookup(configured, spec_attr_str(m.body, "source"@)->Some_0)->Some_0@,
        );
        assert(Seq::<Seq<char>>::empty().push(msg) =~= seq![msg]);
    }
}

/// No message for a list of module blocks exactly when none is `wrong_module_version`.
proof fn lemma_module_messages_empty(blocks: Seq<TfBlock>, configured: Seq<(String, String)>)
    ensures
        module_messages(blocks, configured).len() == 0 <==> forall|k: int|
            0 <= k < blocks.len() ==> !wrong_module_version(#[trigger] blocks[k], configured),
    decreases blocks.len(),
{
    if blocks.len() > 0 {
        lemma_module_messages_empty(blocks.drop_last(), configured);
        assert(forall|k: int| 0 <= k < blocks.len() - 1 ==> blocks.drop_last()[k] == blocks[k]);
        assert(blocks[blocks.len() - 1] == blocks.last());
    }
}

/// The module check reports nothing on a file exactly when no top-level `module` block pins a
/// configured source to another version than the configured one.
pub proof fn module_check_silent_iff_all_match(body: TfBody, cfg: Config)
    ensures
        modules::spec_check(body, cfg).len() == 0 <==> forall|k: int|
            0 <= k < spec_top_blocks(body, "module"@).len() ==> !wrong_module_version(
                #[trigger] spec_top_blocks(body, "module"@)[k],
                cfg.modules@,
            ),
{
    let blocks = spec_top_blocks(body, "module"@);
    lemma_module_messages_empty(blocks, cfg.modules@);
    if cfg.modules@.len() == 0 {
        assert forall|k: int| 0 <= k < blocks.len() implies !wrong_module_version(
            #[trigger] blocks[k],
            cfg.modules@,
        ) by {
            if let Some(source) = spec_attr_str(blocks[k].body, "source"@) {
                assert(spec_lookup(cfg.modules@, source) is None);
            }
        }
    }
}

// ---------------------------------------------------------------- required_providers

/// An entry of `required_providers` for a configured provider whose literal `version` is not
/// the configured one.
pub open spec fn wrong_provider_version(item: TfItem, configured: Seq<(String, String)>) -> bool {
    &&& item matches TfItem::Attribute(a)
    &&& spec_lookup(configured, a.key@) matches Some(expected)
    &&& spec_object_get(a.expr, "version"@) matches Some(Expr::Str(found))
    &&& found@ != expected@
}

/// Checking several entries reports, in order, what checking each alone reports.
pub proof fn entry_messages_concat(a: Seq<TfItem>, b: Seq<TfItem>, configured: Seq<(String, String)>)
    ensures
        entry_messages(a + b, configured) == entry_messages(a, configured) + entry_messages(
            b,
            configured,
        ),
    decreases b.len(),
{
    if b.len() == 0 {
        assert(a + b =~= a);
        assert(entry_messages(a, configured) + Seq::<Seq<char>>::empty() =~= entry_messages(
            a,
            configured,
        ));
    } else {
        assert((a + b).drop_last() =~= a + b.drop_last());
        entry_messages_concat(a, b.drop_last(), configured);
        let ra = entry_messages(a, configured);
        let rb = entry_messages(b.drop_last(), configured);
        if let TfItem::Attribute(at) = b.last() {
            if let Some(expected) = spec_lookup(configured, at.key@) {
                if let Some(Expr::Str(found)) = spec_object_get(at.expr, "version"@) {
                    let msg = provider_message(at.key@, found@, expected@);
                    assert((ra + rb).push(msg) =~= ra + rb.push(msg));
                }
            }
        }
    }
}

/// One entry of `required_providers`: it is reported, once, exactly when the provider is
/// configured and its literal `version` differs from the configured one.
pub proof fn provider_of_one_entry(item: TfItem, configured: Seq<(String, String)>)
    ensures
        entry_messages(seq![item], configured).len() == 0 <==> !wrong_provider_version(
            item,
            configured,
        ),
        item matches TfItem::Attribute(a) ==> (wrong_provider_version(item, configured)
            ==> entry_messages(seq![item], configured) == seq![
            provider_message(
                a.key@,
                spec_object_get(a.expr, "version"@)->Some_0->Str_0@,
                spec_lookup(configured, a.key@)->Some_0@,
            ),
        ]),
{
    assert(seq![item].drop_last() =~= Seq::<TfItem>::empty());
    assert(seq![item].last() == item);
    assert(entry_messages(Seq::<TfItem>::empty(), configured) =~= Seq::empty());
    if let TfItem::Attribute(a) = item {
        if wrong_provider_version(item, configured) {
            let msg = provider_message(
                a.key@,
                spec_object_get(a.expr, "version"@)->Some_0->Str_0@,
                spec_lookup(configured, a.key@)->Some_0@,
            );
            assert(Seq::<Seq<char>>::empty().push(msg) =~= seq![msg]);
        }
    }
}

/// No message for a list of entries exactly when none is `wrong_provider_version`.
proof fn lemma_entry_messages_empty(items: Seq<TfItem>, configured: Seq<(String, String)>)
    ensures
        entry_messages(items, configured).len() == 0 <==> forall|k: int|
            0 <= k < items.len() ==> !wrong_provider_version(#[trigger] items[k], configured),
    decreases items.len(),
{
    if items.len() > 0 {
        lemma_entry_messages_empty(items.drop_last(), configured);
        assert(forall|k: int| 0 <= k < items.len() - 1 ==> items.drop_last()[k] == items[k]);
        assert(items[items.len() - 1] == items.last());
    }
}

/// A `terraform` block whose `required_providers` pins a configured provider to another
/// version than the configured one.
pub open spec fn wrong_providers_in(b: TfBlock, configured: Seq<(String, String)>) -> bool {
    spec_child_block(b, "required_providers"@, None) matches Some(req) && exists|j: int|
        0 <= j < req.body.structures@.len() && wrong_provider_version(
            #[trigger] req.body.structures@[j],
            configured,
        )
}

/// Checking several `terraform` blocks reports, in order, what checking each alone reports.
pub proof fn provider_blocks_concat(a: Seq<TfBlock>, b: Seq<TfBlock>, configured: Seq<(String, String)>)
    ensures
        block_messages(a + b, configured) == block_messages(a, configured) + block_messages(
            b,
            configured,
        ),
    decreases b.len(),
{
    if b.len() == 0 {
        assert(a + b =~= a);
        assert(block_messages(a, configured) + Seq::<Seq<char>>::empty() =~= block_messages(
            a,
            configured,
        ));
    } else {
        assert((a + b).drop_last() =~= a + b.drop_last());
        provider_blocks_concat(a, b.drop_last(), configured);
        let ra = block_messages(a, configured);
        let rb = block_messages(b.drop_last(), configured);
        if let Some(req) = spec_child_block(b.last(), "required_providers"@, None) {
            let e = entry_messages(req.body.structures@, configured);
            assert((ra + rb) + e =~= ra + (rb + e));
        }
    }
}

/// No message for a list of `terraform` blocks exactly when none has a wrong provider.
proof fn lemma_provider_blocks_empty(blocks: Seq<TfBlock>, configured: Seq<(String, String)>)
    ensures
        block_messages(blocks, configured).len() == 0 <==> forall|k: int|
            0 <= k < blocks.len() ==> !wrong_providers_in(#[trigger] blocks[k], configured),
    decreases blocks.len(),
{
    if blocks.len() > 0 {
        lemma_provider_blocks_empty(blocks.drop_last(), configured);
        assert(forall|k: int| 0 <= k < blocks.len() - 1 ==> blocks.drop_last()[k] == blocks[k]);
        let b = blocks.last();
        assert(blocks[blocks.len() - 1] == b);
        if let Some(req) = spec_child_block(b, "required_providers"@, None) {
            lemma_entry_messages_empty(req.body.structures@, configured);
        }
    }
}

/// The provider check reports nothing on a file exactly when no top-level `terraform` block
/// pins a configured provider to another version than the configured one.
pub proof fn provider_check_silent_iff_all_match(body: TfBody, cfg: Config)
    ensures
        providers::spec_check(body, cfg).len() == 0 <==> forall|k: int|
            0 <= k < spec_top_blocks(body, "terraform"@).len() ==> !wrong_providers_in(
                #[trigger] spec_top_blocks(body, "terraform"@)[k],
                cfg.providers@,
            ),
{
    let blocks = spec_top_blocks(body, "terraform"@);
    lemma_provider_blocks_empty(blocks, cfg.providers@);
    if cfg.providers@.len() == 0 {
        assert forall|k: int| 0 <= k < blocks.len() implies !wrong_providers_in(
            #[trigger] blocks[k],
            cfg.providers@,
        ) by {
            if let Some(req) = spec_child_block(blocks[k], "required_providers"@, None) {
                assert forall|j: int| 0 <= j < req.body.structures@.len() implies !wrong_provider_version(
                    #[trigger] req.body.structures@[j],
                    cfg.providers@,
                ) by {
                    if let TfItem::Attribute(a) = req.body.structures@[j] {
                        assert(spec_lookup(cfg.providers@, a.key@) is None);
                    }
                }
            }
        }
    }
}

// ---------------------------------------------------------------- backend key

/// The key a template asks for in directory `dir`: every `{dir}` replaced by `dir`.
pub open spec fn rendered_key(template: Seq<char>, dir: Seq<char>) -> Seq<char> {
    replace_all(template, "{dir}"@, dir)
}

/// On a `backend "s3"` block, after the messages on the listed attributes, the key is checked
/// against the template: a literal `key` is reported exactly when it is not the template with
/// every `{dir}` replaced by the file's directory (a key that merely starts with it is
/// reported too), and a block without a `key` is reported as missing it. Without a template
/// the key is not checked.
pub proof fn backend_key_must_equal_rendered_template(body: TfBody, s3: BackendS3, dir: Seq<char>)
    ensures
        backend_messages(body, s3, dir) == expected_messages(body, s3.expected@) + match s3.key_template {
            Some(t) => match spec_attr_str(body, "key"@) {
                Some(found) => if found == rendered_key(t@, dir) {
                    Seq::empty()
                } else {
                    seq![key_message(found, rendered_key(t@, dir))]
                },
                None => seq![missing_key_message(rendered_key(t@, dir))],
            },
            None => Seq::<Seq<char>>::empty(),
        },
        s3.key_template matches Some(t) ==> (spec_attr_str(body, "key"@) matches Some(found) ==> (
        backend_messages(body, s3, dir).len() == expected_messages(body, s3.expected@).len()
            <==> found == rendered_key(t@, dir))),
{
}


// ---------------------------------------------------------------- backend attributes

/// Checking several listed backend attributes reports, in order, what checking each alone
/// reports.
pub proof fn expected_messages_concat(
    body: TfBody,
    a: Seq<(String, TomlValue)>,
    b: Seq<(String, TomlValue)>,
)
    ensures
        expected_messages(body, a + b) == expected_messages(body, a) + expected_messages(body, b),
    decreases b.len(),
{
    if b.len() == 0 {
        assert(a + b =~= a);
        assert(expected_messages(body, a) + Seq::<Seq<char>>::empty() =~= expected_messages(
            body,
            a,
        ));
    } else {
        assert((a + b).drop_last() =~= a + b.drop_last());
        expected_messages_concat(body, a, b.drop_last());
        let ra = expected_messages(body, a);
        let rb = expected_messages(body, b.drop_last());
        let (name, value) = b.last();
        match spec_attr(body, name@) {
            None => {
                let msg = missing_message(name@, spec_toml_display(value@));
                assert((ra + rb).push(msg) =~= ra + rb.push(msg));
            },
            Some(found) => {
                let msg = mismatch_message(name@, spec_expr_display(found), spec_toml_display(value@));
                assert((ra + rb).push(msg) =~= ra + rb.push(msg));
            },
        }
    }
}

/// One listed backend attribute: a block without it is reported as missing it; a block whose
/// value does not match the configured one is reported with the value it has; a matching value
/// gets no message.
pub proof fn backend_attribute_checked(body: TfBody, name: String, value: TomlValue)
    ensures
        expected_messages(body, seq![(name, value)]) == match spec_attr(body, name@) {
            None => seq![missing_message(name@, spec_toml_display(value@))],
            Some(found) => if spec_expr_matches(found, value@) {
                Seq::<Seq<char>>::empty()
            } else {
                seq![mismatch_message(name@, spec_expr_display(found), spec_toml_display(value@))]
            },
        },
{
    let one = seq![(name, value)];
    assert(one.drop_last() =~= Seq::<(String, TomlValue)>::empty());
    assert(one.last() == (name, value));
    assert(expected_messages(body, Seq::<(String, TomlValue)>::empty()) =~= Seq::empty());
    assert(Seq::<Seq<char>>::empty().push(missing_message(name@, spec_toml_display(value@))) =~= seq![
        missing_message(name@, spec_toml_display(value@)),
    ]);
    if let Some(found) = spec_attr(body, name@) {
        let msg = mismatch_message(name@, spec_expr_display(found), spec_toml_display(value@));
        assert(Seq::<Seq<char>>::empty().push(msg) =~= seq![msg]);
    }
}

/// Checking several `terraform` blocks for the backend convention reports, in order, what
/// checking each alone reports.
pub proof fn backend_blocks_concat(a: Seq<TfBlock>, b: Seq<TfBlock>, s3: BackendS3, dir: Seq<char>)
    ensures
        backend::block_messages(a + b, s3, dir) == backend::block_messages(a, s3, dir)
            + backend::block_messages(b, s3, dir),
    decreases b.len(),
{
    if b.len() == 0 {
        assert(a + b =~= a);
        assert(backend::block_messages(a, s3, dir) + Seq::<Seq<char>>::empty()
            =~= backend::block_messages(a, s3, dir));
    } else {
        assert((a + b).drop_last() =~= a + b.drop_last());
        backend_blocks_concat(a, b.drop_last(), s3, dir);
        let ra = backend::block_messages(a, s3, dir);
        let rb = backend::block_messages(b.drop_last(), s3, dir);
        if let Some(bk) = spec_child_block(b.last(), "backend"@, Some("s3"@)) {
            let e = backend_messages(bk.body, s3, dir);
            assert((ra + rb) + e =~= ra + (rb + e));
        }
    }
}

/// One `terraform` block: its `backend "s3"` block, if it has one, is checked; a block without
/// one gets no message. Without a `[backend.s3]` section nothing is checked.
pub proof fn backend_of_one_block(b: TfBlock, s3: BackendS3, dir: Seq<char>)
    ensures
        backend::block_messages(seq![b], s3, dir) == match spec_child_block(
            b,
            "backend"@,
            Some("s3"@),
        ) {
            Some(bk) => backend_messages(bk.body, s3, dir),
            None => Seq::<Seq<char>>::empty(),
        },
{
    assert(seq![b].drop_last() =~= Seq::<TfBlock>::empty());
    assert(seq![b].last() == b);
    assert(backend::block_messages(Seq::<TfBlock>::empty(), s3, dir) =~= Seq::empty());
    if let Some(bk) = spec_child_block(b, "backend"@, Some("s3"@)) {
        assert(Seq::<Seq<char>>::empty() + backend_messages(bk.body, s3, dir) =~= backend_messages(
            bk.body,
            s3,
            dir,
        ));
    }
}

/// The backend check looks at every top-level `terraform` block of a file, and at nothing when
/// no `[backend.s3]` section is configured.
pub proof fn backend_check_covers_every_block(dir: Seq<char>, body: TfBody, cfg: Config)
    ensures
        match cfg.backend.s3 {
            Some(s3) => backend::spec_check(dir, body, cfg) == backend::block_messages(
                spec_top_blocks(body, "terraform"@),
                s3,
                dir,
            ),
            None => backend::spec_check(dir, body, cfg).len() == 0,
        },
{
}

// ---------------------------------------------------------------- forbidden blocks

/// Checking several forbidden kinds reports, in order, what checking each alone reports.
pub proof fn forbidden_messages_concat(a: Seq<String>, b: Seq<String>, body: TfBody)
    ensures
        forbidden_messages(a + b, body) == forbidden_messages(a, body) + forbidden_messages(
            b,
            body,
        ),
    decreases b.len(),
{
    if b.len() == 0 {
        assert(a + b =~= a);
        assert(forbidden_messages(a, body) + Seq::<Seq<char>>::empty() =~= forbidden_messages(
            a,
            body,
        ));
    } else {
        assert((a + b).drop_last() =~= a + b.drop_last());
        forbidden_messages_concat(a, b.drop_last(), body);
        let ra = forbidden_messages(a, body);
        let rb = forbidden_messages(b.drop_last(), body);
        let msg = forbidden_message(b.last()@);
        assert((ra + rb).push(msg) =~= ra + rb.push(msg));
    }
}

/// One forbidden kind: it is reported, once, exactly when the file has a top-level block of
/// that kind.
pub proof fn forbidden_kind_reported_iff_present(kind: String, body: TfBody)
    ensures
        forbidden_messages(seq![kind], body) == if spec_top_blocks(body, kind@).len() > 0 {
            seq![forbidden_message(kind@)]
        } else {
            Seq::<Seq<char>>::empty()
        },
{
    assert(seq![kind].drop_last() =~= Seq::<String>::empty());
    assert(seq![kind].last() == kind);
    assert(forbidden_messages(Seq::<String>::empty(), body) =~= Seq::empty());
    assert(Seq::<Seq<char>>::empty().push(forbidden_message(kind@)) =~= seq![
        forbidden_message(kind@),
    ]);
}

/// The forbidden-block check reports nothing on a file exactly when the file has no top-level
/// block of any forbidden kind.
pub proof fn forbidden_check_silent_iff_none_present(body: TfBody, cfg: Config)
    ensures
        forbidden_blocks::spec_check(body, cfg).len() == 0 <==> forall|k: int|
            0 <= k < cfg.forbidden_blocks@.len() ==> spec_top_blocks(
                body,
                (#[trigger] cfg.forbidden_blocks@[k])@,
            ).len() == 0,
{
    lemma_forbidden_empty(cfg.forbidden_blocks@, body);
}

proof fn lemma_forbidden_empty(kinds: Seq<String>, body: TfBody)
    ensures
        forbidden_messages(kinds, body).len() == 0 <==> forall|k: int|
            0 <= k < kinds.len() ==> spec_top_blocks(body, (#[trigger] kinds[k])@).len() == 0,
    decreases kinds.len(),
{
    if kinds.len() > 0 {
        lemma_forbidden_empty(kinds.drop_last(), body);
        assert(forall|k: int| 0 <= k < kinds.len() - 1 ==> kinds.drop_last()[k] == kinds[k]);
        assert(kinds[kinds.len() - 1] == kinds.last());
    }
}

// ---------------------------------------------------------------- all checks

/// A file gets no message from the checks exactly when each of the five checks reports nothing
/// on it, and it gets as many messages as the five checks report together: none is dropped.
pub proof fn run_all_silent_iff_every_check_silent(dir: Seq<char>, body: TfBody, cfg: Config)
    ensures
        spec_run_all(dir, body, cfg).len() == 0 <==> {
            &&& terraform_version::spec_check(body, cfg).len() == 0
            &&& providers::spec_check(body, cfg).len() == 0
            &&& modules::spec_check(body, cfg).len() == 0
            &&& backend::spec_check(dir, body, cfg).len() == 0
            &&& forbidden_blocks::spec_check(body, cfg).len() == 0
        },
        spec_run_all(dir, body, cfg).len() == terraform_version::spec_check(body, cfg).len()
            + providers::spec_check(body, cfg).len() + modules::spec_check(body, cfg).len()
            + backend::spec_check(dir, body, cfg).len() + forbidden_blocks::spec_check(
            body,
            cfg,
        ).len(),
{
}

// ---------------------------------------------------------------- include globs

/// The files walked are those of every configured include glob: where globs are configured,
/// the walk's patterns begin with all of them, in order; where none is, with `**/*.tf` alone.
pub proof fn walk_includes_every_configured_glob(cfg: Config)
    ensures
        cfg.include_globs@.len() > 0 ==> cfg.spec_include_patterns() == strs(cfg.include_globs@),
        cfg.include_globs@.len() > 0 ==> forall|k: int|
            0 <= k < cfg.include_globs@.len() ==> #[trigger] spec_walk_patterns(cfg)[k]
                == cfg.include_globs@[k]@,
        cfg.include_globs@.len() == 0 ==> spec_walk_patterns(cfg)[0] == DEFAULT_INCLUDE@,
{
}

} // verus!

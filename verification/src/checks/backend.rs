//! When a file declares a `backend "s3"` block, enforce the configured backend convention.
//!
//! Two kinds of rule:
//!   * every attribute listed under `[backend.s3]` must be present on the block with the
//!     configured value (free-form: any string/bool/number/array is compared verbatim); and
//!   * `key_template` is rendered with `{dir}` replaced by the file's directory (relative to the
//!     config file) and compared against the block's `key`.
//!
//! Files without an `s3` backend are skipped entirely.

use vstd::prelude::*;
use vstd::string::*;

use super::{messages, push_violation, Violation};
use crate::config::{BackendS3, Config};
use crate::hcl_nav::{
    attr, attr_str, child_block, derefs, expr_display, expr_matches, spec_attr, spec_attr_str,
    spec_child_block, spec_expr_display, spec_expr_matches, spec_toml_display, spec_top_blocks,
    toml_display, top_blocks,
};
use crate::syntax::{TfBlock, TfBody};
use crate::text::{debug_str, replace_all, replace_str, str_debug, str_eq};
use crate::value::TomlValue;

verus! {

/// The message for a listed attribute that the block lacks.
pub open spec fn missing_message(name: Seq<char>, expected: Seq<char>) -> Seq<char> {
    "S3 backend missing "@ + name + " (expected "@ + expected + ")"@
}

/// The message for a listed attribute whose value differs.
pub open spec fn mismatch_message(name: Seq<char>, found: Seq<char>, expected: Seq<char>) -> Seq<
    char,
> {
    "S3 backend "@ + name + " is "@ + found + " (expected "@ + expected + ")"@
}

/// The message for a block without a `key`.
pub open spec fn missing_key_message(expected_key: Seq<char>) -> Seq<char> {
    "S3 backend missing key (expected "@ + str_debug(expected_key) + ")"@
}

/// The message for a `key` that does not mirror the file's path.
pub open spec fn key_message(found: Seq<char>, expected_key: Seq<char>) -> Seq<char> {
    "S3 backend key "@ + str_debug(found) + " should match the workspace path: "@ + str_debug(
        expected_key,
    )
}

/// The key that a template asks for in directory `dir`: every `{dir}` replaced by `dir`.
pub open spec fn expected_key(template: Seq<char>, dir: Seq<char>) -> Seq<char> {
    replace_all(template, "{dir}"@, dir)
}

/// The messages for the listed attributes, in the order of the list.
pub open spec fn expected_messages(body: TfBody, expected: Seq<(String, TomlValue)>) -> Seq<
    Seq<char>,
>
    decreases expected.len(),
{
    if expected.len() == 0 {
        Seq::empty()
    } else {
        let rest = expected_messages(body, expected.drop_last());
        let (name, value) = expected.last();
        match spec_attr(body, name@) {
            None => rest.push(missing_message(name@, spec_toml_display(value@))),
            Some(found) => if !spec_expr_matches(found, value@) {
                rest.push(
                    mismatch_message(name@, spec_expr_display(found), spec_toml_display(value@)),
                )
            } else {
                rest
            },
        }
    }
}

/// The messages on the `key` of a block, for a template and a directory.
pub open spec fn key_messages(body: TfBody, template: Seq<char>, dir: Seq<char>) -> Seq<Seq<char>> {
    let want = expected_key(template, dir);
    match spec_attr_str(body, "key"@) {
        None => seq![missing_key_message(want)],
        Some(found) => if found != want {
            seq![key_message(found, want)]
        } else {
            Seq::empty()
        },
    }
}

/// The messages on one `backend "s3"` block.
pub open spec fn backend_messages(body: TfBody, s3: BackendS3, dir: Seq<char>) -> Seq<Seq<char>> {
    expected_messages(body, s3.expected@) + match s3.key_template {
        Some(template) => key_messages(body, template@, dir),
        None => Seq::empty(),
    }
}

/// The messages for a list of `terraform` blocks, in order.
pub open spec fn block_messages(blocks: Seq<TfBlock>, s3: BackendS3, dir: Seq<char>) -> Seq<
    Seq<char>,
>
    decreases blocks.len(),
{
    if blocks.len() == 0 {
        Seq::empty()
    } else {
        let rest = block_messages(blocks.drop_last(), s3, dir);
        match spec_child_block(blocks.last(), "backend"@, Some("s3"@)) {
            Some(backend) => rest + backend_messages(backend.body, s3, dir),
            None => rest,
        }
    }
}

/// What this check reports on a file in directory `dir`.
pub open spec fn spec_check(dir: Seq<char>, body: TfBody, cfg: Config) -> Seq<Seq<char>> {
    match cfg.backend.s3 {
        Some(s3) => block_messages(spec_top_blocks(body, "terraform"@), s3, dir),
        None => Seq::empty(),
    }
}

/// `template` with every `{dir}` replaced by `dir`.
pub fn render_key_template(template: &str, dir: &str) -> (r: String)
    ensures
        r@ == expected_key(template@, dir@),
{
    proof {
        reveal_strlit("{dir}");
    }
    replace_str(template, "{dir}", dir)
}

/// Appends the messages on one `backend "s3"` block.
fn check_backend(backend: &TfBlock, s3: &BackendS3, dir: &str, out: &mut Vec<Violation>)
    ensures
        messages(final(out)@) == messages(old(out)@) + backend_messages(backend.body, *s3, dir@),
{
    let bbody = &backend.body;
    let expected = &s3.expected;
    let ghost start = messages(out@);
    let mut i: usize = 0;
    assert(messages(out@) =~= start + expected_messages(*bbody, expected@.take(0)));
    while i < expected.len()
        invariant
            *bbody == backend.body,
            i <= expected@.len(),
            messages(out@) == start + expected_messages(*bbody, expected@.take(i as int)),
        decreases expected@.len() - i,
    {
        assert(expected@.take(i + 1).drop_last() =~= expected@.take(i as int));
        let name = &expected[i].0;
        let value = &expected[i].1;
        match attr(bbody, name.as_str()) {
            None => {
                let mut m = String::from_str("S3 backend missing ");
                m.append(name.as_str());
                m.append(" (expected ");
                m.append(toml_display(value).as_str());
                m.append(")");
                push_violation(out, m);
            },
            Some(found) => {
                if !expr_matches(found, value) {
                    let mut m = String::from_str("S3 backend ");
                    m.append(name.as_str());
                    m.append(" is ");
                    m.append(expr_display(found).as_str());
                    m.append(" (expected ");
                    m.append(toml_display(value).as_str());
                    m.append(")");
                    push_violation(out, m);
                }
            },
        }
        assert(messages(out@) =~= start + expected_messages(*bbody, expected@.take(i + 1)));
        i = i + 1;
    }
    assert(expected@.take(expected@.len() as int) =~= expected@);
    let ghost mid = messages(out@);
    match &s3.key_template {
        Some(template) => {
            let want = render_key_template(template.as_str(), dir);
            match attr_str(bbody, "key") {
                None => {
                    let mut m = String::from_str("S3 backend missing key (expected ");
                    m.append(debug_str(want.as_str()).as_str());
                    m.append(")");
                    push_violation(out, m);
                    assert(messages(out@) =~= mid + key_messages(*bbody, template@, dir@));
                },
                Some(found) => {
                    if !str_eq(found, want.as_str()) {
                        let mut m = String::from_str("S3 backend key ");
                        m.append(debug_str(found).as_str());
                        m.append(" should match the workspace path: ");
                        m.append(debug_str(want.as_str()).as_str());
                        push_violation(out, m);
                    }
                    assert(messages(out@) =~= mid + key_messages(*bbody, template@, dir@));
                },
            }
        },
        None => {
            assert(messages(out@) =~= mid + Seq::<Seq<char>>::empty());
        },
    }
}

pub fn check(dir: &str, body: &TfBody, cfg: &Config, out: &mut Vec<Violation>)
    ensures
        messages(final(out)@) == messages(old(out)@) + spec_check(dir@, *body, *cfg),
{
    let s3 = match &cfg.backend.s3 {
        Some(s3) => s3,
        None => {
            assert(messages(out@) =~= messages(out@) + Seq::<Seq<char>>::empty());
            return;
        },
    };
    let tfs = top_blocks(body, "terraform");
    let ghost blocks = derefs(tfs@);
    let ghost start = messages(out@);
    let mut i: usize = 0;
    assert(messages(out@) =~= start + block_messages(blocks.take(0), *s3, dir@));
    while i < tfs.len()
        invariant
            blocks == derefs(tfs@),
            i <= tfs@.len(),
            messages(out@) == start + block_messages(blocks.take(i as int), *s3, dir@),
        decreases tfs@.len() - i,
    {
        let tf = tfs[i];
        assert(blocks.take(i + 1).drop_last() =~= blocks.take(i as int));
        assert(blocks[i as int] == *tf);
        proof {
            reveal_strlit("s3");
        }
        match child_block(tf, "backend", Some("s3")) {
            Some(backend) => {
                check_backend(backend, s3, dir, out);
            },
            None => {},
        }
        assert(messages(out@) =~= start + block_messages(blocks.take(i + 1), *s3, dir@));
        i = i + 1;
    }
    assert(blocks.take(blocks.len() as int) =~= blocks);
}

} // verus!

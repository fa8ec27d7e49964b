//! If a file sets `terraform.required_version`, it must match the configured value. Setting it is
//! not required, but when set it must be correct.

use vstd::prelude::*;
use vstd::string::*;

use super::{messages, push_violation, Violation};
use crate::config::Config;
use crate::hcl_nav::{attr_str, derefs, spec_attr_str, spec_top_blocks, top_blocks};
use crate::syntax::{TfBlock, TfBody};
use crate::text::{debug_str, str_debug, str_eq};

verus! {

/// The message for a `required_version` that differs from the configured one.
pub open spec fn version_message(found: Seq<char>, expected: Seq<char>) -> Seq<char> {
    "wrong terraform required_version: found "@ + str_debug(found) + ", expected "@ + str_debug(
        expected,
    )
}

/// The messages for a list of `terraform` blocks, in order.
pub open spec fn version_messages(blocks: Seq<TfBlock>, expected: Seq<char>) -> Seq<Seq<char>>
    decreases blocks.len(),
{
    if blocks.len() == 0 {
        Seq::empty()
    } else {
        let rest = version_messages(blocks.drop_last(), expected);
        match spec_attr_str(blocks.last().body, "required_version"@) {
            Some(found) => if found != expected {
                rest.push(version_message(found, expected))
            } else {
                rest
            },
            None => rest,
        }
    }
}

/// What this check reports on a file.
pub open spec fn spec_check(body: TfBody, cfg: Config) -> Seq<Seq<char>> {
    match cfg.terraform_version {
        Some(expected) => version_messages(spec_top_blocks(body, "terraform"@), expected@),
        None => Seq::empty(),
    }
}

pub fn check(body: &TfBody, cfg: &Config, out: &mut Vec<Violation>)
    ensures
        messages(final(out)@) == messages(old(out)@) + spec_check(*body, *cfg),
{
    let expected = match &cfg.terraform_version {
        Some(expected) => expected,
        None => {
            assert(messages(out@) =~= messages(out@) + Seq::<Seq<char>>::empty());
            return;
        },
    };
    let tfs = top_blocks(body, "terraform");
    let ghost blocks = derefs(tfs@);
    let ghost start = messages(out@);
    let mut i: usize = 0;
    assert(messages(out@) =~= start + version_messages(blocks.take(0), expected@));
    while i < tfs.len()
        invariant
            blocks == derefs(tfs@),
            i <= tfs@.len(),
            messages(out@) == start + version_messages(blocks.take(i as int), expected@),
        decreases tfs@.len() - i,
    {
        let tf = tfs[i];
        assert(blocks.take(i + 1).drop_last() =~= blocks.take(i as int));
        assert(blocks[i as int] == *tf);
        match attr_str(&tf.body, "required_version") {
            Some(found) => {
                if !str_eq(found, expected.as_str()) {
                    let mut m = String::from_str("wrong terraform required_version: found ");
                    m.append(debug_str(found).as_str());
                    m.append(", expected ");
                    m.append(debug_str(expected.as_str()).as_str());
                    push_violation(out, m);
                }
            },
            None => {},
        }
        assert(messages(out@) =~= start + version_messages(blocks.take(i + 1), expected@));
        i = i + 1;
    }
    assert(blocks.take(blocks.len() as int) =~= blocks);
}

} // verus!

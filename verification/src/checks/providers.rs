//! For every provider listed in the config, if a file pins that provider's `version` in
//! `required_providers`, it must match. Providers absent from the config, or declared without a
//! `version`, are left alone.

use vstd::prelude::*;
use vstd::string::*;

use super::{messages, push_violation, Violation};
use crate::config::{lookup, spec_lookup, Config};
use crate::hcl_nav::{
    child_block, derefs, object_get, spec_child_block, spec_object_get, spec_top_blocks,
    top_blocks,
};
use crate::syntax::{Expr, TfBlock, TfBody, TfItem};
use crate::text::{debug_str, str_debug, str_eq};

verus! {

/// The message for a provider pinned to another version than the configured one.
pub open spec fn provider_message(name: Seq<char>, found: Seq<char>, expected: Seq<char>) -> Seq<
    char,
> {
    "wrong "@ + name + " provider version: found "@ + str_debug(found) + ", expected "@
        + str_debug(expected)
}

/// The messages for the entries of a `required_providers` block, in order: an attribute whose
/// name is configured and whose object holds a literal `version` that differs.
pub open spec fn entry_messages(items: Seq<TfItem>, providers: Seq<(String, String)>) -> Seq<
    Seq<char>,
>
    decreases items.len(),
{
    if items.len() == 0 {
        Seq::empty()
    } else {
        let rest = entry_messages(items.drop_last(), providers);
        match items.last() {
            TfItem::Attribute(a) => match spec_lookup(providers, a.key@) {
                Some(expected) => match spec_object_get(a.expr, "version"@) {
                    Some(Expr::Str(found)) => if found@ != expected@ {
                        rest.push(provider_message(a.key@, found@, expected@))
                    } else {
                        rest
                    },
                    _ => rest,
                },
                None => rest,
            },
            TfItem::Block(_) => rest,
        }
    }
}

/// The messages for a list of `terraform` blocks, in order.
pub open spec fn block_messages(blocks: Seq<TfBlock>, providers: Seq<(String, String)>) -> Seq<
    Seq<char>,
>
    decreases blocks.len(),
{
    if blocks.len() == 0 {
        Seq::empty()
    } else {
        let rest = block_messages(blocks.drop_last(), providers);
        match spec_child_block(blocks.last(), "required_providers"@, None) {
            Some(required) => rest + entry_messages(required.body.structures@, providers),
            None => rest,
        }
    }
}

/// What this check reports on a file.
pub open spec fn spec_check(body: TfBody, cfg: Config) -> Seq<Seq<char>> {
    if cfg.providers@.len() == 0 {
        Seq::empty()
    } else {
        block_messages(spec_top_blocks(body, "terraform"@), cfg.providers@)
    }
}

/// Appends the messages for the entries of one `required_providers` block.
fn check_entries(required: &TfBlock, providers: &Vec<(String, String)>, out: &mut Vec<Violation>)
    ensures
        messages(final(out)@) == messages(old(out)@) + entry_messages(
            required.body.structures@,
            providers@,
        ),
{
    let items = &required.body.structures;
    let ghost start = messages(out@);
    let mut i: usize = 0;
    assert(messages(out@) =~= start + entry_messages(items@.take(0), providers@));
    while i < items.len()
        invariant
            items@ == required.body.structures@,
            i <= items@.len(),
            messages(out@) == start + entry_messages(items@.take(i as int), providers@),
        decreases items@.len() - i,
    {
        assert(items@.take(i + 1).drop_last() =~= items@.take(i as int));
        match &items[i] {
            TfItem::Attribute(entry) => {
                match lookup(providers, entry.key.as_str()) {
                    Some(expected) => {
                        match object_get(&entry.expr, "version") {
                            Some(Expr::Str(found)) => {
                                if !str_eq(found.as_str(), expected.as_str()) {
                                    let mut m = String::from_str("wrong ");
                                    m.append(entry.key.as_str());
                                    m.append(" provider version: found ");
                                    m.append(debug_str(found.as_str()).as_str());
                                    m.append(", expected ");
                                    m.append(debug_str(expected.as_str()).as_str());
                                    push_violation(out, m);
                                }
                            },
                            _ => {},
                        }
                    },
                    None => {},
                }
            },
            TfItem::Block(_) => {},
        }
        assert(messages(out@) =~= start + entry_messages(items@.take(i + 1), providers@));
        i = i + 1;
    }
    assert(items@.take(items@.len() as int) =~= items@);
}

pub fn check(body: &TfBody, cfg: &Config, out: &mut Vec<Violation>)
    ensures
        messages(final(out)@) == messages(old(out)@) + spec_check(*body, *cfg),
{
    if cfg.providers.len() == 0 {
        assert(messages(out@) =~= messages(out@) + Seq::<Seq<char>>::empty());
        return;
    }
    let tfs = top_blocks(body, "terraform");
    let ghost blocks = derefs(tfs@);
    let ghost start = messages(out@);
    let mut i: usize = 0;
    assert(messages(out@) =~= start + block_messages(blocks.take(0), cfg.providers@));
    while i < tfs.len()
        invariant
            blocks == derefs(tfs@),
            i <= tfs@.len(),
            messages(out@) == start + block_messages(blocks.take(i as int), cfg.providers@),
        decreases tfs@.len() - i,
    {
        let tf = tfs[i];
        assert(blocks.take(i + 1).drop_last() =~= blocks.take(i as int));
        assert(blocks[i as int] == *tf);
        match child_block(tf, "required_providers", None) {
            Some(required) => {
                check_entries(required, &cfg.providers, out);
            },
            None => {},
        }
        assert(messages(out@) =~= start + block_messages(blocks.take(i + 1), cfg.providers@));
        i = i + 1;
    }
    assert(blocks.take(blocks.len() as int) =~= blocks);
}

} // verus!

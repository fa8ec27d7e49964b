//! For every module `source` listed in the config, if a file pins a `version` for a module using
//! that source, it must match. Modules whose source is not in the config are ignored; a
//! configured source declared without a `version` is skipped.

use vstd::prelude::*;
use vstd::string::*;

use super::{messages, push_violation, Violation};
use crate::config::{lookup, spec_lookup, Config};
use crate::hcl_nav::{attr_str, derefs, spec_attr_str, spec_top_blocks, top_blocks};
use crate::syntax::{TfBlock, TfBody};
use crate::text::{debug_str, str_debug, str_eq};

verus! {

/// The message for a module pinned to another version than the configured one.
pub open spec fn module_message(name: Seq<char>, found: Seq<char>, expected: Seq<char>) -> Seq<
    char,
> {
    "wrong "@ + str_debug(name) + " module version: found "@ + str_debug(found) + ", expected "@
        + str_debug(expected)
}

/// The name of a module block: its first label, or nothing.
pub open spec fn module_name(b: TfBlock) -> Seq<char> {
    if b.labels@.len() > 0 {
        b.labels@[0]@
    } else {
        Seq::empty()
    }
}

/// The messages for a list of `module` blocks, in order.
pub open spec fn module_messages(blocks: Seq<TfBlock>, modules: Seq<(String, String)>) -> Seq<
    Seq<char>,
>
    decreases blocks.len(),
{
    if blocks.len() == 0 {
        Seq::empty()
    } else {
        let rest = module_messages(blocks.drop_last(), modules);
        let m = blocks.last();
        match spec_attr_str(m.body, "source"@) {
            Some(source) => match spec_lookup(modules, source) {
                Some(expected) => match spec_attr_str(m.body, "version"@) {
                    Some(found) => if found != expected@ {
                        rest.push(module_message(module_name(m), found, expected@))
                    } else {
                        rest
                    },
                    None => rest,
                },
                None => rest,
            },
            None => rest,
        }
    }
}

/// What this check reports on a file.
pub open spec fn spec_check(body: TfBody, cfg: Config) -> Seq<Seq<char>> {
    if cfg.modules@.len() == 0 {
        Seq::empty()
    } else {
        module_messages(spec_top_blocks(body, "module"@), cfg.modules@)
    }
}

pub fn check(body: &TfBody, cfg: &Config, out: &mut Vec<Violation>)
    ensures
        messages(final(out)@) == messages(old(out)@) + spec_check(*body, *cfg),
{
    if cfg.modules.len() == 0 {
        assert(messages(out@) =~= messages(out@) + Seq::<Seq<char>>::empty());
        return;
    }
    let mods = top_blocks(body, "module");
    let ghost blocks = derefs(mods@);
    let ghost start = messages(out@);
    let mut i: usize = 0;
    assert(messages(out@) =~= start + module_messages(blocks.take(0), cfg.modules@));
    while i < mods.len()
        invariant
            blocks == derefs(mods@),
            i <= mods@.len(),
            messages(out@) == start + module_messages(blocks.take(i as int), cfg.modules@),
        decreases mods@.len() - i,
    {
        let module = mods[i];
        assert(blocks.take(i + 1).drop_last() =~= blocks.take(i as int));
        assert(blocks[i as int] == *module);
        match attr_str(&module.body, "source") {
            Some(source) => match lookup(&cfg.modules, source) {
                Some(expected) => {
                    let name: &str = if module.labels.len() > 0 {
                        module.labels[0].as_str()
                    } else {
                        ""
                    };
                    proof {
                        reveal_strlit("");
                    }
                    assert(name@ == module_name(*module));
                    match attr_str(&module.body, "version") {
                        Some(found) => {
                            if !str_eq(found, expected.as_str()) {
                                let mut m = String::from_str("wrong ");
                                m.append(debug_str(name).as_str());
                                m.append(" module version: found ");
                                m.append(debug_str(found).as_str());
                                m.append(", expected ");
                                m.append(debug_str(expected.as_str()).as_str());
                                push_violation(out, m);
                            }
                        },
                        None => {},
                    }
                },
                None => {},
            },
            None => {},
        }
        assert(messages(out@) =~= start + module_messages(blocks.take(i + 1), cfg.modules@));
        i = i + 1;
    }
    assert(blocks.take(blocks.len() as int) =~= blocks);
}

} // verus!

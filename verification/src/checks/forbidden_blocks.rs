//! Refactoring blocks (`moved`, `import`, `removed`) are only useful until the refactor they
//! describe has been applied, so any left behind is flagged.

use vstd::prelude::*;
use vstd::string::*;

use super::{messages, push_violation, Violation};
use crate::config::Config;
use crate::hcl_nav::{spec_top_blocks, top_blocks};
use crate::syntax::TfBody;
use crate::text::{debug_str, str_debug};

verus! {

/// The message for a forbidden block kind found in a file.
pub open spec fn forbidden_message(kind: Seq<char>) -> Seq<char> {
    "found refactoring block "@ + str_debug(kind) + " leftover (should be removed after use)"@
}

/// The messages for a list of forbidden kinds, in the order of the list: one for each kind of
/// which the file has a top-level block.
pub open spec fn forbidden_messages(kinds: Seq<String>, body: TfBody) -> Seq<Seq<char>>
    decreases kinds.len(),
{
    if kinds.len() == 0 {
        Seq::empty()
    } else {
        let rest = forbidden_messages(kinds.drop_last(), body);
        if spec_top_blocks(body, kinds.last()@).len() > 0 {
            rest.push(forbidden_message(kinds.last()@))
        } else {
            rest
        }
    }
}

/// What this check reports on a file.
pub open spec fn spec_check(body: TfBody, cfg: Config) -> Seq<Seq<char>> {
    forbidden_messages(cfg.forbidden_blocks@, body)
}

pub fn check(body: &TfBody, cfg: &Config, out: &mut Vec<Violation>)
    ensures
        messages(final(out)@) == messages(old(out)@) + spec_check(*body, *cfg),
{
    let kinds = &cfg.forbidden_blocks;
    let ghost start = messages(out@);
    let mut i: usize = 0;
    assert(messages(out@) =~= start + forbidden_messages(kinds@.take(0), *body));
    while i < kinds.len()
        invariant
            kinds@ == cfg.forbidden_blocks@,
            i <= kinds@.len(),
            messages(out@) == start + forbidden_messages(kinds@.take(i as int), *body),
        decreases kinds@.len() - i,
    {
        assert(kinds@.take(i + 1).drop_last() =~= kinds@.take(i as int));
        let kind = kinds[i].as_str();
        let found = top_blocks(body, kind);
        if found.len() > 0 {
            let mut m = String::from_str("found refactoring block ");
            m.append(debug_str(kind).as_str());
            m.append(" leftover (should be removed after use)");
            push_violation(out, m);
        }
        assert(messages(out@) =~= start + forbidden_messages(kinds@.take(i + 1), *body));
        i = i + 1;
    }
    assert(kinds@.take(kinds@.len() as int) =~= kinds@);
}

} // verus!

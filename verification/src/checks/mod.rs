//! The individual lint checks, one module per rule.
//!
//! Every check is gated on its configuration section being present and only enforces what the
//! config actually specifies, so an empty `.tfpin.toml` reports nothing.

pub mod backend;
pub mod forbidden_blocks;
pub mod modules;
pub mod providers;
pub mod terraform_version;

use vstd::prelude::*;

use crate::config::Config;
use crate::syntax::TfBody;

verus! {

/// A single rule violation found in a file. The offending file is prefixed by the caller, so the
/// message itself only describes *what* is wrong.
#[derive(Debug)]
pub struct Violation {
    pub message: String,
}

impl Violation {
    pub fn new(message: String) -> (r: Violation)
        ensures
            r.message@ == message@,
    {
        Violation { message }
    }
}

/// The messages of a list of violations.
pub open spec fn messages(v: Seq<Violation>) -> Seq<Seq<char>> {
    v.map_values(|x: Violation| x.message@)
}

/// Appends a violation with the given message.
pub fn push_violation(out: &mut Vec<Violation>, message: String)
    ensures
        messages(final(out)@) == messages(old(out)@).push(message@),
{
    let ghost before = out@;
    out.push(Violation::new(message));
    assert(messages(out@) =~= messages(before).push(message@));
}

/// Everything that the checks report on one file, in the order in which they run.
pub open spec fn spec_run_all(dir: Seq<char>, body: TfBody, cfg: Config) -> Seq<Seq<char>> {
    terraform_version::spec_check(body, cfg) + providers::spec_check(body, cfg)
        + modules::spec_check(body, cfg) + backend::spec_check(dir, body, cfg)
        + forbidden_blocks::spec_check(body, cfg)
}

/// Run every check against one parsed file.
///
/// `dir` is the file's parent directory expressed relative to the config file, '/'-joined; it is
/// substituted into the backend `key_template`'s `{dir}` placeholder.
pub fn run_all(dir: &str, body: &TfBody, cfg: &Config) -> (r: Vec<Violation>)
    ensures
        messages(r@) == spec_run_all(dir@, *body, *cfg),
{
    let mut out: Vec<Violation> = Vec::new();
    assert(messages(out@) =~= Seq::<Seq<char>>::empty());
    terraform_version::check(body, cfg, &mut out);
    providers::check(body, cfg, &mut out);
    modules::check(body, cfg, &mut out);
    backend::check(dir, body, cfg, &mut out);
    forbidden_blocks::check(body, cfg, &mut out);
    out
}

} // verus!

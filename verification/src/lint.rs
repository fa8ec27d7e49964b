//! What the command prints for one file, and whether that file fails the run.

use vstd::prelude::*;
use vstd::string::*;

use crate::checks::{messages, run_all, spec_run_all};
use crate::config::{strs, Config};
use crate::syntax::{hcl_parse_body, hcl_parse_error, parse};

verus! {

/// What is printed for one file: lines for standard output, lines for standard error, and
/// whether the file makes the run fail (a violation, or a file that could not be read or
/// parsed).
#[derive(Debug)]
pub struct FileReport {
    pub stdout: Vec<String>,
    pub stderr: Vec<String>,
    pub failed: bool,
}

/// Each violation message, after the path that the file is shown as.
pub open spec fn violation_lines(shown: Seq<char>, msgs: Seq<Seq<char>>) -> Seq<Seq<char>> {
    msgs.map_values(|m: Seq<char>| shown + ": "@ + m)
}

/// The report on one file, as lines: `text` is what reading the file gave (its text, or the
/// text of the error).
pub open spec fn spec_file_report(
    shown: Seq<char>,
    dir: Seq<char>,
    text: Result<Seq<char>, Seq<char>>,
    cfg: Config,
) -> (Seq<Seq<char>>, Seq<Seq<char>>, bool) {
    match text {
        Err(e) => (Seq::empty(), seq!["tfpin: cannot read "@ + shown + ": "@ + e], true),
        Ok(t) => match hcl_parse_body(t) {
            None => (
                Seq::empty(),
                seq!["tfpin: cannot parse "@ + shown + ": "@ + hcl_parse_error(t)],
                true,
            ),
            Some(body) => {
                let msgs = spec_run_all(dir, body, cfg);
                (violation_lines(shown, msgs), Seq::empty(), msgs.len() > 0)
            },
        },
    }
}

/// The view of what reading a file gave.
pub open spec fn read_view(text: Result<String, String>) -> Result<Seq<char>, Seq<char>> {
    match text {
        Ok(t) => Ok(t@),
        Err(e) => Err(e@),
    }
}

/// `a`, `b` and `c` one after the other.
fn concat3(a: &str, b: &str, c: &str) -> (r: String)
    ensures
        r@ == a@ + b@ + c@,
{
    let mut r = String::from_str(a);
    r.append(b);
    r.append(c);
    r
}

/// `a`, `b`, `c` and `d` one after the other.
fn concat4(a: &str, b: &str, c: &str, d: &str) -> (r: String)
    ensures
        r@ == a@ + b@ + c@ + d@,
{
    let mut r = concat3(a, b, c);
    r.append(d);
    r
}

/// Checks one file: `shown` is how its path is shown, `dir` its directory relative to the
/// config file, and `text` what reading it gave (its text, or the text of the error).
pub fn check_file(shown: &str, dir: &str, text: &Result<String, String>, cfg: &Config) -> (r:
    FileReport)
    ensures
        (strs(r.stdout@), strs(r.stderr@), r.failed) == spec_file_report(
            shown@,
            dir@,
            read_view(*text),
            *cfg,
        ),
{
    let source = match text {
        Ok(t) => t,
        Err(e) => {
            let mut stderr: Vec<String> = Vec::new();
            stderr.push(concat4("tfpin: cannot read ", shown, ": ", e.as_str()));
            let r = FileReport { stdout: Vec::new(), stderr, failed: true };
            assert(strs(r.stdout@) =~= Seq::<Seq<char>>::empty());
            assert(strs(r.stderr@) =~= seq!["tfpin: cannot read "@ + shown@ + ": "@ + e@]);
            return r;
        },
    };
    match parse(source.as_str()) {
        Err(e) => {
            let mut stderr: Vec<String> = Vec::new();
            stderr.push(concat4("tfpin: cannot parse ", shown, ": ", e.as_str()));
            let r = FileReport { stdout: Vec::new(), stderr, failed: true };
            assert(strs(r.stdout@) =~= Seq::<Seq<char>>::empty());
            assert(strs(r.stderr@) =~= seq![
                "tfpin: cannot parse "@ + shown@ + ": "@ + hcl_parse_error(source@),
            ]);
            r
        },
        Ok(body) => {
            let violations = run_all(dir, &body, cfg);
            let ghost msgs = messages(violations@);
            let mut stdout: Vec<String> = Vec::new();
            let mut i: usize = 0;
            while i < violations.len()
                invariant
                    msgs == messages(violations@),
                    i <= violations@.len(),
                    strs(stdout@) == violation_lines(shown@, msgs.take(i as int)),
                decreases violations@.len() - i,
            {
                let ghost before = strs(stdout@);
                assert(msgs[i as int] == violations@[i as int].message@);
                let line = concat3(shown, ": ", violations[i].message.as_str());
                stdout.push(line);
                assert(strs(stdout@) =~= before.push(line@));
                assert(strs(stdout@) =~= violation_lines(shown@, msgs.take(i + 1)));
                i = i + 1;
            }
            assert(msgs.take(msgs.len() as int) =~= msgs);
            let failed = violations.len() > 0;
            FileReport { stdout, stderr: Vec::new(), failed }
        },
    }
}

} // verus!

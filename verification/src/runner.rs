//! Replaying the manifest: for each record, the shell invocation to run,
//! and the per-entry report. One entry's failure never stops the batch: the
//! outcome of every entry depends on that entry's own result alone, and
//! every entry is reported.

use vstd::prelude::*;
use vstd::string::StringExecFns;
use crate::manifest::Dependency;

verus! {

/// The composed shell invocation for one record: change into the record's
/// folder under the cache and run its command.
pub open spec fn invocation_of(cache_path: Seq<char>, folder: Seq<char>, cmd: Seq<char>) -> Seq<
    char,
> {
    seq!['c', 'd', ' '] + cache_path + seq!['/'] + folder + seq![' ', '&', '&', ' '] + cmd
}

/// The `cd <cache>/<folder> && <command>` string handed to the shell for
/// one record.
pub fn install_invocation(cache_path: &str, dep: &Dependency) -> (r: String)
    ensures
        r@ == invocation_of(cache_path@, dep.folder_name@, dep.install_command@),
{
    let mut s = "cd ".to_owned();
    s.append(cache_path);
    s.append("/");
    s.append(dep.folder_name.as_str());
    s.append(" && ");
    s.append(dep.install_command.as_str());
    proof {
        reveal_strlit("cd ");
        reveal_strlit("/");
        reveal_strlit(" && ");
        assert(s@ =~= invocation_of(cache_path@, dep.folder_name@, dep.install_command@));
    }
    s
}

/// What `shlex::split` returns on a given string: its POSIX shell word
/// splitting, or nothing when the string cannot be split (an unclosed
/// quote, a trailing bare escape). The result depends on the input
/// characters alone.
pub uninterp spec fn shlex_split_of(s: Seq<char>) -> Option<Seq<Seq<char>>>;

/// Relies on `shlex::split`: tokenizes a whole string by POSIX shell word
/// rules, returning `None` on erroneous input; a pure function of the input
/// string.
#[verifier::external_body]
fn shlex_split(s: &str) -> (r: Option<Vec<String>>)
    ensures
        (r is Some) == (shlex_split_of(s@) is Some),
        r matches Some(v) ==> shlex_split_of(s@) == Some(v.deep_view()),
{
    shlex::split(s)
}

/// How one record is to be executed.
pub enum EntryPlan {
    /// Hand the composed invocation to the shell's `-c` mode (the
    /// non-Windows path).
    RunShell(String),
    /// Hand the invocation's shell words as discrete arguments (the Windows
    /// path, where the composed string is tokenized first).
    RunArgs(Vec<String>),
    /// The composed invocation could not be tokenized; this entry is
    /// skipped and the batch goes on.
    SkipBadTokens,
}

/// The execution plan for one record. Off Windows the composed invocation
/// goes to the shell as one string; on Windows it is tokenized first, and a
/// record whose invocation cannot be tokenized is skipped rather than
/// aborting the batch.
pub fn plan_entry(cache_path: &str, dep: &Dependency, windows: bool) -> (r: EntryPlan)
    ensures
        !windows ==> (r matches EntryPlan::RunShell(c) && c@ == invocation_of(
            cache_path@,
            dep.folder_name@,
            dep.install_command@,
        )),
        windows ==> match shlex_split_of(
            invocation_of(cache_path@, dep.folder_name@, dep.install_command@),
        ) {
            Some(words) => r matches EntryPlan::RunArgs(v) && v.deep_view() == words,
            None => r is SkipBadTokens,
        },
{
    let inv = install_invocation(cache_path, dep);
    if !windows {
        EntryPlan::RunShell(inv)
    } else {
        match shlex_split(inv.as_str()) {
            Some(words) => EntryPlan::RunArgs(words),
            None => EntryPlan::SkipBadTokens,
        }
    }
}

/// What the shell observed for one entry.
#[derive(Clone, Copy, PartialEq, Eq, Structural, Debug)]
pub enum InstallResult {
    /// The subprocess ran and exited with this status code.
    Exited(i32),
    /// The subprocess could not be spawned.
    SpawnError,
    /// Nothing was run for this entry (its invocation could not be
    /// tokenized).
    NotRun,
}

/// How one entry is reported.
#[derive(Clone, Copy, PartialEq, Eq, Structural, Debug)]
pub enum EntryOutcome {
    /// The install command exited with status zero.
    Success,
    /// The install command exited with a non-zero status.
    CommandFailed,
    /// The install command could not be spawned.
    SpawnFailed,
    /// The entry was skipped before anything ran.
    Skipped,
}

/// The outcome one result is reported as.
pub open spec fn outcome_of(res: InstallResult) -> EntryOutcome {
    match res {
        InstallResult::Exited(code) => if code == 0 {
            EntryOutcome::Success
        } else {
            EntryOutcome::CommandFailed
        },
        InstallResult::SpawnError => EntryOutcome::SpawnFailed,
        InstallResult::NotRun => EntryOutcome::Skipped,
    }
}

/// The report for a whole batch: one outcome per result, in order.
pub open spec fn report_of(results: Seq<InstallResult>) -> Seq<EntryOutcome> {
    results.map_values(|res: InstallResult| outcome_of(res))
}

/// The batch report: exactly one outcome per manifest entry, in manifest
/// order, each determined by that entry's own result.
pub fn run_report(deps: &Vec<Dependency>, results: &Vec<InstallResult>) -> (r: Vec<EntryOutcome>)
    requires
        results.len() == deps.len(),
    ensures
        r@.len() == deps@.len(),
        r@ == report_of(results@),
        forall|k: int| 0 <= k < r@.len() ==> r@[k] == outcome_of(results@[k]),
{
    let mut r: Vec<EntryOutcome> = Vec::new();
    let mut i: usize = 0;
    while i < results.len()
        invariant
            results.len() == deps.len(),
            i <= results.len(),
            r@.len() == i,
            forall|k: int| 0 <= k < i ==> r@[k] == outcome_of(results@[k]),
        decreases results.len() - i,
    {
        let out = match results[i] {
            InstallResult::Exited(code) => if code == 0 {
                EntryOutcome::Success
            } else {
                EntryOutcome::CommandFailed
            },
            InstallResult::SpawnError => EntryOutcome::SpawnFailed,
            InstallResult::NotRun => EntryOutcome::Skipped,
        };
        r.push(out);
        i = i + 1;
    }
    proof {
        assert(r@ =~= report_of(results@));
    }
    r
}

/// Failure isolation: a batch of K results is reported as exactly K
/// outcomes, and an entry's outcome depends on that entry's own result
/// alone — however the other entries fare (failures included), entry `j` is
/// still reported, with the same outcome.
pub proof fn lemma_failure_isolation(
    a: Seq<InstallResult>,
    b: Seq<InstallResult>,
    j: int,
)
    requires
        a.len() == b.len(),
        0 <= j < a.len(),
        a[j] == b[j],
    ensures
        report_of(a).len() == a.len(),
        report_of(b).len() == a.len(),
        report_of(a)[j] == report_of(b)[j],
{
}

} // verus!

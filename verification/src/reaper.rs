//! What a logout cleans up: stale artifacts in the temporary directory, the
//! source lines in the profile, the credential variables, and the proxy
//! processes that are still running.

use crate::shell::{unsync_profile, unsynced_text};
use crate::text::{
    chars_of, contains, has_infix, has_prefix, lemma_filter_next, lemma_filter_start, lines,
    nth_word, split_lines, starts_with, string_of, string_views, views_of, word_at,
};
use vstd::prelude::*;

verus! {

/// What stands in the command line of a proxy to AWS.
pub open spec fn aws_proxy_pattern() -> Seq<char> {
    "tsh proxy aws"@
}

/// What stands in the command line of a proxy to a database.
pub open spec fn db_proxy_pattern() -> Seq<char> {
    "tsh proxy db"@
}

/// What marks the line of a search through the process listing itself.
pub open spec fn listing_pattern() -> Seq<char> {
    "grep"@
}

/// Whether a file in the temporary directory is an artifact of the helper:
/// account-scoped, tool-scoped or admin-scoped.
pub open spec fn is_artifact_name(name: Seq<char>) -> bool {
    has_prefix(name, "yl"@) || has_prefix(name, "tsh"@) || has_prefix(name, "admin_"@)
}

/// The predicate that picks the helper's artifacts.
pub open spec fn picks_artifacts() -> spec_fn(Seq<char>) -> bool {
    |name: Seq<char>| is_artifact_name(name)
}

/// Whether a line of the process listing is that of a proxy whose command
/// line holds `pattern`, and not that of a search for it.
pub open spec fn is_proxy_line(line: Seq<char>, pattern: Seq<char>) -> bool {
    has_infix(line, pattern) && !has_infix(line, listing_pattern())
}

/// Whether a line of the process listing is that of a proxy to reap.
pub open spec fn is_reapable(line: Seq<char>) -> bool {
    is_proxy_line(line, aws_proxy_pattern()) || is_proxy_line(line, db_proxy_pattern())
}

/// The process id of a line of the listing: its second word.
pub open spec fn pid_of(line: Seq<char>) -> Option<Seq<char>> {
    nth_word(line, 1)
}

/// The process ids of the proxy lines for `pattern` among `ls`, in order.
pub open spec fn pids_where(ls: Seq<Seq<char>>, pattern: Seq<char>) -> Seq<Seq<char>>
    decreases ls.len(),
{
    if ls.len() == 0 {
        Seq::empty()
    } else {
        let before = pids_where(ls.drop_last(), pattern);
        if is_proxy_line(ls.last(), pattern) && pid_of(ls.last()) is Some {
            before.push(pid_of(ls.last())->0)
        } else {
            before
        }
    }
}

/// The kill set of a process listing: the ids of the proxies to AWS, then
/// those of the proxies to databases.
pub open spec fn kill_set_of(listing: Seq<char>) -> Seq<Seq<char>> {
    pids_where(lines(listing), aws_proxy_pattern()) + pids_where(
        lines(listing),
        db_proxy_pattern(),
    )
}

/// The variables that a logout unsets.
pub open spec fn credential_variables() -> Seq<Seq<char>> {
    seq![
        "AWS_ACCESS_KEY_ID"@,
        "AWS_SECRET_ACCESS_KEY"@,
        "AWS_CA_BUNDLE"@,
        "HTTPS_PROXY"@,
        "ACCOUNT"@,
        "ROLE"@,
        "AWS_DEFAULT_REGION"@,
    ]
}

/// Whether a file in the temporary directory is an artifact of the helper.
pub fn is_session_artifact(name: &str) -> (b: bool)
    ensures
        b == is_artifact_name(name@),
{
    let chars = chars_of(name);
    starts_with(&chars, &chars_of("yl")) || starts_with(&chars, &chars_of("tsh")) || starts_with(
        &chars,
        &chars_of("admin_"),
    )
}

/// The names among those of the temporary directory that a logout removes.
pub fn stale_artifacts(names: &Vec<String>) -> (stale: Vec<String>)
    ensures
        string_views(stale@) == string_views(names@).filter(picks_artifacts()),
{
    let mut stale: Vec<String> = Vec::new();
    let mut i: usize = 0;
    let ghost all = string_views(names@);
    proof {
        lemma_filter_start(all, picks_artifacts());
        assert(string_views(stale@) =~= Seq::<Seq<char>>::empty());
    }
    while i < names.len()
        invariant
            i <= names.len(),
            all == string_views(names@),
            string_views(stale@) == all.take(i as int).filter(picks_artifacts()),
        decreases names.len() - i,
    {
        let pick = is_session_artifact(names[i].as_str());
        proof {
            lemma_filter_next(all, i as int, picks_artifacts());
            assert(all[i as int] == names@[i as int]@);
        }
        if pick {
            let name = names[i].clone();
            proof {
                assert(string_views(stale@.push(name)) =~= string_views(stale@).push(
                    names@[i as int]@,
                ));
            }
            stale.push(name);
        }
        i += 1;
    }
    assert(all.take(names.len() as int) =~= all);
    stale
}

/// The variables that a logout unsets.
pub fn credential_env_names() -> (names: Vec<String>)
    ensures
        string_views(names@) == credential_variables(),
{
    let mut names: Vec<String> = Vec::new();
    names.push(String::from_str("AWS_ACCESS_KEY_ID"));
    names.push(String::from_str("AWS_SECRET_ACCESS_KEY"));
    names.push(String::from_str("AWS_CA_BUNDLE"));
    names.push(String::from_str("HTTPS_PROXY"));
    names.push(String::from_str("ACCOUNT"));
    names.push(String::from_str("ROLE"));
    names.push(String::from_str("AWS_DEFAULT_REGION"));
    assert(string_views(names@) =~= credential_variables());
    names
}

/// Adds to `pids` the process ids of the proxy lines for `pattern`.
pub fn collect_pids(ls: &Vec<Vec<char>>, pattern: &Vec<char>, pids: &mut Vec<String>)
    ensures
        string_views(final(pids)@) == string_views(old(pids)@) + pids_where(
            views_of(ls@),
            pattern@,
        ),
{
    let ghost all = views_of(ls@);
    let ghost start = string_views(pids@);
    let listing = chars_of("grep");
    let mut i: usize = 0;
    proof {
        assert(all.take(0) =~= Seq::<Seq<char>>::empty());
        assert(string_views(pids@) =~= start + pids_where(all.take(0), pattern@));
    }
    while i < ls.len()
        invariant
            i <= ls.len(),
            all == views_of(ls@),
            listing@ == listing_pattern(),
            string_views(pids@) == start + pids_where(all.take(i as int), pattern@),
        decreases ls.len() - i,
    {
        let line = &ls[i];
        proof {
            let next = all.take(i + 1);
            assert(next.drop_last() =~= all.take(i as int));
            assert(next.last() == line@);
        }
        if contains(line, pattern) && !contains(line, &listing) {
            match word_at(line, 1) {
                Some(word) => {
                    let pid = string_of(&word);
                    proof {
                        assert(string_views(pids@.push(pid)) =~= string_views(pids@).push(pid@));
                        assert((start + pids_where(all.take(i as int), pattern@)).push(pid@)
                            =~= start + pids_where(all.take(i as int), pattern@).push(pid@));
                    }
                    pids.push(pid);
                },
                None => {},
            }
        }
        i += 1;
    }
    assert(all.take(ls.len() as int) =~= all);
}

/// The kill set of a process listing: the ids to hand to one `kill`.
pub fn kill_set(listing: &str) -> (pids: Vec<String>)
    ensures
        string_views(pids@) == kill_set_of(listing@),
{
    let chars = chars_of(listing);
    let ls = split_lines(&chars);
    let mut pids: Vec<String> = Vec::new();
    assert(string_views(pids@) =~= Seq::<Seq<char>>::empty());
    collect_pids(&ls, &chars_of("tsh proxy aws"), &mut pids);
    collect_pids(&ls, &chars_of("tsh proxy db"), &mut pids);
    assert(string_views(pids@) =~= kill_set_of(listing@));
    pids
}

/// What a logout is to do, each part worked out from its own input alone,
/// so that no part can keep another from being done.
pub struct ReapPlan {
    /// Names of the files to remove from the temporary directory.
    pub remove_files: Vec<String>,
    /// What to write back as the profile, where there is one to clean.
    pub profile: Option<String>,
    /// The variables to unset in this process.
    pub unset_vars: Vec<String>,
    /// The process ids to hand to one `kill`; none where this is empty.
    pub kill_pids: Vec<String>,
}

impl ReapPlan {
    /// The process ids to hand to one call of `kill`, all at once; nothing
    /// where no proxy runs, and then `kill` is not called at all.
    pub fn kill_batch(&self) -> (batch: Option<Vec<String>>)
        ensures
            match batch {
                Some(pids) => self.kill_pids@.len() > 0 && string_views(pids@) == string_views(
                    self.kill_pids@,
                ),
                None => self.kill_pids@.len() == 0,
            },
    {
        if self.kill_pids.len() == 0 {
            return None;
        }
        let mut pids: Vec<String> = Vec::new();
        let mut i: usize = 0;
        while i < self.kill_pids.len()
            invariant
                i <= self.kill_pids.len(),
                pids@.len() == i,
                forall|j: int| 0 <= j < i ==> (#[trigger] pids@[j])@ == self.kill_pids@[j]@,
            decreases self.kill_pids.len() - i,
        {
            pids.push(self.kill_pids[i].clone());
            i += 1;
        }
        assert(string_views(pids@) =~= string_views(self.kill_pids@));
        Some(pids)
    }
}

/// The plan of a logout. `temp_names` are the names in the temporary
/// directory, `profile` is the content of the shell profile where it could
/// be read, `listing` the process listing where it could be had.
pub fn plan_reap(temp_names: &Vec<String>, profile: Option<&str>, listing: Option<&str>) -> (plan:
    ReapPlan)
    ensures
        string_views(plan.remove_files@) == string_views(temp_names@).filter(picks_artifacts()),
        match profile {
            Some(content) => plan.profile is Some && plan.profile->0@ == unsynced_text(content@),
            None => plan.profile is None,
        },
        string_views(plan.unset_vars@) == credential_variables(),
        string_views(plan.kill_pids@) == match listing {
            Some(text) => kill_set_of(text@),
            None => Seq::empty(),
        },
{
    let remove_files = stale_artifacts(temp_names);
    let profile = match profile {
        Some(content) => Some(unsync_profile(content)),
        None => None,
    };
    let unset_vars = credential_env_names();
    let kill_pids = match listing {
        Some(text) => kill_set(text),
        None => {
            let none: Vec<String> = Vec::new();
            assert(string_views(none@) =~= Seq::<Seq<char>>::empty());
            none
        },
    };
    ReapPlan { remove_files, profile, unset_vars, kill_pids }
}

/// A process id is among those collected for a pattern exactly when it is
/// the id of one of the pattern's proxy lines.
pub proof fn lemma_pids_where(ls: Seq<Seq<char>>, pattern: Seq<char>, pid: Seq<char>)
    ensures
        pids_where(ls, pattern).contains(pid) <==> exists|i: int|
            0 <= i < ls.len() && is_proxy_line(#[trigger] ls[i], pattern) && pid_of(ls[i]) == Some(
                pid,
            ),
    decreases ls.len(),
{
    if ls.len() > 0 {
        let init = ls.drop_last();
        let before = pids_where(init, pattern);
        lemma_pids_where(init, pattern, pid);
        let hit = is_proxy_line(ls.last(), pattern) && pid_of(ls.last()) is Some;
        if pids_where(ls, pattern).contains(pid) {
            if before.contains(pid) {
                let i = choose|i: int|
                    0 <= i < init.len() && is_proxy_line(#[trigger] init[i], pattern) && pid_of(
                        init[i],
                    ) == Some(pid);
                assert(ls[i] == init[i]);
            } else {
                let j = choose|j: int|
                    0 <= j < pids_where(ls, pattern).len() && pids_where(ls, pattern)[j] == pid;
                assert(hit);
                if j < before.len() {
                    assert(before[j] == pid);
                }
                assert(pid_of(ls[ls.len() - 1]) == Some(pid));
            }
        }
        if exists|i: int|
            0 <= i < ls.len() && is_proxy_line(#[trigger] ls[i], pattern) && pid_of(ls[i]) == Some(
                pid,
            ) {
            let i = choose|i: int|
                0 <= i < ls.len() && is_proxy_line(#[trigger] ls[i], pattern) && pid_of(ls[i])
                    == Some(pid);
            if i < init.len() {
                assert(init[i] == ls[i]);
                assert(before.contains(pid));
                let j = choose|j: int| 0 <= j < before.len() && before[j] == pid;
                assert(pids_where(ls, pattern)[j] == pid);
            } else {
                assert(pids_where(ls, pattern) == before.push(pid));
                assert(before.push(pid)[before.len() as int] == pid);
            }
        }
    }
}

/// The kill set of a listing holds exactly the process ids of its lines
/// that belong to a proxy to AWS or to a database and are not the line of a
/// search through the listing: no id is there for another line's sake, and
/// none of such a line is missing.
pub proof fn law_kill_set_is_exact(listing: Seq<char>, pid: Seq<char>)
    ensures
        kill_set_of(listing).contains(pid) <==> exists|i: int|
            0 <= i < lines(listing).len() && is_reapable(#[trigger] lines(listing)[i]) && pid_of(
                lines(listing)[i],
            ) == Some(pid),
{
    let ls = lines(listing);
    let aws = pids_where(ls, aws_proxy_pattern());
    let db = pids_where(ls, db_proxy_pattern());
    lemma_pids_where(ls, aws_proxy_pattern(), pid);
    lemma_pids_where(ls, db_proxy_pattern(), pid);
    if kill_set_of(listing).contains(pid) {
        let j = choose|j: int| 0 <= j < (aws + db).len() && (aws + db)[j] == pid;
        if j < aws.len() {
            assert(aws[j] == pid);
            assert(aws.contains(pid));
        } else {
            assert(db[j - aws.len()] == pid);
            assert(db.contains(pid));
        }
    }
    if exists|i: int|
        0 <= i < ls.len() && is_reapable(#[trigger] ls[i]) && pid_of(ls[i]) == Some(pid) {
        let i = choose|i: int|
            0 <= i < ls.len() && is_reapable(#[trigger] ls[i]) && pid_of(ls[i]) == Some(pid);
        if is_proxy_line(ls[i], aws_proxy_pattern()) {
            assert(aws.contains(pid));
            let j = choose|j: int| 0 <= j < aws.len() && aws[j] == pid;
            assert((aws + db)[j] == pid);
        } else {
            assert(db.contains(pid));
            let j = choose|j: int| 0 <= j < db.len() && db[j] == pid;
            assert((aws + db)[aws.len() + j] == pid);
        }
    }
}

/// How a logout ended.
#[derive(Debug, Clone, Copy, PartialEq, Eq, Structural)]
pub enum ReapOutcome {
    /// Every step went through.
    Complete,
    /// So many steps failed. This is told, not escalated: the logout
    /// counts as done.
    PartialFailure(usize),
}

impl ReapOutcome {
    /// Whether the logout counts as done: it always does.
    pub fn is_success(&self) -> (b: bool)
        ensures
            b,
    {
        true
    }
}

/// Number of steps that failed, among steps of which each is `true` where
/// it went through.
pub open spec fn failures(steps: Seq<bool>) -> nat
    decreases steps.len(),
{
    if steps.len() == 0 {
        0
    } else {
        failures(steps.drop_last()) + if steps.last() {
            0nat
        } else {
            1nat
        }
    }
}

/// How a logout ended whose steps went as `steps` says, one entry per
/// step, `true` for a step that went through.
pub fn summarize_reap(steps: &Vec<bool>) -> (outcome: ReapOutcome)
    ensures
        outcome == if failures(steps@) == 0 {
            ReapOutcome::Complete
        } else {
            ReapOutcome::PartialFailure(failures(steps@) as usize)
        },
{
    let mut count: usize = 0;
    let mut i: usize = 0;
    assert(steps@.take(0) =~= Seq::<bool>::empty());
    while i < steps.len()
        invariant
            i <= steps.len(),
            count == failures(steps@.take(i as int)),
            count <= i,
        decreases steps.len() - i,
    {
        proof {
            assert(steps@.take(i + 1).drop_last() =~= steps@.take(i as int));
        }
        if !steps[i] {
            count += 1;
        }
        i += 1;
    }
    assert(steps@.take(steps.len() as int) =~= steps@);
    if count == 0 {
        ReapOutcome::Complete
    } else {
        ReapOutcome::PartialFailure(count)
    }
}

} // verus!

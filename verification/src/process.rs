//! What a run of a program came to: the decisions of the process runner
//! that do not need a process.

use crate::error::ThError;
use crate::number::{signed_decimal_chars, signed_digits};
use crate::text::{
    append_chars, append_str, chars_of, lemma_filter_next, lemma_filter_start, split_at_char,
    split_on, string_of, string_views, trim, trimmed, views_of,
};
use vstd::prelude::*;

verus! {

/// What a program wrote and whether it ended well.
pub struct ProcessOutput {
    pub stdout: String,
    pub stderr: String,
    pub success: bool,
}

/// The detail of the failure of a command.
pub open spec fn failure_detail(program: Seq<char>, stderr: Seq<char>) -> Seq<char> {
    "Command '"@ + program + "' failed: "@ + stderr
}

/// The detail of a command that ran out of time.
pub open spec fn timeout_detail(program: Seq<char>) -> Seq<char> {
    "Command '"@ + program + "' timed out"@
}

/// The detail of a condition that was not met in time.
pub open spec fn condition_detail() -> Seq<char> {
    "Condition not met within timeout"@
}

/// What a blocking run gives back: the output of a program that ended
/// well, a process failure with what it wrote to its error stream else.
pub fn command_result(program: &str, output: ProcessOutput) -> (result: Result<String, ThError>)
    ensures
        match result {
            Ok(stdout) => output.success && stdout@ == output.stdout@,
            Err(e) => !output.success && e is Process && e->Process_0@ == failure_detail(
                program@,
                output.stderr@,
            ),
        },
{
    if !output.success {
        let mut detail = chars_of("Command '");
        append_str(&mut detail, program);
        append_str(&mut detail, "' failed: ");
        append_str(&mut detail, output.stderr.as_str());
        return Err(ThError::Process(string_of(&detail)));
    }
    Ok(output.stdout)
}

/// What a run with a time limit gives back: what the run came to where it
/// ended in time, a timeout, which is no process failure, where it did
/// not.
pub fn timed_result(program: &str, finished: Option<Result<String, ThError>>) -> (result: Result<
    String,
    ThError,
>)
    ensures
        match finished {
            Some(inner) => result == inner,
            None => result is Err && result->Err_0 is Timeout && result->Err_0->Timeout_0@
                == timeout_detail(program@),
        },
{
    match finished {
        Some(inner) => inner,
        None => {
            let mut detail = chars_of("Command '");
            append_str(&mut detail, program);
            append_str(&mut detail, "' timed out");
            Err(ThError::Timeout(string_of(&detail)))
        },
    }
}

/// What the wait for a condition does next.
#[derive(Debug, Clone, Copy, PartialEq, Eq, Structural)]
pub enum WaitStep {
    /// The condition holds.
    Done,
    /// Sleep for the check interval, then look at the clock again.
    Sleep,
    /// The time is up.
    TimedOut,
}

/// Whether a wait that has lasted `elapsed_nanos` nanoseconds is within
/// its limit of `timeout_secs` seconds.
pub fn within_timeout(elapsed_nanos: u128, timeout_secs: u64) -> (b: bool)
    ensures
        b == (elapsed_nanos < timeout_secs * 1_000_000_000),
{
    let limit: u128 = (timeout_secs as u128) * 1_000_000_000u128;
    elapsed_nanos < limit
}

/// One turn of the wait for a condition: the time is looked at first, and
/// the condition, `met`, counts only while time is left.
pub fn wait_step(elapsed_nanos: u128, timeout_secs: u64, met: bool) -> (step: WaitStep)
    ensures
        step == if elapsed_nanos >= timeout_secs * 1_000_000_000 {
            WaitStep::TimedOut
        } else if met {
            WaitStep::Done
        } else {
            WaitStep::Sleep
        },
{
    if !within_timeout(elapsed_nanos, timeout_secs) {
        WaitStep::TimedOut
    } else if met {
        WaitStep::Done
    } else {
        WaitStep::Sleep
    }
}

/// The error of a wait whose time is up.
pub fn wait_timeout() -> (e: ThError)
    ensures
        e is Timeout,
        e->Timeout_0@ == condition_detail(),
{
    ThError::Timeout(String::from_str("Condition not met within timeout"))
}

/// The predicate that picks the pieces that are not empty.
pub open spec fn picks_filled() -> spec_fn(Seq<char>) -> bool {
    |piece: Seq<char>| piece.len() > 0
}

/// The process ids in the output of a search by pattern: the trimmed
/// output, cut at its line feeds, without the empty pieces.
pub open spec fn found_pids(output: Seq<char>) -> Seq<Seq<char>> {
    split_on(trim(output), '\n').filter(picks_filled())
}

/// The process ids that a search by pattern printed, each to be killed.
pub fn pids_to_kill(output: &str) -> (pids: Vec<String>)
    ensures
        string_views(pids@) == found_pids(output@),
{
    let chars = chars_of(output);
    let body = trimmed(&chars);
    let pieces = split_at_char(&body, '\n');
    let mut pids: Vec<String> = Vec::new();
    let mut i: usize = 0;
    let ghost all = views_of(pieces@);
    proof {
        lemma_filter_start(all, picks_filled());
        assert(string_views(pids@) =~= Seq::<Seq<char>>::empty());
    }
    while i < pieces.len()
        invariant
            i <= pieces.len(),
            all == views_of(pieces@),
            string_views(pids@) == all.take(i as int).filter(picks_filled()),
        decreases pieces.len() - i,
    {
        proof {
            lemma_filter_next(all, i as int, picks_filled());
            assert(all[i as int] == pieces@[i as int]@);
        }
        if pieces[i].len() > 0 {
            let pid = string_of(&pieces[i]);
            proof {
                assert(string_views(pids@.push(pid)) =~= string_views(pids@).push(pid@));
            }
            pids.push(pid);
        }
        i += 1;
    }
    assert(all.take(pieces.len() as int) =~= all);
    pids
}

/// How an exit code is written in a message: `None` for a program that a
/// signal ended, the code in `Some(..)` else.
pub open spec fn exit_code_text(code: Option<i32>) -> Seq<char> {
    match code {
        None => "None"@,
        Some(c) => "Some("@ + signed_digits(c as int) + ")"@,
    }
}

/// The detail of the failure of a command that had the terminal.
pub open spec fn interactive_detail(program: Seq<char>, code: Option<i32>) -> Seq<char> {
    "Interactive command '"@ + program + "' failed with exit code: "@ + exit_code_text(code)
}

/// What a run with the terminal gives back: nothing for a program that
/// ended well, a process failure with its exit code else.
pub fn interactive_result(program: &str, success: bool, code: Option<i32>) -> (result: Result<
    (),
    ThError,
>)
    ensures
        match result {
            Ok(_) => success,
            Err(e) => !success && e is Process && e->Process_0@ == interactive_detail(
                program@,
                code,
            ),
        },
{
    if success {
        return Ok(());
    }
    let mut detail = chars_of("Interactive command '");
    append_str(&mut detail, program);
    append_str(&mut detail, "' failed with exit code: ");
    match code {
        None => {
            append_str(&mut detail, "None");
        },
        Some(c) => {
            append_str(&mut detail, "Some(");
            let digits = signed_decimal_chars(c);
            append_chars(&mut detail, &digits);
            append_str(&mut detail, ")");
        },
    }
    assert(detail@ =~= interactive_detail(program@, code));
    Err(ThError::Process(string_of(&detail)))
}

} // verus!

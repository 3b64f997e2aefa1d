use crate::clock::Timestamp;
use crate::decimal::{decimal, push_decimal, push_signed, signed_decimal};
use crate::llm::LlmError;
use crate::output::{fallback_of, format_fallback_output};
use crate::text::{chars_of, is_space, is_whitespace, push_all, push_str, string_of, trim, trimmed};
use vstd::prelude::*;

verus! {

/// The lines that are kept at each end of an output that is cut down.
pub const FALLBACK_LINES: usize = 20;

/// Whether a word begins at position `i` of `s`.
pub open spec fn starts_word(s: Seq<char>, i: int) -> bool {
    !is_space(s[i]) && (i == 0 || is_space(s[i - 1]))
}

/// The number of words in `s`: runs of characters that are no white space.
pub open spec fn count_words(s: Seq<char>) -> nat
    decreases s.len(),
{
    if s.len() == 0 {
        0
    } else {
        count_words(s.drop_last()) + if starts_word(s, s.len() - 1) {
            1nat
        } else {
            0nat
        }
    }
}

/// The number of words in `text`.
pub(crate) fn word_count(text: &Vec<char>) -> (n: usize)
    ensures
        n == count_words(text@),
{
    let mut n: usize = 0;
    let mut i: usize = 0;
    assert(text@.take(0) =~= Seq::<char>::empty());
    while i < text.len()
        invariant
            i <= text.len(),
            n == count_words(text@.take(i as int)),
            n <= i,
        decreases text.len() - i,
    {
        let ghost next = text@.take(i + 1);
        assert(next.drop_last() == text@.take(i as int));
        assert(next[i as int] == text@[i as int]);
        if i > 0 {
            assert(next[i - 1] == text@[i - 1]);
        }
        if !is_whitespace(text[i]) && (i == 0 || is_whitespace(text[i - 1])) {
            n += 1;
        }
        i += 1;
    }
    assert(text@.take(text.len() as int) == text@);
    n
}

/// The word for how a command ended.
pub open spec fn outcome_word(success: bool) -> Seq<char> {
    if success {
        "succeeded"@
    } else {
        "failed"@
    }
}

/// The summary of a run that wrote nothing.
pub open spec fn empty_summary_of(success: bool, seconds: Seq<char>, exit_code: int) -> Seq<char> {
    if success {
        "Command completed successfully in "@ + seconds + " seconds with no output."@
    } else {
        "Command failed after "@ + seconds + " seconds with exit code "@ + signed_decimal(
            exit_code,
        ) + " and no output."@
    }
}

/// The summary of a run that wrote little: the output itself behind a line
/// that names the command, how it ended, how long it took and the
/// threshold.
pub open spec fn raw_summary_of(
    command: Seq<char>,
    success: bool,
    seconds: Seq<char>,
    threshold: nat,
    text: Seq<char>,
) -> Seq<char> {
    command + seq![' '] + outcome_word(success) + " after "@ + seconds
        + " seconds (output shorter than "@ + decimal(threshold)
        + " words; returning raw output):\n\n"@ + text
}

/// The summary of a run for which the service gave none: the output cut
/// down to its first and last 20 lines, behind a line that names the
/// command, how it ended and how long it took.
pub open spec fn fallback_summary_of(
    command: Seq<char>,
    success: bool,
    seconds: Seq<char>,
    output: Seq<char>,
) -> Seq<char> {
    command + seq![' '] + outcome_word(success) + " after "@ + seconds + " seconds. Output:\n\n"@
        + fallback_of(output, FALLBACK_LINES as nat)
}

/// What is to be done for the summary of one run.
pub enum SummaryStep {
    /// The summary is at hand; the service is not asked.
    Ready(String),
    /// The output is long: the service is to be asked, once.
    AskService,
}

/// What is to be done for the summary of a run of `command` that ended
/// with `exit_code`, wrote `output` and took `seconds` (a number as text).
/// Blank output gives a fixed sentence. Output of no more than `threshold`
/// words is handed on as it is. For anything longer the service is asked.
pub open spec fn step_of(
    command: Seq<char>,
    exit_code: int,
    output: Seq<char>,
    seconds: Seq<char>,
    threshold: nat,
) -> Option<Seq<char>> {
    if trim(output).len() == 0 {
        Some(empty_summary_of(exit_code == 0, seconds, exit_code))
    } else if count_words(trim(output)) <= threshold {
        Some(raw_summary_of(command, exit_code == 0, seconds, threshold, trim(output)))
    } else {
        None
    }
}

fn push_outcome(out: &mut Vec<char>, success: bool)
    ensures
        final(out)@ == old(out)@ + outcome_word(success),
{
    if success {
        push_str(out, "succeeded");
    } else {
        push_str(out, "failed");
    }
}

/// The first step towards the summary of one run.
pub fn plan_summary(
    command: &str,
    exit_code: i32,
    output: &str,
    seconds: &str,
    threshold: u32,
) -> (r: SummaryStep)
    ensures
        match r {
            SummaryStep::Ready(s) => step_of(
                command@,
                exit_code as int,
                output@,
                seconds@,
                threshold as nat,
            ) == Some(s@),
            SummaryStep::AskService => step_of(
                command@,
                exit_code as int,
                output@,
                seconds@,
                threshold as nat,
            ) is None,
        },
{
    let text = trimmed(&chars_of(output));
    let success = exit_code == 0;
    if text.len() == 0 {
        let mut out: Vec<char> = Vec::new();
        if success {
            push_str(&mut out, "Command completed successfully in ");
            push_str(&mut out, seconds);
            push_str(&mut out, " seconds with no output.");
            assert(out@ =~= empty_summary_of(true, seconds@, exit_code as int));
        } else {
            push_str(&mut out, "Command failed after ");
            push_str(&mut out, seconds);
            push_str(&mut out, " seconds with exit code ");
            push_signed(&mut out, exit_code as i64);
            push_str(&mut out, " and no output.");
            assert(out@ =~= empty_summary_of(false, seconds@, exit_code as int));
        }
        return SummaryStep::Ready(string_of(&out));
    }
    let words = word_count(&text);
    if words as u64 <= threshold as u64 {
        let mut out = chars_of(command);
        out.push(' ');
        push_outcome(&mut out, success);
        push_str(&mut out, " after ");
        push_str(&mut out, seconds);
        push_str(&mut out, " seconds (output shorter than ");
        push_decimal(&mut out, threshold as u64);
        push_str(&mut out, " words; returning raw output):\n\n");
        push_all(&mut out, &text);
        assert(out@ =~= raw_summary_of(
            command@,
            success,
            seconds@,
            threshold as nat,
            trim(output@),
        ));
        SummaryStep::Ready(string_of(&out))
    } else {
        SummaryStep::AskService
    }
}

/// The summary once the service has answered: its text, or, where it
/// failed in whatever way, the output cut down.
pub open spec fn final_summary_of(
    answer: Option<Seq<char>>,
    command: Seq<char>,
    exit_code: int,
    output: Seq<char>,
    seconds: Seq<char>,
) -> Seq<char> {
    match answer {
        Some(s) => s,
        None => fallback_summary_of(command, exit_code == 0, seconds, output),
    }
}

/// The summary of a long output, given what the service answered.
pub fn finish_summary(
    answer: Result<String, LlmError>,
    command: &str,
    exit_code: i32,
    output: &str,
    seconds: &str,
) -> (r: String)
    ensures
        r@ == final_summary_of(
            match answer {
                Ok(s) => Some(s@),
                Err(_) => None,
            },
            command@,
            exit_code as int,
            output@,
            seconds@,
        ),
{
    match answer {
        Ok(s) => s,
        Err(_) => {
            let truncated = format_fallback_output(output, FALLBACK_LINES);
            let mut out = chars_of(command);
            out.push(' ');
            push_outcome(&mut out, exit_code == 0);
            push_str(&mut out, " after ");
            push_str(&mut out, seconds);
            push_str(&mut out, " seconds. Output:\n\n");
            push_str(&mut out, truncated.as_str());
            assert(out@ =~= fallback_summary_of(command@, exit_code == 0, seconds@, output@));
            string_of(&out)
        },
    }
}

/// The commands of `recent` with their exit codes, for the prompt; `None`
/// where there are none.
pub fn commands_for_prompt(recent: &Vec<(String, i32, Timestamp)>) -> (r: Option<
    Vec<(String, i32)>,
>)
    ensures
        match r {
            Some(v) => recent@.len() > 0 && v@.len() == recent@.len() && forall|i: int|
                0 <= i < v@.len() ==> (#[trigger] v@[i]).0@ == recent@[i].0@ && v@[i].1
                    == recent@[i].1,
            None => recent@.len() == 0,
        },
{
    if recent.len() == 0 {
        return None;
    }
    let mut v: Vec<(String, i32)> = Vec::new();
    let mut i: usize = 0;
    while i < recent.len()
        invariant
            i <= recent.len(),
            v@.len() == i,
            forall|k: int|
                0 <= k < i ==> (#[trigger] v@[k]).0@ == recent@[k].0@ && v@[k].1 == recent@[k].1,
        decreases recent.len() - i,
    {
        v.push((recent[i].0.clone(), recent[i].1));
        i += 1;
    }
    Some(v)
}

} // verus!

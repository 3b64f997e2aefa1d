use ctx_guard::clock::Timestamp;
use ctx_guard::llm::LlmError;
use ctx_guard::output::format_fallback_output;
use ctx_guard::summary::{commands_for_prompt, finish_summary, plan_summary, SummaryStep};

fn ready(step: SummaryStep) -> String {
    match step {
        SummaryStep::Ready(s) => s,
        SummaryStep::AskService => panic!("the service was to be asked"),
    }
}

#[test]
fn blank_output_of_a_success_gives_the_fixed_sentence() {
    let s = ready(plan_summary("true", 0, "", "1.5", 100));
    assert_eq!(s, "Command completed successfully in 1.5 seconds with no output.");
    let s = ready(plan_summary("true", 0, " \n\t ", "0.0", 100));
    assert_eq!(s, "Command completed successfully in 0.0 seconds with no output.");
}

#[test]
fn blank_output_of_a_failure_names_the_exit_code() {
    let s = ready(plan_summary("false", 2, "\n", "0.3", 100));
    assert_eq!(s, "Command failed after 0.3 seconds with exit code 2 and no output.");
    let s = ready(plan_summary("false", -1, "", "12.0", 100));
    assert_eq!(s, "Command failed after 12.0 seconds with exit code -1 and no output.");
}

#[test]
fn short_output_is_handed_on_as_it_is() {
    let body = "one two three four five six seven eight nine ten eleven twelve thirteen fourteen fifteen";
    let s = ready(plan_summary("echo words", 0, body, "2.0", 100));
    assert_eq!(
        s,
        format!(
            "echo words succeeded after 2.0 seconds (output shorter than 100 words; returning raw output):\n\n{}",
            body
        )
    );
}

#[test]
fn short_output_is_trimmed_and_a_failure_is_said() {
    let s = ready(plan_summary("make", 1, "\n  error: x\n", "0.1", 5));
    assert_eq!(
        s,
        "make failed after 0.1 seconds (output shorter than 5 words; returning raw output):\n\nerror: x"
    );
}

#[test]
fn the_threshold_counts_words() {
    let body = "a  b\tc\nd   e";
    match plan_summary("x", 0, body, "1.0", 5) {
        SummaryStep::Ready(_) => {}
        SummaryStep::AskService => panic!("five words are not more than five"),
    }
    match plan_summary("x", 0, body, "1.0", 4) {
        SummaryStep::AskService => {}
        SummaryStep::Ready(_) => panic!("five words are more than four"),
    }
    match plan_summary("x", 0, "word", "1.0", 0) {
        SummaryStep::AskService => {}
        SummaryStep::Ready(_) => panic!("one word is more than none"),
    }
}

#[test]
fn the_answer_of_the_service_is_the_summary() {
    let s = finish_summary(Ok("All 12 tests passed.".to_string()), "npx jest", 0, "long", "3.0");
    assert_eq!(s, "All 12 tests passed.");
}

#[test]
fn a_failed_service_gives_the_output_cut_down() {
    let lines: Vec<String> = (1..=500).map(|i| format!("line{}", i)).collect();
    let body = lines.join("\n");
    let s = finish_summary(
        Err(LlmError::RequestError("connection refused".to_string())),
        "cargo build",
        101,
        &body,
        "3.2",
    );
    let head = lines[..20].join("\n");
    let tail = lines[480..].join("\n");
    assert_eq!(
        s,
        format!(
            "cargo build failed after 3.2 seconds. Output:\n\n{}\n\n... (460 lines omitted) ...\n\n{}",
            head, tail
        )
    );
    let again = finish_summary(Err(LlmError::NoContent), "cargo build", 0, &body, "3.2");
    assert_eq!(
        again,
        format!("cargo build succeeded after 3.2 seconds. Output:\n\n{}", format_fallback_output(&body, 20))
    );
}

#[test]
fn a_failed_service_on_few_lines_gives_the_output_whole() {
    let s = finish_summary(Err(LlmError::ParseError("eof".to_string())), "ls", 0, " a\nb \n", "0.1");
    assert_eq!(s, "ls succeeded after 0.1 seconds. Output:\n\n a\nb \n");
}

#[test]
fn the_commands_for_the_prompt_drop_the_timestamps() {
    let t = Timestamp::new(2024, 1, 1, 0, 0, 0, 0, 0).unwrap();
    let recent = vec![("ls".to_string(), 0, t), ("make".to_string(), 2, t)];
    assert_eq!(
        commands_for_prompt(&recent),
        Some(vec![("ls".to_string(), 0), ("make".to_string(), 2)])
    );
    let none: Vec<(String, i32, Timestamp)> = Vec::new();
    assert_eq!(commands_for_prompt(&none), None);
}

use ctx_guard::config::{CommandOverride, Config, ProviderConfig};

#[test]
fn test_provider_config_default() {
    let config = ProviderConfig::default();
    assert_eq!(config.provider_type, "lmstudio");
    assert_eq!(config.url, "http://127.0.0.1:1234");
    assert_eq!(config.model, "local-model");
    assert!(config.prompt.contains("${command}"));
    assert!(config.prompt.contains("${exit_code}"));
    assert!(config.prompt.contains("${output}"));
    assert!(config.prompt.contains("${summary_words}"));
    assert_eq!(config.summary_words, 100);
    assert_eq!(config.output_length_threshold, 100);
}

#[test]
fn config_test_config_default() {
    let config = Config::default();
    assert_eq!(config.provider.provider_type, "lmstudio");
    assert_eq!(config.provider.model, "local-model");
    assert_eq!(config.provider.summary_words, 100);
    assert_eq!(config.provider.output_length_threshold, 100);
    assert!(config.commands.is_empty());
    assert_eq!(config.clean_up_days, 5);
}

#[test]
fn test_format_prompt() {
    let config = Config::default();
    let prompt = config.format_prompt("echo hello", 0, "hello", 50, None);

    assert!(prompt.contains("echo hello"));
    assert!(prompt.contains("0"));
    assert!(prompt.contains("hello"));
    assert!(prompt.contains("50"));
    assert!(!prompt.contains("${command}"));
    assert!(!prompt.contains("${exit_code}"));
    assert!(!prompt.contains("${output}"));
    assert!(!prompt.contains("${summary_words}"));
}

#[test]
fn test_format_prompt_with_recent_commands() {
    let config = Config::default();
    let recent = vec![
        ("cd workspace".to_string(), 0),
        ("ls".to_string(), 0),
        ("npx jest".to_string(), 1),
    ];
    let prompt = config.format_prompt("npm run build", 0, "output", 50, Some(&recent));

    assert!(prompt.contains("recently run commands"));
    assert!(prompt.contains("cd workspace"));
    assert!(prompt.contains("succeeded"));
    assert!(prompt.contains("npx jest"));
    assert!(prompt.contains("failed"));
    assert!(prompt.contains("npm run build"));
}

#[test]
fn test_get_summary_words_default() {
    let config = Config::default();
    assert_eq!(config.get_summary_words("some command"), 100);
}

#[test]
fn test_get_summary_words_override() {
    let mut config = Config::default();
    config.commands.insert(
        "npx jest".to_string(),
        CommandOverride::SummaryWords { summary_words: 200 },
    );
    assert_eq!(config.get_summary_words("npx jest"), 200);
    assert_eq!(config.get_summary_words("other command"), 100);
}

#[test]
fn test_get_output_length_threshold_defaults_to_summary_length() {
    let config = Config::default();
    assert_eq!(config.get_output_length_threshold("any command"), 100);
}

#[test]
fn test_get_output_length_threshold_respects_maximum() {
    let mut config = Config::default();
    config.provider.summary_words = 150;
    config.provider.output_length_threshold = 120;
    // Threshold should never go below the summary length
    assert_eq!(config.get_output_length_threshold("any command"), 150);

    // If the configured threshold is higher, we keep it
    config.provider.output_length_threshold = 200;
    assert_eq!(config.get_output_length_threshold("any command"), 200);
}

#[test]
fn test_is_command_disabled() {
    let mut config = Config::default();
    assert!(!config.is_command_disabled("some command"));

    config.commands.insert(
        "curl -v https://example.com".to_string(),
        CommandOverride::Disabled(false),
    );
    assert!(config.is_command_disabled("curl -v https://example.com"));
    assert!(!config.is_command_disabled("other command"));

    config.commands.insert("another command".to_string(), CommandOverride::Disabled(true));
    assert!(!config.is_command_disabled("another command"));
}

#[test]
fn a_disabled_entry_keeps_the_general_summary_length() {
    let mut config = Config::default();
    config.provider.summary_words = 70;
    config.commands.insert("make".to_string(), CommandOverride::Disabled(true));
    assert_eq!(config.get_summary_words("make"), 70);
}

#[test]
fn an_override_raises_the_threshold() {
    let mut config = Config::default();
    config.provider.summary_words = 50;
    config.provider.output_length_threshold = 75;
    config.commands.insert(
        "npx jest".to_string(),
        CommandOverride::SummaryWords { summary_words: 200 },
    );
    assert_eq!(config.get_output_length_threshold("npx jest"), 200);
    assert_eq!(config.get_output_length_threshold("ls"), 75);
}

#[test]
fn format_prompt_fills_each_placeholder_exactly() {
    let mut config = Config::default();
    config.provider.prompt =
        "${recent_commands}run ${command} code ${exit_code} out ${output} max ${summary_words}."
            .to_string();
    let prompt = config.format_prompt("ls -l", -1, "a b", 7, None);
    assert_eq!(prompt, "run ls -l code -1 out a b max 7.");
    let recent = vec![("cd x".to_string(), 0), ("make".to_string(), 2)];
    let prompt = config.format_prompt("ls", 0, "", 100, Some(&recent));
    assert_eq!(
        prompt,
        "recently run commands:\n- cd x, succeeded\n- make, failed\n\nrun ls code 0 out  max 100."
    );
    let none: Vec<(String, i32)> = Vec::new();
    let prompt = config.format_prompt("ls", 0, "o", 1, Some(&none));
    assert_eq!(prompt, "run ls code 0 out o max 1.");
}

#[test]
fn format_prompt_fills_in_order_so_that_an_output_can_bring_a_placeholder() {
    let mut config = Config::default();
    config.provider.prompt = "${command}|${output}|${summary_words}".to_string();
    let prompt = config.format_prompt("${output}", 0, "${summary_words}", 3, None);
    assert_eq!(prompt, "3|3|3");
}

#[test]
fn the_default_prompt_begins_and_ends_as_written() {
    let config = Config::default();
    assert!(config.provider.prompt.starts_with(
        "You are a command output analyzer that provides concise, actionable summaries"
    ));
    assert!(config.provider.prompt.contains("\n\n${recent_commands}\n\nCommand executed: ${command}\nExit code: ${exit_code}\nOutput:\n\n${output}\n\n"));
    assert!(config.provider.prompt.contains("\n   - If the command failed, identify the root cause"));
    assert!(config.provider.prompt.ends_with("or proceed with the next task."));
    assert_eq!(config.command_context_minutes, 0);
}

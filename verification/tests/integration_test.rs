use ctx_guard::config::Config;
use ctx_guard::output::output_file_content;
use std::path::PathBuf;

fn get_binary_path() -> PathBuf {
    PathBuf::from(".").join("target").join("debug").join("cg")
}

#[test]
fn test_binary_exists() {
    let binary = get_binary_path();
    if !binary.exists() {
        let release_binary = binary.parent().unwrap().parent().unwrap().join("release").join("cg");
        if !release_binary.exists() {
            println!("Binary not found, skipping integration test");
            return;
        }
    }
}

#[test]
fn integration_test_test_config_default() {
    let config = Config::default();
    assert_eq!(config.provider.summary_words, 100);
    assert!(!config.is_command_disabled("some command"));
}

#[test]
fn test_output_file_creation() {
    let content = "integration test content";
    let read_content = output_file_content(content, None);
    assert_eq!(read_content, content);
}

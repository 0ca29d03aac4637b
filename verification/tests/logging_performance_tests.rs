use mullande::clock::Timestamp;
use mullande::logging::{append_daily, format_interaction, Logger};
use mullande::memory::{Memory, WorkspaceManager};
use mullande::performance::{parse_ollama_version, sanitize_model_name, split_words, InputLength, OutputLength, PerformanceCollector};

const RULE: &str = "================================================================================\n";

fn logger() -> Logger {
    Logger::new(WorkspaceManager::new("/w"))
}

#[test]
fn log_directories_sit_in_workspace() {
    let l = logger();
    assert_eq!(l.logs_dir, "/w/.mullande/.logs");
    assert_eq!(l.interactions_dir, "/w/.mullande/.logs/interactions");
    assert_eq!(l.gitignore_path(), "/w/.mullande/.gitignore");
    assert_eq!(l.general_log_path(), "/w/.mullande/.logs/mullande.log");
}

#[test]
fn gitignore_gains_log_rules_once() {
    let l = logger();
    assert_eq!(l.gitignore_text(None).as_deref(), Some("# Logs\n.logs/\n*.log\n"));
    assert_eq!(l.gitignore_text(Some("target/\n")).as_deref(), Some("target/\n\n# Logs\n.logs/\n*.log\n"));
    assert_eq!(l.gitignore_text(Some("x\n.logs/\n")), None);
}

#[test]
fn entry_shows_input_once_when_it_is_the_prompt() {
    let e = format_interaction("T", "m", " hi \n", " hi \n", None, Some(""), "  ok  ");
    let expected = format!(
        "{r}Timestamp: T\nModel: m\n{r}USER INPUT / FULL PROMPT:\nhi\n{r}AGENT RESPONSE:\nok\n{r}",
        r = RULE
    );
    assert_eq!(e, expected);
}

#[test]
fn entry_with_prompt_and_tool_sections() {
    let e = format_interaction("T", "m", "q", "### User:\nq", Some("[1] bash({})"), Some("--- Round 1 ---"), "a");
    let expected = format!(
        "{r}Timestamp: T\nModel: m\n{r}USER INPUT:\nq\n{r}FULL PROMPT (sent to model):\n### User:\nq\n{r}TOOL CALLS:\n[1] bash({{}})\n{r}OLLAMA API EXCHANGE (full message rounds):\n--- Round 1 ---\n{r}AGENT RESPONSE:\na\n{r}",
        r = RULE
    );
    assert_eq!(e, expected);
}

#[test]
fn daily_log_gets_heading_when_new() {
    assert_eq!(append_daily(None, "2024-01-02", "E"), "# Mullande Interaction Logs - 2024-01-02\n\nE\n");
    assert_eq!(append_daily(Some("old\n"), "2024-01-02", "E"), "old\nE\n");
}

#[test]
fn interaction_files_are_named_by_instant() {
    let l = logger();
    let at = Timestamp { secs: 86_400 + 3_661, nanos: 5 };
    let p = l.plan_interaction(at, "m", "q", "q", None, None, "a").unwrap();
    assert_eq!(p.daily_log_path, "/w/.mullande/.logs/1970-01-02.log");
    assert_eq!(p.daily_header, "# Mullande Interaction Logs - 1970-01-02\n\n");
    assert_eq!(p.entry_path, "/w/.mullande/.logs/interactions/interaction_19700102_010101_000000005.log");
    assert_eq!(p.records_path, "/w/.mullande/.logs/interactions/interaction_19700102_010101_000000005.jsonl");
    assert!(p.entry.contains("Timestamp: 1970-01-02T01:01:01.000000005+00:00\n"));
    let c = l.log_ollama_call(at, "m", "prompt", "answer").unwrap();
    assert!(c.entry.contains("USER INPUT / FULL PROMPT:\nprompt\n"));
    assert_eq!(c.daily_log_path, p.daily_log_path);
    assert_eq!(c.daily_header, p.daily_header);
    assert_eq!(c.entry_path, p.entry_path);
    assert_eq!(c.records_path, p.records_path);
    assert!(l.plan_interaction(Timestamp { secs: i64::MIN, nanos: 0 }, "m", "q", "q", None, None, "a").is_none());
}

#[test]
fn raw_log_line_has_upper_case_level() {
    let l = logger();
    assert_eq!(l.log_raw("T", "warn", "disk low", None), "[T] WARN: disk low\n");
    assert_eq!(l.log_raw("T", "info", "x", Some("[S] INFO: y\n")), "[S] INFO: y\n[T] INFO: x\n");
}

#[test]
fn lengths_count_bytes_and_estimate_tokens() {
    let i = InputLength::of("hello world!");
    assert_eq!(i.chars, 12);
    assert_eq!(i.tokens_estimated, 3);
    let o = OutputLength::of("é");
    assert_eq!(o.chars, 2);
    assert_eq!(o.tokens_estimated, 0);
}

#[test]
fn model_names_become_file_names() {
    assert_eq!(sanitize_model_name("lib/qwen3:8b\\x"), "lib_qwen3_8b_x");
    let c = PerformanceCollector::new(Memory::new(WorkspaceManager::new("/w")));
    assert_eq!(c.perf_dir, "/w/.mullande/performance");
    assert_eq!(c.records_path("qwen3:8b"), "/w/.mullande/performance/qwen3_8b.jsonl");
    assert_eq!(c.system_info_path(), "/w/.mullande/performance/system_info.json");
}

#[test]
fn models_with_records_are_read_from_file_names() {
    let c = PerformanceCollector::new(Memory::new(WorkspaceManager::new("/w")));
    let files: Vec<String> = ["qwen3_8b.jsonl", "system_info.json", "llama3.jsonl", "notes.md"]
        .iter()
        .map(|s| s.to_string())
        .collect();
    assert_eq!(c.list_models_with_data(&files), vec!["qwen3:8b", "llama3"]);
}

#[test]
fn ollama_version_is_fourth_word_or_last() {
    assert_eq!(parse_ollama_version("ollama version is 0.5.7\n").as_deref(), Some("0.5.7"));
    assert_eq!(parse_ollama_version("0.6.0").as_deref(), Some("0.6.0"));
    assert_eq!(parse_ollama_version("   \n"), None);
    assert_eq!(split_words("  a  b\tc\n").len(), 3);
}

#[test]
fn second_log_setup_leaves_gitignore_alone() {
    let l = logger();
    let first = l.gitignore_text(Some("target/\n")).unwrap();
    assert_eq!(l.gitignore_text(Some(&first)), None);
    let fresh = l.gitignore_text(None).unwrap();
    assert_eq!(l.gitignore_text(Some(&fresh)), None);
}

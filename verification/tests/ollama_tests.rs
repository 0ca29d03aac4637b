use mullande::config::ModelParams;
use mullande::ollama::{
    build_options, strip_latest, ChatMessage, ChatResponse, ListModelsResponse, ModelInfo, OllamaCallMetrics,
    OllamaClient, StreamState,
};

fn msg(content: &str, thinking: Option<&str>) -> ChatMessage {
    ChatMessage { role: "assistant".to_string(), content: content.to_string(), thinking: thinking.map(|s| s.to_string()), tool_calls: None }
}

fn delta(content: &str, thinking: Option<&str>, done: bool) -> ChatResponse {
    ChatResponse { message: None, delta: Some(msg(content, thinking)), done }
}

#[test]
fn client_adds_trailing_slash_and_builds_urls() {
    let c = OllamaClient::new("http://localhost:11434", None);
    assert_eq!(c.base_url, "http://localhost:11434/");
    assert_eq!(c.chat_url(), "http://localhost:11434/api/chat");
    assert_eq!(c.tags_url(), "http://localhost:11434/api/tags");
    assert_eq!(c.authorization_header(), None);
    let d = OllamaClient::new("https://ollama.com/", Some("k".to_string()));
    assert_eq!(d.base_url, "https://ollama.com/");
    assert_eq!(d.authorization_header().as_deref(), Some("Bearer k"));
}

#[test]
fn timeout_defaults_to_ten_minutes() {
    let mut c = OllamaClient::new("http://h", None);
    assert_eq!(c.request_timeout_secs(), 600);
    c.set_timeout(5);
    c.set_verbose(true);
    assert_eq!(c.request_timeout_secs(), 5);
    assert!(c.verbose);
    assert_eq!(c.base_url, "http://h/");
}

#[test]
fn listed_models_lose_latest_tag() {
    let c = OllamaClient::new("http://h", None);
    let listing = ListModelsResponse {
        models: vec![
            ModelInfo { name: "llama3:latest".to_string() },
            ModelInfo { name: "qwen3:8b".to_string() },
            ModelInfo { name: "latest".to_string() },
        ],
    };
    assert_eq!(c.list_models(&listing), vec!["llama3", "qwen3:8b", "latest"]);
    assert_eq!(strip_latest(":latest"), "");
}

#[test]
fn options_only_when_something_to_send() {
    assert!(build_options(0, &ModelParams::none()).is_none());
    let o = build_options(4096, &ModelParams::none()).unwrap();
    assert_eq!(o.num_ctx, 4096);
    assert_eq!(o.temperature, None);
    let p = ModelParams { temperature: Some(0.7f32.to_bits()), top_k: Some(40), top_p: None, presence_penalty: None, thinking: Some(true) };
    let q = build_options(0, &p).unwrap();
    assert_eq!(q.num_ctx, 0);
    assert_eq!(q.temperature, Some(0.7f32.to_bits()));
    assert_eq!(q.top_k, Some(40));
    let t = ModelParams { thinking: Some(true), ..ModelParams::none() };
    assert!(build_options(0, &t).is_none());
}

#[test]
fn metrics_default_missing_counts_to_zero() {
    let m = OllamaCallMetrics::from_reply(Some(12), None, Some(3_000), None);
    assert_eq!(m.eval_count, 12);
    assert_eq!(m.prompt_eval_count, 0);
    assert_eq!(m.eval_duration_ns, 3_000);
    assert_eq!(m.total_duration_ns, 0);
}

#[test]
fn stream_collects_content_and_prints_nothing_for_plain_text() {
    let mut s = StreamState::new();
    let r = s.on_chunk(&delta("Hel", None, false));
    assert!(r.first_chunk);
    assert_eq!(r.print, "");
    let r2 = s.on_chunk(&delta("lo", None, true));
    assert!(!r2.first_chunk);
    assert!(r2.done);
    assert_eq!(s.content, "Hello");
    assert_eq!(s.closing_text(), "");
    assert_eq!(s.token_estimates(), (0, 1));
}

#[test]
fn stream_shows_thinking_banner_once() {
    let mut s = StreamState::new();
    let r = s.on_chunk(&delta("", Some("let me"), false));
    assert_eq!(r.print, "\x1b[90m[thinking] let me");
    assert!(r.thinking_began);
    let r2 = s.on_chunk(&delta("", Some(" think"), false));
    assert_eq!(r2.print, " think");
    assert!(!r2.thinking_began);
    let r3 = s.on_chunk(&delta("Answer", None, false));
    assert_eq!(r3.print, "Answer");
    assert_eq!(s.thinking, "let me thinkAnswer");
    assert_eq!(s.content, "Answer");
    assert_eq!(s.closing_text(), "\x1b[0m\n");
}

#[test]
fn stream_reads_message_field() {
    let mut s = StreamState::new();
    let chunk = ChatResponse { message: Some(msg("final", Some("why"))), delta: None, done: true };
    let r = s.on_chunk(&chunk);
    assert_eq!(r.print, "\x1b[90m[thinking] why");
    assert!(r.thinking_began);
    assert!(r.thinking_ended);
    assert_eq!(s.content, "final");
    assert_eq!(s.thinking, "why");
}

#[test]
fn think_tag_in_content_counts_as_reasoning() {
    let mut s = StreamState::new();
    let r = s.on_chunk(&delta("<think>hmm", None, false));
    assert_eq!(r.print, "\x1b[90m[thinking] <think>hmm");
    assert_eq!(s.content, "<think>hmm");
    assert_eq!(s.thinking, "<think>hmm");
}

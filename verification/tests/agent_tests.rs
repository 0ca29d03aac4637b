use mullande::agent::{estimate_tokens, AgentSystem, Route};
use mullande::agent_loop::{
    format_tool_log, interaction_records, plain_message, tools_were_run, AgenticLoop, LoopAction, LoopPhase, RecordEntry,
    ToolCallRecord,
};
use mullande::config::{Config, ConfigSchema, ModelConfig, ModelParams, NamedModel};
use mullande::ollama::{ArgField, ArgValue, ChatMessage, ToolArguments, ToolCall, ToolCallFunction};

fn config_with(models: Vec<NamedModel>, provider: &str) -> Config {
    let mut c = Config::fresh("/w/.mullande");
    c.data.model.provider = provider.to_string();
    c.data.models = Some(models);
    c
}

fn model(provider: &str, id: Option<&str>) -> ModelConfig {
    let mut m = ModelConfig::default_model();
    m.provider = provider.to_string();
    m.model_id = id.map(|s| s.to_string());
    m
}

fn call(name: &str, json: &str) -> ToolCall {
    ToolCall {
        function: ToolCallFunction {
            name: name.to_string(),
            arguments: ToolArguments {
                json: json.to_string(),
                fields: vec![ArgField { key: "path".to_string(), value: ArgValue::Text("a.txt".to_string()) }],
            },
        },
    }
}

fn assistant_calling(calls: Vec<ToolCall>) -> ChatMessage {
    ChatMessage { role: "assistant".to_string(), content: String::new(), thinking: None, tool_calls: Some(calls) }
}

#[test]
fn effective_model_resolves_named_model_id() {
    let cfg = config_with(vec![NamedModel { name: "fast".to_string(), config: model("ollama", Some("qwen3:4b")) }], "ollama");
    let a = AgentSystem::new(cfg, Some("fast".to_string()), vec![]);
    assert_eq!(a.effective_model_id(), "qwen3:4b");
    let b = AgentSystem::new(a.config, Some("other".to_string()), vec![]);
    assert_eq!(b.effective_model_id(), "other");
    let c = AgentSystem::new(b.config, None, vec![]);
    assert_eq!(c.effective_model_id(), "llama3");
}

#[test]
fn missing_default_model_id_is_unknown() {
    let mut cfg = Config::fresh("/w");
    cfg.data.model.model_id = None;
    let a = AgentSystem::new(cfg, None, vec![]);
    assert_eq!(a.effective_model_id(), "unknown");
}

#[test]
fn full_prompt_carries_the_transcript() {
    let a = AgentSystem::new(Config::fresh("/w"), None, vec!["hi".to_string(), "hello!".to_string()]);
    assert_eq!(a.build_full_prompt("how are you?  "), "### User:\nhi\n\n### Assistant:\nhello!\n\n### User:\nhow are you?");
    let b = AgentSystem::new(Config::fresh("/w"), None, vec![]);
    assert_eq!(b.build_full_prompt("only"), "### User:\nonly");
}

#[test]
fn routes_by_provider() {
    let mut a = AgentSystem::new(Config::fresh("/w"), None, vec![]);
    a.set_tools_enabled(true);
    assert!(matches!(a.route(), Route::Ollama { tools: true }));
    let v = AgentSystem::new(config_with(vec![], "volcengine"), None, vec![]);
    match v.route() {
        Route::Reply(t) => assert_eq!(
            t,
            "Provider volcengine not implemented yet.\nConfiguration:\n- Provider: volcengine\n- Model: llama3\n- Context window: 4096"
        ),
        Route::Ollama { .. } => panic!("volcengine is not served by Ollama"),
    }
    let u = AgentSystem::new(config_with(vec![], "mystery"), None, vec![]);
    assert!(matches!(u.route(), Route::Reply(t) if t == "Unknown provider: mystery"));
}

#[test]
fn setters_change_only_their_field() {
    let mut a = AgentSystem::new(Config::fresh("/w"), Some("m".to_string()), vec![]);
    a.set_timeout(30);
    a.set_verbose(true);
    let p = ModelParams { temperature: Some(1), top_k: None, top_p: None, presence_penalty: None, thinking: Some(true) };
    a.set_model_params(p);
    assert_eq!(a.timeout_secs, Some(30));
    assert!(a.verbose);
    assert!(a.params_override == p);
    assert!(!a.tools_enabled);
    assert_eq!(a.requested_model.as_deref(), Some("m"));
    let eff = a.effective_params();
    assert_eq!(eff.temperature, Some(1));
    assert_eq!(eff.thinking, Some(true));
    assert_eq!(a.get_context_window(), 4096);
    assert_eq!(a.model_config().provider, "ollama");
    assert_eq!(a.api_key_env_name(), None);
}

#[test]
fn recorded_turn_extends_history() {
    let mut a = AgentSystem::new(Config::fresh("/w"), None, vec!["q0".to_string(), "a0".to_string()]);
    a.record_turn("q1", Some("a1"));
    assert_eq!(a.conversation_history, vec!["q0", "a0", "q1", "a1"]);
    a.record_turn("q2", None);
    assert_eq!(a.conversation_history.len(), 4);
}

#[test]
fn token_estimate_is_a_quarter_of_bytes() {
    assert_eq!(estimate_tokens(""), 0);
    assert_eq!(estimate_tokens("abcdefgh"), 2);
    assert_eq!(estimate_tokens("abcdefg"), 1);
    assert_eq!(estimate_tokens("ééé"), 1);
}

#[test]
fn loop_runs_tools_then_answers() {
    let mut l = AgenticLoop::start("list files");
    assert!(matches!(l.phase, LoopPhase::AwaitingReply));
    assert_eq!(l.messages.len(), 1);
    let reply = assistant_calling(vec![call("read_file", "{\"path\":\"a.txt\"}"), call("glob", "{\"pattern\":\"*\"}")]);
    assert!(matches!(l.on_reply(reply, Some("[calls]".to_string())), LoopAction::RunTool));
    assert_eq!(l.current_call().function.name, "read_file");
    assert!(matches!(l.on_tool_result("content".to_string()), LoopAction::RunTool));
    assert_eq!(l.current_call().function.name, "glob");
    assert!(matches!(l.on_tool_result("a.txt".to_string()), LoopAction::Send));
    assert_eq!(l.iteration, 1);
    assert_eq!(l.messages.len(), 4);
    assert_eq!(l.messages[3].role, "tool");
    let answer = plain_message("assistant", "done".to_string());
    assert!(matches!(l.on_reply(answer, None), LoopAction::Finish));
    assert_eq!(l.answer, "done");
    assert_eq!(l.answer_tokens(), 1);
    assert_eq!(l.records.len(), 2);
    assert_eq!(l.records[0].iteration, 1);
    assert_eq!(l.records[0].name, "read_file");
    assert_eq!(l.records[0].args, "{\"path\":\"a.txt\"}");
    assert_eq!(l.rounds.len(), 2);
    let (tools, exchange) = l.readable_logs();
    assert_eq!(
        tools,
        "[1] read_file({\"path\":\"a.txt\"})\n    Result:\n    content\n[1] glob({\"pattern\":\"*\"})\n    Result:\n    a.txt\n"
    );
    assert!(exchange.starts_with("--- Round 1 ---\n\u{2192} Request messages sent to Ollama:\n  [user] list files\n\u{2190} Ollama response:\n  role: assistant\n  tool_calls:\n    [calls]\n\n--- Round 2 ---\n"));
    assert!(exchange.ends_with("  [tool] a.txt\n\u{2190} Ollama response:\n  role: assistant\n  content: done\n\n"));
}

#[test]
fn loop_stops_after_fifteen_rounds() {
    let mut l = AgenticLoop::start("go");
    let mut sends = 0;
    loop {
        let a = l.on_reply(assistant_calling(vec![call("bash", "{}")]), Some("c".to_string()));
        assert!(matches!(a, LoopAction::RunTool));
        match l.on_tool_result("ok".to_string()) {
            LoopAction::Send => sends += 1,
            LoopAction::Finish => break,
            LoopAction::RunTool => panic!("one call per reply"),
        }
    }
    assert_eq!(sends, 14);
    assert_eq!(l.iteration, 15);
    assert_eq!(l.rounds.len(), 15);
    assert!(matches!(l.phase, LoopPhase::Done));
    assert_eq!(l.answer, "");
    let numbers: Vec<usize> = l.rounds.iter().map(|r| r.round).collect();
    assert_eq!(numbers, (1..=15).collect::<Vec<usize>>());
    let requests: Vec<usize> = l.rounds.iter().map(|r| r.request_len).collect();
    assert_eq!(requests, (0..15).map(|k| 1 + 2 * k).collect::<Vec<usize>>());
    assert_eq!(l.messages.len(), 31);
    assert!(l.messages.iter().skip(2).step_by(2).all(|m| m.role == "tool" && m.content == "ok" && m.tool_calls.is_none()));
    assert_eq!(l.records.len(), 15);
    assert!(l.records.iter().enumerate().all(|(k, r)| r.iteration == k + 1 && r.name == "bash" && r.result == "ok"));
}

#[test]
fn tool_log_indents_result_lines() {
    let r = ToolCallRecord { iteration: 3, name: "bash".to_string(), args: "{}".to_string(), result: "a\nb".to_string() };
    assert_eq!(format_tool_log(&vec![r]), "[3] bash({})\n    Result:\n    a\n    b\n");
}

#[test]
fn rounds_must_point_at_existing_messages() {
    let mut l = AgenticLoop::start("x");
    l.on_reply(assistant_calling(vec![call("bash", "{}")]), Some("c".to_string()));
    assert!(mullande::agent_loop::rounds_fit_messages(&l.rounds, &l.messages));
    assert!(!mullande::agent_loop::rounds_fit_messages(&l.rounds, &vec![]));
}

#[test]
fn interaction_records_follow_the_rounds_then_the_tool_calls() {
    assert_eq!(interaction_records(None), vec![RecordEntry::PromptRequest, RecordEntry::AnswerContent]);
    let mut l = AgenticLoop::start("list files");
    l.on_reply(assistant_calling(vec![call("read_file", "{\"path\":\"a.txt\"}"), call("glob", "{}")]), Some("c".to_string()));
    l.on_tool_result("content".to_string());
    l.on_tool_result("a.txt".to_string());
    l.on_reply(plain_message("assistant", "done".to_string()), None);
    assert!(tools_were_run(Some(&l)));
    assert_eq!(
        interaction_records(Some(&l)),
        vec![
            RecordEntry::Request { round: 1, sent: 1 },
            RecordEntry::CallsReply { round: 1, at: 1 },
            RecordEntry::Request { round: 2, sent: 4 },
            RecordEntry::FinalContent { round: 2, index: 1 },
            RecordEntry::ToolExecution { record: 0 },
            RecordEntry::ToolExecution { record: 1 },
        ]
    );
    let mut direct = AgenticLoop::start("hi");
    direct.on_reply(plain_message("assistant", "hello".to_string()), None);
    assert!(!tools_were_run(Some(&direct)));
    assert_eq!(interaction_records(Some(&direct)), vec![RecordEntry::PromptRequest, RecordEntry::AnswerContent]);
}

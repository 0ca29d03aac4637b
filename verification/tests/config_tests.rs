use mullande::config::{
    find_model, provider_key_env, remove_model, upsert_model, Config, ConfigSchema, ModelConfig,
    ModelParams, NamedModel,
};

fn named(name: &str, config: ModelConfig) -> NamedModel {
    NamedModel { name: name.to_string(), config }
}

fn bare(provider: &str) -> ModelConfig {
    ModelConfig {
        provider: provider.to_string(),
        model_id: None,
        base_url: None,
        context_window: None,
        api_key_env: None,
        temperature: None,
        top_k: None,
        top_p: None,
        presence_penalty: None,
        thinking: None,
        tools_enabled: None,
    }
}

fn schema_with(models: Vec<NamedModel>, global: Option<u32>) -> ConfigSchema {
    ConfigSchema { model: ModelConfig::default_model(), models: Some(models), global_context_window: global }
}

#[test]
fn default_schema_uses_llama3_on_local_ollama() {
    let d = ConfigSchema::default_schema();
    assert_eq!(d.model.provider, "ollama");
    assert_eq!(d.model.model_id.as_deref(), Some("llama3"));
    assert_eq!(d.model.base_url.as_deref(), Some("http://localhost:11434"));
    assert!(d.models.is_none());
    assert_eq!(d.global_context_window, Some(4096));
}

#[test]
fn unknown_model_falls_back_to_default_model() {
    let d = ConfigSchema::default_schema();
    let c = d.get_model_config(Some("nothing-here"));
    assert_eq!(c.model_id.as_deref(), Some("llama3"));
    assert_eq!(c.provider, "ollama");
}

#[test]
fn named_model_overrides_default_field_by_field() {
    let mut over = bare("ollama");
    over.model_id = Some("qwen3:8b".to_string());
    over.context_window = Some(32768);
    over.temperature = Some(0.5f32.to_bits());
    let mut base = ModelConfig::default_model();
    base.top_k = Some(40);
    base.tools_enabled = Some(true);
    let d = ConfigSchema { model: base, models: Some(vec![named("qwen", over)]), global_context_window: Some(8192) };
    let c = d.get_model_config(Some("qwen"));
    assert_eq!(c.model_id.as_deref(), Some("qwen3:8b"));
    assert_eq!(c.base_url.as_deref(), Some("http://localhost:11434"));
    assert_eq!(c.context_window, Some(32768));
    assert_eq!(c.top_k, Some(40));
    assert_eq!(c.temperature, Some(0.5f32.to_bits()));
    assert_eq!(c.tools_enabled, Some(true));
    assert_eq!(d.get_context_window(Some("qwen")), 32768);
}

#[test]
fn context_window_prefers_model_then_global_then_4096() {
    let d = schema_with(vec![named("a", bare("ollama"))], Some(8192));
    assert_eq!(d.get_context_window(Some("a")), 8192);
    assert_eq!(d.get_context_window(None), 8192);
    let e = schema_with(vec![], None);
    assert_eq!(e.get_context_window(None), 4096);
}

#[test]
fn model_params_come_from_resolved_config() {
    let mut over = bare("ollama");
    over.top_p = Some(0.9f32.to_bits());
    over.thinking = Some(false);
    let d = schema_with(vec![named("m", over)], None);
    let p = d.get_model_params(Some("m"));
    assert_eq!(p.top_p, Some(0.9f32.to_bits()));
    assert_eq!(p.thinking, Some(false));
    assert_eq!(p.temperature, None);
    let q = d.get_model_params(None);
    assert!(!q.has_any());
}

#[test]
fn api_key_variable_by_provider_or_setting() {
    assert_eq!(provider_key_env("volcengine").as_deref(), Some("VOLCENGINE_API_KEY"));
    assert_eq!(provider_key_env("copilot").as_deref(), Some("GITHUB_TOKEN"));
    assert_eq!(provider_key_env("ollama"), None);
    let mut own = bare("volcengine");
    own.api_key_env = Some("MY_KEY".to_string());
    let d = schema_with(vec![named("v", bare("volcengine")), named("w", own)], None);
    assert_eq!(d.api_key_env_name(Some("v")).as_deref(), Some("VOLCENGINE_API_KEY"));
    assert_eq!(d.api_key_env_name(Some("w")).as_deref(), Some("MY_KEY"));
    assert_eq!(d.api_key_env_name(None), None);
}

#[test]
fn overridden_params_take_cli_values_first() {
    let configured = ModelParams { temperature: Some(1), top_k: Some(20), top_p: None, presence_penalty: Some(3), thinking: Some(true) };
    let cli = ModelParams { temperature: Some(7), top_k: None, top_p: Some(9), presence_penalty: None, thinking: Some(false) };
    let p = configured.overridden_by(&cli);
    assert_eq!(p.temperature, Some(7));
    assert_eq!(p.top_k, Some(20));
    assert_eq!(p.top_p, Some(9));
    assert_eq!(p.presence_penalty, Some(3));
    assert_eq!(p.thinking, Some(false));
    assert!(ModelParams::none().overridden_by(&ModelParams::none()) == ModelParams::none());
}

#[test]
fn upsert_then_find_gives_back_the_model() {
    let mut t = vec![named("a", bare("ollama"))];
    let mut c = bare("copilot");
    c.model_id = Some("gpt".to_string());
    upsert_model(&mut t, "b", c);
    assert_eq!(t.len(), 2);
    let i = find_model(&t, "b").unwrap();
    assert_eq!(t[i].config.provider, "copilot");
    upsert_model(&mut t, "a", bare("volcengine"));
    assert_eq!(t.len(), 2);
    let j = find_model(&t, "a").unwrap();
    assert_eq!(t[j].config.provider, "volcengine");
    remove_model(&mut t, "a");
    assert!(find_model(&t, "a").is_none());
    assert!(find_model(&t, "b").is_some());
}

#[test]
fn sync_adds_new_keeps_known_and_prunes_stale() {
    let mut known = bare("ollama");
    known.context_window = Some(2048);
    let mut d = schema_with(
        vec![named("llama3", known), named("gone", bare("ollama")), named("big:cloud", bare("ollama"))],
        None,
    );
    let fetched = vec!["llama3".to_string(), "qwen3".to_string()];
    let r = d.sync_ollama_models(&fetched, "http://localhost:11434");
    assert_eq!(r.added, 1);
    assert_eq!(r.skipped, 1);
    assert_eq!(r.deleted, vec!["gone".to_string()]);
    let t = d.models.as_ref().unwrap();
    assert_eq!(t.len(), 3);
    let q = &t[find_model(t, "qwen3").unwrap()].config;
    assert_eq!(q.model_id.as_deref(), Some("qwen3"));
    assert_eq!(q.base_url.as_deref(), Some("http://localhost:11434"));
    assert_eq!(t[find_model(t, "llama3").unwrap()].config.context_window, Some(2048));
    assert!(find_model(t, "big:cloud").is_some());
    assert!(find_model(t, "gone").is_none());
}

#[test]
fn sync_of_nothing_new_on_empty_config_leaves_no_table() {
    let mut d = ConfigSchema::default_schema();
    let r = d.sync_ollama_models(&vec![], "http://x");
    assert_eq!(r.added, 0);
    assert!(d.models.is_none());
}

#[test]
fn cloud_candidates_are_the_unconfigured_names() {
    let d = schema_with(vec![named("a:cloud", bare("ollama"))], None);
    let fetched = vec!["a:cloud".to_string(), "b:cloud".to_string(), "c:cloud".to_string()];
    assert_eq!(d.new_cloud_models(&fetched), vec!["b:cloud".to_string(), "c:cloud".to_string()]);
}

#[test]
fn add_selected_models_adds_the_chosen_ones() {
    let mut d = ConfigSchema::default_schema();
    let candidates = vec!["x:cloud".to_string(), "y:cloud".to_string(), "z:cloud".to_string()];
    let n = d.add_selected_models(&candidates, &vec![2, 0], "https://ollama.com");
    assert_eq!(n, 2);
    let t = d.models.as_ref().unwrap();
    assert_eq!(t.len(), 2);
    assert!(find_model(t, "y:cloud").is_none());
    let z = &t[find_model(t, "z:cloud").unwrap()].config;
    assert_eq!(z.base_url.as_deref(), Some("https://ollama.com"));
    assert_eq!(d.model_count(), 2);
}

#[test]
fn config_file_sits_in_the_workspace_directory() {
    assert_eq!(Config::path_in("/p/.mullande"), "/p/.mullande/config.json");
    let c = Config::fresh("/p/.mullande");
    assert_eq!(c.config_path, "/p/.mullande/config.json");
    assert_eq!(c.data.global_context_window, Some(4096));
}

#[test]
fn named_model_decides_tools_where_it_sets_them() {
    let mut off = bare("ollama");
    off.tools_enabled = Some(false);
    let mut base = ModelConfig::default_model();
    base.tools_enabled = Some(true);
    let d = ConfigSchema { model: base, models: Some(vec![named("quiet", off), named("plain", bare("ollama"))]), global_context_window: None };
    assert_eq!(d.get_model_config(Some("quiet")).tools_enabled, Some(false));
    assert_eq!(d.get_model_config(Some("plain")).tools_enabled, Some(true));
    assert_eq!(d.get_model_config(None).tools_enabled, Some(true));
}

#[test]
fn duplicate_names_make_a_table_ill_formed() {
    let ok = schema_with(vec![named("a", bare("ollama")), named("b", bare("ollama"))], None);
    assert!(ok.is_wf());
    let twice = schema_with(vec![named("a", bare("ollama")), named("b", bare("ollama")), named("a", bare("copilot"))], None);
    assert!(!twice.is_wf());
    assert!(ConfigSchema::default_schema().is_wf());
    assert!(mullande::config::names_distinct(&vec![]));
}

#[test]
fn config_answers_for_its_models() {
    let mut c = Config::fresh("/w");
    let mut v = bare("volcengine");
    v.context_window = Some(1024);
    v.top_k = Some(5);
    c.data.models = Some(vec![named("v", v)]);
    assert_eq!(c.get_model_config(Some("v")).provider, "volcengine");
    assert_eq!(c.get_context_window(Some("v")), 1024);
    assert_eq!(c.get_model_params(Some("v")).top_k, Some(5));
    assert_eq!(c.api_key_env_name(Some("v")).as_deref(), Some("VOLCENGINE_API_KEY"));
    assert_eq!(c.get_context_window(None), 4096);
}

#[test]
fn importing_the_same_list_twice_changes_nothing() {
    let mut d = schema_with(vec![named("old", bare("ollama")), named("x:cloud", bare("ollama"))], None);
    let fetched = vec!["a".to_string(), "b".to_string()];
    d.sync_ollama_models(&fetched, "http://h");
    let before: Vec<String> = d.models.as_ref().unwrap().iter().map(|m| m.name.clone()).collect();
    let r = d.sync_ollama_models(&fetched, "http://h");
    assert_eq!(r.added, 0);
    assert_eq!(r.skipped, 2);
    assert!(r.deleted.is_empty());
    let after: Vec<String> = d.models.as_ref().unwrap().iter().map(|m| m.name.clone()).collect();
    let mut b = before.clone();
    b.sort();
    let mut a = after.clone();
    a.sort();
    assert_eq!(a, b);
    assert_eq!(a, vec!["a".to_string(), "b".to_string(), "x:cloud".to_string()]);
}

#[test]
fn dialog_answers_make_model_settings() {
    let o = mullande::config::dialog_model("ollama", "llama3", "http://h:1", "IGNORED", Some(8192));
    assert_eq!(o.provider, "ollama");
    assert_eq!(o.model_id.as_deref(), Some("llama3"));
    assert_eq!(o.base_url.as_deref(), Some("http://h:1"));
    assert_eq!(o.api_key_env, None);
    assert_eq!(o.context_window, Some(8192));
    let v = mullande::config::dialog_model("volcengine", "", "http://h:1", "MY_KEY", None);
    assert_eq!(v.model_id, None);
    assert_eq!(v.base_url, None);
    assert_eq!(v.api_key_env.as_deref(), Some("MY_KEY"));
    let c = mullande::config::dialog_model("copilot", "gpt", "", "", None);
    assert_eq!(c.api_key_env, None);
    assert!(mullande::config::asks_base_url("ollama"));
    assert!(!mullande::config::asks_base_url("copilot"));
}

use mullande::commands::{
    choose_best, choose_compaction_model, config_action, count_markdown, count_user_turns, evaluation_report_path,
    format_compacted_log, format_evaluation_prompt, format_evaluation_report, format_output_block,
    format_summary_prompt, model_branch, parse_model_list, read_judge_choice, thinking_choice, tools_active,
    ConfigAction, ModelOutput,
};

fn strings(v: &[&str]) -> Vec<String> {
    v.iter().map(|s| s.to_string()).collect()
}

#[test]
fn model_list_is_split_trimmed_and_filtered() {
    assert_eq!(parse_model_list(" llama3 , qwen3:8b,,  "), strings(&["llama3", "qwen3:8b"]));
    assert!(parse_model_list(" , ").is_empty());
    assert_eq!(parse_model_list("one"), strings(&["one"]));
}

#[test]
fn branch_names_replace_path_and_tag_separators() {
    assert_eq!(model_branch("library/qwen3:8b", "20240102_030405"), "model-library-qwen3-8b-20240102_030405");
}

#[test]
fn thinking_and_tools_flags() {
    assert_eq!(thinking_choice(true, true), Some(true));
    assert_eq!(thinking_choice(false, true), Some(false));
    assert_eq!(thinking_choice(false, false), None);
    assert!(tools_active(true, true, false));
    assert!(!tools_active(false, true, true));
    assert!(tools_active(false, false, true));
    assert!(!tools_active(false, false, false));
}

#[test]
fn judge_prompt_numbers_the_outputs() {
    let a = format_output_block("m1", "b1", "out one");
    assert_eq!(a, "Model: m1 (branch: b1)\nOutput:\nout one");
    let b = format_output_block("m2", "b2", "out two");
    let p = format_evaluation_prompt("Do it", &vec![a, b]);
    assert_eq!(
        p,
        "You are an expert evaluator. Compare the following outputs for the same user request and determine which is better.\n\nUser Request:\nDo it\n\n1. Model: m1 (branch: b1)\nOutput:\nout one\n\n2. Model: m2 (branch: b2)\nOutput:\nout two\n\nRespond with ONLY the number (1-2) of the BEST output. Consider accuracy, clarity, helpfulness, and completeness."
    );
}

#[test]
fn judge_answer_is_its_first_digit() {
    assert_eq!(read_judge_choice("  Output 2 is best, not 1"), 2);
    assert_eq!(read_judge_choice("none of them"), 1);
    assert_eq!(read_judge_choice("0"), 0);
    assert_eq!(read_judge_choice("#12"), 1);
}

#[test]
fn best_output_is_first_one_named_for_itself() {
    assert_eq!(choose_best(&vec![Some(2), Some(2)]), Some(1));
    assert_eq!(choose_best(&vec![Some(1), Some(1)]), Some(0));
    assert_eq!(choose_best(&vec![Some(3), Some(3), Some(1)]), Some(0));
    assert_eq!(choose_best(&vec![None, Some(1)]), Some(1));
    assert_eq!(choose_best(&vec![None, None]), None);
    assert_eq!(choose_best(&vec![]), None);
}

#[test]
fn evaluation_report_lists_outputs_and_winner() {
    let o1 = ModelOutput { model: "m1".to_string(), output: "x".to_string(), duration: "1.50".to_string(), branch: "b1".to_string() };
    let o2 = ModelOutput { model: "m2".to_string(), output: "y".to_string(), duration: "2.00".to_string(), branch: "b2".to_string() };
    let w = Some(ModelOutput { model: "m2".to_string(), output: "y".to_string(), duration: "2.00s".to_string(), branch: "b2".to_string() });
    let r = format_evaluation_report("T", "judge", &strings(&["m1", "m2"]), &vec![o1, o2], &w);
    assert_eq!(
        r,
        "# Multi-Model Evaluation\n\n- **Timestamp**: T\n- **Judge Model**: judge\n- **Models Evaluated**: m1, m2\n\n## All Outputs\n\n### 1. m1 (branch: b1)\n- **Duration**: 1.50s\n\n```\nx\n```\n\n### 2. m2 (branch: b2)\n- **Duration**: 2.00s\n\n```\ny\n```\n\n## Evaluation Result\n\n**Winner**: m2 (branch: b2)\n**Duration**: 2.s\n\n**Output**:\n```\ny\n```\n"
    );
    let none = format_evaluation_report("T", "j", &vec![], &vec![], &None);
    assert!(none.ends_with("## All Outputs\n\n## Evaluation Result\n\n*Evaluation inconclusive, first output used*\n"));
    assert_eq!(evaluation_report_path("/w/.mullande", "T"), "/w/.mullande/evaluations/evaluation_T.md");
}

#[test]
fn compaction_model_is_greatest_qwen35() {
    assert_eq!(choose_compaction_model(&strings(&["llama3", "Qwen3.5:4b", "qwen3.5:27b", "qwen3:8b"])), "qwen3.5:27b");
    assert_eq!(choose_compaction_model(&strings(&["llama3"])), "qwen3.5");
    assert_eq!(choose_compaction_model(&vec![]), "qwen3.5");
}

#[test]
fn summary_prompt_pairs_turns() {
    let h = strings(&["q1", "a1", "q2", "a2", "q3"]);
    assert_eq!(
        format_summary_prompt(&h),
        "Summarize the following conversation concisely, preserving key information, decisions, and important context:\n\nTurn 1:\nUser: q1\nAssistant: a1\nTurn 2:\nUser: q2\nAssistant: a2\n\n\nProvide a concise summary (max 500 words):"
    );
}

#[test]
fn compacted_log_keeps_heading() {
    assert_eq!(
        format_compacted_log("qwen3.5", "short"),
        "# Mullande Conversation Log\n\nThis file stores all conversations from mullande run and mullande chat.\n\n---\n\n**Compacted Summary** (model: qwen3.5)\n\nshort\n"
    );
}

#[test]
fn status_counts() {
    assert_eq!(count_user_turns("**User:** a\n**Agent:** b\n**User:** c"), 2);
    assert_eq!(count_user_turns(""), 0);
    assert_eq!(count_markdown(&strings(&["a.md", ".md", "b.txt", "c.md.bak", "..md", "x.md"])), 3);
}

#[test]
fn config_command_dispatch() {
    assert!(matches!(config_action(Some("out.json".to_string()), true, true, Some("ollama")), ConfigAction::ImportOllama));
    assert!(matches!(config_action(Some("out.json".to_string()), true, false, Some("other")), ConfigAction::Export(p) if p == "out.json"));
    assert!(matches!(config_action(None, true, true, None), ConfigAction::Check));
    assert!(matches!(config_action(None, false, true, None), ConfigAction::Edit));
    assert!(matches!(config_action(None, false, false, None), ConfigAction::Show));
}

#[test]
fn compaction_model_matches_names_in_any_case() {
    assert_eq!(choose_compaction_model(&strings(&["QWEN3.5:9B", "llama3"])), "QWEN3.5:9B");
}

#[test]
fn comparison_plan_refusals_and_judge() {
    assert_eq!(
        mullande::commands::plan_comparison("a, b", None, true),
        Err(mullande::commands::ComparisonRefusal::NoMemory)
    );
    assert_eq!(
        mullande::commands::plan_comparison(" , ", None, false),
        Err(mullande::commands::ComparisonRefusal::NoModels)
    );
    assert_eq!(
        mullande::commands::plan_comparison("a, b", None, false),
        Ok((vec!["a".to_string(), "b".to_string()], "a".to_string()))
    );
    assert_eq!(
        mullande::commands::plan_comparison("a,b", Some("judge".to_string()), false),
        Ok((vec!["a".to_string(), "b".to_string()], "judge".to_string()))
    );
}

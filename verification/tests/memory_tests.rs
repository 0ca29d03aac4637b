use mullande::clock::Timestamp;
use mullande::memory::{parse_conversation, InitStep, Memory, TxnAction, TxnPhase, WorkspaceManager};

fn memory_at(root: &str) -> Memory {
    Memory::new(WorkspaceManager::new(root))
}

#[test]
fn workspace_layout_under_root() {
    let w = WorkspaceManager::new("/home/u/proj");
    assert_eq!(w.root_dir, "/home/u/proj");
    assert_eq!(w.mullande_dir, "/home/u/proj/.mullande");
    assert_eq!(w.memory_dir, "/home/u/proj/.mullande/.memory");
    assert_eq!(w.get_memory_path(), "/home/u/proj/.mullande/.memory");
    let (a, b, c) = w.initialization_markers();
    assert_eq!(a, "/home/u/proj/.mullande");
    assert_eq!(b, "/home/u/proj/.mullande/.memory");
    assert_eq!(c, "/home/u/proj/.mullande/.memory/.git");
}

#[test]
fn initialized_only_when_all_three_exist() {
    let w = WorkspaceManager::new("/r");
    assert!(w.is_initialized(true, true, true));
    assert!(!w.is_initialized(true, true, false));
    assert!(!w.is_initialized(false, true, true));
}

#[test]
fn fresh_workspace_setup_steps() {
    let w = WorkspaceManager::new("/r");
    let steps = w.initialize(false, false, false, false);
    assert_eq!(steps.len(), 8);
    assert!(matches!(&steps[0], InitStep::CreateDir(d) if d == "/r/.mullande"));
    assert!(matches!(&steps[1], InitStep::CreateDir(d) if d == "/r/.mullande/.memory"));
    assert!(matches!(&steps[2], InitStep::GitInit));
    assert!(matches!(&steps[3], InitStep::GitConfig(k, v) if k == "user.name" && v == "mullande"));
    assert!(matches!(&steps[4], InitStep::GitConfig(k, v) if k == "user.email" && v == "mullande@localhost"));
    assert!(matches!(&steps[5], InitStep::WriteFile(p, t)
        if p == "/r/.mullande/.memory/.gitignore" && t == "# OS files\n.DS_Store\nThumbs.db\n\n# Temporary files\n*.tmp\n*.log\n"));
    assert!(matches!(&steps[6], InitStep::GitAdd(p) if p == ".gitignore"));
    assert!(matches!(&steps[7], InitStep::Commit(m) if m == "Initial commit: Add .gitignore"));
    let fatal: Vec<bool> = steps.iter().map(|s| s.aborts_on_failure()).collect();
    assert_eq!(fatal, vec![false, false, true, false, false, true, false, true]);
}

#[test]
fn existing_repository_needs_no_setup() {
    let w = WorkspaceManager::new("/r");
    assert!(w.initialize(true, true, true, false).is_empty());
    let steps = w.initialize(true, true, false, true);
    assert_eq!(steps.len(), 3);
    assert!(matches!(&steps[0], InitStep::GitInit));
}

#[test]
fn porcelain_output_tells_changes() {
    let w = WorkspaceManager::new("/r");
    assert!(w.git_has_changes(Some(" M CONVERSATIONS.md\n")));
    assert!(!w.git_has_changes(Some("  \n")));
    assert!(!w.git_has_changes(None));
}

#[test]
fn listed_files_skip_empty_lines() {
    let m = memory_at("/r");
    assert_eq!(m.list_files(Ok("a.md\n\nb/c.txt\n")).unwrap(), vec!["a.md".to_string(), "b/c.txt".to_string()]);
    assert_eq!(m.list_files(Err("fatal: not a git repository")).unwrap_err(), "Failed to list files: fatal: not a git repository");
}

#[test]
fn resolve_path_joins_memory_dir() {
    let m = memory_at("/r");
    assert_eq!(m.memory_dir, "/r/.mullande/.memory");
    assert_eq!(m.resolve_path("perf/x.jsonl"), "/r/.mullande/.memory/perf/x.jsonl");
}

#[test]
fn missing_log_has_no_history() {
    let m = memory_at("/r");
    assert!(m.load_conversation_history(None).is_empty());
}

#[test]
fn appended_turn_is_read_back() {
    let m = memory_at("/r");
    let t = m.append_to_conversation("hello", "world", "llama3", "2024-01-02T03:04:05+00:00", None);
    assert_eq!(t.files.len(), 1);
    assert_eq!(t.files[0].rel_path, "CONVERSATIONS.md");
    assert_eq!(t.files[0].full_path, "/r/.mullande/.memory/CONVERSATIONS.md");
    assert_eq!(
        t.files[0].content,
        "# Mullande Conversation Log\n\nThis file stores all conversations from mullande run and mullande chat.\n\n\n---\n\n**[2024-01-02T03:04:05+00:00]** Model: `llama3`\n\n**User:** hello\n\n**Agent:** world\n"
    );
    assert_eq!(t.message, "Add conversation turn using model llama3: 5 chars input");
    let h = m.load_conversation_history(Some(t.files[0].content.as_str()));
    assert_eq!(h, vec!["hello".to_string(), "world".to_string()]);
    let t2 = m.append_to_conversation("second", "answer two", "llama3", "later", Some(t.files[0].content.as_str()));
    assert_eq!(
        parse_conversation(t2.files[0].content.as_str()),
        vec!["hello".to_string(), "world".to_string(), "second".to_string(), "answer two".to_string()]
    );
}

#[test]
fn multi_line_turns_and_unanswered_question() {
    let log = "# Log\n\n---\n\n**[t]** Model: `m`\n\n**User:** line one\nline two\n\n**Agent:** reply\nmore\n\n---\n\n**User:** open question\n";
    assert_eq!(
        parse_conversation(log),
        vec!["line one\nline two".to_string(), "reply\nmore".to_string(), "open question".to_string()]
    );
}

#[test]
fn commit_message_counts_bytes() {
    let m = memory_at("/r");
    let t = m.append_to_conversation("héllo", "x", "m", "ts", Some(""));
    assert_eq!(t.message, "Add conversation turn using model m: 6 chars input");
    assert_eq!(t.files[0].content, "\n\n---\n\n**[ts]** Model: `m`\n\n**User:** héllo\n\n**Agent:** x\n");
}

#[test]
fn append_at_instant_uses_rfc3339_time() {
    let m = memory_at("/r");
    let t = m.append_to_conversation_at("q", "a", "m", Timestamp { secs: 0, nanos: 0 }, Some("")).unwrap();
    assert_eq!(t.files[0].content, "\n\n---\n\n**[1970-01-01T00:00:00+00:00]** Model: `m`\n\n**User:** q\n\n**Agent:** a\n");
    assert!(m.append_to_conversation_at("q", "a", "m", Timestamp { secs: i64::MAX, nanos: 0 }, None).is_none());
}

#[test]
fn transaction_commits_after_writing_every_file() {
    let m = memory_at("/r");
    let mut t = m.write_atomic(vec![("a".to_string(), "1".to_string()), ("b".to_string(), "2".to_string())], "msg");
    assert!(t.phase == TxnPhase::Start);
    assert_eq!(t.files[1].full_path, "/r/.mullande/.memory/b");
    assert!(t.begin() == TxnAction::ReadHead);
    assert!(t.on_head(Some("abc\n")) == TxnAction::CheckChanges);
    assert!(t.on_changes(false) == TxnAction::WriteFile(0));
    assert!(t.on_written(true) == TxnAction::AddFile(0));
    assert!(t.on_added() == TxnAction::WriteFile(1));
    assert!(t.on_written(true) == TxnAction::AddFile(1));
    assert!(t.on_added() == TxnAction::Commit);
    assert!(t.on_committed(true) == TxnAction::Finished(true));
}

#[test]
fn failed_write_resets_and_restores_stash() {
    let m = memory_at("/r");
    let mut t = m.write_one("f.md", "text", "msg");
    assert!(t.begin() == TxnAction::ReadHead);
    assert!(t.on_head(Some("abc\n")) == TxnAction::CheckChanges);
    assert!(t.on_changes(true) == TxnAction::Stash);
    assert!(t.on_stash(true) == TxnAction::WriteFile(0));
    assert!(t.on_written(false) == TxnAction::ResetHard);
    assert_eq!(t.original_head, "abc");
    assert!(t.on_reset() == TxnAction::StashPop);
    assert!(t.on_popped() == TxnAction::Finished(false));
}

#[test]
fn failed_stash_ends_transaction() {
    let m = memory_at("/r");
    let mut t = m.write_one("f.md", "text", "msg");
    t.begin();
    t.on_head(None);
    assert!(t.on_changes(true) == TxnAction::Stash);
    assert!(t.on_stash(false) == TxnAction::Finished(false));
}

#[test]
fn failed_commit_without_stash_resets_only() {
    let m = memory_at("/r");
    let mut t = m.write_one("f.md", "text", "msg");
    t.begin();
    t.on_head(Some("h"));
    t.on_changes(false);
    t.on_written(true);
    assert!(t.on_added() == TxnAction::Commit);
    assert!(t.on_committed(false) == TxnAction::ResetHard);
    assert!(t.on_reset() == TxnAction::Finished(false));
}

#[test]
fn multi_line_turns_are_read_back() {
    let m = memory_at("/r");
    let t1 = m.append_to_conversation("line one\n  indented two", "answer\n- item\n  code();", "m", "T1", None);
    let t2 = m.append_to_conversation("next", "done", "m", "T2", Some(t1.files[0].content.as_str()));
    assert_eq!(
        m.load_conversation_history(Some(t2.files[0].content.as_str())),
        vec![
            "line one\n  indented two".to_string(),
            "answer\n- item\n  code();".to_string(),
            "next".to_string(),
            "done".to_string()
        ]
    );
}

#[test]
fn blank_lines_in_answers_are_not_kept() {
    let m = memory_at("/r");
    let t = m.append_to_conversation("q", "para one\n\npara two", "m", "T", None);
    assert_eq!(
        m.load_conversation_history(Some(t.files[0].content.as_str())),
        vec!["q".to_string(), "para one\npara two".to_string()]
    );
}

#[test]
fn appended_turns_are_read_back_trimmed() {
    let m = memory_at("/p");
    let at = Timestamp { secs: 1_700_000_000, nanos: 5 };
    let t1 = m.append_to_conversation_at("  first question  ", "\tfirst answer ", "llama3", at, None).unwrap();
    let t2 = m
        .append_to_conversation_at("**Agent:** not a marker here", "  # nor a heading", "llama3", at, Some(t1.files[0].content.as_str()))
        .unwrap();
    assert_eq!(
        m.load_conversation_history(Some(t2.files[0].content.as_str())),
        vec!["first question", "first answer", "**Agent:** not a marker here", "# nor a heading"]
    );
}

#[test]
fn blank_texts_are_read_back_empty() {
    let m = memory_at("/p");
    let t = m.append_to_conversation_at("   ", "", "m", Timestamp { secs: 0, nanos: 0 }, None).unwrap();
    assert_eq!(m.load_conversation_history(Some(t.files[0].content.as_str())), vec!["", ""]);
}

#[test]
fn rfc3339_time_is_one_line() {
    for secs in [0i64, 1_700_000_000, -62_135_596_800, 253_402_300_799] {
        let t = Timestamp { secs, nanos: 123_456_789 }.rfc3339().unwrap();
        assert!(!t.contains('\n'));
    }
    assert_eq!(Timestamp { secs: 0, nanos: 0 }.rfc3339().unwrap(), "1970-01-01T00:00:00+00:00");
}

#[test]
fn turns_with_multi_line_model_names_are_read_back() {
    let m = memory_at("/p");
    let at = Timestamp { secs: 1_700_000_000, nanos: 0 };
    let t1 = m.append_to_conversation_at("first", "one", "llama3\nlarge", at, None).unwrap();
    let h1 = m.load_conversation_history(Some(t1.files[0].content.as_str()));
    assert_eq!(h1, vec!["first", "one"]);
    let t2 = m
        .append_to_conversation_at(" second ", "two", "m\n**Agent:** x\nend", at, Some(t1.files[0].content.as_str()))
        .unwrap();
    let h2 = m.load_conversation_history(Some(t2.files[0].content.as_str()));
    assert_eq!(h2.len(), 4);
    assert_eq!(&h2[2..], &["second".to_string(), "two".to_string()]);
}

#[test]
fn model_line_opening_a_user_turn_breaks_the_read_back() {
    let m = memory_at("/p");
    let at = Timestamp { secs: 0, nanos: 0 };
    let t = m.append_to_conversation_at("q", "a", "x\n**User:** y", at, None).unwrap();
    let h = m.load_conversation_history(Some(t.files[0].content.as_str()));
    assert_ne!(h[0], "q");
}

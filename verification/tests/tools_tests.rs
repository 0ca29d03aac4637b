use mullande::ollama::{ArgField, ArgValue, ToolArguments};
use mullande::tools::{
    bash_reply, command_error_reply, get_count, get_flag, get_text, glob_error_reply, glob_reply, read_error_reply,
    read_file_reply, remove_occurrences, search_error_reply, write_file_reply, ToolRegistry, ToolWork, WriteOutcome,
};

fn args(fields: Vec<(&str, ArgValue)>) -> ToolArguments {
    ToolArguments {
        json: String::new(),
        fields: fields.into_iter().map(|(k, v)| ArgField { key: k.to_string(), value: v }).collect(),
    }
}

fn text(s: &str) -> ArgValue {
    ArgValue::Text(s.to_string())
}

#[test]
fn registry_offers_the_five_built_in_tools() {
    let r = ToolRegistry::new("/work");
    let names: Vec<&str> = r.tools.iter().map(|t| t.name.as_str()).collect();
    assert_eq!(names, vec!["read_file", "write_file", "bash", "glob", "grep"]);
    assert_eq!(r.resolve("src/a.rs"), "/work/src/a.rs");
    assert_eq!(r.resolve("/etc/hosts"), "/etc/hosts");
}

#[test]
fn argument_lookup_by_key_and_kind() {
    let a = args(vec![("path", text("x")), ("start_line", ArgValue::Count(3)), ("case_insensitive", ArgValue::Flag(true))]);
    assert_eq!(get_text(&a, "path").map(|s| s.as_str()), Some("x"));
    assert_eq!(get_text(&a, "start_line"), None);
    assert_eq!(get_count(&a, "start_line"), Some(3));
    assert_eq!(get_count(&a, "path"), None);
    assert_eq!(get_flag(&a, "case_insensitive"), Some(true));
    assert_eq!(get_flag(&a, "missing"), None);
}

#[test]
fn read_file_call_resolves_path() {
    let r = ToolRegistry::new("/work");
    let a = args(vec![("path", text("notes.md")), ("end_line", ArgValue::Count(2))]);
    match r.execute("read_file", &a) {
        ToolWork::ReadFile { path, full_path, start_line, end_line } => {
            assert_eq!(path, "notes.md");
            assert_eq!(full_path, "/work/notes.md");
            assert_eq!(start_line, None);
            assert_eq!(end_line, Some(2));
        }
        _ => panic!("expected a file read"),
    }
}

#[test]
fn missing_parameters_and_unknown_tools_are_answered() {
    let r = ToolRegistry::new("/work");
    let none = args(vec![]);
    assert!(matches!(r.execute("read_file", &none), ToolWork::Reply(t) if t == "Error: missing required parameter 'path'"));
    let only_path = args(vec![("path", text("a"))]);
    assert!(matches!(r.execute("write_file", &only_path), ToolWork::Reply(t) if t == "Error: missing required parameter 'content'"));
    assert!(matches!(r.execute("bash", &none), ToolWork::Reply(t) if t == "Error: missing required parameter 'command'"));
    assert!(matches!(r.execute("glob", &none), ToolWork::Reply(t) if t == "Error: missing required parameter 'pattern'"));
    assert!(matches!(r.execute("grep", &none), ToolWork::Reply(t) if t == "Error: missing required parameter 'pattern'"));
    assert!(matches!(r.execute("subagent", &none), ToolWork::Reply(t) if t == "Error: unknown tool 'subagent'"));
    assert!(matches!(r.execute("rm", &none), ToolWork::Reply(t) if t == "Error: unknown tool 'rm'"));
}

#[test]
fn glob_and_grep_calls_are_rooted_in_working_dir() {
    let r = ToolRegistry::new("/work");
    let g = args(vec![("pattern", text("*.rs")), ("path", text("src"))]);
    assert!(matches!(r.execute("glob", &g), ToolWork::Glob { pattern, full_pattern } if pattern == "*.rs" && full_pattern == "/work/src/*.rs"));
    let s = args(vec![("pattern", text("fn")), ("glob", text("*.rs")), ("case_insensitive", ArgValue::Flag(true))]);
    match r.execute("grep", &s) {
        ToolWork::Grep { pattern, search_path, glob, case_insensitive } => {
            assert_eq!(pattern, "fn");
            assert_eq!(search_path, "/work");
            assert_eq!(glob.as_deref(), Some("*.rs"));
            assert!(case_insensitive);
        }
        _ => panic!("expected a search"),
    }
    let w = args(vec![("path", text("o.txt")), ("content", text("hi"))]);
    assert!(matches!(r.execute("write_file", &w), ToolWork::WriteFile { full_path, content, .. } if full_path == "/work/o.txt" && content == "hi"));
    let b = args(vec![("command", text("ls"))]);
    assert!(matches!(r.execute("bash", &b), ToolWork::Bash { command } if command == "ls"));
}

#[test]
fn whole_file_and_line_ranges() {
    assert_eq!(read_file_reply("a.txt", "one\ntwo", None, None), "File: a.txt\n```\none\ntwo\n```");
    assert_eq!(
        read_file_reply("a.txt", "one\ntwo\nthree\n", Some(2), Some(9)),
        "File: a.txt (lines 2-3)\n```\n   2: two\n   3: three\n```"
    );
    assert_eq!(read_file_reply("a.txt", "x\ny", Some(0), Some(1)), "File: a.txt (lines 1-1)\n```\n   1: x\n```");
    assert_eq!(read_error_reply("a.txt", "No such file"), "Error reading 'a.txt': No such file");
}

#[test]
fn write_outcomes() {
    assert_eq!(write_file_reply("o.txt", "héllo", &WriteOutcome::Written), "Wrote 6 bytes to 'o.txt'");
    assert_eq!(
        write_file_reply("o.txt", "x", &WriteOutcome::WriteFailed("denied".to_string())),
        "Error writing 'o.txt': denied"
    );
    assert_eq!(
        write_file_reply("d/o.txt", "x", &WriteOutcome::DirectoriesFailed("ro".to_string())),
        "Error creating directories for 'd/o.txt': ro"
    );
}

#[test]
fn shell_results() {
    assert_eq!(bash_reply(Some(0), "out\n\n", ""), "Exit code: 0\nSTDOUT:\nout");
    assert_eq!(bash_reply(Some(-2), "", "bad\n"), "Exit code: -2\nSTDERR:\nbad");
    assert_eq!(bash_reply(None, "a", "b"), "Exit code: -1\nSTDOUT:\na\nSTDERR:\nb");
    assert_eq!(command_error_reply("spawn failed"), "Error running command: spawn failed");
}

#[test]
fn glob_results_are_sorted() {
    assert_eq!(glob_reply("*.md", vec![]), "No files match '*.md'");
    assert_eq!(
        glob_reply("*", vec!["b.md".to_string(), "B.md".to_string(), "a.md".to_string()]),
        "Found 3 file(s) matching '*':\nB.md\na.md\nb.md"
    );
    assert_eq!(glob_error_reply("[", "unclosed"), "Invalid glob pattern '[': unclosed");
}

#[test]
fn grep_results_drop_working_dir() {
    let r = ToolRegistry::new("/work");
    assert_eq!(r.grep_reply("x", ""), "No matches for 'x'");
    assert_eq!(r.grep_reply("fn", "/work/a.rs:1:fn main\n/work/b.rs:2:fn f\n"), "Matches for 'fn':\na.rs:1:fn main\nb.rs:2:fn f");
    assert_eq!(remove_occurrences("aXbXXc", "X"), "abc");
    assert_eq!(remove_occurrences("abc", ""), "abc");
    assert_eq!(search_error_reply("rg missing"), "Error: rg missing");
}

#[test]
fn line_ranges_that_start_after_they_end_are_refused() {
    assert!(mullande::tools::is_readable_range("a\nb\nc", None, None));
    assert!(mullande::tools::is_readable_range("a\nb\nc", Some(2), Some(3)));
    assert!(mullande::tools::is_readable_range("a\nb\nc", Some(4), None));
    assert!(!mullande::tools::is_readable_range("a\nb\nc", Some(5), None));
    assert!(!mullande::tools::is_readable_range("a\nb\nc", Some(3), Some(1)));
}

#[test]
fn tool_definitions_describe_their_parameters() {
    let r = ToolRegistry::new("/work");
    let grep = &r.tools[4];
    assert_eq!(grep.description, "Search for a regex pattern inside file contents. Returns matching lines with file names and line numbers.");
    let params: Vec<(&str, &str, bool)> = grep.parameters.iter().map(|p| (p.name.as_str(), p.kind.as_str(), p.required)).collect();
    assert_eq!(params, vec![("pattern", "string", true), ("path", "string", false), ("glob", "string", false), ("case_insensitive", "boolean", false)]);
    let write = &r.tools[1];
    assert!(write.parameters.iter().all(|p| p.required));
    assert_eq!(r.tools[2].parameters[0].description, "Shell command to execute");
}

#[test]
fn required_parameters_of_each_tool() {
    let r = ToolRegistry::new("/work");
    let required: Vec<(&str, Vec<&str>)> = r
        .tools
        .iter()
        .map(|t| (t.name.as_str(), t.parameters.iter().filter(|p| p.required).map(|p| p.name.as_str()).collect()))
        .collect();
    assert_eq!(
        required,
        vec![
            ("read_file", vec!["path"]),
            ("write_file", vec!["path", "content"]),
            ("bash", vec!["command"]),
            ("glob", vec!["pattern"]),
            ("grep", vec!["pattern"]),
        ]
    );
}

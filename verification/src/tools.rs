//! The tools the model may call: their definitions, which work a call asks
//! for, and the text each tool hands back to the model. The caller does the
//! work on files and processes; the decisions and the texts are here.
use vstd::prelude::*;
use crate::ollama::{ArgField, ArgValue, ToolArguments};
use crate::text::{
    byte_len, chars_of, decimal, decimal_string, join_lines, join_with, join_path, path_join,
    push_joined, push_str, starts_with, starts_with_vec, string_of, string_views, text_eq,
    trim_end, trim_end_vec, utf8_len, views, slice_vec, lines, lines_vec, extend_vec,
};

verus! {

/// A parameter of a tool: its name, its JSON type, what it means, and
/// whether a call must give it.
pub struct ToolParam {
    pub name: String,
    pub kind: String,
    pub description: String,
    pub required: bool,
}

/// A tool as it is offered to the model.
pub struct ToolDef {
    pub name: String,
    pub description: String,
    pub parameters: Vec<ToolParam>,
}

/// The tools, run in the given working directory.
pub struct ToolRegistry {
    pub tools: Vec<ToolDef>,
    pub working_dir: String,
}

/// A tool parameter with its texts taken by their views.
pub struct ToolParamView {
    pub name: Seq<char>,
    pub kind: Seq<char>,
    pub description: Seq<char>,
    pub required: bool,
}

impl View for ToolParam {
    type V = ToolParamView;

    open spec fn view(&self) -> ToolParamView {
        ToolParamView { name: self.name@, kind: self.kind@, description: self.description@, required: self.required }
    }
}

/// A tool definition with its texts taken by their views.
#[verifier::ext_equal]
pub struct ToolDefView {
    pub name: Seq<char>,
    pub description: Seq<char>,
    pub parameters: Seq<ToolParamView>,
}

impl View for ToolDef {
    type V = ToolDefView;

    open spec fn view(&self) -> ToolDefView {
        ToolDefView {
            name: self.name@,
            description: self.description@,
            parameters: self.parameters@.map_values(|p: ToolParam| p@),
        }
    }
}

/// A parameter of a tool definition.
pub open spec fn param_view(name: Seq<char>, kind: Seq<char>, description: Seq<char>, required: bool) -> ToolParamView {
    ToolParamView { name, kind, description, required }
}

/// The tools offered to the model, in order.
pub open spec fn tool_defs() -> Seq<ToolDefView> {
    seq![
        ToolDefView {
            name: "read_file"@,
            description: "Read the contents of a file. Optionally specify start_line and end_line (1-indexed) to read a specific line range."@,
            parameters: seq![
                param_view("path"@, "string"@, "Path to the file (relative to working directory)"@, true),
                param_view("start_line"@, "integer"@, "First line to read, 1-indexed (optional)"@, false),
                param_view("end_line"@, "integer"@, "Last line to read, inclusive (optional)"@, false),
            ],
        },
        ToolDefView {
            name: "write_file"@,
            description: "Create a new file or overwrite an existing file with the given content. Parent directories are created automatically."@,
            parameters: seq![
                param_view("path"@, "string"@, "Path to the file to write (relative to working directory)"@, true),
                param_view("content"@, "string"@, "Content to write to the file"@, true),
            ],
        },
        ToolDefView {
            name: "bash"@,
            description: "Execute a shell command and return its output (stdout + stderr combined). Use for running tests, builds, git operations, etc."@,
            parameters: seq![param_view("command"@, "string"@, "Shell command to execute"@, true)],
        },
        ToolDefView {
            name: "glob"@,
            description: "Find files whose paths match a glob pattern. Returns a sorted list of matching paths relative to the working directory."@,
            parameters: seq![
                param_view("pattern"@, "string"@, "Glob pattern (e.g. '**/*.rs', 'src/**/*.ts', '*.json')"@, true),
                param_view("path"@, "string"@, "Base directory to search in (default: working directory)"@, false),
            ],
        },
        ToolDefView {
            name: "grep"@,
            description: "Search for a regex pattern inside file contents. Returns matching lines with file names and line numbers."@,
            parameters: seq![
                param_view("pattern"@, "string"@, "Regex pattern to search for"@, true),
                param_view("path"@, "string"@, "File or directory to search in (default: working directory)"@, false),
                param_view("glob"@, "string"@, "Glob filter to restrict which files are searched (e.g. '*.rs')"@, false),
                param_view("case_insensitive"@, "boolean"@, "Case-insensitive search (default: false)"@, false),
            ],
        },
    ]
}

fn param(name: &str, kind: &str, description: &str, required: bool) -> (p: ToolParam)
    ensures
        p.name@ == name@,
        p.kind@ == kind@,
        p.description@ == description@,
        p.required == required,
{
    ToolParam { name: name.to_owned(), kind: kind.to_owned(), description: description.to_owned(), required }
}

impl ToolRegistry {
    /// The five built-in tools, run in `working_dir`.
    pub fn new(working_dir: &str) -> (r: Self)
        ensures
            r.working_dir@ == working_dir@,
            r.tools@.len() == tool_defs().len(),
            forall|i: int| 0 <= i < r.tools@.len() ==> #[trigger] r.tools@[i]@ == tool_defs()[i],
    {
        let mut tools: Vec<ToolDef> = Vec::new();
        let mut p: Vec<ToolParam> = Vec::new();
        p.push(param("path", "string", "Path to the file (relative to working directory)", true));
        p.push(param("start_line", "integer", "First line to read, 1-indexed (optional)", false));
        p.push(param("end_line", "integer", "Last line to read, inclusive (optional)", false));
        tools.push(ToolDef {
            name: String::from_str("read_file"),
            description: String::from_str("Read the contents of a file. Optionally specify start_line and end_line (1-indexed) to read a specific line range."),
            parameters: p,
        });
        let mut p: Vec<ToolParam> = Vec::new();
        p.push(param("path", "string", "Path to the file to write (relative to working directory)", true));
        p.push(param("content", "string", "Content to write to the file", true));
        tools.push(ToolDef {
            name: String::from_str("write_file"),
            description: String::from_str("Create a new file or overwrite an existing file with the given content. Parent directories are created automatically."),
            parameters: p,
        });
        let mut p: Vec<ToolParam> = Vec::new();
        p.push(param("command", "string", "Shell command to execute", true));
        tools.push(ToolDef {
            name: String::from_str("bash"),
            description: String::from_str("Execute a shell command and return its output (stdout + stderr combined). Use for running tests, builds, git operations, etc."),
            parameters: p,
        });
        let mut p: Vec<ToolParam> = Vec::new();
        p.push(param("pattern", "string", "Glob pattern (e.g. '**/*.rs', 'src/**/*.ts', '*.json')", true));
        p.push(param("path", "string", "Base directory to search in (default: working directory)", false));
        tools.push(ToolDef {
            name: String::from_str("glob"),
            description: String::from_str("Find files whose paths match a glob pattern. Returns a sorted list of matching paths relative to the working directory."),
            parameters: p,
        });
        let mut p: Vec<ToolParam> = Vec::new();
        p.push(param("pattern", "string", "Regex pattern to search for", true));
        p.push(param("path", "string", "File or directory to search in (default: working directory)", false));
        p.push(param("glob", "string", "Glob filter to restrict which files are searched (e.g. '*.rs')", false));
        p.push(param("case_insensitive", "boolean", "Case-insensitive search (default: false)", false));
        tools.push(ToolDef {
            name: String::from_str("grep"),
            description: String::from_str("Search for a regex pattern inside file contents. Returns matching lines with file names and line numbers."),
            parameters: p,
        });
        ToolRegistry { tools, working_dir: working_dir.to_owned() }
    }

    /// A path of a call made absolute: relative paths are taken from the working directory.
    pub fn resolve(&self, path: &str) -> (r: String)
        ensures
            r@ == path_join(self.working_dir@, path@),
    {
        join_path(self.working_dir.as_str(), path)
    }
}

/// The value of the first argument of the given name.
pub open spec fn arg_value(fields: Seq<ArgField>, key: Seq<char>) -> Option<ArgValue>
    decreases fields.len(),
{
    if fields.len() == 0 {
        None
    } else if fields[0].key@ == key {
        Some(fields[0].value)
    } else {
        arg_value(fields.drop_first(), key)
    }
}

/// The text of an argument, where it is text.
pub open spec fn arg_text(a: ToolArguments, key: Seq<char>) -> Option<Seq<char>> {
    match arg_value(a.fields@, key) {
        Some(ArgValue::Text(s)) => Some(s@),
        _ => None,
    }
}

/// The count of an argument, where it is a non-negative integer.
pub open spec fn arg_count(a: ToolArguments, key: Seq<char>) -> Option<u64> {
    match arg_value(a.fields@, key) {
        Some(ArgValue::Count(n)) => Some(n),
        _ => None,
    }
}

/// The flag of an argument, where it is a boolean.
pub open spec fn arg_flag(a: ToolArguments, key: Seq<char>) -> Option<bool> {
    match arg_value(a.fields@, key) {
        Some(ArgValue::Flag(b)) => Some(b),
        _ => None,
    }
}

fn find_arg<'a>(a: &'a ToolArguments, key: &str) -> (r: Option<&'a ArgValue>)
    ensures
        match r {
            Some(v) => arg_value(a.fields@, key@) == Some(*v),
            None => arg_value(a.fields@, key@) is None,
        },
{
    let mut i: usize = 0;
    assert(a.fields@.subrange(0, a.fields@.len() as int) =~= a.fields@);
    while i < a.fields.len()
        invariant
            i <= a.fields@.len(),
            arg_value(a.fields@, key@) == arg_value(a.fields@.subrange(i as int, a.fields@.len() as int), key@),
        decreases a.fields@.len() - i,
    {
        let ghost rest = a.fields@.subrange(i as int, a.fields@.len() as int);
        proof {
            assert(rest.drop_first() =~= a.fields@.subrange(i + 1, a.fields@.len() as int));
        }
        if text_eq(a.fields[i].key.as_str(), key) {
            return Some(&a.fields[i].value);
        }
        i = i + 1;
    }
    None
}

/// The text of an argument, where it is text.
pub fn get_text<'a>(a: &'a ToolArguments, key: &str) -> (r: Option<&'a String>)
    ensures
        match r { Some(s) => Some(s@), None => None::<Seq<char>> } == arg_text(*a, key@),
{
    match find_arg(a, key) {
        Some(ArgValue::Text(s)) => Some(s),
        _ => None,
    }
}

/// The count of an argument, where it is a non-negative integer.
pub fn get_count(a: &ToolArguments, key: &str) -> (r: Option<u64>)
    ensures
        r == arg_count(*a, key@),
{
    match find_arg(a, key) {
        Some(ArgValue::Count(n)) => Some(*n),
        _ => None,
    }
}

/// The flag of an argument, where it is a boolean.
pub fn get_flag(a: &ToolArguments, key: &str) -> (r: Option<bool>)
    ensures
        r == arg_flag(*a, key@),
{
    match find_arg(a, key) {
        Some(ArgValue::Flag(b)) => Some(*b),
        _ => None,
    }
}

/// The work a tool call asks for.
pub enum ToolWork {
    /// Read the file at `full_path`; `path` is how the call named it.
    ReadFile { path: String, full_path: String, start_line: Option<u64>, end_line: Option<u64> },
    /// Create the parent directories of `full_path` and write `content` there.
    WriteFile { path: String, full_path: String, content: String },
    /// Run `command` with `bash -c` in the working directory.
    Bash { command: String },
    /// Find the files matching `full_pattern`.
    Glob { pattern: String, full_pattern: String },
    /// Search the files under `search_path` for `pattern`.
    Grep { pattern: String, search_path: String, glob: Option<String>, case_insensitive: bool },
    /// No work: this text is the result.
    Reply(String),
}

/// The result for a call that lacks a required argument.
pub open spec fn missing_param(name: Seq<char>) -> Seq<char> {
    "Error: missing required parameter '"@ + name + "'"@
}

/// The result for a call of a tool that does not exist.
pub open spec fn unknown_tool(name: Seq<char>) -> Seq<char> {
    "Error: unknown tool '"@ + name + "'"@
}

/// The work a call of the named tool asks for, in a registry at `wd`.
pub open spec fn work_for(wd: Seq<char>, name: Seq<char>, a: ToolArguments) -> ToolWorkView {
    if name == "read_file"@ {
        match arg_text(a, "path"@) {
            Some(p) => ToolWorkView::ReadFile { path: p, full_path: path_join(wd, p), start_line: arg_count(a, "start_line"@), end_line: arg_count(a, "end_line"@) },
            None => ToolWorkView::Reply(missing_param("path"@)),
        }
    } else if name == "write_file"@ {
        match (arg_text(a, "path"@), arg_text(a, "content"@)) {
            (None, _) => ToolWorkView::Reply(missing_param("path"@)),
            (Some(_), None) => ToolWorkView::Reply(missing_param("content"@)),
            (Some(p), Some(c)) => ToolWorkView::WriteFile { path: p, full_path: path_join(wd, p), content: c },
        }
    } else if name == "bash"@ {
        match arg_text(a, "command"@) {
            Some(c) => ToolWorkView::Bash { command: c },
            None => ToolWorkView::Reply(missing_param("command"@)),
        }
    } else if name == "glob"@ {
        match arg_text(a, "pattern"@) {
            Some(p) => {
                let base = match arg_text(a, "path"@) {
                    Some(b) => path_join(wd, b),
                    None => wd,
                };
                ToolWorkView::Glob { pattern: p, full_pattern: path_join(base, p) }
            },
            None => ToolWorkView::Reply(missing_param("pattern"@)),
        }
    } else if name == "grep"@ {
        match arg_text(a, "pattern"@) {
            Some(p) => ToolWorkView::Grep {
                pattern: p,
                search_path: match arg_text(a, "path"@) {
                    Some(b) => path_join(wd, b),
                    None => wd,
                },
                glob: arg_text(a, "glob"@),
                case_insensitive: match arg_flag(a, "case_insensitive"@) {
                    Some(b) => b,
                    None => false,
                },
            },
            None => ToolWorkView::Reply(missing_param("pattern"@)),
        }
    } else {
        ToolWorkView::Reply(unknown_tool(name))
    }
}

/// The work of a tool call, texts by their views.
pub enum ToolWorkView {
    ReadFile { path: Seq<char>, full_path: Seq<char>, start_line: Option<u64>, end_line: Option<u64> },
    WriteFile { path: Seq<char>, full_path: Seq<char>, content: Seq<char> },
    Bash { command: Seq<char> },
    Glob { pattern: Seq<char>, full_pattern: Seq<char> },
    Grep { pattern: Seq<char>, search_path: Seq<char>, glob: Option<Seq<char>>, case_insensitive: bool },
    Reply(Seq<char>),
}

fn opt_string(o: Option<&String>) -> (r: Option<String>)
    ensures
        crate::config::opt_view(r) == match o { Some(s) => Some(s@), None => None::<Seq<char>> },
{
    match o {
        Some(s) => Some(s.clone()),
        None => None,
    }
}

impl ToolWork {
    /// The work, texts by their views.
    pub open spec fn view_work(self) -> ToolWorkView {
        match self {
            ToolWork::ReadFile { path, full_path, start_line, end_line } => ToolWorkView::ReadFile { path: path@, full_path: full_path@, start_line, end_line },
            ToolWork::WriteFile { path, full_path, content } => ToolWorkView::WriteFile { path: path@, full_path: full_path@, content: content@ },
            ToolWork::Bash { command } => ToolWorkView::Bash { command: command@ },
            ToolWork::Glob { pattern, full_pattern } => ToolWorkView::Glob { pattern: pattern@, full_pattern: full_pattern@ },
            ToolWork::Grep { pattern, search_path, glob, case_insensitive } => ToolWorkView::Grep {
                pattern: pattern@,
                search_path: search_path@,
                glob: crate::config::opt_view(glob),
                case_insensitive,
            },
            ToolWork::Reply(t) => ToolWorkView::Reply(t@),
        }
    }
}

fn missing(name: &str) -> (r: ToolWork)
    ensures
        r.view_work() == ToolWorkView::Reply(missing_param(name@)),
{
    let mut t = String::from_str("Error: missing required parameter '");
    push_str(&mut t, name);
    push_str(&mut t, "'");
    ToolWork::Reply(t)
}

impl ToolRegistry {
    /// The work a call of the named tool asks for (see `work_for`).
    pub fn execute(&self, name: &str, args: &ToolArguments) -> (w: ToolWork)
        ensures
            w.view_work() == work_for(self.working_dir@, name@, *args),
    {
        if text_eq(name, "read_file") {
            match get_text(args, "path") {
                Some(p) => ToolWork::ReadFile {
                    path: p.clone(),
                    full_path: self.resolve(p.as_str()),
                    start_line: get_count(args, "start_line"),
                    end_line: get_count(args, "end_line"),
                },
                None => missing("path"),
            }
        } else if text_eq(name, "write_file") {
            match get_text(args, "path") {
                None => missing("path"),
                Some(p) => match get_text(args, "content") {
                    None => missing("content"),
                    Some(c) => ToolWork::WriteFile { path: p.clone(), full_path: self.resolve(p.as_str()), content: c.clone() },
                },
            }
        } else if text_eq(name, "bash") {
            match get_text(args, "command") {
                Some(c) => ToolWork::Bash { command: c.clone() },
                None => missing("command"),
            }
        } else if text_eq(name, "glob") {
            match get_text(args, "pattern") {
                Some(p) => {
                    let base = match get_text(args, "path") {
                        Some(b) => self.resolve(b.as_str()),
                        None => self.working_dir.clone(),
                    };
                    ToolWork::Glob { pattern: p.clone(), full_pattern: join_path(base.as_str(), p.as_str()) }
                },
                None => missing("pattern"),
            }
        } else if text_eq(name, "grep") {
            match get_text(args, "pattern") {
                Some(p) => {
                    let search_path = match get_text(args, "path") {
                        Some(b) => self.resolve(b.as_str()),
                        None => self.working_dir.clone(),
                    };
                    let case_insensitive = match get_flag(args, "case_insensitive") {
                        Some(b) => b,
                        None => false,
                    };
                    ToolWork::Grep { pattern: p.clone(), search_path, glob: opt_string(get_text(args, "glob")), case_insensitive }
                },
                None => missing("pattern"),
            }
        } else {
            let mut t = String::from_str("Error: unknown tool '");
            push_str(&mut t, name);
            push_str(&mut t, "'");
            ToolWork::Reply(t)
        }
    }
}

/// The decimal notation of an integer, with a minus sign where it is negative.
pub open spec fn signed_decimal(n: int) -> Seq<char> {
    if n < 0 {
        "-"@ + decimal((-n) as nat)
    } else {
        decimal(n as nat)
    }
}

/// A line number right-aligned in four columns.
pub open spec fn pad4(d: Seq<char>) -> Seq<char> {
    if d.len() < 4 {
        Seq::new((4 - d.len()) as nat, |i: int| ' ') + d
    } else {
        d
    }
}

/// The lines `from..to` of a file, each after its number.
pub open spec fn numbered_lines(ls: Seq<Seq<char>>, from: int, to: int) -> Seq<Seq<char>> {
    Seq::new((to - from) as nat, |k: int| pad4(decimal((from + k + 1) as nat)) + ": "@ + ls[from + k])
}

/// The first line read: `start_line` counted from 1, and line 1 where it is absent.
pub open spec fn first_read_line(start: Option<u64>) -> int {
    match start {
        Some(s) => if s == 0 { 0 } else { s - 1 },
        None => 0,
    }
}

/// The end of the lines read: `end_line`, at most the number of lines.
pub open spec fn end_read_line(end: Option<u64>, n: int) -> int {
    match end {
        Some(e) => if e < n { e as int } else { n },
        None => n,
    }
}

/// The result of reading a file: all of it, or the lines asked for, numbered.
pub open spec fn read_file_text(path: Seq<char>, content: Seq<char>, start: Option<u64>, end: Option<u64>) -> Seq<char> {
    if start is None && end is None {
        "File: "@ + path + "\n```\n"@ + content + "\n```"@
    } else {
        let ls = lines(content);
        let s = first_read_line(start);
        let e = end_read_line(end, ls.len() as int);
        "File: "@ + path + " (lines "@ + decimal((s + 1) as nat) + "-"@ + decimal(e as nat) + ")\n```\n"@
            + join_lines(numbered_lines(ls, s, e)) + "\n```"@
    }
}

/// Reading a file from a line, without an end, reads through its last
/// line: the reply numbers every line from `start_line` to the last one,
/// line `N`, each after its number, and its header gives the range
/// `start_line-N`.
pub proof fn lemma_read_without_end_reaches_last_line(path: Seq<char>, content: Seq<char>, start: u64)
    requires
        1 <= start <= lines(content).len(),
    ensures
        ({
            let ls = lines(content);
            let n = ls.len();
            read_file_text(path, content, Some(start), None) == "File: "@ + path + " (lines "@ + decimal(start as nat) + "-"@
                + decimal(n) + ")\n```\n"@ + join_lines(
                Seq::new((n - start + 1) as nat, |k: int| pad4(decimal((start + k) as nat)) + ": "@ + ls[start - 1 + k]),
            ) + "\n```"@
        }),
{
    let ls = lines(content);
    let n = ls.len();
    assert(numbered_lines(ls, start - 1, n as int) =~= Seq::new(
        (n - start + 1) as nat,
        |k: int| pad4(decimal((start + k) as nat)) + ": "@ + ls[start - 1 + k],
    ));
}

/// Reading a range of lines gives the lines from `start_line` (line 1 where
/// it is absent or 0) through `end_line`, or through the last line where
/// `end_line` is absent or beyond it; each is numbered, and the header gives
/// the first and the last line read.
pub proof fn lemma_read_range(path: Seq<char>, content: Seq<char>, start: Option<u64>, end: Option<u64>)
    requires
        start is Some || end is Some,
        readable_range(content, start, end),
    ensures
        ({
            let ls = lines(content);
            let first: int = match start {
                Some(x) => if x == 0 { 1 } else { x as int },
                None => 1,
            };
            let last: int = match end {
                Some(y) => if y <= ls.len() { y as int } else { ls.len() as int },
                None => ls.len() as int,
            };
            &&& first <= last + 1
            &&& read_file_text(path, content, start, end) == "File: "@ + path + " (lines "@ + decimal(first as nat) + "-"@
                + decimal(last as nat) + ")\n```\n"@ + join_lines(
                Seq::new((last - first + 1) as nat, |k: int| pad4(decimal((first + k) as nat)) + ": "@ + ls[first - 1 + k]),
            ) + "\n```"@
        }),
{
    let ls = lines(content);
    let s = first_read_line(start);
    let e = end_read_line(end, ls.len() as int);
    assert(numbered_lines(ls, s, e) =~= Seq::new(
        (e - s) as nat,
        |k: int| pad4(decimal((s + 1 + k) as nat)) + ": "@ + ls[s + k],
    ));
}

/// A line number is written right-aligned in four columns: the number,
/// after as many spaces as make four characters, none where it is longer.
pub proof fn lemma_line_number_padding(d: Seq<char>)
    ensures
        pad4(d).len() == if d.len() < 4 { 4 } else { d.len() },
        pad4(d).subrange(pad4(d).len() - d.len(), pad4(d).len() as int) == d,
        forall|i: int| 0 <= i < pad4(d).len() - d.len() ==> pad4(d)[i] == ' ',
{
    assert(pad4(d).subrange(pad4(d).len() - d.len(), pad4(d).len() as int) =~= d);
}

/// Whether a range of lines can be read: it does not begin after it ends.
pub open spec fn readable_range(content: Seq<char>, start: Option<u64>, end: Option<u64>) -> bool {
    (start is Some || end is Some) ==> first_read_line(start) <= end_read_line(end, lines(content).len() as int)
}

/// Whether a range of lines can be read from the text (see `readable_range`).
pub fn is_readable_range(content: &str, start: Option<u64>, end: Option<u64>) -> (b: bool)
    ensures
        b == readable_range(content@, start, end),
{
    if start.is_none() && end.is_none() {
        return true;
    }
    let chars = chars_of(content);
    let ls = lines_vec(&chars);
    proof {
        assert(views(ls@).len() == ls@.len());
    }
    let n = ls.len();
    let s: u64 = match start {
        Some(x) => if x == 0 { 0 } else { x - 1 },
        None => 0,
    };
    let e: u64 = match end {
        Some(x) => if x < n as u64 { x } else { n as u64 },
        None => n as u64,
    };
    s <= e
}

fn pad4_string(d: &String) -> (r: String)
    ensures
        r@ == pad4(d@),
{
    let v = chars_of(d.as_str());
    if v.len() < 4 {
        let mut r = String::new();
        let mut k: usize = 0;
        while k < 4 - v.len()
            invariant
                v@.len() < 4,
                k <= 4 - v@.len(),
                r@ =~= Seq::new(k as nat, |i: int| ' '),
            decreases 4 - v@.len() - k,
        {
            crate::text::push_char(&mut r, ' ');
            k = k + 1;
        }
        push_str(&mut r, d.as_str());
        r
    } else {
        d.clone()
    }
}

/// The result of reading a file (see `read_file_text`).
pub fn read_file_reply(path: &str, content: &str, start: Option<u64>, end: Option<u64>) -> (r: String)
    requires
        readable_range(content@, start, end),
    ensures
        r@ == read_file_text(path@, content@, start, end),
{
    let mut r = String::from_str("File: ");
    push_str(&mut r, path);
    if start.is_none() && end.is_none() {
        push_str(&mut r, "\n```\n");
        push_str(&mut r, content);
        push_str(&mut r, "\n```");
        return r;
    }
    let chars = chars_of(content);
    let ls = lines_vec(&chars);
    let n = ls.len();
    let s: u64 = match start {
        Some(x) => if x == 0 { 0 } else { x - 1 },
        None => 0,
    };
    let e: usize = match end {
        Some(x) => if x < n as u64 { x as usize } else { n },
        None => n,
    };
    proof {
        assert(views(ls@).len() == ls@.len());
    }
    let s = s as usize;
    push_str(&mut r, " (lines ");
    let a = decimal_string(s as u64 + 1);
    push_str(&mut r, a.as_str());
    push_str(&mut r, "-");
    let b = decimal_string(e as u64);
    push_str(&mut r, b.as_str());
    push_str(&mut r, ")\n```\n");
    let mut numbered: Vec<Vec<char>> = Vec::new();
    let mut k: usize = s;
    let ghost target = numbered_lines(lines(content@), s as int, e as int);
    while k < e
        invariant
            s <= k <= e <= ls@.len(),
            views(ls@) == lines(content@),
            target == numbered_lines(lines(content@), s as int, e as int),
            views(numbered@) =~= target.subrange(0, k - s),
        decreases e - k,
    {
        let num = decimal_string(k as u64 + 1);
        let mut line = pad4_string(&num);
        push_str(&mut line, ": ");
        let body = string_of(&ls[k]);
        push_str(&mut line, body.as_str());
        let ghost v0 = views(numbered@);
        numbered.push(chars_of(line.as_str()));
        proof {
            assert(views(numbered@) =~= v0.push(line@));
            assert(views(ls@)[k as int] == ls@[k as int]@);
        }
        k = k + 1;
    }
    proof {
        assert(views(numbered@) =~= target);
    }
    push_joined(&mut r, &numbered, "\n");
    push_str(&mut r, "\n```");
    r
}

/// The result of a file that could not be read.
pub fn read_error_reply(path: &str, error: &str) -> (r: String)
    ensures
        r@ == "Error reading '"@ + path@ + "': "@ + error@,
{
    let mut r = String::from_str("Error reading '");
    push_str(&mut r, path);
    push_str(&mut r, "': ");
    push_str(&mut r, error);
    r
}

/// The outcome of writing a file.
pub enum WriteOutcome {
    /// The parent directories could not be created.
    DirectoriesFailed(String),
    /// The file could not be written.
    WriteFailed(String),
    /// The file was written.
    Written,
}

/// The result of writing a file: the bytes written, or what failed.
pub fn write_file_reply(path: &str, content: &str, outcome: &WriteOutcome) -> (r: String)
    ensures
        r@ == match outcome {
            WriteOutcome::DirectoriesFailed(e) => "Error creating directories for '"@ + path@ + "': "@ + e@,
            WriteOutcome::WriteFailed(e) => "Error writing '"@ + path@ + "': "@ + e@,
            WriteOutcome::Written => "Wrote "@ + decimal(utf8_len(content@)) + " bytes to '"@ + path@ + "'"@,
        },
{
    match outcome {
        WriteOutcome::DirectoriesFailed(e) => {
            let mut r = String::from_str("Error creating directories for '");
            push_str(&mut r, path);
            push_str(&mut r, "': ");
            push_str(&mut r, e.as_str());
            r
        },
        WriteOutcome::WriteFailed(e) => {
            let mut r = String::from_str("Error writing '");
            push_str(&mut r, path);
            push_str(&mut r, "': ");
            push_str(&mut r, e.as_str());
            r
        },
        WriteOutcome::Written => {
            let mut r = String::from_str("Wrote ");
            let n = decimal_string(byte_len(content) as u64);
            push_str(&mut r, n.as_str());
            push_str(&mut r, " bytes to '");
            push_str(&mut r, path);
            push_str(&mut r, "'");
            r
        },
    }
}

/// The result of a shell command: its exit code, `-1` where it has none,
/// then its output and its error output where they are not empty, each
/// without trailing whitespace.
pub open spec fn bash_text(code: Option<i32>, stdout: Seq<char>, stderr: Seq<char>) -> Seq<char> {
    "Exit code: "@ + signed_decimal(match code { Some(c) => c as int, None => -1 })
        + (if stdout.len() > 0 { "\nSTDOUT:\n"@ + trim_end(stdout) } else { Seq::empty() })
        + (if stderr.len() > 0 { "\nSTDERR:\n"@ + trim_end(stderr) } else { Seq::empty() })
}

fn push_signed(out: &mut String, n: i32)
    ensures
        final(out)@ == old(out)@ + signed_decimal(n as int),
{
    if n < 0 {
        push_str(out, "-");
        let m: i64 = -(n as i64);
        let d = decimal_string(m as u64);
        push_str(out, d.as_str());
    } else {
        let d = decimal_string(n as u64);
        push_str(out, d.as_str());
    }
}

/// The result of a shell command (see `bash_text`).
pub fn bash_reply(code: Option<i32>, stdout: &str, stderr: &str) -> (r: String)
    ensures
        r@ == bash_text(code, stdout@, stderr@),
{
    let mut r = String::from_str("Exit code: ");
    let c = match code {
        Some(c) => c,
        None => -1,
    };
    push_signed(&mut r, c);
    let ghost r1 = r@;
    if !stdout.is_empty() {
        push_str(&mut r, "\nSTDOUT:\n");
        let t = string_of(&trim_end_vec(&chars_of(stdout)));
        push_str(&mut r, t.as_str());
    }
    let ghost r2 = r@;
    if !stderr.is_empty() {
        push_str(&mut r, "\nSTDERR:\n");
        let t = string_of(&trim_end_vec(&chars_of(stderr)));
        push_str(&mut r, t.as_str());
    }
    proof {
        if stdout@.len() == 0 {
            assert(r2 =~= r1 + Seq::<char>::empty());
        }
        if stderr@.len() == 0 {
            assert(r@ =~= r2 + Seq::<char>::empty());
        }
    }
    r
}

/// The result of a command that could not be run.
pub fn command_error_reply(error: &str) -> (r: String)
    ensures
        r@ == "Error running command: "@ + error@,
{
    let mut r = String::from_str("Error running command: ");
    push_str(&mut r, error);
    r
}

/// Whether `a` comes before `b`, or equals it, byte by byte.
pub open spec fn bytes_le(a: Seq<u8>, b: Seq<u8>) -> bool
    decreases a.len(),
{
    if a.len() == 0 {
        true
    } else if b.len() == 0 {
        false
    } else if a[0] != b[0] {
        a[0] < b[0]
    } else {
        bytes_le(a.drop_first(), b.drop_first())
    }
}

/// The order of strings: by their UTF-8 bytes, lexicographically.
pub open spec fn text_le(a: Seq<char>, b: Seq<char>) -> bool {
    bytes_le(vstd::utf8::encode_utf8(a), vstd::utf8::encode_utf8(b))
}

/// Sorts strings with `slice::sort`; claims that the result holds the same
/// strings, ordered as `str`'s `Ord` orders them, by their bytes.
#[verifier::external_body]
fn sort_strings(v: &mut Vec<String>)
    ensures
        string_views(final(v)@).to_multiset() == string_views(old(v)@).to_multiset(),
        final(v)@.len() == old(v)@.len(),
        forall|i: int, j: int| 0 <= i < j < final(v)@.len() ==> text_le(#[trigger] final(v)@[i]@, #[trigger] final(v)@[j]@),
{
    v.sort();
}

/// The result of a file search: the matching paths, sorted, or that none match.
pub fn glob_reply(pattern: &str, paths: Vec<String>) -> (r: String)
    ensures
        paths@.len() == 0 ==> r@ == "No files match '"@ + pattern@ + "'"@,
        paths@.len() > 0 ==> exists|sorted: Seq<Seq<char>>| {
            &&& sorted.to_multiset() == string_views(paths@).to_multiset()
            &&& (forall|i: int, j: int| 0 <= i < j < sorted.len() ==> text_le(#[trigger] sorted[i], #[trigger] sorted[j]))
            &&& r@ == "Found "@ + decimal(paths@.len()) + " file(s) matching '"@ + pattern@ + "':\n"@ + join_lines(sorted)
        },
{
    let ghost orig = string_views(paths@);
    let mut list = paths;
    if list.len() == 0 {
        let mut r = String::from_str("No files match '");
        push_str(&mut r, pattern);
        push_str(&mut r, "'");
        return r;
    }
    sort_strings(&mut list);
    let mut r = String::from_str("Found ");
    let n = decimal_string(list.len() as u64);
    push_str(&mut r, n.as_str());
    push_str(&mut r, " file(s) matching '");
    push_str(&mut r, pattern);
    push_str(&mut r, "':\n");
    let mut texts: Vec<Vec<char>> = Vec::new();
    let mut i: usize = 0;
    while i < list.len()
        invariant
            i <= list@.len(),
            views(texts@) =~= string_views(list@).subrange(0, i as int),
        decreases list@.len() - i,
    {
        let ghost v0 = views(texts@);
        texts.push(chars_of(list[i].as_str()));
        proof {
            assert(views(texts@) =~= v0.push(list@[i as int]@));
        }
        i = i + 1;
    }
    proof {
        assert(views(texts@) =~= string_views(list@));
        let sorted = string_views(list@);
        assert forall|i: int, j: int| 0 <= i < j < sorted.len() implies text_le(#[trigger] sorted[i], #[trigger] sorted[j]) by {
            assert(sorted[i] == list@[i]@);
            assert(sorted[j] == list@[j]@);
        }
    }
    push_joined(&mut r, &texts, "\n");
    proof {
        let sorted = string_views(list@);
        assert(sorted.to_multiset() == orig.to_multiset());
        assert(r@ == "Found "@ + decimal(orig.len()) + " file(s) matching '"@ + pattern@ + "':\n"@ + join_lines(sorted));
    }
    r
}

/// The result of a pattern the search could not use.
pub fn glob_error_reply(pattern: &str, error: &str) -> (r: String)
    ensures
        r@ == "Invalid glob pattern '"@ + pattern@ + "': "@ + error@,
{
    let mut r = String::from_str("Invalid glob pattern '");
    push_str(&mut r, pattern);
    push_str(&mut r, "': ");
    push_str(&mut r, error);
    r
}

/// A text with every occurrence of a pattern removed, left to right.
pub open spec fn remove_all(s: Seq<char>, p: Seq<char>) -> Seq<char>
    decreases s.len(),
{
    if p.len() == 0 || s.len() == 0 {
        s
    } else if starts_with(s, p) {
        remove_all(s.subrange(p.len() as int, s.len() as int), p)
    } else {
        seq![s[0]] + remove_all(s.drop_first(), p)
    }
}

/// A text with every occurrence of a pattern removed (see `remove_all`).
pub fn remove_occurrences(s: &str, p: &str) -> (r: String)
    ensures
        r@ == remove_all(s@, p@),
{
    let v = chars_of(s);
    let pv = chars_of(p);
    if pv.len() == 0 {
        return s.to_owned();
    }
    let mut out: Vec<char> = Vec::new();
    let mut i: usize = 0;
    assert(v@.subrange(0, v@.len() as int) =~= v@);
    while i < v.len()
        invariant
            i <= v@.len(),
            pv@.len() > 0,
            v@ == s@,
            pv@ == p@,
            remove_all(s@, p@) == out@ + remove_all(v@.subrange(i as int, v@.len() as int), p@),
        decreases v@.len() - i,
    {
        let ghost rest = v@.subrange(i as int, v@.len() as int);
        if pv.len() <= v.len() - i && crate::text::occurs_at(&v, &pv, i) {
            proof {
                assert(rest.subrange(0, pv@.len() as int) =~= v@.subrange(i as int, i + pv@.len()));
                assert(rest.subrange(pv@.len() as int, rest.len() as int) =~= v@.subrange(i + pv@.len(), v@.len() as int));
            }
            i = i + pv.len();
        } else {
            proof {
                if pv@.len() <= rest.len() {
                    assert(rest.subrange(0, pv@.len() as int) =~= v@.subrange(i as int, i + pv@.len()));
                }
                assert(rest.drop_first() =~= v@.subrange(i + 1, v@.len() as int));
                assert(out@.push(v@[i as int]) =~= out@ + seq![rest[0]]);
            }
            out.push(v[i]);
            i = i + 1;
        }
    }
    string_of(&out)
}

/// The result of a content search: the matches with the working directory
/// removed from their paths, or that nothing matched.
pub open spec fn grep_text(pattern: Seq<char>, stdout: Seq<char>, working_dir: Seq<char>) -> Seq<char> {
    if stdout.len() == 0 {
        "No matches for '"@ + pattern + "'"@
    } else {
        "Matches for '"@ + pattern + "':\n"@ + trim_end(remove_all(stdout, working_dir + "/"@))
    }
}

impl ToolRegistry {
    /// The result of a content search (see `grep_text`).
    pub fn grep_reply(&self, pattern: &str, stdout: &str) -> (r: String)
        ensures
            r@ == grep_text(pattern@, stdout@, self.working_dir@),
    {
        if stdout.is_empty() {
            let mut r = String::from_str("No matches for '");
            push_str(&mut r, pattern);
            push_str(&mut r, "'");
            return r;
        }
        let mut base = self.working_dir.clone();
        push_str(&mut base, "/");
        let cleaned = remove_occurrences(stdout, base.as_str());
        let mut r = String::from_str("Matches for '");
        push_str(&mut r, pattern);
        push_str(&mut r, "':\n");
        let t = string_of(&trim_end_vec(&chars_of(cleaned.as_str())));
        push_str(&mut r, t.as_str());
        r
    }
}

/// The result of a search that could not be run.
pub fn search_error_reply(error: &str) -> (r: String)
    ensures
        r@ == "Error: "@ + error@,
{
    let mut r = String::from_str("Error: ");
    push_str(&mut r, error);
    r
}

} // verus!

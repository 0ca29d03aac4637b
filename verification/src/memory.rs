//! The workspace layout under `.mullande` and its setup, the write
//! transactions on the memory repository `.mullande/.memory`, and the
//! conversation kept there in `CONVERSATIONS.md`.
use vstd::prelude::*;
use crate::clock::{Timestamp, utc_rfc3339};
use crate::config::opt_view;
use crate::text::{
    byte_len, decimal, decimal_string, push_str, utf8_len,
    chars_of, extend_vec, join_path, lines, lines_vec, path_join, slice_vec, starts_with,
    starts_with_vec, string_of, string_views, trim, trim_vec, views,
};

verus! {

/// The file of the memory repository that holds the conversation log.
pub open spec fn conversation_file() -> Seq<char> {
    "CONVERSATIONS.md"@
}

/// The directories of a workspace: the project root, `.mullande` inside it,
/// and the memory repository `.mullande/.memory`.
#[derive(Clone, Debug)]
pub struct WorkspaceManager {
    pub root_dir: String,
    pub mullande_dir: String,
    pub memory_dir: String,
}

impl WorkspaceManager {
    /// The directories laid out under `root`.
    pub open spec fn laid_out_under(&self, root: Seq<char>) -> bool {
        &&& self.root_dir@ == root
        &&& self.mullande_dir@ == path_join(root, ".mullande"@)
        &&& self.memory_dir@ == path_join(path_join(root, ".mullande"@), ".memory"@)
    }

    /// A workspace rooted at `root`.
    pub fn new(root: &str) -> (w: Self)
        ensures
            w.laid_out_under(root@),
    {
        let mullande = join_path(root, ".mullande");
        let memory = join_path(mullande.as_str(), ".memory");
        WorkspaceManager { root_dir: root.to_owned(), mullande_dir: mullande, memory_dir: memory }
    }

    /// The path of the memory repository.
    pub fn get_memory_path(&self) -> (p: &String)
        ensures
            p == &self.memory_dir,
    {
        &self.memory_dir
    }

    /// The three paths whose existence makes a workspace initialized: the
    /// workspace directory, the memory repository, and its `.git` directory.
    pub fn initialization_markers(&self) -> (r: (String, String, String))
        ensures
            r.0@ == self.mullande_dir@,
            r.1@ == self.memory_dir@,
            r.2@ == path_join(self.memory_dir@, ".git"@),
    {
        (self.mullande_dir.clone(), self.memory_dir.clone(), join_path(self.memory_dir.as_str(), ".git"))
    }

    /// Whether the workspace is initialized, given whether each of its
    /// three markers (see `initialization_markers`) exists.
    pub fn is_initialized(&self, mullande_exists: bool, memory_exists: bool, git_exists: bool) -> (b: bool)
        ensures
            b == (mullande_exists && memory_exists && git_exists),
    {
        mullande_exists && memory_exists && git_exists
    }
}

/// One step of setting up a workspace, run by the caller in order.
pub enum InitStep {
    /// Create a directory and its parents, whatever comes of it.
    CreateDir(String),
    /// Create the git repository in the memory directory (`git init`).
    GitInit,
    /// Set a git configuration value, whatever comes of it.
    GitConfig(String, String),
    /// Write a file of the memory repository (its full path, its text).
    WriteFile(String, String),
    /// Add a file to the index (`git add`, path relative to the repository), whatever comes of it.
    GitAdd(String),
    /// Commit the index with a message.
    Commit(String),
}

/// An `InitStep` with its texts as sequences of characters.
pub enum InitStepView {
    CreateDir(Seq<char>),
    GitInit,
    GitConfig(Seq<char>, Seq<char>),
    WriteFile(Seq<char>, Seq<char>),
    GitAdd(Seq<char>),
    Commit(Seq<char>),
}

impl View for InitStep {
    type V = InitStepView;

    open spec fn view(&self) -> InitStepView {
        match self {
            InitStep::CreateDir(d) => InitStepView::CreateDir(d@),
            InitStep::GitInit => InitStepView::GitInit,
            InitStep::GitConfig(k, v) => InitStepView::GitConfig(k@, v@),
            InitStep::WriteFile(p, t) => InitStepView::WriteFile(p@, t@),
            InitStep::GitAdd(p) => InitStepView::GitAdd(p@),
            InitStep::Commit(m) => InitStepView::Commit(m@),
        }
    }
}

impl InitStepView {
    /// Whether a failure of this step ends the setup with an error; the
    /// other steps are tried and their outcome is ignored.
    pub open spec fn fatal(self) -> bool {
        self is GitInit || self is WriteFile || self is Commit
    }
}

impl InitStep {
    /// Whether a failure of this step ends the setup (see `InitStepView::fatal`).
    pub fn aborts_on_failure(&self) -> (b: bool)
        ensures
            b == self@.fatal(),
    {
        match self {
            InitStep::GitInit => true,
            InitStep::WriteFile(_, _) => true,
            InitStep::Commit(_) => true,
            _ => false,
        }
    }
}

/// The `.gitignore` written into a new memory repository.
pub open spec fn memory_gitignore() -> Seq<char> {
    "# OS files\n.DS_Store\nThumbs.db\n\n# Temporary files\n*.tmp\n*.log\n"@
}

/// The steps that set up a workspace laid out as `w`, given which of its
/// directories, its `.git` directory and its `.gitignore` exist already.
pub open spec fn init_steps(
    w: WorkspaceManager,
    mullande_exists: bool,
    memory_exists: bool,
    git_exists: bool,
    gitignore_exists: bool,
) -> Seq<InitStepView> {
    let dirs = if mullande_exists { Seq::<InitStepView>::empty() } else { seq![InitStepView::CreateDir(w.mullande_dir@)] }
        + if memory_exists { Seq::<InitStepView>::empty() } else { seq![InitStepView::CreateDir(w.memory_dir@)] };
    if git_exists {
        dirs
    } else {
        let repo = dirs + seq![
            InitStepView::GitInit,
            InitStepView::GitConfig("user.name"@, "mullande"@),
            InitStepView::GitConfig("user.email"@, "mullande@localhost"@),
        ];
        if gitignore_exists {
            repo
        } else {
            repo + seq![
                InitStepView::WriteFile(path_join(w.memory_dir@, ".gitignore"@), memory_gitignore()),
                InitStepView::GitAdd(".gitignore"@),
                InitStepView::Commit("Initial commit: Add .gitignore"@),
            ]
        }
    }
}

/// A workspace whose directories and repository exist needs no setup: setting
/// it up again does nothing.
pub proof fn lemma_setup_settles(w: WorkspaceManager, gitignore_exists: bool)
    ensures
        init_steps(w, true, true, true, gitignore_exists) == Seq::<InitStepView>::empty(),
{
    assert(Seq::<InitStepView>::empty() + Seq::<InitStepView>::empty() =~= Seq::<InitStepView>::empty());
}

/// What exists of a workspace: its directory, its memory directory, the
/// memory repository's `.git`, and its `.gitignore`.
pub struct SetupState {
    pub mullande_exists: bool,
    pub memory_exists: bool,
    pub git_exists: bool,
    pub gitignore_exists: bool,
}

/// What exists after a setup step of workspace `w` succeeds: a directory
/// made with its parents (the memory directory lies in the workspace
/// directory), the repository made by `git init`, the `.gitignore` written.
pub open spec fn after_step(w: WorkspaceManager, st: SetupState, step: InitStepView) -> SetupState {
    match step {
        InitStepView::CreateDir(d) => if d == w.memory_dir@ {
            SetupState { mullande_exists: true, memory_exists: true, ..st }
        } else if d == w.mullande_dir@ {
            SetupState { mullande_exists: true, ..st }
        } else {
            st
        },
        InitStepView::GitInit => SetupState { git_exists: true, ..st },
        InitStepView::WriteFile(p, _) => if p == path_join(w.memory_dir@, ".gitignore"@) {
            SetupState { gitignore_exists: true, ..st }
        } else {
            st
        },
        _ => st,
    }
}

/// What exists after the steps all succeed, in order.
pub open spec fn after_steps(w: WorkspaceManager, st: SetupState, steps: Seq<InitStepView>) -> SetupState
    decreases steps.len(),
{
    if steps.len() == 0 {
        st
    } else {
        after_step(w, after_steps(w, st, steps.drop_last()), steps.last())
    }
}

/// The steps that set up the workspace from what exists.
pub open spec fn setup_steps(w: WorkspaceManager, st: SetupState) -> Seq<InitStepView> {
    init_steps(w, st.mullande_exists, st.memory_exists, st.git_exists, st.gitignore_exists)
}

proof fn lemma_after_steps_concat(w: WorkspaceManager, st: SetupState, a: Seq<InitStepView>, b: Seq<InitStepView>)
    ensures
        after_steps(w, st, a + b) == after_steps(w, after_steps(w, st, a), b),
    decreases b.len(),
{
    if b.len() == 0 {
        assert(a + b =~= a);
    } else {
        lemma_after_steps_concat(w, st, a, b.drop_last());
        assert((a + b).drop_last() =~= a + b.drop_last());
        assert((a + b).last() == b.last());
    }
}

proof fn lemma_after_one_step(w: WorkspaceManager, st: SetupState, step: InitStepView)
    ensures
        after_steps(w, st, seq![step]) == after_step(w, st, step),
{
    assert(seq![step].drop_last() =~= Seq::<InitStepView>::empty());
    assert(seq![step].last() == step);
    assert(after_steps(w, st, Seq::<InitStepView>::empty()) == st);
}

proof fn lemma_after_three_steps(w: WorkspaceManager, st: SetupState, a: InitStepView, b: InitStepView, c: InitStepView)
    ensures
        after_steps(w, st, seq![a, b, c]) == after_step(w, after_step(w, after_step(w, st, a), b), c),
{
    let s3 = seq![a, b, c];
    assert(s3.drop_last() =~= seq![a, b]);
    assert(seq![a, b].drop_last() =~= seq![a]);
    assert(s3.last() == c);
    assert(seq![a, b].last() == b);
    lemma_after_one_step(w, st, a);
    assert(after_steps(w, st, seq![a, b]) == after_step(w, after_steps(w, st, seq![a]), b));
    assert(after_steps(w, st, s3) == after_step(w, after_steps(w, st, seq![a, b]), c));
}

/// Setting a workspace up twice: once every step of the first setup has
/// succeeded, whatever existed before it, the second setup has nothing to do.
pub proof fn lemma_setup_is_idempotent(w: WorkspaceManager, st: SetupState)
    ensures
        setup_steps(w, after_steps(w, st, setup_steps(w, st))) == Seq::<InitStepView>::empty(),
{
    let dir1: Seq<InitStepView> = if st.mullande_exists { Seq::empty() } else { seq![InitStepView::CreateDir(w.mullande_dir@)] };
    let dir2: Seq<InitStepView> = if st.memory_exists { Seq::empty() } else { seq![InitStepView::CreateDir(w.memory_dir@)] };
    let dirs = dir1 + dir2;
    let repo = seq![
        InitStepView::GitInit,
        InitStepView::GitConfig("user.name"@, "mullande"@),
        InitStepView::GitConfig("user.email"@, "mullande@localhost"@),
    ];
    let ignore = seq![
        InitStepView::WriteFile(path_join(w.memory_dir@, ".gitignore"@), memory_gitignore()),
        InitStepView::GitAdd(".gitignore"@),
        InitStepView::Commit("Initial commit: Add .gitignore"@),
    ];
    assert(after_steps(w, st, Seq::empty()) == st);
    lemma_after_steps_concat(w, st, dir1, dir2);
    if !st.mullande_exists {
        lemma_after_one_step(w, st, InitStepView::CreateDir(w.mullande_dir@));
    }
    let s1 = after_steps(w, st, dir1);
    if !st.memory_exists {
        lemma_after_one_step(w, s1, InitStepView::CreateDir(w.memory_dir@));
    } else {
        assert(after_steps(w, s1, dir2) == s1);
    }
    let sd = after_steps(w, st, dirs);
    assert(sd.mullande_exists && sd.memory_exists);
    if !st.git_exists {
        lemma_after_steps_concat(w, st, dirs, repo);
        lemma_after_three_steps(w, sd, repo[0], repo[1], repo[2]);
        assert(repo =~= seq![repo[0], repo[1], repo[2]]);
        let sr = after_steps(w, st, dirs + repo);
        assert(sr.mullande_exists && sr.memory_exists && sr.git_exists);
        if !st.gitignore_exists {
            lemma_after_steps_concat(w, st, dirs + repo, ignore);
            lemma_after_three_steps(w, sr, ignore[0], ignore[1], ignore[2]);
            assert(ignore =~= seq![ignore[0], ignore[1], ignore[2]]);
            assert(dirs + repo + ignore == setup_steps(w, st));
        } else {
            assert(dirs + repo == setup_steps(w, st));
        }
    } else {
        assert(dirs == setup_steps(w, st));
    }
    let fin = after_steps(w, st, setup_steps(w, st));
    assert(fin.mullande_exists && fin.memory_exists && fin.git_exists);
    lemma_setup_settles(w, fin.gitignore_exists);
}

impl WorkspaceManager {
    /// The steps that set up this workspace (see `init_steps`): the caller
    /// runs them in order and stops with an error at the first fatal step
    /// that fails.
    pub fn initialize(&self, mullande_exists: bool, memory_exists: bool, git_exists: bool, gitignore_exists: bool) -> (steps: Vec<InitStep>)
        ensures
            steps@.map_values(|s: InitStep| s@) == init_steps(*self, mullande_exists, memory_exists, git_exists, gitignore_exists),
    {
        let mut steps: Vec<InitStep> = Vec::new();
        if !mullande_exists {
            steps.push(InitStep::CreateDir(self.mullande_dir.clone()));
        }
        if !memory_exists {
            steps.push(InitStep::CreateDir(self.memory_dir.clone()));
        }
        if !git_exists {
            steps.push(InitStep::GitInit);
            steps.push(InitStep::GitConfig(String::from_str("user.name"), String::from_str("mullande")));
            steps.push(InitStep::GitConfig(String::from_str("user.email"), String::from_str("mullande@localhost")));
            if !gitignore_exists {
                let text = String::from_str("# OS files\n.DS_Store\nThumbs.db\n\n# Temporary files\n*.tmp\n*.log\n");
                steps.push(InitStep::WriteFile(join_path(self.memory_dir.as_str(), ".gitignore"), text));
                steps.push(InitStep::GitAdd(String::from_str(".gitignore")));
                steps.push(InitStep::Commit(String::from_str("Initial commit: Add .gitignore")));
            }
        }
        assert(steps@.map_values(|s: InitStep| s@) =~= init_steps(*self, mullande_exists, memory_exists, git_exists, gitignore_exists));
        steps
    }
}

impl WorkspaceManager {
    /// Whether the memory repository has changes, given what
    /// `git status --porcelain` printed (`None` where git could not be run):
    /// anything but white space.
    pub fn git_has_changes(&self, porcelain: Option<&str>) -> (b: bool)
        ensures
            b == match porcelain {
                Some(o) => trim(o@).len() > 0,
                None => false,
            },
    {
        match porcelain {
            Some(o) => {
                let v = chars_of(o);
                trim_vec(&v).len() > 0
            },
            None => false,
        }
    }
}

/// The non-empty lines of a text.
pub open spec fn nonempty(ls: Seq<Seq<char>>) -> Seq<Seq<char>>
    decreases ls.len(),
{
    if ls.len() == 0 {
        Seq::empty()
    } else if ls.last().len() > 0 {
        nonempty(ls.drop_last()).push(ls.last())
    } else {
        nonempty(ls.drop_last())
    }
}

/// Access to files of the memory repository.
#[derive(Clone, Debug)]
pub struct Memory {
    pub workspace: WorkspaceManager,
    pub memory_dir: String,
}

impl Memory {
    /// Memory access within the given workspace.
    pub fn new(workspace: WorkspaceManager) -> (m: Self)
        ensures
            m.workspace == workspace,
            m.memory_dir@ == workspace.memory_dir@,
    {
        let mem = workspace.get_memory_path().clone();
        Memory { workspace, memory_dir: mem }
    }

    /// The files of the repository, from what `git ls-files` gave: its
    /// output where it succeeded, else what it wrote to standard error.
    pub fn list_files(&self, listing: Result<&str, &str>) -> (r: Result<Vec<String>, String>)
        ensures
            match listing {
                Ok(out) => r matches Ok(files) && string_views(files@) == nonempty(lines(out@)),
                Err(msg) => r matches Err(e) && e@ == "Failed to list files: "@ + msg@,
            },
    {
        match listing {
            Ok(out) => {
                let v = chars_of(out);
                let ls = lines_vec(&v);
                let mut files: Vec<String> = Vec::new();
                let mut i: usize = 0;
                while i < ls.len()
                    invariant
                        i <= ls@.len(),
                        string_views(files@) == nonempty(views(ls@).subrange(0, i as int)),
                    decreases ls@.len() - i,
                {
                    proof {
                        assert(views(ls@).subrange(0, i + 1).drop_last() =~= views(ls@).subrange(0, i as int));
                    }
                    if ls[i].len() > 0 {
                        files.push(string_of(&ls[i]));
                    }
                    proof {
                        assert(string_views(files@) =~= nonempty(views(ls@).subrange(0, i + 1)));
                    }
                    i = i + 1;
                }
                proof {
                    assert(views(ls@).subrange(0, ls@.len() as int) =~= views(ls@));
                }
                Ok(files)
            },
            Err(msg) => {
                let mut e = String::from_str("Failed to list files: ");
                push_str(&mut e, msg);
                Err(e)
            },
        }
    }

    /// The full path of a file of the memory repository.
    pub fn resolve_path(&self, path: &str) -> (r: String)
        ensures
            r@ == path_join(self.memory_dir@, path@),
    {
        join_path(self.memory_dir.as_str(), path)
    }
}

/// Where the conversation parser is between lines.
#[derive(PartialEq, Eq, Structural, Clone, Copy)]
pub enum ScanState {
    WaitingUser,
    InUser,
    InAgent,
}

/// The marker that opens a user turn.
pub open spec fn user_marker() -> Seq<char> {
    "**User:**"@
}

/// The marker that opens an agent turn.
pub open spec fn agent_marker() -> Seq<char> {
    "**Agent:**"@
}

/// Whether a trimmed line carries no turn text: a separator, a timestamp
/// line, a heading, or an empty line.
pub open spec fn is_skipped_line(t: Seq<char>) -> bool {
    ||| starts_with(t, "---"@)
    ||| starts_with(t, "**["@)
    ||| starts_with(t, seq!['#'])
    ||| t.len() == 0
}

/// The scanner's state: where it is, the user text and agent text collected
/// so far for the current turn, and the finished history.
pub type Scan = (ScanState, Seq<char>, Seq<char>, Seq<Seq<char>>);

/// One line of the conversation log read into the scan.
pub open spec fn scan_line(st: Scan, line: Seq<char>) -> Scan {
    let t = trim(line);
    let (state, user, agent, history) = st;
    if is_skipped_line(t) {
        st
    } else if starts_with(t, user_marker()) {
        let rest = t.subrange(user_marker().len() as int, t.len() as int).push('\n');
        if state == ScanState::InAgent && user.len() > 0 && agent.len() > 0 {
            (ScanState::InUser, rest, Seq::empty(), history.push(trim(user)).push(trim(agent)))
        } else {
            (ScanState::InUser, user + rest, agent, history)
        }
    } else if starts_with(t, agent_marker()) {
        let rest = t.subrange(agent_marker().len() as int, t.len() as int).push('\n');
        (ScanState::InAgent, user, agent + rest, history)
    } else if state == ScanState::InUser {
        (state, user + line.push('\n'), agent, history)
    } else if state == ScanState::InAgent {
        (state, user, agent + line.push('\n'), history)
    } else {
        st
    }
}

/// The scan after reading the given lines in order.
pub open spec fn scan_lines(lines: Seq<Seq<char>>) -> Scan
    decreases lines.len(),
{
    if lines.len() == 0 {
        (ScanState::WaitingUser, Seq::empty(), Seq::empty(), Seq::empty())
    } else {
        scan_line(scan_lines(lines.drop_last()), lines.last())
    }
}

/// The history once the last, possibly unanswered, turn is closed.
pub open spec fn finish_scan(st: Scan) -> Seq<Seq<char>> {
    let (state, user, agent, history) = st;
    if state == ScanState::InUser && user.len() > 0 {
        history.push(trim(user))
    } else if user.len() > 0 && agent.len() > 0 {
        history.push(trim(user)).push(trim(agent))
    } else {
        history
    }
}

/// The alternating user and agent texts recorded in a conversation log.
pub open spec fn conversation_history(content: Seq<char>) -> Seq<Seq<char>> {
    finish_scan(scan_lines(lines(content)))
}

fn literal_chars(s: &str) -> (v: Vec<char>)
    ensures
        v@ == s@,
{
    chars_of(s)
}

fn push_line(acc: &mut Vec<char>, line: &Vec<char>)
    ensures
        final(acc)@ == old(acc)@ + line@.push('\n'),
{
    extend_vec(acc, line);
    acc.push('\n');
    assert(acc@ =~= old(acc)@ + line@.push('\n'));
}

fn push_rest(acc: &mut Vec<char>, t: &Vec<char>, skip: usize)
    requires
        skip <= t@.len(),
    ensures
        final(acc)@ == old(acc)@ + t@.subrange(skip as int, t@.len() as int).push('\n'),
{
    let rest = slice_vec(t, skip, t.len());
    push_line(acc, &rest);
}

impl Memory {
    /// The turns recorded in the conversation log, user and agent text
    /// alternating; `content` is the log's text, `None` where the log does not exist.
    pub fn load_conversation_history(&self, content: Option<&str>) -> (h: Vec<String>)
        ensures
            content is None ==> h@.len() == 0,
            content matches Some(c) ==> string_views(h@) == conversation_history(c@),
    {
        match content {
            None => Vec::new(),
            Some(c) => parse_conversation(c),
        }
    }
}

fn scan_one(
    state: &mut ScanState,
    user: &mut Vec<char>,
    agent: &mut Vec<char>,
    history: &mut Vec<String>,
    line: &Vec<char>,
    um: &Vec<char>,
    am: &Vec<char>,
)
    requires
        um@ == user_marker(),
        am@ == agent_marker(),
    ensures
        (*final(state), final(user)@, final(agent)@, string_views(final(history)@)) == scan_line(
            (*old(state), old(user)@, old(agent)@, string_views(old(history)@)),
            line@,
        ),
{
    let t = trim_vec(line);
    let dashes = literal_chars("---");
    let stamp = literal_chars("**[");
    let hash = literal_chars("#");
    proof {
        reveal_strlit("#");
        assert(hash@ =~= seq!['#']);
    }
    if starts_with_vec(&t, &dashes) || starts_with_vec(&t, &stamp) || starts_with_vec(&t, &hash)
        || t.len() == 0 {
        return ;
    }
    if starts_with_vec(&t, um) {
        if *state == ScanState::InAgent && user.len() > 0 && agent.len() > 0 {
            let ghost h0 = string_views(history@);
            let tu = string_of(&trim_vec(user));
            let ta = string_of(&trim_vec(agent));
            history.push(tu);
            history.push(ta);
            proof {
                assert(string_views(history@) =~= h0.push(trim(old(user)@)).push(trim(old(agent)@)));
            }
            *user = Vec::new();
            *agent = Vec::new();
        }
        *state = ScanState::InUser;
        push_rest(user, &t, um.len());
    } else if starts_with_vec(&t, am) {
        *state = ScanState::InAgent;
        push_rest(agent, &t, am.len());
    } else if *state == ScanState::InUser {
        push_line(user, line);
    } else if *state == ScanState::InAgent {
        push_line(agent, line);
    }
}

/// The turns recorded in the text of a conversation log.
pub fn parse_conversation(content: &str) -> (h: Vec<String>)
    ensures
        string_views(h@) == conversation_history(content@),
{
    let chars = chars_of(content);
    let ls = lines_vec(&chars);
    let um = literal_chars("**User:**");
    let am = literal_chars("**Agent:**");
    let mut state = ScanState::WaitingUser;
    let mut user: Vec<char> = Vec::new();
    let mut agent: Vec<char> = Vec::new();
    let mut history: Vec<String> = Vec::new();
    let mut i: usize = 0;
    proof {
        assert(string_views(history@) =~= Seq::<Seq<char>>::empty());
        assert(views(ls@).subrange(0, 0) =~= Seq::<Seq<char>>::empty());
    }
    while i < ls.len()
        invariant
            i <= ls@.len(),
            um@ == user_marker(),
            am@ == agent_marker(),
            (state, user@, agent@, string_views(history@)) == scan_lines(
                views(ls@).subrange(0, i as int),
            ),
        decreases ls@.len() - i,
    {
        proof {
            assert(views(ls@).subrange(0, i + 1).drop_last() =~= views(ls@).subrange(0, i as int));
        }
        scan_one(&mut state, &mut user, &mut agent, &mut history, &ls[i], &um, &am);
        i = i + 1;
    }
    proof {
        assert(views(ls@).subrange(0, ls@.len() as int) =~= views(ls@));
    }
    if state == ScanState::InUser && user.len() > 0 {
        let ghost h0 = string_views(history@);
        history.push(string_of(&trim_vec(&user)));
        proof {
            assert(string_views(history@) =~= h0.push(trim(user@)));
        }
    } else if user.len() > 0 && agent.len() > 0 {
        let ghost h0 = string_views(history@);
        history.push(string_of(&trim_vec(&user)));
        history.push(string_of(&trim_vec(&agent)));
        proof {
            assert(string_views(history@) =~= h0.push(trim(user@)).push(trim(agent@)));
        }
    }
    history
}

/// A file to write in the memory repository: its path relative to the
/// repository, its full path, and its content.
pub struct FileWrite {
    pub rel_path: String,
    pub full_path: String,
    pub content: String,
}

/// Where a transaction on the memory repository is.
#[derive(Clone, Copy, PartialEq, Eq, Structural)]
pub enum TxnPhase {
    /// Nothing done yet.
    Start,
    /// The commit at `HEAD` is being read.
    ReadingHead,
    /// Whether the working tree has changes is being asked.
    CheckingChanges,
    /// Changes of the working tree are being stashed.
    Stashing,
    /// File `i` is being written.
    Writing(usize),
    /// File `i` is being added to the index.
    Adding(usize),
    /// The commit is being made.
    Committing,
    /// The repository is being reset to the commit it was at.
    Resetting,
    /// The stashed changes are being restored.
    Popping,
    /// The transaction is over; it succeeded or not.
    Finished(bool),
}

/// What the caller does next in a transaction.
#[derive(Clone, Copy, PartialEq, Eq, Structural)]
pub enum TxnAction {
    /// Read the commit at `HEAD` (`git rev-parse HEAD`).
    ReadHead,
    /// Ask whether the working tree has changes (`git status --porcelain`).
    CheckChanges,
    /// Stash them (`git stash`).
    Stash,
    /// Create the parent directories of file `i` and write it.
    WriteFile(usize),
    /// Add file `i` to the index (`git add`), whatever comes of it.
    AddFile(usize),
    /// Commit with the transaction's message (`git commit -m`).
    Commit,
    /// Reset to the commit read at the start (`git reset --hard`).
    ResetHard,
    /// Restore the stashed changes (`git stash pop`).
    StashPop,
    /// The transaction is over.
    Finished(bool),
}

/// Writing files to the memory repository in one commit: either every file
/// is written and committed, or the repository is reset to where it was and
/// changes that were stashed on the way are restored.
pub struct WriteTxn {
    pub files: Vec<FileWrite>,
    pub message: String,
    pub original_head: String,
    pub stashed: bool,
    pub phase: TxnPhase,
}

/// What the caller reports to a transaction: that it began, that `HEAD` was
/// read, whether there are changes, how stashing, writing a file and
/// committing went, that a file was added, that the repository was reset,
/// and that the stash was restored.
pub enum TxnEvent {
    Began,
    HeadRead,
    Changes(bool),
    Stashed(bool),
    Written(bool),
    Added,
    Committed(bool),
    Reset,
    Popped,
}

/// The phase in which the files of a transaction of `n` files are first written.
pub open spec fn first_write_phase(n: nat) -> TxnPhase {
    if n > 0 {
        TxnPhase::Writing(0)
    } else {
        TxnPhase::Committing
    }
}

/// Whether the event is the one a transaction in the phase waits for.
pub open spec fn expected_event(p: TxnPhase, e: TxnEvent) -> bool {
    match (p, e) {
        (TxnPhase::Start, TxnEvent::Began) => true,
        (TxnPhase::ReadingHead, TxnEvent::HeadRead) => true,
        (TxnPhase::CheckingChanges, TxnEvent::Changes(_)) => true,
        (TxnPhase::Stashing, TxnEvent::Stashed(_)) => true,
        (TxnPhase::Writing(_), TxnEvent::Written(_)) => true,
        (TxnPhase::Adding(_), TxnEvent::Added) => true,
        (TxnPhase::Committing, TxnEvent::Committed(_)) => true,
        (TxnPhase::Resetting, TxnEvent::Reset) => true,
        (TxnPhase::Popping, TxnEvent::Popped) => true,
        _ => false,
    }
}

/// The phase and whether changes are stashed after an expected event, for a
/// transaction of `n` files.
pub open spec fn txn_next(p: TxnPhase, stashed: bool, n: nat, e: TxnEvent) -> (TxnPhase, bool) {
    match (p, e) {
        (TxnPhase::Start, TxnEvent::Began) => (TxnPhase::ReadingHead, stashed),
        (TxnPhase::ReadingHead, TxnEvent::HeadRead) => (TxnPhase::CheckingChanges, stashed),
        (TxnPhase::CheckingChanges, TxnEvent::Changes(c)) => if c {
            (TxnPhase::Stashing, false)
        } else {
            (first_write_phase(n), false)
        },
        (TxnPhase::Stashing, TxnEvent::Stashed(ok)) => if ok {
            (first_write_phase(n), true)
        } else {
            (TxnPhase::Finished(false), stashed)
        },
        (TxnPhase::Writing(i), TxnEvent::Written(ok)) => if ok {
            (TxnPhase::Adding(i), stashed)
        } else {
            (TxnPhase::Resetting, stashed)
        },
        (TxnPhase::Adding(i), TxnEvent::Added) => if i + 1 < n {
            (TxnPhase::Writing((i + 1) as usize), stashed)
        } else {
            (TxnPhase::Committing, stashed)
        },
        (TxnPhase::Committing, TxnEvent::Committed(ok)) => if ok {
            (TxnPhase::Finished(true), stashed)
        } else {
            (TxnPhase::Resetting, stashed)
        },
        (TxnPhase::Resetting, TxnEvent::Reset) => if stashed {
            (TxnPhase::Popping, stashed)
        } else {
            (TxnPhase::Finished(false), stashed)
        },
        (TxnPhase::Popping, TxnEvent::Popped) => (TxnPhase::Finished(false), stashed),
        _ => (p, stashed),
    }
}

/// The phase and whether changes are stashed after the events, from a new
/// transaction of `n` files.
pub open spec fn txn_run(n: nat, events: Seq<TxnEvent>) -> (TxnPhase, bool)
    decreases events.len(),
{
    if events.len() == 0 {
        (TxnPhase::Start, false)
    } else {
        let (p, s) = txn_run(n, events.drop_last());
        txn_next(p, s, n, events.last())
    }
}

/// Each event is the one the transaction waits for at that point.
pub open spec fn txn_trace(n: nat, events: Seq<TxnEvent>) -> bool
    decreases events.len(),
{
    events.len() == 0 || (txn_trace(n, events.drop_last()) && expected_event(txn_run(n, events.drop_last()).0, events.last()))
}

/// How often the event occurs.
pub open spec fn event_count(events: Seq<TxnEvent>, e: TxnEvent) -> nat
    decreases events.len(),
{
    if events.len() == 0 {
        0
    } else {
        event_count(events.drop_last(), e) + if events.last() == e { 1nat } else { 0nat }
    }
}

/// What the counts of the events are in each phase of a transaction.
pub open spec fn txn_counts_agree(n: nat, p: TxnPhase, stashed: bool, events: Seq<TxnEvent>) -> bool {
    let w = event_count(events, TxnEvent::Written(true));
    let a = event_count(events, TxnEvent::Added);
    let c = event_count(events, TxnEvent::Committed(true));
    let r = event_count(events, TxnEvent::Reset);
    let po = event_count(events, TxnEvent::Popped);
    let st = event_count(events, TxnEvent::Stashed(true));
    &&& stashed == (st == 1)
    &&& st <= 1
    &&& match p {
        TxnPhase::Start | TxnPhase::ReadingHead | TxnPhase::CheckingChanges | TxnPhase::Stashing =>
            w == 0 && a == 0 && c == 0 && r == 0 && po == 0 && st == 0,
        TxnPhase::Writing(i) => i < n && w == i && a == i && c == 0 && r == 0 && po == 0,
        TxnPhase::Adding(i) => i < n && w == i + 1 && a == i && c == 0 && r == 0 && po == 0,
        TxnPhase::Committing => w == n && a == n && c == 0 && r == 0 && po == 0,
        TxnPhase::Resetting => c == 0 && r == 0 && po == 0,
        TxnPhase::Popping => stashed && c == 0 && r == 1 && po == 0,
        TxnPhase::Finished(ok) => if ok {
            w == n && a == n && c == 1 && r == 0 && po == 0
        } else {
            c == 0 && r <= 1 && (w > 0 ==> r == 1) && (st == 1 ==> po == 1)
        },
    }
}

proof fn lemma_count_push(events: Seq<TxnEvent>, e: TxnEvent, x: TxnEvent)
    ensures
        event_count(events.push(e), x) == event_count(events, x) + if e == x { 1nat } else { 0nat },
{
    assert(events.push(e).drop_last() =~= events);
}

proof fn lemma_txn_counts(n: nat, events: Seq<TxnEvent>)
    requires
        n <= usize::MAX,
        txn_trace(n, events),
    ensures
        txn_counts_agree(n, txn_run(n, events).0, txn_run(n, events).1, events),
    decreases events.len(),
{
    if events.len() > 0 {
        let prev = events.drop_last();
        let e = events.last();
        lemma_txn_counts(n, prev);
        assert(prev.push(e) =~= events);
        lemma_count_push(prev, e, TxnEvent::Written(true));
        lemma_count_push(prev, e, TxnEvent::Added);
        lemma_count_push(prev, e, TxnEvent::Committed(true));
        lemma_count_push(prev, e, TxnEvent::Reset);
        lemma_count_push(prev, e, TxnEvent::Popped);
        lemma_count_push(prev, e, TxnEvent::Stashed(true));
        let (p, st) = txn_run(n, prev);
        assert(txn_run(n, events) == txn_next(p, st, n, e));
        assert(expected_event(p, e));
    }
}

/// A write transaction is all or nothing. Run as its actions ask, it
/// finishes successfully only after every file was written and added and the
/// commit succeeded, with no reset; it finishes unsuccessfully without a
/// commit, after resetting the repository where a file was written, and
/// after restoring stashed changes where it stashed them.
pub proof fn lemma_txn_all_or_nothing(n: nat, events: Seq<TxnEvent>)
    requires
        n <= usize::MAX,
        txn_trace(n, events),
    ensures
        txn_run(n, events).0 == TxnPhase::Finished(true) ==> {
            &&& event_count(events, TxnEvent::Written(true)) == n
            &&& event_count(events, TxnEvent::Added) == n
            &&& event_count(events, TxnEvent::Committed(true)) == 1
            &&& event_count(events, TxnEvent::Reset) == 0
        },
        txn_run(n, events).0 == TxnPhase::Finished(false) ==> {
            &&& event_count(events, TxnEvent::Committed(true)) == 0
            &&& event_count(events, TxnEvent::Written(true)) > 0 ==> event_count(events, TxnEvent::Reset) == 1
            &&& event_count(events, TxnEvent::Stashed(true)) == 1 ==> event_count(events, TxnEvent::Popped) == 1
        },
{
    lemma_txn_counts(n, events);
}

impl WriteTxn {
    /// The phase agrees with the files.
    pub open spec fn wf(&self) -> bool {
        match self.phase {
            TxnPhase::Writing(i) => i < self.files@.len(),
            TxnPhase::Adding(i) => i < self.files@.len(),
            _ => true,
        }
    }

    /// The action for the step after the files up to `i` are written and added.
    pub open spec fn after_file(&self, i: int) -> TxnAction {
        if i + 1 < self.files@.len() {
            TxnAction::WriteFile((i + 1) as usize)
        } else {
            TxnAction::Commit
        }
    }

    /// Begins: the commit at `HEAD` is read first.
    pub fn begin(&mut self) -> (a: TxnAction)
        requires
            old(self).phase == TxnPhase::Start,
        ensures
            (final(self).phase, final(self).stashed) == txn_next(old(self).phase, old(self).stashed, old(self).files@.len(), TxnEvent::Began),
            a == TxnAction::ReadHead,
            final(self).phase == TxnPhase::ReadingHead,
            final(self).files == old(self).files,
            final(self).message == old(self).message,
            final(self).stashed == old(self).stashed,
    {
        self.phase = TxnPhase::ReadingHead;
        TxnAction::ReadHead
    }

    /// Takes the commit at `HEAD` from what `git rev-parse HEAD` printed
    /// (trimmed), none where it could not be read; then asks whether the
    /// working tree has changes.
    pub fn on_head(&mut self, head: Option<&str>) -> (a: TxnAction)
        requires
            old(self).phase == TxnPhase::ReadingHead,
        ensures
            (final(self).phase, final(self).stashed) == txn_next(old(self).phase, old(self).stashed, old(self).files@.len(), TxnEvent::HeadRead),
            a == TxnAction::CheckChanges,
            final(self).phase == TxnPhase::CheckingChanges,
            final(self).original_head@ == match head { Some(h) => trim(h@), None => Seq::empty() },
            final(self).files == old(self).files,
            final(self).message == old(self).message,
            final(self).stashed == old(self).stashed,
    {
        self.original_head = match head {
            Some(h) => string_of(&trim_vec(&chars_of(h))),
            None => String::new(),
        };
        self.phase = TxnPhase::CheckingChanges;
        TxnAction::CheckChanges
    }

    fn first_write(&mut self) -> (a: TxnAction)
        ensures
            old(self).files@.len() > 0 ==> a == TxnAction::WriteFile(0) && final(self).phase == TxnPhase::Writing(0),
            old(self).files@.len() == 0 ==> a == TxnAction::Commit && final(self).phase == TxnPhase::Committing,
            final(self).phase == first_write_phase(old(self).files@.len()),
            final(self).files == old(self).files,
            final(self).message == old(self).message,
            final(self).original_head == old(self).original_head,
            final(self).stashed == old(self).stashed,
    {
        if self.files.len() > 0 {
            self.phase = TxnPhase::Writing(0);
            TxnAction::WriteFile(0)
        } else {
            self.phase = TxnPhase::Committing;
            TxnAction::Commit
        }
    }

    /// Takes whether the working tree has changes: they are stashed first;
    /// without them the files are written at once.
    pub fn on_changes(&mut self, has_changes: bool) -> (a: TxnAction)
        requires
            old(self).phase == TxnPhase::CheckingChanges,
        ensures
            (final(self).phase, final(self).stashed) == txn_next(old(self).phase, old(self).stashed, old(self).files@.len(), TxnEvent::Changes(has_changes)),
            final(self).wf(),
            has_changes ==> a == TxnAction::Stash && final(self).phase == TxnPhase::Stashing,
            !has_changes ==> a == (if old(self).files@.len() > 0 { TxnAction::WriteFile(0) } else { TxnAction::Commit }),
            !final(self).stashed,
            final(self).files == old(self).files,
            final(self).message == old(self).message,
            final(self).original_head == old(self).original_head,
    {
        self.stashed = false;
        if has_changes {
            self.phase = TxnPhase::Stashing;
            TxnAction::Stash
        } else {
            self.first_write()
        }
    }

    /// Takes whether the stash succeeded: the transaction fails where it did
    /// not, and writes the files where it did.
    pub fn on_stash(&mut self, ok: bool) -> (a: TxnAction)
        requires
            old(self).phase == TxnPhase::Stashing,
        ensures
            (final(self).phase, final(self).stashed) == txn_next(old(self).phase, old(self).stashed, old(self).files@.len(), TxnEvent::Stashed(ok)),
            final(self).wf(),
            !ok ==> a == TxnAction::Finished(false) && final(self).phase == TxnPhase::Finished(false),
            ok ==> final(self).stashed && a == (if old(self).files@.len() > 0 { TxnAction::WriteFile(0) } else { TxnAction::Commit }),
            final(self).files == old(self).files,
            final(self).message == old(self).message,
            final(self).original_head == old(self).original_head,
    {
        if !ok {
            self.phase = TxnPhase::Finished(false);
            TxnAction::Finished(false)
        } else {
            self.stashed = true;
            self.first_write()
        }
    }

    fn roll_back(&mut self) -> (a: TxnAction)
        ensures
            a == TxnAction::ResetHard,
            final(self).phase == TxnPhase::Resetting,
            final(self).files == old(self).files,
            final(self).message == old(self).message,
            final(self).original_head == old(self).original_head,
            final(self).stashed == old(self).stashed,
    {
        self.phase = TxnPhase::Resetting;
        TxnAction::ResetHard
    }

    /// Takes whether file `i` was written: it is then added; where it was not,
    /// the repository is reset.
    pub fn on_written(&mut self, ok: bool) -> (a: TxnAction)
        requires
            old(self).wf(),
            old(self).phase is Writing,
        ensures
            (final(self).phase, final(self).stashed) == txn_next(old(self).phase, old(self).stashed, old(self).files@.len(), TxnEvent::Written(ok)),
            final(self).wf(),
            ok ==> a == TxnAction::AddFile(old(self).phase->Writing_0) && final(self).phase == TxnPhase::Adding(old(self).phase->Writing_0),
            !ok ==> a == TxnAction::ResetHard && final(self).phase == TxnPhase::Resetting,
            final(self).files == old(self).files,
            final(self).message == old(self).message,
            final(self).original_head == old(self).original_head,
            final(self).stashed == old(self).stashed,
    {
        let i = match self.phase {
            TxnPhase::Writing(i) => i,
            _ => 0,
        };
        if ok {
            self.phase = TxnPhase::Adding(i);
            TxnAction::AddFile(i)
        } else {
            self.roll_back()
        }
    }

    /// After file `i` is added: the next file is written, or the commit made.
    pub fn on_added(&mut self) -> (a: TxnAction)
        requires
            old(self).wf(),
            old(self).phase is Adding,
        ensures
            (final(self).phase, final(self).stashed) == txn_next(old(self).phase, old(self).stashed, old(self).files@.len(), TxnEvent::Added),
            final(self).wf(),
            a == old(self).after_file(old(self).phase->Adding_0 as int),
            a is Commit ==> final(self).phase == TxnPhase::Committing,
            a matches TxnAction::WriteFile(j) ==> final(self).phase == TxnPhase::Writing(j),
            final(self).files == old(self).files,
            final(self).message == old(self).message,
            final(self).original_head == old(self).original_head,
            final(self).stashed == old(self).stashed,
    {
        let i = match self.phase {
            TxnPhase::Adding(i) => i,
            _ => 0,
        };
        if i < self.files.len() - 1 {
            self.phase = TxnPhase::Writing(i + 1);
            TxnAction::WriteFile(i + 1)
        } else {
            self.phase = TxnPhase::Committing;
            TxnAction::Commit
        }
    }

    /// Takes whether the commit succeeded: the transaction succeeds, or the
    /// repository is reset.
    pub fn on_committed(&mut self, ok: bool) -> (a: TxnAction)
        requires
            old(self).phase == TxnPhase::Committing,
        ensures
            (final(self).phase, final(self).stashed) == txn_next(old(self).phase, old(self).stashed, old(self).files@.len(), TxnEvent::Committed(ok)),
            final(self).wf(),
            ok ==> a == TxnAction::Finished(true) && final(self).phase == TxnPhase::Finished(true),
            !ok ==> a == TxnAction::ResetHard && final(self).phase == TxnPhase::Resetting,
            final(self).files == old(self).files,
            final(self).message == old(self).message,
            final(self).original_head == old(self).original_head,
            final(self).stashed == old(self).stashed,
    {
        if ok {
            self.phase = TxnPhase::Finished(true);
            TxnAction::Finished(true)
        } else {
            self.roll_back()
        }
    }

    /// After the reset: stashed changes are restored; the transaction fails.
    pub fn on_reset(&mut self) -> (a: TxnAction)
        requires
            old(self).phase == TxnPhase::Resetting,
        ensures
            (final(self).phase, final(self).stashed) == txn_next(old(self).phase, old(self).stashed, old(self).files@.len(), TxnEvent::Reset),
            final(self).wf(),
            old(self).stashed ==> a == TxnAction::StashPop && final(self).phase == TxnPhase::Popping,
            !old(self).stashed ==> a == TxnAction::Finished(false) && final(self).phase == TxnPhase::Finished(false),
            final(self).files == old(self).files,
            final(self).original_head == old(self).original_head,
            final(self).stashed == old(self).stashed,
    {
        if self.stashed {
            self.phase = TxnPhase::Popping;
            TxnAction::StashPop
        } else {
            self.phase = TxnPhase::Finished(false);
            TxnAction::Finished(false)
        }
    }

    /// After the stashed changes are restored: the transaction fails.
    pub fn on_popped(&mut self) -> (a: TxnAction)
        requires
            old(self).phase == TxnPhase::Popping,
        ensures
            (final(self).phase, final(self).stashed) == txn_next(old(self).phase, old(self).stashed, old(self).files@.len(), TxnEvent::Popped),
            a == TxnAction::Finished(false),
            final(self).phase == TxnPhase::Finished(false),
            final(self).files == old(self).files,
    {
        self.phase = TxnPhase::Finished(false);
        TxnAction::Finished(false)
    }
}

impl Memory {
    /// A transaction that writes the given files, by paths relative to the
    /// repository, and commits them with `commit_message`.
    pub fn write_atomic(&self, files: Vec<(String, String)>, commit_message: &str) -> (t: WriteTxn)
        ensures
            t.phase == TxnPhase::Start,
            t.message@ == commit_message@,
            !t.stashed,
            t.files@.len() == files@.len(),
            forall|i: int| 0 <= i < files@.len() ==> {
                &&& #[trigger] t.files@[i].rel_path@ == files@[i].0@
                &&& t.files@[i].full_path@ == path_join(self.memory_dir@, files@[i].0@)
                &&& t.files@[i].content@ == files@[i].1@
            },
    {
        let mut out: Vec<FileWrite> = Vec::new();
        let mut i: usize = 0;
        while i < files.len()
            invariant
                i <= files@.len(),
                out@.len() == i,
                forall|k: int| 0 <= k < i ==> {
                    &&& #[trigger] out@[k].rel_path@ == files@[k].0@
                    &&& out@[k].full_path@ == path_join(self.memory_dir@, files@[k].0@)
                    &&& out@[k].content@ == files@[k].1@
                },
            decreases files@.len() - i,
        {
            let (rel, content) = (&files[i].0, &files[i].1);
            let full = self.resolve_path(rel.as_str());
            let w = FileWrite { rel_path: rel.clone(), full_path: full, content: content.clone() };
            assert(w.rel_path@ == files@[i as int].0@ && w.content@ == files@[i as int].1@);
            let ghost before = out@;
            out.push(w);
            assert forall|k: int| 0 <= k < i + 1 implies {
                &&& #[trigger] out@[k].rel_path@ == files@[k].0@
                &&& out@[k].full_path@ == path_join(self.memory_dir@, files@[k].0@)
                &&& out@[k].content@ == files@[k].1@
            } by {
                if k < i {
                    assert(out@[k] == before[k]);
                } else {
                    assert(out@[k] == w);
                }
            }
            i = i + 1;
        }
        WriteTxn { files: out, message: commit_message.to_owned(), original_head: String::new(), stashed: false, phase: TxnPhase::Start }
    }

    /// A transaction that writes one file and commits it.
    pub fn write_one(&self, path: &str, content: &str, commit_message: &str) -> (t: WriteTxn)
        ensures
            t.phase == TxnPhase::Start,
            t.message@ == commit_message@,
            !t.stashed,
            t.files@.len() == 1,
            t.files@[0].rel_path@ == path@,
            t.files@[0].full_path@ == path_join(self.memory_dir@, path@),
            t.files@[0].content@ == content@,
    {
        let mut files: Vec<(String, String)> = Vec::new();
        files.push((path.to_owned(), content.to_owned()));
        self.write_atomic(files, commit_message)
    }
}

/// The heading of a new conversation log.
pub open spec fn conversation_header() -> Seq<char> {
    "# Mullande Conversation Log\n\nThis file stores all conversations from mullande run and mullande chat.\n"@
}

/// The entry of one turn in the conversation log.
pub open spec fn conversation_entry(timestamp: Seq<char>, model: Seq<char>, user_input: Seq<char>, agent_response: Seq<char>) -> Seq<char> {
    "\n\n---\n\n**["@ + timestamp + "]** Model: `"@ + model + "`\n\n**User:** "@ + user_input + "\n\n**Agent:** "@
        + agent_response + "\n"@
}

/// The commit message of a turn added to the conversation log.
pub open spec fn conversation_commit_message(model: Seq<char>, user_input: Seq<char>) -> Seq<char> {
    "Add conversation turn using model "@ + model + ": "@ + decimal(utf8_len(user_input)) + " chars input"@
}

impl Memory {
    /// A transaction that adds a turn to the conversation log; `existing` is
    /// the log's text, `None` where there is no log yet, and `timestamp` the
    /// time of the turn as RFC 3339 text.
    pub fn append_to_conversation(
        &self,
        user_input: &str,
        agent_response: &str,
        model: &str,
        timestamp: &str,
        existing: Option<&str>,
    ) -> (t: WriteTxn)
        ensures
            t.phase == TxnPhase::Start,
            !t.stashed,
            t.files@.len() == 1,
            t.files@[0].rel_path@ == conversation_file(),
            t.files@[0].full_path@ == path_join(self.memory_dir@, conversation_file()),
            t.files@[0].content@ == match existing {
                Some(e) => e@,
                None => conversation_header(),
            } + conversation_entry(timestamp@, model@, user_input@, agent_response@),
            t.message@ == conversation_commit_message(model@, user_input@),
    {
        let mut content = match existing {
            Some(e) => e.to_owned(),
            None => String::from_str("# Mullande Conversation Log\n\nThis file stores all conversations from mullande run and mullande chat.\n"),
        };
        push_str(&mut content, "\n\n---\n\n**[");
        push_str(&mut content, timestamp);
        push_str(&mut content, "]** Model: `");
        push_str(&mut content, model);
        push_str(&mut content, "`\n\n**User:** ");
        push_str(&mut content, user_input);
        push_str(&mut content, "\n\n**Agent:** ");
        push_str(&mut content, agent_response);
        push_str(&mut content, "\n");
        let mut message = String::from_str("Add conversation turn using model ");
        push_str(&mut message, model);
        push_str(&mut message, ": ");
        let n = decimal_string(byte_len(user_input) as u64);
        push_str(&mut message, n.as_str());
        push_str(&mut message, " chars input");
        self.write_one("CONVERSATIONS.md", content.as_str(), message.as_str())
    }

    /// As `append_to_conversation`, with the time of the turn as an instant;
    /// none where chrono has no date for it.
    pub fn append_to_conversation_at(
        &self,
        user_input: &str,
        agent_response: &str,
        model: &str,
        at: Timestamp,
        existing: Option<&str>,
    ) -> (t: Option<WriteTxn>)
        ensures
            t is Some <==> utc_rfc3339(at.secs, at.nanos) is Some,
            t is Some ==> !(utc_rfc3339(at.secs, at.nanos)->0).contains('\n'),
            t matches Some(t) ==> {
                &&& t.files@.len() == 1
                &&& t.files@[0].content@ == match existing {
                    Some(e) => e@,
                    None => conversation_header(),
                } + conversation_entry(utc_rfc3339(at.secs, at.nanos)->0, model@, user_input@, agent_response@)
                &&& t.message@ == conversation_commit_message(model@, user_input@)
            },
    {
        match at.rfc3339() {
            Some(ts) => Some(self.append_to_conversation(user_input, agent_response, model, ts.as_str(), existing)),
            None => None,
        }
    }
}

} // verus!

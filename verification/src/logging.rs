//! The interaction logs under `.mullande/.logs`: a readable entry per
//! interaction, collected per day and kept one file per interaction.
use vstd::prelude::*;
use crate::clock::{Timestamp, utc_format, utc_rfc3339};
use crate::config::opt_view;
use crate::memory::WorkspaceManager;
use crate::text::{
    chars_of, contains_sub, contains_vec, join_path, path_join, push_str, string_of, text_eq,
    trim, trim_vec,
};

verus! {

/// A line of eighty `=` that separates the sections of an entry.
pub open spec fn rule() -> Seq<char> {
    "================================================================================\n"@
}

/// The ignore rules added to `.mullande/.gitignore` so logs stay out of the repository.
pub open spec fn log_ignore_rules() -> Seq<char> {
    "# Logs\n.logs/\n*.log\n"@
}

/// A section of an entry where its log is given and not empty.
pub open spec fn section(title: Seq<char>, log: Option<Seq<char>>) -> Seq<char> {
    match log {
        Some(l) => if l.len() > 0 {
            rule() + title + l + "\n"@
        } else {
            Seq::empty()
        },
        None => Seq::empty(),
    }
}

/// The readable entry of one interaction. Where the input is the prompt it
/// is shown once; otherwise both are shown.
pub open spec fn interaction_entry(
    timestamp: Seq<char>,
    model: Seq<char>,
    user_input: Seq<char>,
    full_prompt: Seq<char>,
    tool_log: Option<Seq<char>>,
    exchange_log: Option<Seq<char>>,
    response: Seq<char>,
) -> Seq<char> {
    let head = rule() + "Timestamp: "@ + timestamp + "\nModel: "@ + model + "\n"@ + rule();
    let input = if user_input == full_prompt {
        "USER INPUT / FULL PROMPT:\n"@ + trim(user_input) + "\n"@
    } else {
        "USER INPUT:\n"@ + trim(user_input) + "\n"@ + rule() + "FULL PROMPT (sent to model):\n"@ + trim(full_prompt) + "\n"@
    };
    head + input + section("TOOL CALLS:\n"@, tool_log) + section("OLLAMA API EXCHANGE (full message rounds):\n"@, exchange_log)
        + rule() + "AGENT RESPONSE:\n"@ + trim(response) + "\n"@ + rule()
}

/// The heading of a day's log.
pub open spec fn daily_header(day: Seq<char>) -> Seq<char> {
    "# Mullande Interaction Logs - "@ + day + "\n\n"@
}

/// A day's log after an entry: the entry is appended to what the log holds,
/// or to the heading of a new log; a blank line follows it.
pub open spec fn daily_log_text(existing: Option<Seq<char>>, day: Seq<char>, entry: Seq<char>) -> Seq<char> {
    match existing {
        Some(e) => e + entry + "\n"@,
        None => daily_header(day) + entry + "\n"@,
    }
}

/// The files one interaction is written to.
pub struct InteractionLog {
    /// The readable entry.
    pub entry: String,
    /// The log of the interaction's day.
    pub daily_log_path: String,
    /// The heading of that log, where it is new.
    pub daily_header: String,
    /// The file that holds the entry alone.
    pub entry_path: String,
    /// The file for the interaction's machine-readable records.
    pub records_path: String,
}

/// Where the interaction logs of a workspace are kept.
pub struct Logger {
    pub workspace: WorkspaceManager,
    pub logs_dir: String,
    pub interactions_dir: String,
}

/// The name of an interaction's files, before their extension.
pub open spec fn interaction_stem(stamp: Seq<char>) -> Seq<char> {
    "interaction_"@ + stamp
}

fn push_trimmed(out: &mut String, s: &str)
    ensures
        final(out)@ == old(out)@ + trim(s@),
{
    let t = string_of(&trim_vec(&chars_of(s)));
    push_str(out, t.as_str());
}

fn push_section(out: &mut String, title: &str, log: Option<&str>)
    ensures
        final(out)@ == old(out)@ + section(title@, match log { Some(l) => Some(l@), None => None }),
{
    match log {
        Some(l) => {
            if !l.is_empty() {
                push_str(out, "================================================================================\n");
                push_str(out, title);
                push_str(out, l);
                push_str(out, "\n");
            } else {
                assert(out@ =~= old(out)@ + Seq::<char>::empty());
            }
        },
        None => {
            assert(out@ =~= old(out)@ + Seq::<char>::empty());
        },
    }
}

/// The readable entry of one interaction (see `interaction_entry`).
pub fn format_interaction(
    timestamp: &str,
    model: &str,
    user_input: &str,
    full_prompt: &str,
    tool_log: Option<&str>,
    exchange_log: Option<&str>,
    response: &str,
) -> (e: String)
    ensures
        e@ == interaction_entry(
            timestamp@,
            model@,
            user_input@,
            full_prompt@,
            match tool_log { Some(l) => Some(l@), None => None },
            match exchange_log { Some(l) => Some(l@), None => None },
            response@,
        ),
{
    let mut e = String::from_str("================================================================================\n");
    push_str(&mut e, "Timestamp: ");
    push_str(&mut e, timestamp);
    push_str(&mut e, "\nModel: ");
    push_str(&mut e, model);
    push_str(&mut e, "\n");
    push_str(&mut e, "================================================================================\n");
    if text_eq(user_input, full_prompt) {
        push_str(&mut e, "USER INPUT / FULL PROMPT:\n");
        push_trimmed(&mut e, user_input);
        push_str(&mut e, "\n");
    } else {
        push_str(&mut e, "USER INPUT:\n");
        push_trimmed(&mut e, user_input);
        push_str(&mut e, "\n");
        push_str(&mut e, "================================================================================\n");
        push_str(&mut e, "FULL PROMPT (sent to model):\n");
        push_trimmed(&mut e, full_prompt);
        push_str(&mut e, "\n");
    }
    push_section(&mut e, "TOOL CALLS:\n", tool_log);
    push_section(&mut e, "OLLAMA API EXCHANGE (full message rounds):\n", exchange_log);
    push_str(&mut e, "================================================================================\n");
    push_str(&mut e, "AGENT RESPONSE:\n");
    push_trimmed(&mut e, response);
    push_str(&mut e, "\n");
    push_str(&mut e, "================================================================================\n");
    e
}

/// A day's log after an entry (see `daily_log_text`).
pub fn append_daily(existing: Option<&str>, day: &str, entry: &str) -> (t: String)
    ensures
        t@ == daily_log_text(match existing { Some(e) => Some(e@), None => None }, day@, entry@),
{
    let mut t = match existing {
        Some(e) => e.to_owned(),
        None => {
            let mut h = String::from_str("# Mullande Interaction Logs - ");
            push_str(&mut h, day);
            push_str(&mut h, "\n\n");
            h
        },
    };
    push_str(&mut t, entry);
    push_str(&mut t, "\n");
    t
}

/// The text of `.mullande/.gitignore` after making sure logs are ignored:
/// the rules alone for a new file, the file with the rules appended where it
/// does not mention `.logs/`, and nothing to write where it does.
pub open spec fn gitignore_update(existing: Option<Seq<char>>) -> Option<Seq<char>> {
    match existing {
        None => Some(log_ignore_rules()),
        Some(e) => if contains_sub(e, ".logs/"@) {
            None
        } else {
            Some(e + "\n"@ + log_ignore_rules())
        },
    }
}

/// Setting up the logs twice adds the ignore rules once: after one update
/// the file needs no other.
pub proof fn lemma_gitignore_update_settles(existing: Option<Seq<char>>)
    ensures
        gitignore_update(existing) matches Some(n) ==> gitignore_update(Some(n)) is None,
{
    reveal_strlit("# Logs\n.logs/\n*.log\n");
    reveal_strlit(".logs/");
    reveal_strlit("\n");
    let rules = log_ignore_rules();
    match existing {
        None => {
            assert(rules.subrange(7, 7 + ".logs/"@.len() as int) =~= ".logs/"@);
            assert(contains_sub(rules, ".logs/"@));
        },
        Some(e) => {
            if !contains_sub(e, ".logs/"@) {
                let n = e + "\n"@ + rules;
                let i: int = e.len() as int + 8;
                assert(n.subrange(i, i + 6) =~= ".logs/"@);
            }
        },
    }
}

/// The upper-case form of a text, as `str::to_uppercase` gives it.
pub uninterp spec fn upper_case(s: Seq<char>) -> Seq<char>;

/// Calls `str::to_uppercase`; claims only that the result is its result for `s`.
#[verifier::external_body]
fn to_upper(s: &str) -> (r: String)
    ensures
        r@ == upper_case(s@),
{
    s.to_uppercase()
}

/// A line of the general log.
pub open spec fn raw_entry(timestamp: Seq<char>, level: Seq<char>, message: Seq<char>) -> Seq<char> {
    "["@ + timestamp + "] "@ + upper_case(level) + ": "@ + message + "\n"@
}

impl Logger {
    /// The logs of a workspace: `.logs` in its workspace directory, and
    /// `interactions` inside that.
    pub fn new(workspace: WorkspaceManager) -> (l: Self)
        ensures
            l.logs_dir@ == path_join(workspace.mullande_dir@, ".logs"@),
            l.interactions_dir@ == path_join(path_join(workspace.mullande_dir@, ".logs"@), "interactions"@),
            l.workspace == workspace,
    {
        let logs_dir = join_path(workspace.mullande_dir.as_str(), ".logs");
        let interactions_dir = join_path(logs_dir.as_str(), "interactions");
        Logger { workspace, logs_dir, interactions_dir }
    }

    /// The ignore file of the workspace directory.
    pub fn gitignore_path(&self) -> (p: String)
        ensures
            p@ == path_join(self.workspace.mullande_dir@, ".gitignore"@),
    {
        join_path(self.workspace.mullande_dir.as_str(), ".gitignore")
    }

    /// What to write to the ignore file (see `gitignore_update`); `existing`
    /// is its text, `None` where there is none.
    pub fn gitignore_text(&self, existing: Option<&str>) -> (r: Option<String>)
        ensures
            opt_view(r) == gitignore_update(match existing { Some(e) => Some(e@), None => None }),
    {
        match existing {
            None => Some(String::from_str("# Logs\n.logs/\n*.log\n")),
            Some(e) => {
                let ev = chars_of(e);
                let pat = chars_of(".logs/");
                if contains_vec(&ev, &pat) {
                    None
                } else {
                    let mut t = e.to_owned();
                    push_str(&mut t, "\n");
                    push_str(&mut t, "# Logs\n.logs/\n*.log\n");
                    Some(t)
                }
            },
        }
    }

    /// The files of an interaction at `at` and its readable entry; none where
    /// chrono has no date for `at`.
    pub fn plan_interaction(
        &self,
        at: Timestamp,
        model: &str,
        user_input: &str,
        full_prompt: &str,
        tool_log: Option<&str>,
        exchange_log: Option<&str>,
        response: &str,
    ) -> (r: Option<InteractionLog>)
        ensures
            r is Some <==> (utc_rfc3339(at.secs, at.nanos) is Some && utc_format(at.secs, at.nanos, "%Y-%m-%d"@) is Some
                && utc_format(at.secs, at.nanos, "%Y%m%d_%H%M%S_%f"@) is Some),
            r matches Some(l) ==> {
                let day = utc_format(at.secs, at.nanos, "%Y-%m-%d"@)->0;
                let stem = interaction_stem(utc_format(at.secs, at.nanos, "%Y%m%d_%H%M%S_%f"@)->0);
                &&& l.entry@ == interaction_entry(
                    utc_rfc3339(at.secs, at.nanos)->0,
                    model@,
                    user_input@,
                    full_prompt@,
                    match tool_log { Some(t) => Some(t@), None => None },
                    match exchange_log { Some(t) => Some(t@), None => None },
                    response@,
                )
                &&& l.daily_log_path@ == path_join(self.logs_dir@, day + ".log"@)
                &&& l.daily_header@ == daily_header(day)
                &&& l.entry_path@ == path_join(self.interactions_dir@, stem + ".log"@)
                &&& l.records_path@ == path_join(self.interactions_dir@, stem + ".jsonl"@)
            },
    {
        let ts = match at.rfc3339() {
            Some(t) => t,
            None => return None,
        };
        let day = match at.day() {
            Some(d) => d,
            None => return None,
        };
        let stamp = match at.file_stamp() {
            Some(s) => s,
            None => return None,
        };
        let entry = format_interaction(ts.as_str(), model, user_input, full_prompt, tool_log, exchange_log, response);
        let mut day_file = day.clone();
        push_str(&mut day_file, ".log");
        let daily_log_path = join_path(self.logs_dir.as_str(), day_file.as_str());
        let mut daily_header = String::from_str("# Mullande Interaction Logs - ");
        push_str(&mut daily_header, day.as_str());
        push_str(&mut daily_header, "\n\n");
        let mut stem = String::from_str("interaction_");
        push_str(&mut stem, stamp.as_str());
        let mut log_name = stem.clone();
        push_str(&mut log_name, ".log");
        let mut records_name = stem.clone();
        push_str(&mut records_name, ".jsonl");
        let entry_path = join_path(self.interactions_dir.as_str(), log_name.as_str());
        let records_path = join_path(self.interactions_dir.as_str(), records_name.as_str());
        Some(InteractionLog { entry, daily_log_path, daily_header, entry_path, records_path })
    }

    /// The files of a plain call of the model, whose input is the prompt.
    pub fn log_ollama_call(&self, at: Timestamp, model: &str, full_prompt: &str, response: &str) -> (r: Option<InteractionLog>)
        ensures
            r is Some <==> (utc_rfc3339(at.secs, at.nanos) is Some && utc_format(at.secs, at.nanos, "%Y-%m-%d"@) is Some
                && utc_format(at.secs, at.nanos, "%Y%m%d_%H%M%S_%f"@) is Some),
            r matches Some(l) ==> {
                let day = utc_format(at.secs, at.nanos, "%Y-%m-%d"@)->0;
                let stem = interaction_stem(utc_format(at.secs, at.nanos, "%Y%m%d_%H%M%S_%f"@)->0);
                &&& l.entry@ == interaction_entry(
                    utc_rfc3339(at.secs, at.nanos)->0,
                    model@,
                    full_prompt@,
                    full_prompt@,
                    None,
                    None,
                    response@,
                )
                &&& l.daily_log_path@ == path_join(self.logs_dir@, day + ".log"@)
                &&& l.daily_header@ == daily_header(day)
                &&& l.entry_path@ == path_join(self.interactions_dir@, stem + ".log"@)
                &&& l.records_path@ == path_join(self.interactions_dir@, stem + ".jsonl"@)
            },
    {
        self.plan_interaction(at, model, full_prompt, full_prompt, None, None, response)
    }

    /// The general log file.
    pub fn general_log_path(&self) -> (p: String)
        ensures
            p@ == path_join(self.logs_dir@, "mullande.log"@),
    {
        join_path(self.logs_dir.as_str(), "mullande.log")
    }

    /// The general log after a line at `timestamp` (RFC 3339 text): the line
    /// `[timestamp] LEVEL: message` appended to `existing`, or alone.
    pub fn log_raw(&self, timestamp: &str, level: &str, message: &str, existing: Option<&str>) -> (t: String)
        ensures
            t@ == match existing { Some(e) => e@, None => Seq::empty() } + raw_entry(timestamp@, level@, message@),
    {
        let mut t = match existing {
            Some(e) => e.to_owned(),
            None => String::new(),
        };
        push_str(&mut t, "[");
        push_str(&mut t, timestamp);
        push_str(&mut t, "] ");
        let up = to_upper(level);
        push_str(&mut t, up.as_str());
        push_str(&mut t, ": ");
        push_str(&mut t, message);
        push_str(&mut t, "\n");
        t
    }
}

} // verus!

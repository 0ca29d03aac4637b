//! The decisions and texts of the command line: which models a comparison
//! runs and on which branches, how the judge's verdict is read and the best
//! output chosen, the evaluation report, and the compaction of the memory.
use vstd::prelude::*;
use crate::text::{
    chars_of, decimal, decimal_string, join_with, push_joined, push_str, slice_vec, string_of,
    string_views, take_chars, take_string, trim, trim_vec, views, replace_char, path_join,
    join_path, contains_sub, contains_vec, occurs_at, starts_with, ends_with, ends_with_vec,
};
use crate::performance::replace_in;

verus! {

/// What the `memory` command does.
pub enum MemoryAction {
    /// Commit the current state of the memory repository.
    Clean,
    /// Replace the conversation log by a summary written by a model.
    Compact { model: Option<String> },
    /// Show the state of the memory repository.
    Status,
}

/// The finished pieces of a text split at commas, and the unfinished last one.
pub open spec fn comma_split(s: Seq<char>) -> (Seq<Seq<char>>, Seq<char>)
    decreases s.len(),
{
    if s.len() == 0 {
        (Seq::empty(), Seq::empty())
    } else {
        let (done, cur) = comma_split(s.drop_last());
        if s.last() == ',' {
            (done.push(cur), Seq::empty())
        } else {
            (done, cur.push(s.last()))
        }
    }
}

/// The pieces of a text split at commas, as `str::split(',')` yields them.
pub open spec fn comma_pieces(s: Seq<char>) -> Seq<Seq<char>> {
    let (done, cur) = comma_split(s);
    done.push(cur)
}

/// The trimmed, non-empty pieces of a list (see `trimmed_nonempty`).
pub open spec fn trimmed_nonempty(pieces: Seq<Seq<char>>) -> Seq<Seq<char>>
    decreases pieces.len(),
{
    if pieces.len() == 0 {
        Seq::empty()
    } else {
        let r = trimmed_nonempty(pieces.drop_last());
        if trim(pieces.last()).len() > 0 {
            r.push(trim(pieces.last()))
        } else {
            r
        }
    }
}

/// The models of a `--models` list: its comma-separated pieces, trimmed,
/// empty ones left out.
pub open spec fn models_of_list(s: Seq<char>) -> Seq<Seq<char>> {
    trimmed_nonempty(comma_pieces(s))
}

/// The models of a `--models` list (see `models_of_list`).
pub fn parse_model_list(s: &str) -> (r: Vec<String>)
    ensures
        string_views(r@) == models_of_list(s@),
{
    let v = chars_of(s);
    let mut pieces: Vec<Vec<char>> = Vec::new();
    let mut cur: Vec<char> = Vec::new();
    let mut i: usize = 0;
    while i < v.len()
        invariant
            i <= v@.len(),
            v@ == s@,
            (views(pieces@), cur@) == comma_split(v@.subrange(0, i as int)),
        decreases v@.len() - i,
    {
        proof {
            assert(v@.subrange(0, i + 1).drop_last() =~= v@.subrange(0, i as int));
        }
        if v[i] == ',' {
            let ghost p0 = views(pieces@);
            let piece = cur;
            cur = Vec::new();
            pieces.push(piece);
            proof {
                assert(views(pieces@) =~= p0.push(pieces@.last()@));
            }
        } else {
            cur.push(v[i]);
        }
        i = i + 1;
    }
    proof {
        assert(v@.subrange(0, v@.len() as int) =~= v@);
    }
    let ghost p0 = views(pieces@);
    pieces.push(cur);
    proof {
        assert(views(pieces@) =~= p0.push(pieces@.last()@));
    }
    let ghost all = views(pieces@);
    let mut r: Vec<String> = Vec::new();
    let mut k: usize = 0;
    while k < pieces.len()
        invariant
            k <= pieces@.len(),
            all == views(pieces@),
            string_views(r@) == trimmed_nonempty(all.subrange(0, k as int)),
        decreases pieces@.len() - k,
    {
        proof {
            assert(all.subrange(0, k + 1).drop_last() =~= all.subrange(0, k as int));
            assert(all[k as int] == pieces@[k as int]@);
        }
        let t = trim_vec(&pieces[k]);
        if t.len() > 0 {
            let ghost r0 = string_views(r@);
            let ts = string_of(&t);
            r.push(ts);
            proof {
                assert(string_views(r@) =~= r0.push(t@));
            }
        }
        k = k + 1;
    }
    proof {
        assert(all.subrange(0, pieces@.len() as int) =~= all);
    }
    r
}

/// Why a comparison of models cannot start.
#[derive(PartialEq, Eq, Structural, Clone, Copy, Debug)]
pub enum ComparisonRefusal {
    /// `--no-memory` was given: the runs need the memory repository's branches.
    NoMemory,
    /// The `--models` list names no model.
    NoModels,
}

/// The models a comparison runs, in order, and its judge: the one asked
/// for, else the first model. It is refused with `--no-memory`, and where
/// the list names no model.
pub open spec fn comparison_plan(list: Seq<char>, judge: Option<Seq<char>>, no_memory: bool) -> Result<(Seq<Seq<char>>, Seq<char>), ComparisonRefusal> {
    if no_memory {
        Err(ComparisonRefusal::NoMemory)
    } else if models_of_list(list).len() == 0 {
        Err(ComparisonRefusal::NoModels)
    } else {
        Ok((models_of_list(list), match judge {
            Some(j) => j,
            None => models_of_list(list)[0],
        }))
    }
}

/// The models and the judge of a comparison (see `comparison_plan`).
pub fn plan_comparison(list: &str, judge: Option<String>, no_memory: bool) -> (r: Result<(Vec<String>, String), ComparisonRefusal>)
    ensures
        match (r, comparison_plan(list@, match judge { Some(j) => Some(j@), None => None }, no_memory)) {
            (Ok((m, j)), Ok((sm, sj))) => string_views(m@) == sm && j@ == sj,
            (Err(e), Err(se)) => e == se,
            _ => false,
        },
{
    if no_memory {
        return Err(ComparisonRefusal::NoMemory);
    }
    let models = parse_model_list(list);
    if models.len() == 0 {
        return Err(ComparisonRefusal::NoModels);
    }
    let j = match judge {
        Some(j) => j,
        None => models[0].clone(),
    };
    Ok((models, j))
}

/// The branch a model's run of a comparison is made on: `model-`, the model
/// with `/` and `:` as `-`, `-`, and the time of the comparison.
pub open spec fn branch_name(model: Seq<char>, timestamp: Seq<char>) -> Seq<char> {
    "model-"@ + replace_char(replace_char(model, '/', '-'), ':', '-') + "-"@ + timestamp
}

/// The branch a model's run of a comparison is made on (see `branch_name`).
pub fn model_branch(model: &str, timestamp: &str) -> (b: String)
    ensures
        b@ == branch_name(model@, timestamp@),
{
    let v = chars_of(model);
    let safe = replace_in(&replace_in(&v, '/', '-'), ':', '-');
    let mut b = String::from_str("model-");
    let s = string_of(&safe);
    push_str(&mut b, s.as_str());
    push_str(&mut b, "-");
    push_str(&mut b, timestamp);
    b
}

/// Whether the model reasons: on with `--think`, off with `--no-think`, else as configured.
pub fn thinking_choice(think: bool, no_think: bool) -> (r: Option<bool>)
    ensures
        r == if think { Some(true) } else if no_think { Some(false) } else { None },
{
    if think {
        Some(true)
    } else if no_think {
        Some(false)
    } else {
        None
    }
}

/// Whether a run uses tools: with `--tools` yes, with `--no-tools` no, else as configured.
pub fn tools_active(tools: bool, no_tools: bool, configured: bool) -> (r: bool)
    ensures
        r == if tools { true } else if no_tools { false } else { configured },
{
    if tools {
        true
    } else if no_tools {
        false
    } else {
        configured
    }
}

/// How one output of a comparison is shown to the judge.
pub open spec fn output_block(model: Seq<char>, branch: Seq<char>, output: Seq<char>) -> Seq<char> {
    "Model: "@ + model + " (branch: "@ + branch + ")\nOutput:\n"@ + output
}

/// The outputs shown to the judge, numbered from 1.
pub open spec fn numbered_blocks(blocks: Seq<Seq<char>>) -> Seq<Seq<char>> {
    Seq::new(blocks.len(), |i: int| decimal((i + 1) as nat) + ". "@ + blocks[i])
}

/// The request to the judge.
pub open spec fn evaluation_prompt(request: Seq<char>, blocks: Seq<Seq<char>>) -> Seq<char> {
    "You are an expert evaluator. Compare the following outputs for the same user request and determine which is better.\n\nUser Request:\n"@
        + request + "\n\n"@ + join_with(numbered_blocks(blocks), "\n\n"@)
        + "\n\nRespond with ONLY the number (1-"@ + decimal(blocks.len()) + ") of the BEST output. Consider accuracy, clarity, helpfulness, and completeness."@
}

/// How one output of a comparison is shown to the judge (see `output_block`).
pub fn format_output_block(model: &str, branch: &str, output: &str) -> (b: String)
    ensures
        b@ == output_block(model@, branch@, output@),
{
    let mut b = String::from_str("Model: ");
    push_str(&mut b, model);
    push_str(&mut b, " (branch: ");
    push_str(&mut b, branch);
    push_str(&mut b, ")\nOutput:\n");
    push_str(&mut b, output);
    b
}

/// The request to the judge (see `evaluation_prompt`).
pub fn format_evaluation_prompt(request: &str, blocks: &Vec<String>) -> (p: String)
    ensures
        p@ == evaluation_prompt(request@, string_views(blocks@)),
{
    let ghost bs = string_views(blocks@);
    let mut numbered: Vec<Vec<char>> = Vec::new();
    let mut i: usize = 0;
    while i < blocks.len()
        invariant
            i <= blocks@.len(),
            bs == string_views(blocks@),
            views(numbered@) =~= numbered_blocks(bs).subrange(0, i as int),
        decreases blocks@.len() - i,
    {
        let mut t = decimal_string(i as u64 + 1);
        push_str(&mut t, ". ");
        push_str(&mut t, blocks[i].as_str());
        let ghost n0 = views(numbered@);
        numbered.push(chars_of(t.as_str()));
        proof {
            assert(views(numbered@) =~= n0.push(t@));
        }
        i = i + 1;
    }
    proof {
        assert(views(numbered@) =~= numbered_blocks(bs));
    }
    let mut p = String::from_str("You are an expert evaluator. Compare the following outputs for the same user request and determine which is better.\n\nUser Request:\n");
    push_str(&mut p, request);
    push_str(&mut p, "\n\n");
    push_joined(&mut p, &numbered, "\n\n");
    push_str(&mut p, "\n\nRespond with ONLY the number (1-");
    let n = decimal_string(blocks.len() as u64);
    push_str(&mut p, n.as_str());
    push_str(&mut p, ") of the BEST output. Consider accuracy, clarity, helpfulness, and completeness.");
    p
}

/// The value of an ASCII digit.
pub open spec fn digit_value(c: char) -> nat {
    (c as u32 - '0' as u32) as nat
}

/// Whether a character is an ASCII digit.
pub open spec fn is_digit(c: char) -> bool {
    '0' <= c && c <= '9'
}

/// The output the judge names: the first digit of its trimmed answer, 1
/// where it has none.
pub open spec fn judge_choice(answer: Seq<char>) -> nat {
    let t = trim(answer);
    if exists|i: int| 0 <= i < t.len() && is_digit(#[trigger] t[i]) {
        let i = choose|i: int| 0 <= i < t.len() && is_digit(#[trigger] t[i]) && forall|j: int| 0 <= j < i ==> !is_digit(#[trigger] t[j]);
        digit_value(t[i])
    } else {
        1
    }
}

/// The output the judge names (see `judge_choice`).
pub fn read_judge_choice(answer: &str) -> (n: usize)
    ensures
        n == judge_choice(answer@),
{
    let t = trim_vec(&chars_of(answer));
    let mut i: usize = 0;
    while i < t.len()
        invariant
            i <= t@.len(),
            t@ == trim(answer@),
            forall|j: int| 0 <= j < i ==> !is_digit(#[trigger] t@[j]),
        decreases t@.len() - i,
    {
        let c = t[i];
        if '0' <= c && c <= '9' {
            proof {
                let w = choose|k: int| 0 <= k < t@.len() && is_digit(#[trigger] t@[k]) && forall|j: int| 0 <= j < k ==> !is_digit(#[trigger] t@[j]);
                assert(is_digit(t@[i as int]));
                if w < i {
                    assert(!is_digit(t@[w]));
                }
                if w > i {
                    assert(!is_digit(t@[i as int]));
                }
                assert(w == i);
            }
            return (c as u32 - '0' as u32) as usize;
        }
        i = i + 1;
    }
    1
}

/// The output chosen after the judge's verdicts, by position: the first
/// judged output that the judge named, else the first judged one, else none.
/// Each verdict is the number the judge named, none where judging failed.
pub open spec fn best_output(verdicts: Seq<Option<nat>>) -> Option<nat>
    decreases verdicts.len(),
{
    if verdicts.len() == 0 {
        None
    } else {
        let prev = best_output(verdicts.drop_last());
        let idx = (verdicts.len() - 1) as nat;
        match verdicts.last() {
            None => prev,
            Some(n) => {
                let score: int = if n == idx + 1 { 1 } else { 0 };
                let prev_score: int = match prev {
                    None => -1,
                    Some(p) => if verdicts[p as int] == Some(p + 1) { 1 } else { 0 },
                };
                if score > prev_score { Some(idx) } else { prev }
            },
        }
    }
}

/// The judge named output `i` when judging output `i`.
pub open spec fn self_named(verdicts: Seq<Option<nat>>, i: int) -> bool {
    verdicts[i] == Some((i + 1) as nat)
}

/// Some output was named by the judge when judging it.
pub open spec fn some_self_named(verdicts: Seq<Option<nat>>) -> bool {
    exists|j: int| 0 <= j < verdicts.len() && #[trigger] self_named(verdicts, j)
}

/// What the winner `w` of the verdicts is: a judged output; the first one
/// named by the judge when judging it, where there is one; else the first
/// judged one.
pub open spec fn first_winner(verdicts: Seq<Option<nat>>, w: int) -> bool {
    &&& 0 <= w < verdicts.len()
    &&& verdicts[w] is Some
    &&& if some_self_named(verdicts) {
        &&& self_named(verdicts, w)
        &&& forall|j: int| 0 <= j < w ==> !#[trigger] self_named(verdicts, j)
    } else {
        forall|j: int| 0 <= j < w ==> #[trigger] verdicts[j] is None
    }
}

proof fn lemma_winner_extends(p: Seq<Option<nat>>, v: Seq<Option<nat>>, i: int)
    requires
        v.len() > 0,
        p == v.drop_last(),
        first_winner(p, i),
        some_self_named(v) == some_self_named(p),
    ensures
        first_winner(v, i),
{
    assert(v[i] == p[i]);
    if some_self_named(p) {
        assert(self_named(v, i));
        assert forall|j: int| 0 <= j < i implies !#[trigger] self_named(v, j) by {
            assert(v[j] == p[j]);
            assert(!self_named(p, j));
        }
    } else {
        assert forall|j: int| 0 <= j < i implies #[trigger] v[j] is None by {
            assert(v[j] == p[j]);
            assert(p[j] is None);
        }
    }
}

/// Which output wins: the first that the judge named when judging it; where
/// there is none, the first that was judged at all; where nothing was
/// judged, none.
pub proof fn lemma_best_output_is_first_winner(verdicts: Seq<Option<nat>>)
    ensures
        best_output(verdicts) is None <==> forall|j: int| 0 <= j < verdicts.len() ==> verdicts[j] is None,
        best_output(verdicts) matches Some(i) ==> first_winner(verdicts, i as int),
    decreases verdicts.len(),
{
    if verdicts.len() > 0 {
        let v = verdicts;
        let p = v.drop_last();
        let last = (v.len() - 1) as int;
        lemma_best_output_is_first_winner(p);
        assert forall|j: int| #![trigger p[j]] #![trigger v[j]] 0 <= j < p.len() implies p[j] == v[j] by {}
        assert forall|j: int| #![trigger self_named(p, j)] #![trigger self_named(v, j)]
            0 <= j < p.len() implies self_named(p, j) == self_named(v, j) by {
            assert(p[j] == v[j]);
        }
        if some_self_named(p) {
            let w = choose|j: int| 0 <= j < p.len() && #[trigger] self_named(p, j);
            assert(self_named(v, w));
            assert(some_self_named(v));
        }
        if some_self_named(v) && !self_named(v, last) {
            let w = choose|j: int| 0 <= j < v.len() && #[trigger] self_named(v, j);
            assert(w != last);
            assert(self_named(p, w));
            assert(some_self_named(p));
        }
        match v.last() {
            None => {
                assert(v[last] is None);
                assert(!self_named(v, last));
                assert(some_self_named(v) == some_self_named(p));
                match best_output(p) {
                    None => {},
                    Some(i) => {
                        lemma_winner_extends(p, v, i as int);
                    },
                }
            },
            Some(n) => {
                assert(v[last] == Some(n));
                match best_output(p) {
                    None => {
                        assert(best_output(v) == Some(last as nat));
                        if some_self_named(v) {
                            let w = choose|j: int| 0 <= j < v.len() && #[trigger] self_named(v, j);
                            if w < last {
                                assert(p[w] is None);
                            }
                            assert(self_named(v, last));
                        }
                        assert(first_winner(v, last));
                    },
                    Some(i) => {
                        assert(first_winner(p, i as int));
                        if self_named(v, last) && !self_named(p, i as int) {
                            assert(!some_self_named(p));
                            assert(best_output(v) == Some(last as nat));
                            assert(first_winner(v, last));
                        } else {
                            assert(best_output(v) == Some(i));
                            if some_self_named(v) {
                                assert(some_self_named(p));
                            } else {
                                assert(!some_self_named(p));
                            }
                            lemma_winner_extends(p, v, i as int);
                        }
                    },
                }
            },
        }
    }
}

/// The output chosen after the judge's verdicts (see `best_output`).
pub fn choose_best(verdicts: &Vec<Option<usize>>) -> (r: Option<usize>)
    ensures
        match r { Some(i) => Some(i as nat), None => None::<nat> } == best_output(verdicts@.map_values(|v: Option<usize>| match v { Some(n) => Some(n as nat), None => None::<nat> })),
{
    let ghost vs = verdicts@.map_values(|v: Option<usize>| match v { Some(n) => Some(n as nat), None => None::<nat> });
    let mut best: Option<usize> = None;
    let mut best_score: i32 = -1;
    let mut idx: usize = 0;
    while idx < verdicts.len()
        invariant
            idx <= verdicts@.len(),
            vs == verdicts@.map_values(|v: Option<usize>| match v { Some(n) => Some(n as nat), None => None::<nat> }),
            match best { Some(i) => Some(i as nat), None => None::<nat> } == best_output(vs.subrange(0, idx as int)),
            best is None ==> best_score == -1,
            best matches Some(p) ==> p < idx && best_score == (if vs[p as int] == Some((p + 1) as nat) { 1i32 } else { 0i32 }),
        decreases verdicts@.len() - idx,
    {
        proof {
            assert(vs.subrange(0, idx + 1).drop_last() =~= vs.subrange(0, idx as int));
            assert(vs.subrange(0, idx + 1).last() == vs[idx as int]);
            if let Some(p) = best {
                assert(vs.subrange(0, idx + 1)[p as int] == vs[p as int]);
            }
        }
        match verdicts[idx] {
            Some(n) => {
                let score: i32 = if idx < usize::MAX && n == idx + 1 { 1 } else { 0 };
                if score > best_score {
                    best_score = score;
                    best = Some(idx);
                }
            },
            None => {},
        }
        idx = idx + 1;
    }
    proof {
        assert(vs.subrange(0, verdicts@.len() as int) =~= vs);
    }
    best
}

/// One output of a comparison: the model, its output, how long it took
/// (already written with two decimals), and its branch.
pub struct ModelOutput {
    pub model: String,
    pub output: String,
    pub duration: String,
    pub branch: String,
}

/// The part of the evaluation report for one output.
pub open spec fn report_output(i: nat, o: ModelOutput) -> Seq<char> {
    "### "@ + decimal(i + 1) + ". "@ + o.model@ + " (branch: "@ + o.branch@ + ")\n"@ + "- **Duration**: "@
        + o.duration@ + "s\n\n"@ + "```\n"@ + o.output@ + "\n```\n\n"@
}

/// The parts of the evaluation report for the outputs.
pub open spec fn report_outputs(outputs: Seq<ModelOutput>) -> Seq<char>
    decreases outputs.len(),
{
    if outputs.len() == 0 {
        Seq::empty()
    } else {
        report_outputs(outputs.drop_last()) + report_output((outputs.len() - 1) as nat, outputs.last())
    }
}

/// The evaluation report. The winner's duration is its text cut to two
/// characters, as a precision of two cuts a text that is formatted.
pub open spec fn evaluation_report(
    timestamp: Seq<char>,
    judge: Seq<char>,
    models: Seq<Seq<char>>,
    outputs: Seq<ModelOutput>,
    winner: Option<ModelOutput>,
) -> Seq<char> {
    "# Multi-Model Evaluation\n\n"@ + "- **Timestamp**: "@ + timestamp + "\n"@ + "- **Judge Model**: "@ + judge + "\n"@
        + "- **Models Evaluated**: "@ + join_with(models, ", "@) + "\n\n"@ + "## All Outputs\n\n"@ + report_outputs(outputs)
        + "## Evaluation Result\n\n"@ + match winner {
        Some(w) => "**Winner**: "@ + w.model@ + " (branch: "@ + w.branch@ + ")\n"@ + "**Duration**: "@
            + take_chars(w.duration@, 2) + "s\n\n"@ + "**Output**:\n```\n"@ + w.output@ + "\n```\n"@,
        None => "*Evaluation inconclusive, first output used*\n"@,
    }
}

fn push_report_output(r: &mut String, i: usize, o: &ModelOutput)
    requires
        i < usize::MAX,
    ensures
        final(r)@ == old(r)@ + report_output(i as nat, *o),
{
    push_str(r, "### ");
    let n = decimal_string(i as u64 + 1);
    push_str(r, n.as_str());
    push_str(r, ". ");
    push_str(r, o.model.as_str());
    push_str(r, " (branch: ");
    push_str(r, o.branch.as_str());
    push_str(r, ")\n");
    push_str(r, "- **Duration**: ");
    push_str(r, o.duration.as_str());
    push_str(r, "s\n\n");
    push_str(r, "```\n");
    push_str(r, o.output.as_str());
    push_str(r, "\n```\n\n");
}

/// The evaluation report (see `evaluation_report`).
pub fn format_evaluation_report(
    timestamp: &str,
    judge: &str,
    models: &Vec<String>,
    outputs: &Vec<ModelOutput>,
    winner: &Option<ModelOutput>,
) -> (r: String)
    ensures
        r@ == evaluation_report(timestamp@, judge@, string_views(models@), outputs@, *winner),
{
    let mut r = String::from_str("# Multi-Model Evaluation\n\n");
    push_str(&mut r, "- **Timestamp**: ");
    push_str(&mut r, timestamp);
    push_str(&mut r, "\n");
    push_str(&mut r, "- **Judge Model**: ");
    push_str(&mut r, judge);
    push_str(&mut r, "\n");
    push_str(&mut r, "- **Models Evaluated**: ");
    let mut names: Vec<Vec<char>> = Vec::new();
    let mut k: usize = 0;
    while k < models.len()
        invariant
            k <= models@.len(),
            views(names@) =~= string_views(models@).subrange(0, k as int),
        decreases models@.len() - k,
    {
        let ghost n0 = views(names@);
        names.push(chars_of(models[k].as_str()));
        proof {
            assert(views(names@) =~= n0.push(models@[k as int]@));
        }
        k = k + 1;
    }
    proof {
        assert(views(names@) =~= string_views(models@));
    }
    push_joined(&mut r, &names, ", ");
    push_str(&mut r, "\n\n");
    push_str(&mut r, "## All Outputs\n\n");
    let ghost r0 = r@;
    let mut i: usize = 0;
    while i < outputs.len()
        invariant
            i <= outputs@.len(),
            r@ == r0 + report_outputs(outputs@.subrange(0, i as int)),
        decreases outputs@.len() - i,
    {
        proof {
            assert(outputs@.subrange(0, i + 1).drop_last() =~= outputs@.subrange(0, i as int));
        }
        push_report_output(&mut r, i, &outputs[i]);
        i = i + 1;
    }
    proof {
        assert(outputs@.subrange(0, outputs@.len() as int) =~= outputs@);
    }
    push_str(&mut r, "## Evaluation Result\n\n");
    match winner {
        Some(w) => {
            push_str(&mut r, "**Winner**: ");
            push_str(&mut r, w.model.as_str());
            push_str(&mut r, " (branch: ");
            push_str(&mut r, w.branch.as_str());
            push_str(&mut r, ")\n");
            push_str(&mut r, "**Duration**: ");
            let d = take_string(w.duration.as_str(), 2);
            push_str(&mut r, d.as_str());
            push_str(&mut r, "s\n\n");
            push_str(&mut r, "**Output**:\n```\n");
            push_str(&mut r, w.output.as_str());
            push_str(&mut r, "\n```\n");
        },
        None => {
            push_str(&mut r, "*Evaluation inconclusive, first output used*\n");
        },
    }
    r
}

/// Where the report of a comparison made at `timestamp` is kept.
pub fn evaluation_report_path(mullande_dir: &str, timestamp: &str) -> (p: String)
    ensures
        p@ == path_join(path_join(mullande_dir@, "evaluations"@), "evaluation_"@ + timestamp@ + ".md"@),
{
    let dir = join_path(mullande_dir, "evaluations");
    let mut name = String::from_str("evaluation_");
    push_str(&mut name, timestamp);
    push_str(&mut name, ".md");
    join_path(dir.as_str(), name.as_str())
}

/// The lower-case form of a text, as `str::to_lowercase` gives it.
pub uninterp spec fn lower_case(s: Seq<char>) -> Seq<char>;

/// Calls `str::to_lowercase`; claims only that the result is its result for `s`.
#[verifier::external_body]
fn to_lower(s: &str) -> (r: String)
    ensures
        r@ == lower_case(s@),
{
    s.to_lowercase()
}

/// The UTF-8 bytes of a string.
fn bytes_of(s: &str) -> (b: &[u8])
    ensures
        b@ == vstd::utf8::encode_utf8(s@),
{
    s.as_bytes()
}

/// Whether `a` comes before `b` by bytes.
pub open spec fn bytes_lt(a: Seq<u8>, b: Seq<u8>) -> bool
    decreases a.len(),
{
    if b.len() == 0 {
        false
    } else if a.len() == 0 {
        true
    } else if a[0] != b[0] {
        a[0] < b[0]
    } else {
        bytes_lt(a.drop_first(), b.drop_first())
    }
}

/// Whether string `a` comes before string `b`, as `str`'s `Ord` orders them.
pub open spec fn text_lt(a: Seq<char>, b: Seq<char>) -> bool {
    bytes_lt(vstd::utf8::encode_utf8(a), vstd::utf8::encode_utf8(b))
}

fn less_than(a: &str, b: &str) -> (r: bool)
    ensures
        r == text_lt(a@, b@),
{
    let x = bytes_of(a);
    let y = bytes_of(b);
    let mut i: usize = 0;
    assert(x@.subrange(0, x@.len() as int) =~= x@);
    assert(y@.subrange(0, y@.len() as int) =~= y@);
    while i < x.len() && i < y.len()
        invariant
            x@ == vstd::utf8::encode_utf8(a@),
            y@ == vstd::utf8::encode_utf8(b@),
            i <= x@.len(),
            i <= y@.len(),
            forall|k: int| 0 <= k < i ==> x@[k] == y@[k],
            bytes_lt(x@, y@) == bytes_lt(x@.subrange(i as int, x@.len() as int), y@.subrange(i as int, y@.len() as int)),
        decreases x@.len() - i,
    {
        let ghost xs = x@.subrange(i as int, x@.len() as int);
        let ghost ys = y@.subrange(i as int, y@.len() as int);
        if x[i] != y[i] {
            proof {
                assert(xs.len() > 0 && ys.len() > 0);
                assert(xs[0] == x@[i as int]);
                assert(ys[0] == y@[i as int]);
                assert(bytes_lt(xs, ys) == (xs[0] < ys[0]));
                assert(bytes_lt(x@, y@) == (x@[i as int] < y@[i as int]));
            }
            return x[i] < y[i];
        }
        proof {
            assert(xs.drop_first() =~= x@.subrange(i + 1, x@.len() as int));
            assert(ys.drop_first() =~= y@.subrange(i + 1, y@.len() as int));
        }
        i = i + 1;
    }
    i < y.len()
}

/// The greatest model so far whose lower-case name holds `qwen3.5`.
pub open spec fn compaction_candidate(models: Seq<Seq<char>>) -> Option<Seq<char>>
    decreases models.len(),
{
    if models.len() == 0 {
        None
    } else {
        let prev = compaction_candidate(models.drop_last());
        let m = models.last();
        if contains_sub(lower_case(m), "qwen3.5"@) {
            match prev {
                Some(p) => if text_lt(m, p) { Some(p) } else { Some(m) },
                None => Some(m),
            }
        } else {
            prev
        }
    }
}

/// The model a compaction uses where none is given: the greatest, by `str`'s
/// order, of the models whose lower-case name holds `qwen3.5`, else `qwen3.5`.
pub fn choose_compaction_model(models: &Vec<String>) -> (m: String)
    ensures
        m@ == match compaction_candidate(string_views(models@)) { Some(c) => c, None => "qwen3.5"@ },
{
    let ghost ms = string_views(models@);
    let tag = chars_of("qwen3.5");
    let mut best: Option<String> = None;
    let mut i: usize = 0;
    while i < models.len()
        invariant
            i <= models@.len(),
            ms == string_views(models@),
            tag@ == "qwen3.5"@,
            crate::config::opt_view(best) == compaction_candidate(ms.subrange(0, i as int)),
        decreases models@.len() - i,
    {
        proof {
            assert(ms.subrange(0, i + 1).drop_last() =~= ms.subrange(0, i as int));
            assert(ms.subrange(0, i + 1).last() == models@[i as int]@);
        }
        let low = chars_of(to_lower(models[i].as_str()).as_str());
        if contains_vec(&low, &tag) {
            best = match best {
                Some(p) => if less_than(models[i].as_str(), p.as_str()) { Some(p) } else { Some(models[i].clone()) },
                None => Some(models[i].clone()),
            };
        }
        i = i + 1;
    }
    proof {
        assert(ms.subrange(0, models@.len() as int) =~= ms);
    }
    match best {
        Some(b) => b,
        None => String::from_str("qwen3.5"),
    }
}

/// The conversation as shown to the summarizing model: each complete pair of
/// turns as `Turn n:` with its user and assistant text.
pub open spec fn compaction_transcript(history: Seq<Seq<char>>) -> Seq<char>
    decreases history.len(),
{
    if history.len() < 2 {
        Seq::empty()
    } else {
        let n = (history.len() / 2) as int;
        let prev = history.subrange(0, 2 * n - 2);
        compaction_transcript(prev) + "Turn "@ + decimal(n as nat) + ":\nUser: "@ + history[2 * n - 2] + "\nAssistant: "@
            + history[2 * n - 1] + "\n"@
    }
}

/// The request to the summarizing model.
pub open spec fn summary_prompt(history: Seq<Seq<char>>) -> Seq<char> {
    "Summarize the following conversation concisely, preserving key information, decisions, and important context:\n\n"@
        + compaction_transcript(history) + "\n\nProvide a concise summary (max 500 words):"@
}

proof fn lemma_transcript_prefix(h: Seq<Seq<char>>, k: int)
    requires
        0 <= k,
        2 * k + 2 <= h.len(),
    ensures
        compaction_transcript(h.subrange(0, 2 * k + 2)) == compaction_transcript(h.subrange(0, 2 * k)) + "Turn "@
            + decimal((k + 1) as nat) + ":\nUser: "@ + h[2 * k] + "\nAssistant: "@ + h[2 * k + 1] + "\n"@,
{
    let s = h.subrange(0, 2 * k + 2);
    assert(s.len() / 2 == k + 1);
    assert(s.subrange(0, 2 * k) =~= h.subrange(0, 2 * k));
}

proof fn lemma_transcript_odd(h: Seq<Seq<char>>)
    requires
        h.len() % 2 == 1,
    ensures
        compaction_transcript(h) == compaction_transcript(h.subrange(0, h.len() - 1)),
{
    if h.len() >= 2 {
        let n = (h.len() / 2) as int;
        let g = h.subrange(0, h.len() - 1);
        assert(g.len() / 2 == n);
        assert(g.subrange(0, 2 * n - 2) =~= h.subrange(0, 2 * n - 2));
    } else {
        assert(h.subrange(0, 0).len() == 0);
    }
}

fn push_turn(p: &mut String, k: usize, user: &String, assistant: &String)
    requires
        k < usize::MAX,
    ensures
        final(p)@ == old(p)@ + "Turn "@ + decimal((k + 1) as nat) + ":\nUser: "@ + user@ + "\nAssistant: "@ + assistant@ + "\n"@,
{
    push_str(p, "Turn ");
    let n = decimal_string(k as u64 + 1);
    push_str(p, n.as_str());
    push_str(p, ":\nUser: ");
    push_str(p, user.as_str());
    push_str(p, "\nAssistant: ");
    push_str(p, assistant.as_str());
    push_str(p, "\n");
}

/// The request to the summarizing model (see `summary_prompt`).
pub fn format_summary_prompt(history: &Vec<String>) -> (p: String)
    ensures
        p@ == summary_prompt(string_views(history@)),
{
    let ghost h = string_views(history@);
    let mut p = String::from_str("Summarize the following conversation concisely, preserving key information, decisions, and important context:\n\n");
    let ghost p0 = p@;
    let mut k: usize = 0;
    let pairs = history.len() / 2;
    while k < pairs
        invariant
            pairs == history@.len() / 2,
            k <= pairs,
            h == string_views(history@),
            p@ == p0 + compaction_transcript(h.subrange(0, 2 * k)),
        decreases pairs - k,
    {
        assert(2 * k + 2 <= history.len()) by {
            assert(2 * pairs <= history.len());
        }
        let ghost before = p@;
        push_turn(&mut p, k, &history[2 * k], &history[2 * k + 1]);
        proof {
            let a = h[2 * k as int];
            let b = h[2 * k + 1];
            assert(a == history@[2 * k as int]@);
            assert(b == history@[2 * k + 1]@);
            lemma_transcript_prefix(h, k as int);
            let t = "Turn "@ + decimal((k + 1) as nat) + ":\nUser: "@ + a + "\nAssistant: "@ + b + "\n"@;
            assert(compaction_transcript(h.subrange(0, 2 * k + 2)) =~= compaction_transcript(h.subrange(0, 2 * k)) + t);
            assert(p@ =~= before + t);
            assert(p@ =~= p0 + compaction_transcript(h.subrange(0, 2 * k + 2)));
        }
        k = k + 1;
    }
    proof {
        if h.len() % 2 == 0 {
            assert(h.subrange(0, 2 * pairs) =~= h);
        } else {
            assert(h.subrange(0, 2 * pairs) =~= h.subrange(0, h.len() - 1));
            lemma_transcript_odd(h);
        }
    }
    push_str(&mut p, "\n\nProvide a concise summary (max 500 words):");
    p
}

/// The conversation log after a compaction: its heading and the summary.
pub open spec fn compacted_log(model: Seq<char>, summary: Seq<char>) -> Seq<char> {
    "# Mullande Conversation Log\n\nThis file stores all conversations from mullande run and mullande chat.\n\n---\n\n**Compacted Summary** (model: "@
        + model + ")\n\n"@ + summary + "\n"@
}

/// The conversation log after a compaction (see `compacted_log`).
pub fn format_compacted_log(model: &str, summary: &str) -> (t: String)
    ensures
        t@ == compacted_log(model@, summary@),
{
    let mut t = String::from_str("# Mullande Conversation Log\n\nThis file stores all conversations from mullande run and mullande chat.\n\n---\n\n**Compacted Summary** (model: ");
    push_str(&mut t, model);
    push_str(&mut t, ")\n\n");
    push_str(&mut t, summary);
    push_str(&mut t, "\n");
    t
}

/// How many times a pattern occurs in a text, counted left to right without overlap.
pub open spec fn count_occurrences(s: Seq<char>, p: Seq<char>) -> nat
    decreases s.len(),
{
    if p.len() == 0 || s.len() == 0 {
        0
    } else if starts_with(s, p) {
        1 + count_occurrences(s.subrange(p.len() as int, s.len() as int), p)
    } else {
        count_occurrences(s.drop_first(), p)
    }
}

/// The number of user turns in a conversation log: how often `**User:**` occurs.
pub fn count_user_turns(content: &str) -> (n: usize)
    ensures
        n == count_occurrences(content@, "**User:**"@),
{
    let v = chars_of(content);
    let pv = chars_of("**User:**");
    proof {
        reveal_strlit("**User:**");
    }
    let mut n: usize = 0;
    let mut i: usize = 0;
    assert(v@.subrange(0, v@.len() as int) =~= v@);
    while i < v.len()
        invariant
            i <= v@.len(),
            pv@.len() > 0,
            v@ == content@,
            pv@ == "**User:**"@,
            n <= i,
            count_occurrences(content@, pv@) == n + count_occurrences(v@.subrange(i as int, v@.len() as int), pv@),
        decreases v@.len() - i,
    {
        let ghost rest = v@.subrange(i as int, v@.len() as int);
        if pv.len() <= v.len() - i && occurs_at(&v, &pv, i) {
            proof {
                assert(rest.subrange(0, pv@.len() as int) =~= v@.subrange(i as int, i + pv@.len()));
                assert(rest.subrange(pv@.len() as int, rest.len() as int) =~= v@.subrange(i + pv@.len(), v@.len() as int));
            }
            n = n + 1;
            i = i + pv.len();
        } else {
            proof {
                if pv@.len() <= rest.len() {
                    assert(rest.subrange(0, pv@.len() as int) =~= v@.subrange(i as int, i + pv@.len()));
                }
                assert(rest.drop_first() =~= v@.subrange(i + 1, v@.len() as int));
            }
            i = i + 1;
        }
    }
    n
}

/// Whether a file name has the extension `md`, as `Path::extension` reads
/// it: a name such as `.md` that has a dot only at its start has none.
pub open spec fn is_markdown_name(name: Seq<char>) -> bool {
    name.len() > 3 && ends_with(name, ".md"@)
}

/// How many of the file names have the extension `md`.
pub open spec fn markdown_count(names: Seq<Seq<char>>) -> nat
    decreases names.len(),
{
    if names.len() == 0 {
        0
    } else {
        markdown_count(names.drop_last()) + if is_markdown_name(names.last()) { 1nat } else { 0nat }
    }
}

/// How many of the file names in a directory have the extension `md`.
pub fn count_markdown(names: &Vec<String>) -> (n: usize)
    ensures
        n == markdown_count(string_views(names@)),
{
    let ghost ns = string_views(names@);
    let suffix = chars_of(".md");
    let mut n: usize = 0;
    let mut i: usize = 0;
    while i < names.len()
        invariant
            i <= names@.len(),
            ns == string_views(names@),
            suffix@ == ".md"@,
            n <= i,
            n == markdown_count(ns.subrange(0, i as int)),
        decreases names@.len() - i,
    {
        proof {
            assert(ns.subrange(0, i + 1).drop_last() =~= ns.subrange(0, i as int));
            assert(ns.subrange(0, i + 1).last() == names@[i as int]@);
        }
        let v = chars_of(names[i].as_str());
        if v.len() > 3 && ends_with_vec(&v, &suffix) {
            n = n + 1;
        }
        i = i + 1;
    }
    proof {
        assert(ns.subrange(0, names@.len() as int) =~= ns);
    }
    n
}

/// What the `config` command does.
pub enum ConfigAction {
    /// Import the models of the Ollama server.
    ImportOllama,
    /// Write the configuration to the given file.
    Export(String),
    /// Report that the configuration is valid.
    Check,
    /// Edit the configuration interactively.
    Edit,
    /// Print the configuration.
    Show,
}

/// What the `config` command does with its options: an import from `ollama`
/// first, then an export, a check, an edit, and else it prints the configuration.
pub fn config_action(output: Option<String>, check: bool, edit: bool, import: Option<&str>) -> (a: ConfigAction)
    ensures
        (import matches Some(s) && s@ == "ollama"@) ==> a is ImportOllama,
        !(import matches Some(s) && s@ == "ollama"@) ==> match output {
            Some(o) => a == ConfigAction::Export(o),
            None => if check { a is Check } else if edit { a is Edit } else { a is Show },
        },
{
    match import {
        Some(s) => {
            if crate::text::text_eq(s, "ollama") {
                return ConfigAction::ImportOllama;
            }
        },
        None => {},
    }
    match output {
        Some(o) => ConfigAction::Export(o),
        None => if check {
            ConfigAction::Check
        } else if edit {
            ConfigAction::Edit
        } else {
            ConfigAction::Show
        },
    }
}

} // verus!

//! Where performance records are kept (`.mullande/performance`, outside the
//! memory repository), how models are named there, and the size figures of a call.
use vstd::prelude::*;
use crate::memory::Memory;
use crate::text::{
    byte_len, chars_of, ends_with, ends_with_vec, is_whitespace, is_ws, join_path, path_join,
    replace_char, slice_vec, string_of, string_views, utf8_len, views,
};

verus! {

/// The size of a prompt: its UTF-8 bytes and a token estimate of a quarter of them.
pub struct InputLength {
    pub chars: usize,
    pub tokens_estimated: usize,
}

/// The size of an answer: its UTF-8 bytes and a token estimate of a quarter of them.
pub struct OutputLength {
    pub chars: usize,
    pub tokens_estimated: usize,
}

impl InputLength {
    /// The size of a prompt.
    pub fn of(text: &str) -> (l: Self)
        ensures
            l.chars == utf8_len(text@),
            l.tokens_estimated == utf8_len(text@) / 4,
    {
        let n = byte_len(text);
        InputLength { chars: n, tokens_estimated: n / 4 }
    }
}

impl OutputLength {
    /// The size of an answer.
    pub fn of(text: &str) -> (l: Self)
        ensures
            l.chars == utf8_len(text@),
            l.tokens_estimated == utf8_len(text@) / 4,
    {
        let n = byte_len(text);
        OutputLength { chars: n, tokens_estimated: n / 4 }
    }
}

/// The operating system a record was made on.
pub struct OSInfo {
    pub name: String,
    pub release: String,
    pub version: String,
    pub architecture: String,
}

/// The processor cores of the machine a record was made on.
pub struct CPUInfo {
    pub logical_cores: Option<usize>,
    pub physical_cores: Option<usize>,
}

/// Performance records of the models, kept in the directory `perf_dir`.
pub struct PerformanceCollector {
    pub memory: Memory,
    pub perf_dir: String,
}

/// The directory of the performance records: `performance` in the workspace directory.
pub open spec fn perf_dir_of(memory: Memory) -> Seq<char> {
    path_join(memory.workspace.mullande_dir@, "performance"@)
}

/// A model name made fit for a file name: `:`, `/` and `\` become `_`.
pub open spec fn sanitized(name: Seq<char>) -> Seq<char> {
    replace_char(replace_char(replace_char(name, ':', '_'), '/', '_'), '\\', '_')
}

/// The name of the file that holds a model's records.
pub open spec fn records_file(model: Seq<char>) -> Seq<char> {
    sanitized(model) + ".jsonl"@
}

/// Whether a file of the records directory holds the records of a model.
pub open spec fn is_records_file(f: Seq<char>) -> bool {
    ends_with(f, ".jsonl"@)
}

/// The model named by a records file: the file name without its extension,
/// with each `_` read back as `:`.
pub open spec fn model_of_records_file(f: Seq<char>) -> Seq<char> {
    replace_char(f.subrange(0, f.len() - ".jsonl"@.len()), '_', ':')
}

/// The models, in the order of the files, that have records among the files.
pub open spec fn models_with_data(files: Seq<Seq<char>>) -> Seq<Seq<char>>
    decreases files.len(),
{
    if files.len() == 0 {
        Seq::empty()
    } else {
        let r = models_with_data(files.drop_last());
        if is_records_file(files.last()) {
            r.push(model_of_records_file(files.last()))
        } else {
            r
        }
    }
}

/// Replaces each `from` in `v` by `to`.
pub fn replace_in(v: &Vec<char>, from: char, to: char) -> (r: Vec<char>)
    ensures
        r@ == replace_char(v@, from, to),
{
    let mut r: Vec<char> = Vec::new();
    let mut i: usize = 0;
    while i < v.len()
        invariant
            i <= v@.len(),
            r@ =~= replace_char(v@.subrange(0, i as int), from, to),
        decreases v@.len() - i,
    {
        let c = v[i];
        if c == from {
            r.push(to);
        } else {
            r.push(c);
        }
        i = i + 1;
    }
    proof {
        assert(v@.subrange(0, v@.len() as int) =~= v@);
    }
    r
}

/// A model name made fit for a file name (see `sanitized`).
pub fn sanitize_model_name(model_name: &str) -> (r: String)
    ensures
        r@ == sanitized(model_name@),
{
    let v = chars_of(model_name);
    let a = replace_in(&v, ':', '_');
    let b = replace_in(&a, '/', '_');
    let c = replace_in(&b, '\\', '_');
    string_of(&c)
}

impl PerformanceCollector {
    /// Records kept in `performance` of the workspace directory of the given memory.
    pub fn new(memory: Memory) -> (c: Self)
        ensures
            c.memory == memory,
            c.perf_dir@ == perf_dir_of(memory),
    {
        let dir = join_path(memory.workspace.mullande_dir.as_str(), "performance");
        PerformanceCollector { memory, perf_dir: dir }
    }

    /// The file of a model's records.
    pub fn records_path(&self, model_name: &str) -> (p: String)
        ensures
            p@ == path_join(self.perf_dir@, records_file(model_name@)),
    {
        let mut name = sanitize_model_name(model_name);
        crate::text::push_str(&mut name, ".jsonl");
        join_path(self.perf_dir.as_str(), name.as_str())
    }

    /// The file of the machine's description.
    pub fn system_info_path(&self) -> (p: String)
        ensures
            p@ == path_join(self.perf_dir@, "system_info.json"@),
    {
        join_path(self.perf_dir.as_str(), "system_info.json")
    }

    /// The models that have records, given the names of the files in the records directory.
    pub fn list_models_with_data(&self, files: &Vec<String>) -> (models: Vec<String>)
        ensures
            string_views(models@) == models_with_data(string_views(files@)),
    {
        let suffix = chars_of(".jsonl");
        let ghost fs = string_views(files@);
        let mut models: Vec<String> = Vec::new();
        let mut i: usize = 0;
        while i < files.len()
            invariant
                i <= files@.len(),
                suffix@ == ".jsonl"@,
                fs == string_views(files@),
                string_views(models@) == models_with_data(fs.subrange(0, i as int)),
            decreases files@.len() - i,
        {
            proof {
                assert(fs.subrange(0, i + 1).drop_last() =~= fs.subrange(0, i as int));
            }
            let f = chars_of(files[i].as_str());
            if ends_with_vec(&f, &suffix) {
                let inner = slice_vec(&f, 0, f.len() - suffix.len());
                let name = string_of(&replace_in(&inner, '_', ':'));
                let ghost m0 = string_views(models@);
                models.push(name);
                proof {
                    assert(string_views(models@) =~= m0.push(name@));
                }
            }
            i = i + 1;
        }
        proof {
            assert(fs.subrange(0, files@.len() as int) =~= fs);
        }
        models
    }
}

/// The whitespace-separated words of a text read from the start: the
/// finished words and the unfinished last one.
pub open spec fn word_split(s: Seq<char>) -> (Seq<Seq<char>>, Seq<char>)
    decreases s.len(),
{
    if s.len() == 0 {
        (Seq::empty(), Seq::empty())
    } else {
        let (done, cur) = word_split(s.drop_last());
        if is_ws(s.last()) {
            if cur.len() > 0 {
                (done.push(cur), Seq::empty())
            } else {
                (done, cur)
            }
        } else {
            (done, cur.push(s.last()))
        }
    }
}

/// The whitespace-separated words of a text, as `str::split_whitespace` yields them.
pub open spec fn words(s: Seq<char>) -> Seq<Seq<char>> {
    let (done, cur) = word_split(s);
    if cur.len() > 0 {
        done.push(cur)
    } else {
        done
    }
}

/// The version in the output of `ollama --version`: its fourth word, else
/// its last word, else none.
pub open spec fn ollama_version(output: Seq<char>) -> Option<Seq<char>> {
    let w = words(output);
    if w.len() >= 4 {
        Some(w[3])
    } else if w.len() > 0 {
        Some(w.last())
    } else {
        None
    }
}

/// The words of a text (see `words`).
pub fn split_words(s: &str) -> (r: Vec<Vec<char>>)
    ensures
        views(r@) == words(s@),
{
    let v = chars_of(s);
    let mut done: Vec<Vec<char>> = Vec::new();
    let mut cur: Vec<char> = Vec::new();
    let mut i: usize = 0;
    while i < v.len()
        invariant
            i <= v@.len(),
            v@ == s@,
            (views(done@), cur@) == word_split(v@.subrange(0, i as int)),
        decreases v@.len() - i,
    {
        proof {
            assert(v@.subrange(0, i + 1).drop_last() =~= v@.subrange(0, i as int));
        }
        let c = v[i];
        if is_whitespace(c) {
            if cur.len() > 0 {
                let ghost d0 = views(done@);
                let w = cur;
                cur = Vec::new();
                done.push(w);
                proof {
                    assert(views(done@) =~= d0.push(w@));
                }
            }
        } else {
            cur.push(c);
        }
        i = i + 1;
    }
    proof {
        assert(v@.subrange(0, v@.len() as int) =~= v@);
    }
    if cur.len() > 0 {
        let ghost d0 = views(done@);
        done.push(cur);
        proof {
            assert(views(done@) =~= d0.push(done@.last()@));
        }
    }
    done
}

/// The version in the output of `ollama --version` (see `ollama_version`).
pub fn parse_ollama_version(output: &str) -> (r: Option<String>)
    ensures
        crate::config::opt_view(r) == ollama_version(output@),
{
    let w = split_words(output);
    proof {
        assert(views(w@).len() == w@.len());
    }
    if w.len() >= 4 {
        proof {
            assert(views(w@)[3] == w@[3]@);
        }
        Some(string_of(&w[3]))
    } else if w.len() > 0 {
        proof {
            assert(views(w@).last() == w@.last()@);
        }
        Some(string_of(&w[w.len() - 1]))
    } else {
        None
    }
}

/// A model whose name holds no `_`, `/` or `\` is listed, from the file its
/// records are kept in, under its own name; so are names with `:` tags.
pub proof fn lemma_records_file_names_model(name: Seq<char>)
    requires
        forall|i: int| 0 <= i < name.len() ==> name[i] != '_' && name[i] != '/' && name[i] != '\\',
    ensures
        is_records_file(records_file(name)),
        model_of_records_file(records_file(name)) == name,
        models_with_data(seq![records_file(name)]) == seq![name],
{
    reveal_strlit(".jsonl");
    let s = sanitized(name);
    let f = records_file(name);
    assert(f.subrange(f.len() - 6, f.len() as int) =~= ".jsonl"@);
    assert(f.subrange(0, f.len() - 6) =~= s);
    assert(replace_char(s, '_', ':') =~= name);
    let fs = seq![f];
    assert(fs.drop_last() =~= Seq::<Seq<char>>::empty());
    assert(fs.last() == f);
    assert(models_with_data(fs.drop_last()) == models_with_data(Seq::<Seq<char>>::empty()));
    assert(is_records_file(fs.last()));
    assert(models_with_data(fs) == Seq::<Seq<char>>::empty().push(model_of_records_file(f)));
    assert(models_with_data(fs) =~= seq![name]);
}

} // verus!

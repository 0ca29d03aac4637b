//! Model configuration: the default model, named models that override it
//! field by field, and the context window and sampling parameters that follow.
//!
//! Sampling parameters that the configuration file holds as floating point
//! numbers are carried here as their IEEE-754 bit patterns (`f32::to_bits`);
//! the library only selects and forwards them.
use vstd::prelude::*;
use crate::text::{chars_of, ends_with, ends_with_vec, join_path, path_join, text_eq};

verus! {

/// An optional text by its view.
pub open spec fn opt_view(o: Option<String>) -> Option<Seq<char>> {
    match o {
        Some(s) => Some(s@),
        None => None,
    }
}

/// A copy of an optional text.
pub fn clone_opt(o: &Option<String>) -> (r: Option<String>)
    ensures
        opt_view(r) == opt_view(*o),
{
    match o {
        Some(s) => Some(s.clone()),
        None => None,
    }
}

/// The first of two options that is present.
pub open spec fn pick<T>(first: Option<T>, second: Option<T>) -> Option<T> {
    if first is Some {
        first
    } else {
        second
    }
}

/// Sampling parameters handed to the model; each is absent where the model's
/// own default applies. `temperature`, `top_p` and `presence_penalty` are bit
/// patterns of `f32` values.
#[derive(Clone, Copy, PartialEq, Eq, Structural)]
pub struct ModelParams {
    pub temperature: Option<u32>,
    pub top_k: Option<u32>,
    pub top_p: Option<u32>,
    pub presence_penalty: Option<u32>,
    pub thinking: Option<bool>,
}

impl ModelParams {
    /// No parameter set.
    pub fn none() -> (p: Self)
        ensures
            p.temperature is None && p.top_k is None && p.top_p is None,
            p.presence_penalty is None && p.thinking is None,
    {
        ModelParams { temperature: None, top_k: None, top_p: None, presence_penalty: None, thinking: None }
    }

    /// Whether any parameter is set.
    pub open spec fn any_set(self) -> bool {
        self.temperature is Some || self.top_k is Some || self.top_p is Some
            || self.presence_penalty is Some || self.thinking is Some
    }

    /// Whether any parameter is set.
    pub fn has_any(&self) -> (b: bool)
        ensures
            b == self.any_set(),
    {
        self.temperature.is_some() || self.top_k.is_some() || self.top_p.is_some()
            || self.presence_penalty.is_some() || self.thinking.is_some()
    }

    /// These parameters, each replaced by the one of `over` where that is set.
    pub open spec fn overridden(self, over: ModelParams) -> ModelParams {
        ModelParams {
            temperature: pick(over.temperature, self.temperature),
            top_k: pick(over.top_k, self.top_k),
            top_p: pick(over.top_p, self.top_p),
            presence_penalty: pick(over.presence_penalty, self.presence_penalty),
            thinking: pick(over.thinking, self.thinking),
        }
    }

    /// These parameters, each replaced by the one of `over` where that is set:
    /// how command line parameters take priority over configured ones.
    pub fn overridden_by(&self, over: &ModelParams) -> (p: ModelParams)
        ensures
            p == self.overridden(*over),
    {
        ModelParams {
            temperature: if over.temperature.is_some() { over.temperature } else { self.temperature },
            top_k: if over.top_k.is_some() { over.top_k } else { self.top_k },
            top_p: if over.top_p.is_some() { over.top_p } else { self.top_p },
            presence_penalty: if over.presence_penalty.is_some() { over.presence_penalty } else { self.presence_penalty },
            thinking: if over.thinking.is_some() { over.thinking } else { self.thinking },
        }
    }
}

/// The settings of one model.
#[derive(Clone, Debug)]
pub struct ModelConfig {
    pub provider: String,
    pub model_id: Option<String>,
    pub base_url: Option<String>,
    pub context_window: Option<u32>,
    pub api_key_env: Option<String>,
    pub temperature: Option<u32>,
    pub top_k: Option<u32>,
    pub top_p: Option<u32>,
    pub presence_penalty: Option<u32>,
    pub thinking: Option<bool>,
    pub tools_enabled: Option<bool>,
}

/// A model's settings with its texts taken by their views.
#[verifier::ext_equal]
pub struct ModelConfigView {
    pub provider: Seq<char>,
    pub model_id: Option<Seq<char>>,
    pub base_url: Option<Seq<char>>,
    pub context_window: Option<u32>,
    pub api_key_env: Option<Seq<char>>,
    pub temperature: Option<u32>,
    pub top_k: Option<u32>,
    pub top_p: Option<u32>,
    pub presence_penalty: Option<u32>,
    pub thinking: Option<bool>,
    pub tools_enabled: Option<bool>,
}

impl View for ModelConfig {
    type V = ModelConfigView;

    open spec fn view(&self) -> ModelConfigView {
        ModelConfigView {
            provider: self.provider@,
            model_id: opt_view(self.model_id),
            base_url: opt_view(self.base_url),
            context_window: self.context_window,
            api_key_env: opt_view(self.api_key_env),
            temperature: self.temperature,
            top_k: self.top_k,
            top_p: self.top_p,
            presence_penalty: self.presence_penalty,
            thinking: self.thinking,
            tools_enabled: self.tools_enabled,
        }
    }
}

/// The provider of the default model.
pub open spec fn default_provider() -> Seq<char> {
    "ollama"@
}

/// The address of a local Ollama server.
pub open spec fn default_base_url() -> Seq<char> {
    "http://localhost:11434"@
}

/// The context window used where neither the model nor the configuration sets one.
pub open spec fn fallback_context_window() -> u32 {
    4096
}

/// The settings of the default model of a fresh configuration.
pub open spec fn default_model_view() -> ModelConfigView {
    ModelConfigView {
        provider: default_provider(),
        model_id: Some("llama3"@),
        base_url: Some(default_base_url()),
        context_window: None,
        api_key_env: None,
        temperature: None,
        top_k: None,
        top_p: None,
        presence_penalty: None,
        thinking: None,
        tools_enabled: None,
    }
}

/// `base` with every setting that `over` has replaced by it; the provider is
/// always that of `over`.
pub open spec fn merged(base: ModelConfigView, over: ModelConfigView) -> ModelConfigView {
    ModelConfigView {
        provider: over.provider,
        model_id: pick(over.model_id, base.model_id),
        base_url: pick(over.base_url, base.base_url),
        context_window: pick(over.context_window, base.context_window),
        api_key_env: pick(over.api_key_env, base.api_key_env),
        temperature: pick(over.temperature, base.temperature),
        top_k: pick(over.top_k, base.top_k),
        top_p: pick(over.top_p, base.top_p),
        presence_penalty: pick(over.presence_penalty, base.presence_penalty),
        thinking: pick(over.thinking, base.thinking),
        tools_enabled: pick(over.tools_enabled, base.tools_enabled),
    }
}

impl ModelConfig {
    /// The settings of the default model of a fresh configuration.
    pub fn default_model() -> (c: Self)
        ensures
            c@ == default_model_view(),
    {
        ModelConfig {
            provider: String::from_str("ollama"),
            model_id: Some(String::from_str("llama3")),
            base_url: Some(String::from_str("http://localhost:11434")),
            context_window: None,
            api_key_env: None,
            temperature: None,
            top_k: None,
            top_p: None,
            presence_penalty: None,
            thinking: None,
            tools_enabled: None,
        }
    }

    /// The settings of a model found on an Ollama server at `base_url`.
    pub fn ollama_model(name: &str, base_url: &str) -> (c: Self)
        ensures
            c@ == ollama_model_view(name@, base_url@),
    {
        ModelConfig {
            provider: String::from_str("ollama"),
            model_id: Some(name.to_owned()),
            base_url: Some(base_url.to_owned()),
            context_window: None,
            api_key_env: None,
            temperature: None,
            top_k: None,
            top_p: None,
            presence_penalty: None,
            thinking: None,
            tools_enabled: None,
        }
    }

    /// A copy of these settings.
    pub fn duplicate(&self) -> (c: Self)
        ensures
            c@ == self@,
    {
        ModelConfig {
            provider: self.provider.clone(),
            model_id: clone_opt(&self.model_id),
            base_url: clone_opt(&self.base_url),
            context_window: self.context_window,
            api_key_env: clone_opt(&self.api_key_env),
            temperature: self.temperature,
            top_k: self.top_k,
            top_p: self.top_p,
            presence_penalty: self.presence_penalty,
            thinking: self.thinking,
            tools_enabled: self.tools_enabled,
        }
    }

    /// These settings with those of `over` laid on top (see `merged`).
    pub fn merged_with(&self, over: &ModelConfig) -> (c: Self)
        ensures
            c@ == merged(self@, over@),
    {
        let mut m = self.duplicate();
        m.provider = over.provider.clone();
        if over.model_id.is_some() {
            m.model_id = clone_opt(&over.model_id);
        }
        if over.base_url.is_some() {
            m.base_url = clone_opt(&over.base_url);
        }
        if over.context_window.is_some() {
            m.context_window = over.context_window;
        }
        if over.api_key_env.is_some() {
            m.api_key_env = clone_opt(&over.api_key_env);
        }
        if over.temperature.is_some() {
            m.temperature = over.temperature;
        }
        if over.top_k.is_some() {
            m.top_k = over.top_k;
        }
        if over.top_p.is_some() {
            m.top_p = over.top_p;
        }
        if over.presence_penalty.is_some() {
            m.presence_penalty = over.presence_penalty;
        }
        if over.thinking.is_some() {
            m.thinking = over.thinking;
        }
        if over.tools_enabled.is_some() {
            m.tools_enabled = over.tools_enabled;
        }
        m
    }

    /// The sampling parameters these settings hold.
    pub fn params(&self) -> (p: ModelParams)
        ensures
            p == params_of(self@),
    {
        ModelParams {
            temperature: self.temperature,
            top_k: self.top_k,
            top_p: self.top_p,
            presence_penalty: self.presence_penalty,
            thinking: self.thinking,
        }
    }
}

/// The sampling parameters of a model's settings.
pub open spec fn params_of(c: ModelConfigView) -> ModelParams {
    ModelParams {
        temperature: c.temperature,
        top_k: c.top_k,
        top_p: c.top_p,
        presence_penalty: c.presence_penalty,
        thinking: c.thinking,
    }
}

/// The settings given to a model found on an Ollama server.
pub open spec fn ollama_model_view(name: Seq<char>, base_url: Seq<char>) -> ModelConfigView {
    ModelConfigView {
        provider: default_provider(),
        model_id: Some(name),
        base_url: Some(base_url),
        context_window: None,
        api_key_env: None,
        temperature: None,
        top_k: None,
        top_p: None,
        presence_penalty: None,
        thinking: None,
        tools_enabled: None,
    }
}

/// A named model and its settings.
#[derive(Clone, Debug)]
pub struct NamedModel {
    pub name: String,
    pub config: ModelConfig,
}

/// The names of a table of models.
pub open spec fn names_of(t: Seq<NamedModel>) -> Seq<Seq<char>> {
    t.map_values(|e: NamedModel| e.name@)
}

/// A table of models names each model once.
pub open spec fn distinct_names(t: Seq<NamedModel>) -> bool {
    forall|i: int, j: int| 0 <= i < j < t.len() ==> t[i].name@ != t[j].name@
}

/// Whether no two entries of a table share a name.
pub fn names_distinct(t: &Vec<NamedModel>) -> (b: bool)
    ensures
        b == distinct_names(t@),
{
    let mut j: usize = 1;
    while j < t.len()
        invariant
            1 <= j,
            forall|a: int, b: int| 0 <= a < b < j && b < t@.len() ==> t@[a].name@ != t@[b].name@,
        decreases t@.len() - j,
    {
        let mut i: usize = 0;
        while i < j
            invariant
                i <= j < t@.len(),
                forall|a: int, b: int| 0 <= a < b < j ==> t@[a].name@ != t@[b].name@,
                forall|a: int| 0 <= a < i ==> t@[a].name@ != t@[j as int].name@,
            decreases j - i,
        {
            if text_eq(t[i].name.as_str(), t[j].name.as_str()) {
                assert(t@[i as int].name@ == t@[j as int].name@);
                return false;
            }
            i = i + 1;
        }
        j = j + 1;
    }
    true
}

/// A table of models as a map from name to settings.
pub open spec fn table_map(t: Seq<NamedModel>) -> Map<Seq<char>, ModelConfigView>
    decreases t.len(),
{
    if t.len() == 0 {
        Map::empty()
    } else {
        table_map(t.drop_last()).insert(t.last().name@, t.last().config@)
    }
}

proof fn lemma_table_map_entry(t: Seq<NamedModel>, i: int)
    requires
        distinct_names(t),
        0 <= i < t.len(),
    ensures
        table_map(t).contains_key(t[i].name@),
        table_map(t)[t[i].name@] == t[i].config@,
    decreases t.len(),
{
    if i < t.len() - 1 {
        lemma_table_map_entry(t.drop_last(), i);
    }
}

proof fn lemma_table_map_absent(t: Seq<NamedModel>, k: Seq<char>)
    requires
        forall|i: int| 0 <= i < t.len() ==> t[i].name@ != k,
    ensures
        !table_map(t).contains_key(k),
    decreases t.len(),
{
    if t.len() > 0 {
        lemma_table_map_absent(t.drop_last(), k);
    }
}

proof fn lemma_table_map_domain(t: Seq<NamedModel>)
    ensures
        forall|k: Seq<char>| #[trigger] table_map(t).contains_key(k) <==> names_of(t).contains(k),
    decreases t.len(),
{
    if t.len() > 0 {
        let p = t.drop_last();
        lemma_table_map_domain(p);
        assert(names_of(t) =~= names_of(p).push(t.last().name@));
        assert forall|k: Seq<char>| #[trigger] table_map(t).contains_key(k) <==> names_of(t).contains(k) by {
            assert(table_map(p).contains_key(k) <==> names_of(p).contains(k));
            if names_of(t).contains(k) {
                let j = choose|j: int| 0 <= j < names_of(t).len() && names_of(t)[j] == k;
                if j < t.len() - 1 {
                    assert(names_of(p)[j] == k);
                }
            }
            if names_of(p).contains(k) {
                let j = choose|j: int| 0 <= j < names_of(p).len() && names_of(p)[j] == k;
                assert(names_of(t)[j] == k);
            }
            if k == t.last().name@ {
                assert(names_of(t)[t.len() - 1] == k);
            }
        }
    } else {
        assert forall|k: Seq<char>| #[trigger] table_map(t).contains_key(k) <==> names_of(t).contains(k) by {
            assert(names_of(t).len() == 0);
        }
    }
}

/// Where a model of the given name stands in a table.
pub fn find_model(t: &Vec<NamedModel>, name: &str) -> (r: Option<usize>)
    ensures
        r matches Some(i) ==> i < t@.len() && t@[i as int].name@ == name@,
        r is None ==> forall|i: int| 0 <= i < t@.len() ==> t@[i].name@ != name@,
{
    let mut i: usize = 0;
    while i < t.len()
        invariant
            i <= t@.len(),
            forall|k: int| 0 <= k < i ==> t@[k].name@ != name@,
        decreases t@.len() - i,
    {
        if text_eq(t[i].name.as_str(), name) {
            return Some(i);
        }
        i = i + 1;
    }
    None
}

proof fn lemma_distinct_push(t: Seq<NamedModel>, e: NamedModel)
    requires
        distinct_names(t),
        forall|i: int| 0 <= i < t.len() ==> t[i].name@ != e.name@,
    ensures
        distinct_names(t.push(e)),
{
    assert forall|i: int, j: int| 0 <= i < j < t.push(e).len() implies t.push(e)[i].name@ != t.push(e)[j].name@ by {
        if j < t.len() {
        } else {
            assert(t.push(e)[i] == t[i]);
        }
    }
}

/// The map of a table after pushing an entry of a new name.
proof fn lemma_table_map_push(t: Seq<NamedModel>, e: NamedModel)
    ensures
        table_map(t.push(e)) == table_map(t).insert(e.name@, e.config@),
{
    assert(t.push(e).drop_last() =~= t);
}

/// A table's map, described entry by entry.
proof fn lemma_table_map_iff(t: Seq<NamedModel>, k: Seq<char>)
    requires
        distinct_names(t),
    ensures
        table_map(t).contains_key(k) <==> exists|i: int| 0 <= i < t.len() && t[i].name@ == k,
        forall|i: int| 0 <= i < t.len() && t[i].name@ == k ==> table_map(t)[k] == t[i].config@,
{
    if exists|i: int| 0 <= i < t.len() && t[i].name@ == k {
        let i = choose|i: int| 0 <= i < t.len() && t[i].name@ == k;
        lemma_table_map_entry(t, i);
        assert forall|j: int| 0 <= j < t.len() && t[j].name@ == k implies table_map(t)[k] == t[j].config@ by {
            lemma_table_map_entry(t, j);
        }
    } else {
        lemma_table_map_absent(t, k);
    }
}

/// Two maps agree at a key.
pub open spec fn same_entry<K, V>(m1: Map<K, V>, m2: Map<K, V>, k: K) -> bool {
    &&& m1.contains_key(k) == m2.contains_key(k)
    &&& m1.contains_key(k) ==> m1[k] == m2[k]
}

proof fn lemma_maps_equal<K, V>(m1: Map<K, V>, m2: Map<K, V>)
    requires
        forall|k: K| #[trigger] same_entry(m1, m2, k),
    ensures
        m1 == m2,
{
    assert forall|k: K| m1.dom().contains(k) <==> m2.dom().contains(k) by {
        assert(same_entry(m1, m2, k));
    }
    assert forall|k: K| m1.dom().contains(k) implies m1[k] == m2[k] by {
        assert(same_entry(m1, m2, k));
    }
    assert(m1 =~= m2);
}

/// Whether a model name marks a model of a cloud server.
pub open spec fn is_cloud(name: Seq<char>) -> bool {
    ends_with(name, ":cloud"@)
}

/// How many of the fetched names a table does not hold yet.
pub open spec fn count_new(fetched: Seq<Seq<char>>, old: Map<Seq<char>, ModelConfigView>) -> nat
    decreases fetched.len(),
{
    if fetched.len() == 0 {
        0
    } else {
        count_new(fetched.drop_last(), old) + if old.contains_key(fetched.last()) { 0nat } else { 1nat }
    }
}

/// The names of a table, in order, that are neither fetched nor cloud models.
pub open spec fn stale_names(t: Seq<NamedModel>, fetched: Seq<Seq<char>>) -> Seq<Seq<char>>
    decreases t.len(),
{
    if t.len() == 0 {
        Seq::empty()
    } else {
        let r = stale_names(t.drop_last(), fetched);
        let k = t.last().name@;
        if !fetched.contains(k) && !is_cloud(k) {
            r.push(k)
        } else {
            r
        }
    }
}

/// The settings file: the default model, named models, and a context window
/// for models that set none.
#[derive(Clone, Debug)]
pub struct ConfigSchema {
    pub model: ModelConfig,
    pub models: Option<Vec<NamedModel>>,
    pub global_context_window: Option<u32>,
}

/// The named models of a configuration as a map.
pub open spec fn models_map(d: ConfigSchema) -> Map<Seq<char>, ModelConfigView> {
    match d.models {
        Some(t) => table_map(t@),
        None => Map::empty(),
    }
}

/// The settings that apply to a model: those of the default model, with
/// those of the named model laid on top where the configuration names it.
pub open spec fn resolved_config(d: ConfigSchema, model: Option<Seq<char>>) -> ModelConfigView {
    match model {
        None => d.model@,
        Some(m) => if models_map(d).contains_key(m) {
            merged(d.model@, models_map(d)[m])
        } else {
            d.model@
        },
    }
}

/// Settings follow one order of priority: a sampling parameter given on the
/// command line wins, else the named model's own value, else the default
/// model's; the same holds of whether tools are enabled, without the
/// command line. Where none is set, the model's own default applies.
pub proof fn lemma_settings_precedence(d: ConfigSchema, name: Seq<char>, cli: ModelParams)
    requires
        models_map(d).contains_key(name),
    ensures
        ({
            let m = models_map(d)[name];
            let base = d.model@;
            let p = params_of(resolved_config(d, Some(name))).overridden(cli);
            &&& p.temperature == pick(cli.temperature, pick(m.temperature, base.temperature))
            &&& p.top_k == pick(cli.top_k, pick(m.top_k, base.top_k))
            &&& p.top_p == pick(cli.top_p, pick(m.top_p, base.top_p))
            &&& p.presence_penalty == pick(cli.presence_penalty, pick(m.presence_penalty, base.presence_penalty))
            &&& p.thinking == pick(cli.thinking, pick(m.thinking, base.thinking))
            &&& resolved_config(d, Some(name)).tools_enabled == pick(m.tools_enabled, base.tools_enabled)
            &&& resolved_config(d, Some(name)).context_window == pick(m.context_window, base.context_window)
        }),
{
}

/// A named model's own provider wins, and so do its id, its server and the
/// variable of its key, where it sets them; else the default model's apply.
/// A run without a named model, or with one the table does not hold, has the
/// default model's settings.
pub proof fn lemma_named_model_identity(d: ConfigSchema, name: Seq<char>)
    ensures
        models_map(d).contains_key(name) ==> {
            let m = models_map(d)[name];
            let base = d.model@;
            let r = resolved_config(d, Some(name));
            &&& r.provider == m.provider
            &&& r.model_id == match m.model_id {
                Some(x) => Some(x),
                None => base.model_id,
            }
            &&& r.base_url == match m.base_url {
                Some(u) => Some(u),
                None => base.base_url,
            }
            &&& r.api_key_env == match m.api_key_env {
                Some(v) => Some(v),
                None => base.api_key_env,
            }
        },
        !models_map(d).contains_key(name) ==> resolved_config(d, Some(name)) == d.model@,
        resolved_config(d, None) == d.model@,
{
}

/// The context window of a model: its own, else the configuration's global
/// one, else 4096.
pub open spec fn context_window_of(d: ConfigSchema, model: Option<Seq<char>>) -> u32 {
    match resolved_config(d, model).context_window {
        Some(cw) => cw,
        None => match d.global_context_window {
            Some(g) => g,
            None => fallback_context_window(),
        },
    }
}

/// The environment variable that holds a provider's key where the settings name none.
pub open spec fn provider_key_variable(provider: Seq<char>) -> Option<Seq<char>> {
    if provider == "volcengine"@ {
        Some("VOLCENGINE_API_KEY"@)
    } else if provider == "copilot"@ {
        Some("GITHUB_TOKEN"@)
    } else {
        None
    }
}

/// The environment variable from which a model's API key is read.
pub open spec fn key_variable_of(c: ModelConfigView) -> Option<Seq<char>> {
    match c.api_key_env {
        Some(n) => Some(n),
        None => provider_key_variable(c.provider),
    }
}

/// The environment variable that holds a provider's key where the settings name none.
pub fn provider_key_env(provider: &str) -> (r: Option<String>)
    ensures
        opt_view(r) == provider_key_variable(provider@),
{
    if text_eq(provider, "volcengine") {
        Some(String::from_str("VOLCENGINE_API_KEY"))
    } else if text_eq(provider, "copilot") {
        Some(String::from_str("GITHUB_TOKEN"))
    } else {
        None
    }
}

/// Whether the configuration dialog asks for a model's base URL: only for
/// models served by Ollama.
pub fn asks_base_url(provider: &str) -> (b: bool)
    ensures
        b == (provider@ == default_provider()),
{
    text_eq(provider, "ollama")
}

/// A text that the dialog leaves empty gives no setting.
pub open spec fn answer(s: Seq<char>) -> Option<Seq<char>> {
    if s.len() == 0 { None } else { Some(s) }
}

/// The settings of a model from the answers of the configuration dialog: its
/// provider; its id, none where left empty; the base URL only for Ollama; for
/// a provider whose key lies in an environment variable the name of that
/// variable (never the key itself), none where left empty; the context
/// window; nothing else.
pub open spec fn dialog_model_view(
    provider: Seq<char>,
    model_id: Seq<char>,
    base_url: Seq<char>,
    key_env: Seq<char>,
    context_window: Option<u32>,
) -> ModelConfigView {
    ModelConfigView {
        provider,
        model_id: answer(model_id),
        base_url: if provider == default_provider() { Some(base_url) } else { None },
        context_window,
        api_key_env: if provider_key_variable(provider) is Some { answer(key_env) } else { None },
        temperature: None,
        top_k: None,
        top_p: None,
        presence_penalty: None,
        thinking: None,
        tools_enabled: None,
    }
}

fn answer_string(s: &str) -> (r: Option<String>)
    ensures
        opt_view(r) == answer(s@),
{
    if chars_of(s).len() == 0 {
        None
    } else {
        Some(s.to_owned())
    }
}

/// The settings of a model from the dialog's answers (see `dialog_model_view`).
pub fn dialog_model(provider: &str, model_id: &str, base_url: &str, key_env: &str, context_window: Option<u32>) -> (c: ModelConfig)
    ensures
        c@ == dialog_model_view(provider@, model_id@, base_url@, key_env@, context_window),
{
    let base = if asks_base_url(provider) { Some(base_url.to_owned()) } else { None };
    let key = match provider_key_env(provider) {
        Some(_) => answer_string(key_env),
        None => None,
    };
    ModelConfig {
        provider: provider.to_owned(),
        model_id: answer_string(model_id),
        base_url: base,
        context_window,
        api_key_env: key,
        temperature: None,
        top_k: None,
        top_p: None,
        presence_penalty: None,
        thinking: None,
        tools_enabled: None,
    }
}

/// Whether a list of names holds the given name.
pub fn contains_name(names: &Vec<String>, name: &str) -> (b: bool)
    ensures
        b == crate::text::string_views(names@).contains(name@),
{
    let ghost v = crate::text::string_views(names@);
    let mut i: usize = 0;
    while i < names.len()
        invariant
            i <= names@.len(),
            v == crate::text::string_views(names@),
            forall|k: int| 0 <= k < i ==> v[k] != name@,
        decreases names@.len() - i,
    {
        if text_eq(names[i].as_str(), name) {
            assert(v[i as int] == name@);
            return true;
        }
        i = i + 1;
    }
    false
}

/// What an import from an Ollama server did.
pub struct SyncReport {
    pub added: usize,
    pub skipped: usize,
    pub deleted: Vec<String>,
}

impl ConfigSchema {
    /// Each named model is named once.
    pub open spec fn wf(&self) -> bool {
        self.models matches Some(t) ==> distinct_names(t@)
    }

    /// Whether no two named models share a name.
    pub fn is_wf(&self) -> (b: bool)
        ensures
            b == self.wf(),
    {
        match &self.models {
            None => true,
            Some(t) => names_distinct(t),
        }
    }

    /// A fresh configuration: the default model, no named model, and a
    /// global context window of 4096.
    pub fn default_schema() -> (d: Self)
        ensures
            d.wf(),
            d.model@ == default_model_view(),
            d.models is None,
            d.global_context_window == Some(fallback_context_window()),
    {
        ConfigSchema { model: ModelConfig::default_model(), models: None, global_context_window: Some(4096) }
    }

    /// The settings that apply to a model (see `resolved_config`).
    pub fn get_model_config(&self, model_id: Option<&str>) -> (c: ModelConfig)
        requires
            self.wf(),
        ensures
            c@ == resolved_config(*self, match model_id { Some(m) => Some(m@), None => None }),
    {
        match model_id {
            None => self.model.duplicate(),
            Some(m) => {
                match &self.models {
                    Some(t) => {
                        match find_model(t, m) {
                            Some(i) => {
                                proof {
                                    lemma_table_map_entry(t@, i as int);
                                }
                                self.model.merged_with(&t[i].config)
                            },
                            None => {
                                proof {
                                    lemma_table_map_absent(t@, m@);
                                }
                                self.model.duplicate()
                            },
                        }
                    },
                    None => self.model.duplicate(),
                }
            },
        }
    }

    /// The settings the configuration gives a named model, where it names it.
    pub fn named_model(&self, name: &str) -> (r: Option<&ModelConfig>)
        requires
            self.wf(),
        ensures
            r is Some <==> models_map(*self).contains_key(name@),
            r matches Some(c) ==> c@ == models_map(*self)[name@],
    {
        match &self.models {
            Some(t) => match find_model(t, name) {
                Some(i) => {
                    proof {
                        lemma_table_map_entry(t@, i as int);
                    }
                    Some(&t[i].config)
                },
                None => {
                    proof {
                        lemma_table_map_absent(t@, name@);
                    }
                    None
                },
            },
            None => None,
        }
    }

    /// The sampling parameters that apply to a model.
    pub fn get_model_params(&self, model_id: Option<&str>) -> (p: ModelParams)
        requires
            self.wf(),
        ensures
            p == params_of(resolved_config(*self, match model_id { Some(m) => Some(m@), None => None })),
    {
        self.get_model_config(model_id).params()
    }

    /// The context window that applies to a model (see `context_window_of`).
    pub fn get_context_window(&self, model_id: Option<&str>) -> (cw: u32)
        requires
            self.wf(),
        ensures
            cw == context_window_of(*self, match model_id { Some(m) => Some(m@), None => None }),
    {
        let c = self.get_model_config(model_id);
        match c.context_window {
            Some(cw) => cw,
            None => match self.global_context_window {
                Some(g) => g,
                None => 4096,
            },
        }
    }

    /// The environment variable from which a model's API key is read: the one
    /// its settings name, else the provider's usual one; none for Ollama.
    pub fn api_key_env_name(&self, model_id: Option<&str>) -> (r: Option<String>)
        requires
            self.wf(),
        ensures
            opt_view(r) == key_variable_of(resolved_config(*self, match model_id { Some(m) => Some(m@), None => None })),
    {
        let c = self.get_model_config(model_id);
        match &c.api_key_env {
            Some(n) => Some(n.clone()),
            None => provider_key_env(c.provider.as_str()),
        }
    }

    /// The number of named models.
    pub fn model_count(&self) -> (n: usize)
        ensures
            n == match self.models { Some(t) => t@.len(), None => 0 },
    {
        match &self.models {
            Some(t) => t.len(),
            None => 0,
        }
    }
}

/// Sets the settings of a model in a table, adding the model where the table
/// does not name it.
pub fn upsert_model(t: &mut Vec<NamedModel>, name: &str, config: ModelConfig)
    requires
        distinct_names(old(t)@),
    ensures
        distinct_names(final(t)@),
        table_map(final(t)@) == table_map(old(t)@).insert(name@, config@),
{
    let ghost c = config@;
    match find_model(t, name) {
        Some(i) => {
            let ghost t0 = t@;
            let old_name = t[i].name.clone();
            t.set(i, NamedModel { name: old_name, config });
            proof {
                assert forall|a: int, b: int| 0 <= a < b < t@.len() implies t@[a].name@ != t@[b].name@ by {
                    assert(t@[a].name@ == t0[a].name@);
                    assert(t@[b].name@ == t0[b].name@);
                }
                assert forall|k: Seq<char>| same_entry(table_map(t@), table_map(t0).insert(name@, c), k) by {
                    lemma_table_map_iff(t@, k);
                    lemma_table_map_iff(t0, k);
                    if k == name@ {
                        lemma_table_map_entry(t@, i as int);
                    } else if table_map(t@).contains_key(k) {
                        let j = choose|j: int| 0 <= j < t@.len() && t@[j].name@ == k;
                        assert(t@[j].name@ == t0[j].name@);
                    } else if table_map(t0).contains_key(k) {
                        let j = choose|j: int| 0 <= j < t0.len() && t0[j].name@ == k;
                        assert(t@[j].name@ == t0[j].name@);
                    }
                }
                lemma_maps_equal(table_map(t@), table_map(t0).insert(name@, c));
            }
        },
        None => {
            let ghost t0 = t@;
            let e = NamedModel { name: name.to_owned(), config };
            proof {
                lemma_distinct_push(t0, e);
                lemma_table_map_push(t0, e);
            }
            t.push(e);
        },
    }
}

/// Removes the model of the given name from a table.
pub fn remove_model(t: &mut Vec<NamedModel>, name: &str)
    requires
        distinct_names(old(t)@),
    ensures
        distinct_names(final(t)@),
        table_map(final(t)@) == table_map(old(t)@).remove(name@),
{
    match find_model(t, name) {
        Some(i) => {
            let ghost t0 = t@;
            t.remove(i);
            proof {
                assert(t@ =~= t0.remove(i as int));
                assert forall|a: int, b: int| 0 <= a < b < t@.len() implies t@[a].name@ != t@[b].name@ by {
                    if a < i {
                        if b < i {
                        } else {
                            assert(t@[b] == t0[b + 1]);
                        }
                    } else {
                        assert(t@[a] == t0[a + 1]);
                        assert(t@[b] == t0[b + 1]);
                    }
                }
                assert forall|k: Seq<char>| same_entry(table_map(t@), table_map(t0).remove(name@), k) by {
                    lemma_table_map_iff(t@, k);
                    lemma_table_map_iff(t0, k);
                    if table_map(t@).contains_key(k) {
                        let j = choose|j: int| 0 <= j < t@.len() && t@[j].name@ == k;
                        if j < i {
                            assert(t@[j] == t0[j]);
                        } else {
                            assert(t@[j] == t0[j + 1]);
                        }
                    } else if table_map(t0).contains_key(k) && k != name@ {
                        let j = choose|j: int| 0 <= j < t0.len() && t0[j].name@ == k;
                        if j < i {
                            assert(t@[j] == t0[j]);
                        } else {
                            assert(j != i);
                            assert(t@[j - 1] == t0[j]);
                        }
                    }
                }
                lemma_maps_equal(table_map(t@), table_map(t0).remove(name@));
            }
        },
        None => {
            proof {
                lemma_table_map_absent(t@, name@);
                assert(table_map(t@).remove(name@) =~= table_map(t@));
            }
        },
    }
}

/// The settings a synchronized table holds for a name it holds.
pub open spec fn synced_value(old: Map<Seq<char>, ModelConfigView>, base_url: Seq<char>, k: Seq<char>) -> ModelConfigView {
    if old.contains_key(k) {
        old[k]
    } else {
        ollama_model_view(k, base_url)
    }
}

/// `new` is the table of named models after importing `fetched` from an
/// Ollama server at `base_url` into `old`.
pub open spec fn imported(
    old: Map<Seq<char>, ModelConfigView>,
    new: Map<Seq<char>, ModelConfigView>,
    fetched: Seq<Seq<char>>,
    base_url: Seq<char>,
) -> bool {
    &&& forall|k: Seq<char>| #![trigger new.contains_key(k)]
        new.contains_key(k) <==> (fetched.contains(k) || (old.contains_key(k) && is_cloud(k)))
    &&& forall|k: Seq<char>| #![trigger new[k]] new.contains_key(k) ==> new[k] == synced_value(old, base_url, k)
}

proof fn lemma_count_new_none(fetched: Seq<Seq<char>>, m: Map<Seq<char>, ModelConfigView>)
    requires
        forall|i: int| 0 <= i < fetched.len() ==> m.contains_key(#[trigger] fetched[i]),
    ensures
        count_new(fetched, m) == 0,
    decreases fetched.len(),
{
    if fetched.len() > 0 {
        let f = fetched.drop_last();
        assert forall|i: int| 0 <= i < f.len() implies m.contains_key(#[trigger] f[i]) by {
            assert(f[i] == fetched[i]);
        }
        lemma_count_new_none(f, m);
        assert(m.contains_key(fetched[fetched.len() - 1]));
    }
}

/// Importing the same list twice changes nothing the second time: the second
/// import adds no model and leaves the table as the first import left it.
pub proof fn lemma_import_settles(
    m0: Map<Seq<char>, ModelConfigView>,
    m1: Map<Seq<char>, ModelConfigView>,
    m2: Map<Seq<char>, ModelConfigView>,
    fetched: Seq<Seq<char>>,
    base_url: Seq<char>,
)
    requires
        imported(m0, m1, fetched, base_url),
        imported(m1, m2, fetched, base_url),
    ensures
        m2 == m1,
        count_new(fetched, m1) == 0,
{
    assert forall|k: Seq<char>| m2.contains_key(k) <==> m1.contains_key(k) by {
        if fetched.contains(k) {
            assert(m1.contains_key(k));
        }
    }
    assert forall|k: Seq<char>| #[trigger] m2.contains_key(k) implies m2[k] == m1[k] by {
        assert(m1.contains_key(k));
    }
    assert(m2 =~= m1);
    assert forall|i: int| 0 <= i < fetched.len() implies m1.contains_key(#[trigger] fetched[i]) by {
        assert(fetched.contains(fetched[i]));
    }
    lemma_count_new_none(fetched, m1);
}

/// The table after adding the first of the fetched names holds `k` as it should.
pub open spec fn added_ok(
    m: Map<Seq<char>, ModelConfigView>,
    old: Map<Seq<char>, ModelConfigView>,
    fetched: Seq<Seq<char>>,
    base_url: Seq<char>,
    k: Seq<char>,
) -> bool {
    &&& m.contains_key(k) <==> (old.contains_key(k) || fetched.contains(k))
    &&& m.contains_key(k) ==> m[k] == synced_value(old, base_url, k)
}

/// The table after removing stale names among the first of the old names holds `k` as it should.
pub open spec fn pruned_ok(
    m: Map<Seq<char>, ModelConfigView>,
    old: Map<Seq<char>, ModelConfigView>,
    fetched: Seq<Seq<char>>,
    seen: Seq<Seq<char>>,
    base_url: Seq<char>,
    k: Seq<char>,
) -> bool {
    &&& m.contains_key(k) <==> ((old.contains_key(k) || fetched.contains(k)) && !(seen.contains(k) && !fetched.contains(k) && !is_cloud(k)))
    &&& m.contains_key(k) ==> m[k] == synced_value(old, base_url, k)
}

/// Whether a name is that of a cloud model.
pub fn is_cloud_name(name: &str) -> (b: bool)
    ensures
        b == is_cloud(name@),
{
    let v = chars_of(name);
    let suffix = chars_of(":cloud");
    ends_with_vec(&v, &suffix)
}

fn table_names(t: &Vec<NamedModel>) -> (r: Vec<String>)
    ensures
        crate::text::string_views(r@) == names_of(t@),
{
    let mut r: Vec<String> = Vec::new();
    let mut i: usize = 0;
    while i < t.len()
        invariant
            i <= t@.len(),
            crate::text::string_views(r@) =~= names_of(t@).subrange(0, i as int),
        decreases t@.len() - i,
    {
        let ghost r0 = crate::text::string_views(r@);
        r.push(t[i].name.clone());
        proof {
            assert(crate::text::string_views(r@) =~= r0.push(t@[i as int].name@));
        }
        i = i + 1;
    }
    r
}

impl ConfigSchema {
    /// Makes the named models those found on an Ollama server: each fetched
    /// name not yet configured is added with default settings for `base_url`,
    /// and each configured name that is neither fetched nor a `:cloud` model
    /// is removed; the others keep their settings.
    #[verifier::rlimit(40)]
    pub fn sync_ollama_models(&mut self, fetched: &Vec<String>, base_url: &str) -> (r: SyncReport)
        requires
            old(self).wf(),
        ensures
            final(self).wf(),
            final(self).model@ == old(self).model@,
            final(self).global_context_window == old(self).global_context_window,
            forall|k: Seq<char>| #![trigger models_map(*final(self)).contains_key(k)]
                models_map(*final(self)).contains_key(k) <==> (crate::text::string_views(fetched@).contains(k)
                    || (models_map(*old(self)).contains_key(k) && is_cloud(k))),
            forall|k: Seq<char>| #![trigger models_map(*final(self))[k]]
                models_map(*final(self)).contains_key(k) ==> models_map(*final(self))[k]
                    == synced_value(models_map(*old(self)), base_url@, k),
            imported(models_map(*old(self)), models_map(*final(self)), crate::text::string_views(fetched@), base_url@),
            r.added == count_new(crate::text::string_views(fetched@), models_map(*old(self))),
            r.added + r.skipped == fetched@.len(),
            crate::text::string_views(r.deleted@) == stale_names(
                match old(self).models { Some(t) => t@, None => Seq::empty() },
                crate::text::string_views(fetched@),
            ),
            final(self).models is None <==> (old(self).models is None && r.added == 0),
    {
        let ghost old_map = models_map(*self);
        let ghost f = crate::text::string_views(fetched@);
        let ghost bu = base_url@;
        let was_none = self.models.is_none();
        let mut table: Vec<NamedModel> = match self.models.take() {
            Some(t) => t,
            None => Vec::new(),
        };
        let ghost old_t = table@;
        proof {
            lemma_table_map_domain(old_t);
            if was_none {
                assert(table_map(old_t) =~= Map::<Seq<char>, ModelConfigView>::empty());
            }
        }
        let existing = table_names(&table);
        let mut added: usize = 0;
        let mut skipped: usize = 0;
        let mut i: usize = 0;
        proof {
            assert forall|k: Seq<char>| #[trigger] added_ok(table_map(table@), old_map, f.subrange(0, 0), bu, k) by {
                lemma_table_map_iff(old_t, k);
            }
        }
        while i < fetched.len()
            invariant
                i <= fetched@.len(),
                f == crate::text::string_views(fetched@),
                bu == base_url@,
                old_map == table_map(old_t),
                crate::text::string_views(existing@) == names_of(old_t),
                forall|k: Seq<char>| #[trigger] table_map(old_t).contains_key(k) <==> names_of(old_t).contains(k),
                distinct_names(table@),
                forall|k: Seq<char>| #[trigger] added_ok(table_map(table@), old_map, f.subrange(0, i as int), bu, k),
                added == count_new(f.subrange(0, i as int), old_map),
                added + skipped == i,
            decreases fetched@.len() - i,
        {
            let name = fetched[i].as_str();
            let ghost pre = f.subrange(0, i as int);
            let ghost post = f.subrange(0, i + 1);
            proof {
                assert(post.drop_last() =~= pre);
                assert(post =~= pre.push(name@));
            }
            let ghost m0 = table_map(table@);
            proof {
                assert(name@ == f[i as int]);
                assert forall|k: Seq<char>| post.contains(k) <==> (pre.contains(k) || k == name@) by {
                    if post.contains(k) {
                        let q = choose|q: int| 0 <= q < post.len() && post[q] == k;
                        if q < pre.len() {
                            assert(pre[q] == k);
                        }
                    }
                    if pre.contains(k) {
                        let q = choose|q: int| 0 <= q < pre.len() && pre[q] == k;
                        assert(post[q] == k);
                    }
                    if k == name@ {
                        assert(post[i as int] == k);
                    }
                }
                assert(f.subrange(0, i + 1).drop_last() =~= pre);
            }
            if contains_name(&existing, name) {
                proof {
                    assert(old_map.contains_key(name@));
                }
                skipped = skipped + 1;
                proof {
                    assert forall|k: Seq<char>| #[trigger] added_ok(table_map(table@), old_map, post, bu, k) by {
                        assert(added_ok(m0, old_map, pre, bu, k));
                    }
                }
            } else {
                proof {
                    assert(!old_map.contains_key(name@));
                }
                upsert_model(&mut table, name, ModelConfig::ollama_model(name, base_url));
                added = added + 1;
                proof {
                    assert forall|k: Seq<char>| #[trigger] added_ok(table_map(table@), old_map, post, bu, k) by {
                        assert(added_ok(m0, old_map, pre, bu, k));
                    }
                }
            }
            i = i + 1;
        }
        proof {
            assert(f.subrange(0, fetched@.len() as int) =~= f);
        }
        let mut deleted: Vec<String> = Vec::new();
        let mut j: usize = 0;
        proof {
            assert forall|k: Seq<char>| #[trigger] pruned_ok(table_map(table@), old_map, f, names_of(old_t).subrange(0, 0), bu, k) by {
                assert(added_ok(table_map(table@), old_map, f, bu, k));
            }
            assert(old_t.subrange(0, 0) =~= Seq::<NamedModel>::empty());
        }
        while j < existing.len()
            invariant
                j <= existing@.len(),
                f == crate::text::string_views(fetched@),
                bu == base_url@,
                old_map == table_map(old_t),
                crate::text::string_views(existing@) == names_of(old_t),
                distinct_names(old_t),
                distinct_names(table@),
                forall|k: Seq<char>| #[trigger] pruned_ok(table_map(table@), old_map, f, names_of(old_t).subrange(0, j as int), bu, k),
                crate::text::string_views(deleted@) == stale_names(old_t.subrange(0, j as int), f),
            decreases existing@.len() - j,
        {
            let name = existing[j].as_str();
            let ghost pre = names_of(old_t).subrange(0, j as int);
            let ghost post = names_of(old_t).subrange(0, j + 1);
            proof {
                assert(names_of(old_t).len() == old_t.len());
                assert(crate::text::string_views(existing@).len() == existing@.len());
                assert(post =~= pre.push(name@));
                assert(old_t.subrange(0, j + 1).drop_last() =~= old_t.subrange(0, j as int));
                assert(name@ == names_of(old_t)[j as int]);
                assert(old_t.subrange(0, j + 1).last() == old_t[j as int]);
                assert(names_of(old_t)[j as int] == old_t[j as int].name@);
                assert(old_map.contains_key(name@)) by {
                    lemma_table_map_entry(old_t, j as int);
                }
                assert forall|k: Seq<char>| post.contains(k) <==> (pre.contains(k) || k == name@) by {
                    if post.contains(k) {
                        let q = choose|q: int| 0 <= q < post.len() && post[q] == k;
                        if q < pre.len() {
                            assert(pre[q] == k);
                        }
                    }
                    if pre.contains(k) {
                        let q = choose|q: int| 0 <= q < pre.len() && pre[q] == k;
                        assert(post[q] == k);
                    }
                    if k == name@ {
                        assert(post[j as int] == k);
                    }
                }
                // an old name not seen yet is not among those seen
                assert(!pre.contains(name@)) by {
                    if pre.contains(name@) {
                        let q = choose|q: int| 0 <= q < pre.len() && pre[q] == name@;
                        assert(old_t[q].name@ == old_t[j as int].name@);
                    }
                }
            }
            let ghost m0 = table_map(table@);
            let ghost d0 = crate::text::string_views(deleted@);
            if !contains_name(fetched, name) && !is_cloud_name(name) {
                remove_model(&mut table, name);
                deleted.push(existing[j].clone());
                proof {
                    assert(crate::text::string_views(deleted@) =~= d0.push(name@));
                    assert forall|k: Seq<char>| #[trigger] pruned_ok(table_map(table@), old_map, f, post, bu, k) by {
                        assert(pruned_ok(m0, old_map, f, pre, bu, k));
                    }
                }
            } else {
                proof {
                    assert forall|k: Seq<char>| #[trigger] pruned_ok(table_map(table@), old_map, f, post, bu, k) by {
                        assert(pruned_ok(m0, old_map, f, pre, bu, k));
                    }
                }
            }
            j = j + 1;
        }
        proof {
            assert(names_of(old_t).subrange(0, existing@.len() as int) =~= names_of(old_t));
            assert(old_t.subrange(0, existing@.len() as int) =~= old_t);
        }
        if was_none && added == 0 {
            proof {
                assert forall|k: Seq<char>| !table_map(table@).contains_key(k) by {
                    assert(pruned_ok(table_map(table@), old_map, f, names_of(old_t), bu, k));
                    if f.contains(k) {
                        let q = choose|q: int| 0 <= q < f.len() && f[q] == k;
                        lemma_count_new_zero(f, old_map, q);
                    }
                }
            }
            self.models = None;
            proof {
                assert(models_map(*self) =~= Map::<Seq<char>, ModelConfigView>::empty());
            }
        } else {
            self.models = Some(table);
        }
        proof {
            assert forall|k: Seq<char>| #![trigger models_map(*self).contains_key(k)]
                models_map(*self).contains_key(k) <==> (f.contains(k) || (old_map.contains_key(k) && is_cloud(k))) by {
                assert(pruned_ok(table_map(table@), old_map, f, names_of(old_t), bu, k));
            }
            assert forall|k: Seq<char>| #![trigger models_map(*self)[k]]
                models_map(*self).contains_key(k) ==> models_map(*self)[k] == synced_value(old_map, bu, k) by {
                assert(pruned_ok(table_map(table@), old_map, f, names_of(old_t), bu, k));
            }
        }
        SyncReport { added, skipped, deleted }
    }
}

proof fn lemma_count_new_zero(f: Seq<Seq<char>>, old: Map<Seq<char>, ModelConfigView>, q: int)
    requires
        count_new(f, old) == 0,
        0 <= q < f.len(),
    ensures
        old.contains_key(f[q]),
    decreases f.len(),
{
    if q < f.len() - 1 {
        lemma_count_new_zero(f.drop_last(), old, q);
    }
}

/// The fetched names, in order, that a table of models does not hold.
pub open spec fn unconfigured(fetched: Seq<Seq<char>>, m: Map<Seq<char>, ModelConfigView>) -> Seq<Seq<char>>
    decreases fetched.len(),
{
    if fetched.len() == 0 {
        Seq::empty()
    } else {
        let r = unconfigured(fetched.drop_last(), m);
        if m.contains_key(fetched.last()) {
            r
        } else {
            r.push(fetched.last())
        }
    }
}

/// A table of models after adding the given Ollama models in order.
pub open spec fn with_ollama_models(m: Map<Seq<char>, ModelConfigView>, names: Seq<Seq<char>>, base_url: Seq<char>) -> Map<Seq<char>, ModelConfigView>
    decreases names.len(),
{
    if names.len() == 0 {
        m
    } else {
        with_ollama_models(m, names.drop_last(), base_url).insert(names.last(), ollama_model_view(names.last(), base_url))
    }
}

/// The names `names[selected[0]], names[selected[1]], ...`.
pub open spec fn selection(names: Seq<Seq<char>>, selected: Seq<usize>) -> Seq<Seq<char>> {
    selected.map_values(|i: usize| names[i as int])
}

impl ConfigSchema {
    /// The fetched names, in order, that the configuration does not name yet:
    /// the candidates offered when importing from a cloud server.
    pub fn new_cloud_models(&self, fetched: &Vec<String>) -> (r: Vec<String>)
        requires
            self.wf(),
        ensures
            crate::text::string_views(r@) == unconfigured(crate::text::string_views(fetched@), models_map(*self)),
    {
        let ghost f = crate::text::string_views(fetched@);
        let mut r: Vec<String> = Vec::new();
        let mut i: usize = 0;
        while i < fetched.len()
            invariant
                self.wf(),
                i <= fetched@.len(),
                f == crate::text::string_views(fetched@),
                crate::text::string_views(r@) == unconfigured(f.subrange(0, i as int), models_map(*self)),
            decreases fetched@.len() - i,
        {
            proof {
                assert(f.subrange(0, i + 1).drop_last() =~= f.subrange(0, i as int));
            }
            let configured = self.named_model(fetched[i].as_str()).is_some();
            if !configured {
                let ghost r0 = crate::text::string_views(r@);
                r.push(fetched[i].clone());
                proof {
                    assert(crate::text::string_views(r@) =~= r0.push(f[i as int]));
                }
            }
            i = i + 1;
        }
        proof {
            assert(f.subrange(0, fetched@.len() as int) =~= f);
        }
        r
    }

    /// Adds the chosen candidates, each as an Ollama model at `base_url`.
    pub fn add_selected_models(&mut self, candidates: &Vec<String>, selected: &Vec<usize>, base_url: &str) -> (added: usize)
        requires
            old(self).wf(),
            forall|i: int| 0 <= i < selected@.len() ==> selected@[i] < candidates@.len(),
        ensures
            final(self).wf(),
            final(self).models is Some,
            final(self).model@ == old(self).model@,
            final(self).global_context_window == old(self).global_context_window,
            models_map(*final(self)) == with_ollama_models(
                models_map(*old(self)),
                selection(crate::text::string_views(candidates@), selected@),
                base_url@,
            ),
            added == selected@.len(),
    {
        let ghost c = crate::text::string_views(candidates@);
        let ghost m0 = models_map(*self);
        let mut table: Vec<NamedModel> = match self.models.take() {
            Some(t) => t,
            None => Vec::new(),
        };
        proof {
            if old(self).models is None {
                assert(table_map(table@) =~= Map::<Seq<char>, ModelConfigView>::empty());
            }
        }
        let mut i: usize = 0;
        while i < selected.len()
            invariant
                i <= selected@.len(),
                forall|q: int| 0 <= q < selected@.len() ==> selected@[q] < candidates@.len(),
                c == crate::text::string_views(candidates@),
                distinct_names(table@),
                table_map(table@) == with_ollama_models(m0, selection(c, selected@.subrange(0, i as int)), base_url@),
            decreases selected@.len() - i,
        {
            let k = selected[i];
            let name = candidates[k].as_str();
            proof {
                let pre = selection(c, selected@.subrange(0, i as int));
                let post = selection(c, selected@.subrange(0, i + 1));
                assert(post.drop_last() =~= pre);
                assert(post.last() == c[k as int]);
            }
            upsert_model(&mut table, name, ModelConfig::ollama_model(name, base_url));
            i = i + 1;
        }
        proof {
            assert(selected@.subrange(0, selected@.len() as int) =~= selected@);
        }
        self.models = Some(table);
        selected.len()
    }
}

/// A configuration and the file it is kept in.
#[derive(Clone, Debug)]
pub struct Config {
    pub data: ConfigSchema,
    pub config_path: String,
}

impl Config {
    /// Where the configuration of a workspace directory is kept.
    pub fn path_in(mullande_dir: &str) -> (p: String)
        ensures
            p@ == path_join(mullande_dir@, "config.json"@),
    {
        join_path(mullande_dir, "config.json")
    }

    /// The configuration written where a workspace has none yet.
    pub fn fresh(mullande_dir: &str) -> (c: Self)
        ensures
            c.data.wf(),
            c.data.model@ == default_model_view(),
            c.data.models is None,
            c.data.global_context_window == Some(fallback_context_window()),
            c.config_path@ == path_join(mullande_dir@, "config.json"@),
    {
        Config { data: ConfigSchema::default_schema(), config_path: Self::path_in(mullande_dir) }
    }

    /// The settings that apply to a model (see `resolved_config`).
    pub fn get_model_config(&self, model_id: Option<&str>) -> (c: ModelConfig)
        requires
            self.data.wf(),
        ensures
            c@ == resolved_config(self.data, match model_id { Some(m) => Some(m@), None => None }),
    {
        self.data.get_model_config(model_id)
    }

    /// The sampling parameters configured for a model.
    pub fn get_model_params(&self, model_id: Option<&str>) -> (p: ModelParams)
        requires
            self.data.wf(),
        ensures
            p == params_of(resolved_config(self.data, match model_id { Some(m) => Some(m@), None => None })),
    {
        self.data.get_model_params(model_id)
    }

    /// The context window of a model (see `context_window_of`).
    pub fn get_context_window(&self, model_id: Option<&str>) -> (cw: u32)
        requires
            self.data.wf(),
        ensures
            cw == context_window_of(self.data, match model_id { Some(m) => Some(m@), None => None }),
    {
        self.data.get_context_window(model_id)
    }

    /// The environment variable from which a model's API key is read.
    pub fn api_key_env_name(&self, model_id: Option<&str>) -> (r: Option<String>)
        requires
            self.data.wf(),
        ensures
            opt_view(r) == key_variable_of(resolved_config(self.data, match model_id { Some(m) => Some(m@), None => None })),
    {
        self.data.api_key_env_name(model_id)
    }
}

} // verus!

//! The agent: which model a run uses and with which settings, the prompt it
//! sends, where the request goes, and the conversation it keeps.
use vstd::prelude::*;
use crate::config::{
    Config, ConfigSchema, ModelConfig, ModelConfigView, ModelParams, models_map, opt_view,
    params_of, resolved_config, context_window_of, key_variable_of, pick,
};
use crate::text::{
    byte_len, decimal, decimal_string, push_str, string_views, text_eq, trim_end, trim_end_vec,
    chars_of, string_of, utf8_len,
};

verus! {

/// The model id used where the settings name none.
pub open spec fn unknown_model() -> Seq<char> {
    "unknown"@
}

/// The heading of the `i`-th turn of a transcript: user turns at even
/// positions, assistant turns at odd ones.
pub open spec fn turn_heading(i: int) -> Seq<char> {
    if i % 2 == 0 {
        "### User:\n"@
    } else {
        "### Assistant:\n"@
    }
}

/// The earlier turns written as a transcript, each under its heading and
/// followed by a blank line.
pub open spec fn transcript(history: Seq<Seq<char>>) -> Seq<char>
    decreases history.len(),
{
    if history.len() == 0 {
        Seq::empty()
    } else {
        transcript(history.drop_last()) + turn_heading(history.len() - 1) + history.last() + "\n\n"@
    }
}

/// The prompt sent to the model: the transcript of the earlier turns and the
/// new input as a last user turn, without trailing whitespace.
pub open spec fn full_prompt(history: Seq<Seq<char>>, input: Seq<char>) -> Seq<char> {
    trim_end(transcript(history) + "### User:\n"@ + input + "\n\n"@)
}

/// Where a request goes, by the provider of the model.
pub enum Route {
    /// To an Ollama server, with tools or without.
    Ollama { tools: bool },
    /// Nowhere: the given text is the answer.
    Reply(String),
}

/// The answer given for a provider that is known but not supported.
pub open spec fn unsupported_reply(provider: Seq<char>, model: Seq<char>, context_window: u32) -> Seq<char> {
    "Provider "@ + provider + " not implemented yet.\nConfiguration:\n- Provider: "@ + provider
        + "\n- Model: "@ + model + "\n- Context window: "@ + decimal(context_window as nat)
}

/// The answer given for an unknown provider.
pub open spec fn unknown_provider_reply(provider: Seq<char>) -> Seq<char> {
    "Unknown provider: "@ + provider
}

/// Where a request for the given provider goes.
pub open spec fn route_for(provider: Seq<char>, model: Seq<char>, context_window: u32, tools: bool) -> Result<bool, Seq<char>> {
    if provider == "ollama"@ {
        Ok(tools)
    } else if provider == "volcengine"@ || provider == "copilot"@ {
        Err(unsupported_reply(provider, model, context_window))
    } else {
        Err(unknown_provider_reply(provider))
    }
}

/// A request goes to Ollama exactly for a model served by Ollama, and then
/// with tools exactly when the run has tools enabled.
pub proof fn lemma_ollama_route_follows_tools(provider: Seq<char>, model: Seq<char>, context_window: u32, tools: bool)
    ensures
        route_for(provider, model, context_window, tools) is Ok <==> provider == "ollama"@,
        route_for(provider, model, context_window, tools) matches Ok(t) ==> t == tools,
{
}

/// A run of the agent: the configuration, the model asked for, the turns of
/// the conversation so far, and the settings of this run. The timeout is in seconds.
pub struct AgentSystem {
    pub config: Config,
    pub requested_model: Option<String>,
    pub conversation_history: Vec<String>,
    pub timeout_secs: Option<u64>,
    pub verbose: bool,
    pub params_override: ModelParams,
    pub tools_enabled: bool,
}

/// The model id a run uses.
pub open spec fn effective_model(d: ConfigSchema, requested: Option<Seq<char>>) -> Seq<char> {
    match requested {
        None => match resolved_config(d, None).model_id {
            Some(id) => id,
            None => unknown_model(),
        },
        Some(req) => if models_map(d).contains_key(req) && models_map(d)[req].model_id is Some {
            models_map(d)[req].model_id->0
        } else {
            req
        },
    }
}

impl AgentSystem {
    /// The configuration is well formed.
    pub open spec fn wf(&self) -> bool {
        self.config.data.wf()
    }

    /// The model asked for, by its view.
    pub open spec fn requested(&self) -> Option<Seq<char>> {
        opt_view(self.requested_model)
    }

    /// A run with the given configuration and earlier turns, with no
    /// timeout, parameter override or tools.
    pub fn new(config: Config, requested_model: Option<String>, conversation_history: Vec<String>) -> (a: Self)
        ensures
            a.config == config,
            a.requested_model == requested_model,
            a.conversation_history == conversation_history,
            a.timeout_secs is None,
            !a.verbose,
            !a.params_override.any_set(),
            !a.tools_enabled,
    {
        AgentSystem {
            config,
            requested_model,
            conversation_history,
            timeout_secs: None,
            verbose: false,
            params_override: ModelParams::none(),
            tools_enabled: false,
        }
    }

    /// Sets the request timeout, in seconds.
    pub fn set_timeout(&mut self, timeout_secs: u64)
        ensures
            final(self).timeout_secs == Some(timeout_secs),
            final(self).config == old(self).config,
            final(self).requested_model == old(self).requested_model,
            final(self).conversation_history == old(self).conversation_history,
            final(self).verbose == old(self).verbose,
            final(self).params_override == old(self).params_override,
            final(self).tools_enabled == old(self).tools_enabled,
    {
        self.timeout_secs = Some(timeout_secs);
    }

    /// Sets whether the client echoes what it receives.
    pub fn set_verbose(&mut self, verbose: bool)
        ensures
            final(self).verbose == verbose,
            final(self).config == old(self).config,
            final(self).requested_model == old(self).requested_model,
            final(self).conversation_history == old(self).conversation_history,
            final(self).timeout_secs == old(self).timeout_secs,
            final(self).params_override == old(self).params_override,
            final(self).tools_enabled == old(self).tools_enabled,
    {
        self.verbose = verbose;
    }

    /// Sets the parameters that take priority over the configured ones.
    pub fn set_model_params(&mut self, params: ModelParams)
        ensures
            final(self).params_override == params,
            final(self).config == old(self).config,
            final(self).requested_model == old(self).requested_model,
            final(self).conversation_history == old(self).conversation_history,
            final(self).timeout_secs == old(self).timeout_secs,
            final(self).verbose == old(self).verbose,
            final(self).tools_enabled == old(self).tools_enabled,
    {
        self.params_override = params;
    }

    /// Sets whether the model may call tools.
    pub fn set_tools_enabled(&mut self, enabled: bool)
        ensures
            final(self).tools_enabled == enabled,
            final(self).config == old(self).config,
            final(self).requested_model == old(self).requested_model,
            final(self).conversation_history == old(self).conversation_history,
            final(self).timeout_secs == old(self).timeout_secs,
            final(self).verbose == old(self).verbose,
            final(self).params_override == old(self).params_override,
    {
        self.tools_enabled = enabled;
    }

    /// The model id this run uses: that of the named model where the
    /// configuration names the requested model and gives it one, else the
    /// requested name; without a request, the default model's id, else "unknown".
    pub fn effective_model_id(&self) -> (id: String)
        requires
            self.wf(),
        ensures
            id@ == effective_model(self.config.data, self.requested()),
    {
        match &self.requested_model {
            None => {
                let c = self.config.data.get_model_config(None);
                match c.model_id {
                    Some(id) => id,
                    None => String::from_str("unknown"),
                }
            },
            Some(req) => {
                match self.config.data.named_model(req.as_str()) {
                    Some(c) => match &c.model_id {
                        Some(id) => id.clone(),
                        None => req.clone(),
                    },
                    None => req.clone(),
                }
            },
        }
    }

    /// The settings that apply to this run's model.
    pub fn model_config(&self) -> (c: ModelConfig)
        requires
            self.wf(),
        ensures
            c@ == resolved_config(self.config.data, self.requested()),
    {
        self.config.data.get_model_config(self.requested_str())
    }

    fn requested_str(&self) -> (r: Option<&str>)
        ensures
            match r { Some(m) => Some(m@), None => None::<Seq<char>> } == self.requested(),
    {
        match &self.requested_model {
            Some(m) => Some(m.as_str()),
            None => None,
        }
    }

    /// The context window that applies to this run's model.
    pub fn get_context_window(&self) -> (cw: u32)
        requires
            self.wf(),
        ensures
            cw == context_window_of(self.config.data, self.requested()),
    {
        self.config.data.get_context_window(self.requested_str())
    }

    /// The environment variable from which this run's API key is read.
    pub fn api_key_env_name(&self) -> (r: Option<String>)
        requires
            self.wf(),
        ensures
            opt_view(r) == key_variable_of(resolved_config(self.config.data, self.requested())),
    {
        self.config.data.api_key_env_name(self.requested_str())
    }

    /// The sampling parameters of this run: the configured ones, each
    /// replaced by the override where that is set.
    pub fn effective_params(&self) -> (p: ModelParams)
        requires
            self.wf(),
        ensures
            p == params_of(resolved_config(self.config.data, self.requested())).overridden(self.params_override),
    {
        let configured = self.config.data.get_model_params(self.requested_str());
        configured.overridden_by(&self.params_override)
    }

    /// The prompt for a new input (see `full_prompt`).
    pub fn build_full_prompt(&self, new_input: &str) -> (p: String)
        ensures
            p@ == full_prompt(string_views(self.conversation_history@), new_input@),
    {
        let ghost h = string_views(self.conversation_history@);
        let mut full = String::new();
        let mut i: usize = 0;
        while i < self.conversation_history.len()
            invariant
                i <= self.conversation_history@.len(),
                h == string_views(self.conversation_history@),
                full@ == transcript(h.subrange(0, i as int)),
            decreases self.conversation_history@.len() - i,
        {
            proof {
                assert(h.subrange(0, i + 1).drop_last() =~= h.subrange(0, i as int));
            }
            if i % 2 == 0 {
                push_str(&mut full, "### User:\n");
            } else {
                push_str(&mut full, "### Assistant:\n");
            }
            push_str(&mut full, self.conversation_history[i].as_str());
            push_str(&mut full, "\n\n");
            i = i + 1;
        }
        proof {
            assert(h.subrange(0, h.len() as int) =~= h);
        }
        push_str(&mut full, "### User:\n");
        push_str(&mut full, new_input);
        push_str(&mut full, "\n\n");
        let chars = chars_of(full.as_str());
        string_of(&trim_end_vec(&chars))
    }

    /// Where this run's request goes (see `route_for`).
    pub fn route(&self) -> (r: Route)
        requires
            self.wf(),
        ensures
            match r {
                Route::Ollama { tools } => route_for(
                    resolved_config(self.config.data, self.requested()).provider,
                    effective_model(self.config.data, self.requested()),
                    context_window_of(self.config.data, self.requested()),
                    self.tools_enabled,
                ) == Ok::<bool, Seq<char>>(tools),
                Route::Reply(t) => route_for(
                    resolved_config(self.config.data, self.requested()).provider,
                    effective_model(self.config.data, self.requested()),
                    context_window_of(self.config.data, self.requested()),
                    self.tools_enabled,
                ) == Err::<bool, Seq<char>>(t@),
            },
            r is Ollama <==> resolved_config(self.config.data, self.requested()).provider == "ollama"@,
            r matches Route::Ollama { tools } ==> tools == self.tools_enabled,
    {
        let provider = self.model_config().provider;
        let model = self.effective_model_id();
        let cw = self.get_context_window();
        if text_eq(provider.as_str(), "ollama") {
            Route::Ollama { tools: self.tools_enabled }
        } else if text_eq(provider.as_str(), "volcengine") || text_eq(provider.as_str(), "copilot") {
            let mut t = String::from_str("Provider ");
            push_str(&mut t, provider.as_str());
            push_str(&mut t, " not implemented yet.\nConfiguration:\n- Provider: ");
            push_str(&mut t, provider.as_str());
            push_str(&mut t, "\n- Model: ");
            push_str(&mut t, model.as_str());
            push_str(&mut t, "\n- Context window: ");
            let n = decimal_string(cw as u64);
            push_str(&mut t, n.as_str());
            Route::Reply(t)
        } else {
            let mut t = String::from_str("Unknown provider: ");
            push_str(&mut t, provider.as_str());
            Route::Reply(t)
        }
    }

    /// Closes a turn: where the model answered, the input and the answer are
    /// added to the conversation; where the call failed, nothing is.
    pub fn record_turn(&mut self, input: &str, answer: Option<&str>)
        ensures
            final(self).config == old(self).config,
            final(self).requested_model == old(self).requested_model,
            final(self).tools_enabled == old(self).tools_enabled,
            string_views(final(self).conversation_history@) == match answer {
                Some(a) => string_views(old(self).conversation_history@).push(input@).push(a@),
                None => string_views(old(self).conversation_history@),
            },
    {
        match answer {
            Some(a) => {
                let ghost h0 = string_views(self.conversation_history@);
                self.conversation_history.push(input.to_owned());
                self.conversation_history.push(a.to_owned());
                proof {
                    assert(string_views(self.conversation_history@) =~= h0.push(input@).push(a@));
                }
            },
            None => {},
        }
    }
}

/// The estimated number of tokens of a text: a quarter of its UTF-8 bytes.
pub fn estimate_tokens(text: &str) -> (n: usize)
    ensures
        n == utf8_len(text@) / 4,
{
    byte_len(text) / 4
}

} // verus!

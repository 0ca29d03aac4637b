//! The Ollama chat protocol as the agent uses it: the client's settings, the
//! request options, the reading of a streamed answer, and model listings.
use vstd::prelude::*;
use crate::config::{ModelParams, opt_view};
use crate::text::{
    byte_len, utf8_len, chars_of, contains_sub, contains_vec, decimal, decimal_string, ends_with, ends_with_vec, push_char, push_str, slice_vec,
    string_of, string_views,
};

verus! {

/// A value of one argument of a tool call, as far as the tools read it.
#[derive(Clone, Debug)]
pub enum ArgValue {
    Text(String),
    Count(u64),
    Flag(bool),
    Other,
}

/// One named argument of a tool call.
#[derive(Clone, Debug)]
pub struct ArgField {
    pub key: String,
    pub value: ArgValue,
}

/// The arguments of a tool call: their compact JSON text, and the top-level
/// fields of that JSON object.
#[derive(Clone, Debug)]
pub struct ToolArguments {
    pub json: String,
    pub fields: Vec<ArgField>,
}

/// The function a tool call asks for.
#[derive(Clone, Debug)]
pub struct ToolCallFunction {
    pub name: String,
    pub arguments: ToolArguments,
}

/// A tool call requested by the model.
#[derive(Clone, Debug)]
pub struct ToolCall {
    pub function: ToolCallFunction,
}

/// A chat message.
#[derive(Clone, Debug)]
pub struct ChatMessage {
    pub role: String,
    pub content: String,
    pub thinking: Option<String>,
    pub tool_calls: Option<Vec<ToolCall>>,
}

/// One line of a streamed chat answer.
pub struct ChatResponse {
    pub message: Option<ChatMessage>,
    pub delta: Option<ChatMessage>,
    pub done: bool,
}

/// The model options of a chat request; `temperature`, `top_p` and
/// `presence_penalty` are bit patterns of `f32` values.
pub struct ChatOptions {
    pub num_ctx: u32,
    pub temperature: Option<u32>,
    pub top_k: Option<u32>,
    pub top_p: Option<u32>,
    pub presence_penalty: Option<u32>,
}

/// Token and timing figures that Ollama returns for a request that is not streamed.
pub struct OllamaCallMetrics {
    pub eval_count: usize,
    pub prompt_eval_count: usize,
    pub eval_duration_ns: u64,
    pub total_duration_ns: u64,
}

impl OllamaCallMetrics {
    /// The figures of a reply, each zero where the reply lacks it.
    pub fn from_reply(eval_count: Option<u64>, prompt_eval_count: Option<u64>, eval_duration: Option<u64>, total_duration: Option<u64>) -> (m: Self)
        requires
            eval_count matches Some(c) ==> c <= usize::MAX,
            prompt_eval_count matches Some(c) ==> c <= usize::MAX,
        ensures
            m.eval_count == match eval_count { Some(c) => c as usize, None => 0 },
            m.prompt_eval_count == match prompt_eval_count { Some(c) => c as usize, None => 0 },
            m.eval_duration_ns == match eval_duration { Some(c) => c, None => 0 },
            m.total_duration_ns == match total_duration { Some(c) => c, None => 0 },
    {
        OllamaCallMetrics {
            eval_count: match eval_count { Some(c) => c as usize, None => 0 },
            prompt_eval_count: match prompt_eval_count { Some(c) => c as usize, None => 0 },
            eval_duration_ns: match eval_duration { Some(c) => c, None => 0 },
            total_duration_ns: match total_duration { Some(c) => c, None => 0 },
        }
    }
}

/// The answer to a request for the models a server has.
#[derive(Clone, Debug)]
pub struct ListModelsResponse {
    pub models: Vec<ModelInfo>,
}

/// A model a server has.
#[derive(Clone, Debug)]
pub struct ModelInfo {
    pub name: String,
}

/// The settings of a connection to an Ollama server.
pub struct OllamaClient {
    pub base_url: String,
    pub api_key: Option<String>,
    pub timeout_secs: Option<u64>,
    pub verbose: bool,
}

/// A base address that ends with a slash.
pub open spec fn with_trailing_slash(url: Seq<char>) -> Seq<char> {
    if ends_with(url, seq!['/']) {
        url
    } else {
        url.push('/')
    }
}

/// The request timeout where none is set: ten minutes.
pub open spec fn default_timeout_secs() -> u64 {
    600
}

/// A model name without a `:latest` tag.
pub open spec fn without_latest(name: Seq<char>) -> Seq<char> {
    if ends_with(name, ":latest"@) {
        name.subrange(0, name.len() - ":latest"@.len())
    } else {
        name
    }
}

impl OllamaClient {
    /// A client for the server at `base_url`.
    pub fn new(base_url: &str, api_key: Option<String>) -> (c: Self)
        ensures
            c.base_url@ == with_trailing_slash(base_url@),
            opt_view(c.api_key) == opt_view(api_key),
            c.timeout_secs is None,
            !c.verbose,
    {
        let v = chars_of(base_url);
        let mut url = base_url.to_owned();
        let slash = chars_of("/");
        proof {
            reveal_strlit("/");
            assert(slash@ =~= seq!['/']);
        }
        if !ends_with_vec(&v, &slash) {
            push_char(&mut url, '/');
        }
        OllamaClient { base_url: url, api_key, timeout_secs: None, verbose: false }
    }

    /// Sets the request timeout, in seconds.
    pub fn set_timeout(&mut self, timeout_secs: u64)
        ensures
            final(self).timeout_secs == Some(timeout_secs),
            final(self).base_url == old(self).base_url,
            final(self).api_key == old(self).api_key,
            final(self).verbose == old(self).verbose,
    {
        self.timeout_secs = Some(timeout_secs);
    }

    /// Sets whether received chunks are echoed.
    pub fn set_verbose(&mut self, verbose: bool)
        ensures
            final(self).verbose == verbose,
            final(self).base_url == old(self).base_url,
            final(self).api_key == old(self).api_key,
            final(self).timeout_secs == old(self).timeout_secs,
    {
        self.verbose = verbose;
    }

    /// The timeout of a request, in seconds.
    pub fn request_timeout_secs(&self) -> (t: u64)
        ensures
            t == match self.timeout_secs { Some(t) => t, None => default_timeout_secs() },
    {
        match self.timeout_secs {
            Some(t) => t,
            None => 600,
        }
    }

    /// The `Authorization` header sent with each request where a key is set.
    pub fn authorization_header(&self) -> (h: Option<String>)
        ensures
            opt_view(h) == match self.api_key { Some(k) => Some("Bearer "@ + k@), None => None },
    {
        match &self.api_key {
            Some(k) => {
                let mut h = String::from_str("Bearer ");
                push_str(&mut h, k.as_str());
                Some(h)
            },
            None => None,
        }
    }

    /// The address of the chat endpoint.
    pub fn chat_url(&self) -> (u: String)
        ensures
            u@ == self.base_url@ + "api/chat"@,
    {
        let mut u = self.base_url.clone();
        push_str(&mut u, "api/chat");
        u
    }

    /// The address of the endpoint listing the server's models.
    pub fn tags_url(&self) -> (u: String)
        ensures
            u@ == self.base_url@ + "api/tags"@,
    {
        let mut u = self.base_url.clone();
        push_str(&mut u, "api/tags");
        u
    }

    /// The names of the models in a listing, each without a `:latest` tag.
    pub fn list_models(&self, listing: &ListModelsResponse) -> (names: Vec<String>)
        ensures
            names@.len() == listing.models@.len(),
            forall|i: int| 0 <= i < names@.len() ==> #[trigger] names@[i]@ == without_latest(listing.models@[i].name@),
    {
        let mut names: Vec<String> = Vec::new();
        let mut i: usize = 0;
        while i < listing.models.len()
            invariant
                i <= listing.models@.len(),
                names@.len() == i,
                forall|j: int| 0 <= j < i ==> #[trigger] names@[j]@ == without_latest(listing.models@[j].name@),
            decreases listing.models@.len() - i,
        {
            names.push(strip_latest(listing.models[i].name.as_str()));
            i = i + 1;
        }
        names
    }
}

/// A model name without a `:latest` tag.
pub fn strip_latest(name: &str) -> (r: String)
    ensures
        r@ == without_latest(name@),
{
    let v = chars_of(name);
    let tag = chars_of(":latest");
    if ends_with_vec(&v, &tag) {
        string_of(&slice_vec(&v, 0, v.len() - tag.len()))
    } else {
        name.to_owned()
    }
}

/// The options sent with a chat request: none where the context window is 0
/// and no sampling parameter is set.
pub open spec fn options_for(context_window: u32, params: ModelParams) -> Option<(u32, Option<u32>, Option<u32>, Option<u32>, Option<u32>)> {
    if context_window == 0 && params.temperature is None && params.top_k is None && params.top_p is None
        && params.presence_penalty is None {
        None
    } else {
        Some((context_window, params.temperature, params.top_k, params.top_p, params.presence_penalty))
    }
}

/// Options are sent where the context window or a sampling parameter is
/// set, and they carry the context window and each sampling parameter in
/// its own field.
pub proof fn lemma_options_carry_each_parameter(context_window: u32, params: ModelParams)
    ensures
        options_for(context_window, params) is None <==> (context_window == 0 && params.temperature is None
            && params.top_k is None && params.top_p is None && params.presence_penalty is None),
        options_for(context_window, params) matches Some((n, t, k, p, q)) ==> {
            &&& n == context_window
            &&& t == params.temperature
            &&& k == params.top_k
            &&& p == params.top_p
            &&& q == params.presence_penalty
        },
{
}

/// The options sent with a chat request (see `options_for`).
pub fn build_options(context_window: u32, params: &ModelParams) -> (o: Option<ChatOptions>)
    ensures
        match o {
            Some(c) => options_for(context_window, *params) == Some((c.num_ctx, c.temperature, c.top_k, c.top_p, c.presence_penalty)),
            None => options_for(context_window, *params) is None,
        },
        o is None <==> (context_window == 0 && params.temperature is None && params.top_k is None && params.top_p is None
            && params.presence_penalty is None),
        o matches Some(c) ==> {
            &&& c.num_ctx == context_window
            &&& c.temperature == params.temperature
            &&& c.top_k == params.top_k
            &&& c.top_p == params.top_p
            &&& c.presence_penalty == params.presence_penalty
        },
{
    let has_ctx = context_window > 0;
    let has_params = params.temperature.is_some() || params.top_k.is_some() || params.top_p.is_some()
        || params.presence_penalty.is_some();
    if !has_ctx && !has_params {
        return None;
    }
    Some(ChatOptions {
        num_ctx: context_window,
        temperature: params.temperature,
        top_k: params.top_k,
        top_p: params.top_p,
        presence_penalty: params.presence_penalty,
    })
}

/// What has been read of a streamed answer: the answer text, the reasoning
/// text, whether the reasoning banner was printed, whether the model is
/// reasoning now, whether it reasoned at all, and whether any chunk arrived.
pub struct StreamState {
    pub content: String,
    pub thinking: String,
    pub banner_shown: bool,
    pub in_thinking: bool,
    pub thinking_seen: bool,
    pub chunk_seen: bool,
}

/// The state of reading a streamed answer, texts by their views.
pub struct StreamView {
    pub content: Seq<char>,
    pub thinking: Seq<char>,
    pub banner_shown: bool,
    pub in_thinking: bool,
    pub thinking_seen: bool,
    pub chunk_seen: bool,
}

impl View for StreamState {
    type V = StreamView;

    open spec fn view(&self) -> StreamView {
        StreamView {
            content: self.content@,
            thinking: self.thinking@,
            banner_shown: self.banner_shown,
            in_thinking: self.in_thinking,
            thinking_seen: self.thinking_seen,
            chunk_seen: self.chunk_seen,
        }
    }
}

/// What reading one chunk asks for: the text to print at once, whether this
/// was the first chunk, and whether reasoning began or ended with it.
pub struct ChunkOutcome {
    pub print: String,
    pub first_chunk: bool,
    pub thinking_began: bool,
    pub thinking_ended: bool,
    pub done: bool,
}

/// The grey banner printed before the reasoning text.
pub open spec fn thinking_banner() -> Seq<char> {
    "\x1b[90m[thinking] "@
}

/// A piece of reasoning read: it is printed, after the banner the first time.
pub open spec fn think_piece(st: StreamView, piece: Seq<char>) -> (StreamView, Seq<char>, bool) {
    (
        StreamView { thinking: st.thinking + piece, banner_shown: true, in_thinking: true, thinking_seen: true, ..st },
        (if st.banner_shown { Seq::empty() } else { thinking_banner() }) + piece,
        !st.in_thinking,
    )
}

/// The text of a message added to the answer where it is not empty.
pub open spec fn add_content(st: StreamView, text: Seq<char>) -> StreamView {
    if text.len() > 0 {
        StreamView { content: st.content + text, ..st }
    } else {
        st
    }
}

/// Reading the `delta` of a chunk: its text goes to the answer; its reasoning,
/// or its text while it holds `<think>` or reasoning has begun, is reasoning;
/// other text ends reasoning. Yields the state, the printed text, whether
/// reasoning began, and whether it ended.
pub open spec fn delta_step(st: StreamView, content: Seq<char>, thinking: Option<Seq<char>>) -> (StreamView, Seq<char>, bool, bool) {
    let st1 = add_content(st, content);
    match thinking {
        Some(t) => if t.len() > 0 {
            let (s2, out, began) = think_piece(st1, t);
            (s2, out, began, false)
        } else {
            (st1, Seq::empty(), false, false)
        },
        None => if contains_sub(content, "<think>"@) || st1.thinking.len() > 0 {
            let (s2, out, began) = think_piece(st1, content);
            (s2, out, began, false)
        } else if st1.in_thinking && content.len() > 0 {
            (StreamView { in_thinking: false, ..st1 }, Seq::empty(), false, true)
        } else {
            (st1, Seq::empty(), false, false)
        },
    }
}

/// Reading the `message` of a chunk: its reasoning is reasoning, its text goes to the answer.
pub open spec fn message_step(st: StreamView, content: Seq<char>, thinking: Option<Seq<char>>) -> (StreamView, Seq<char>, bool) {
    let (st1, out, began) = match thinking {
        Some(t) => if t.len() > 0 {
            think_piece(st, t)
        } else {
            (st, Seq::empty(), false)
        },
        None => (st, Seq::empty(), false),
    };
    (add_content(st1, content), out, began)
}

/// The state after a chunk, the printed text, whether reasoning began, and whether it ended.
pub open spec fn chunk_step(st: StreamView, chunk: ChatResponse) -> (StreamView, Seq<char>, bool, bool) {
    let st0 = StreamView { chunk_seen: true, ..st };
    let (st1, out1, began1, ended1) = match chunk.delta {
        Some(d) => delta_step(st0, d.content@, opt_view(d.thinking)),
        None => (st0, Seq::empty(), false, false),
    };
    let (st2, out2, began2) = match chunk.message {
        Some(m) => message_step(st1, m.content@, opt_view(m.thinking)),
        None => (st1, Seq::empty(), false),
    };
    (st2, out1 + out2, began1 || began2, ended1 || (chunk.done && st2.in_thinking && st2.thinking_seen))
}

/// The answer text a chunk carries: that of its `delta`, then that of its `message`.
pub open spec fn chunk_text(chunk: ChatResponse) -> Seq<char> {
    (match chunk.delta {
        Some(d) => d.content@,
        None => Seq::empty(),
    }) + (match chunk.message {
        Some(m) => m.content@,
        None => Seq::empty(),
    })
}

/// The answer read from a stream is the text of its chunks, in order: each
/// chunk adds its text to what was read, whatever reasoning it carries.
pub proof fn lemma_chunk_appends_answer(st: StreamView, chunk: ChatResponse)
    ensures
        chunk_step(st, chunk).0.content == st.content + chunk_text(chunk),
{
    let st0 = StreamView { chunk_seen: true, ..st };
    let (st1, out1, began1, ended1) = match chunk.delta {
        Some(d) => delta_step(st0, d.content@, opt_view(d.thinking)),
        None => (st0, Seq::empty(), false, false),
    };
    let dt: Seq<char> = match chunk.delta {
        Some(d) => d.content@,
        None => Seq::empty(),
    };
    let mt: Seq<char> = match chunk.message {
        Some(m) => m.content@,
        None => Seq::empty(),
    };
    assert(st1.content =~= st.content + dt);
    assert(chunk_step(st, chunk).0.content =~= st1.content + mt);
}

impl StreamState {
    /// Nothing read yet.
    pub fn new() -> (s: Self)
        ensures
            s@ == (StreamView { content: Seq::empty(), thinking: Seq::empty(), banner_shown: false, in_thinking: false, thinking_seen: false, chunk_seen: false }),
    {
        StreamState { content: String::new(), thinking: String::new(), banner_shown: false, in_thinking: false, thinking_seen: false, chunk_seen: false }
    }

    fn take_thinking(&mut self, piece: &str, out: &mut String) -> (began: bool)
        ensures
            (final(self)@, final(out)@.subrange(old(out)@.len() as int, final(out)@.len() as int), began) == think_piece(old(self)@, piece@),
            final(out)@.len() >= old(out)@.len(),
            final(out)@.subrange(0, old(out)@.len() as int) == old(out)@,
            final(self).chunk_seen == old(self).chunk_seen,
    {
        let ghost o0 = out@;
        let began = !self.in_thinking;
        self.in_thinking = true;
        self.thinking_seen = true;
        push_str(&mut self.thinking, piece);
        if !self.banner_shown {
            push_str(out, "\x1b[90m[thinking] ");
            self.banner_shown = true;
        }
        push_str(out, piece);
        proof {
            if old(self).banner_shown {
                assert(out@.subrange(o0.len() as int, out@.len() as int) =~= Seq::<char>::empty() + piece@);
            } else {
                assert(out@.subrange(o0.len() as int, out@.len() as int) =~= thinking_banner() + piece@);
            }
            assert(out@.subrange(0, o0.len() as int) =~= o0);
        }
        began
    }

    fn add_text(&mut self, text: &str)
        ensures
            final(self)@ == add_content(old(self)@, text@),
    {
        if !text.is_empty() {
            push_str(&mut self.content, text);
        }
    }

    fn read_delta(&mut self, d: &ChatMessage) -> (r: (String, bool, bool))
        ensures
            (final(self)@, r.0@, r.1, r.2) == delta_step(old(self)@, d.content@, opt_view(d.thinking)),
    {
        let mut out = String::new();
        let mut began = false;
        let mut ended = false;
        self.add_text(d.content.as_str());
        match &d.thinking {
            Some(t) => {
                if !t.as_str().is_empty() {
                    began = self.take_thinking(t.as_str(), &mut out);
                    proof {
                        assert(out@ =~= out@.subrange(0, out@.len() as int));
                    }
                }
            },
            None => {
                let cv = chars_of(d.content.as_str());
                let tag = chars_of("<think>");
                if contains_vec(&cv, &tag) || !self.thinking.as_str().is_empty() {
                    began = self.take_thinking(d.content.as_str(), &mut out);
                    proof {
                        assert(out@ =~= out@.subrange(0, out@.len() as int));
                    }
                } else if self.in_thinking && !d.content.as_str().is_empty() {
                    self.in_thinking = false;
                    ended = true;
                }
            },
        }
        (out, began, ended)
    }

    fn read_message(&mut self, m: &ChatMessage) -> (r: (String, bool))
        ensures
            (final(self)@, r.0@, r.1) == message_step(old(self)@, m.content@, opt_view(m.thinking)),
    {
        let mut out = String::new();
        let mut began = false;
        match &m.thinking {
            Some(t) => {
                if !t.as_str().is_empty() {
                    began = self.take_thinking(t.as_str(), &mut out);
                    proof {
                        assert(out@ =~= out@.subrange(0, out@.len() as int));
                    }
                }
            },
            None => {},
        }
        self.add_text(m.content.as_str());
        (out, began)
    }

    /// Reads one chunk of a streamed answer (see `chunk_step`).
    pub fn on_chunk(&mut self, chunk: &ChatResponse) -> (r: ChunkOutcome)
        ensures
            (final(self)@, r.print@, r.thinking_began, r.thinking_ended) == chunk_step(old(self)@, *chunk),
            r.first_chunk == !old(self).chunk_seen,
            r.done == chunk.done,
    {
        let first_chunk = !self.chunk_seen;
        self.chunk_seen = true;
        let (mut out, began1, mut ended) = match &chunk.delta {
            Some(d) => self.read_delta(d),
            None => (String::new(), false, false),
        };
        let (out2, began2) = match &chunk.message {
            Some(m) => self.read_message(m),
            None => (String::new(), false),
        };
        push_str(&mut out, out2.as_str());
        if chunk.done && self.in_thinking && self.thinking_seen {
            ended = true;
        }
        ChunkOutcome { print: out, first_chunk, thinking_began: began1 || began2, thinking_ended: ended, done: chunk.done }
    }

    /// What is printed once the stream ends: the colour reset and a newline
    /// where reasoning was shown.
    pub fn closing_text(&self) -> (t: String)
        ensures
            t@ == if self.thinking@.len() > 0 { "\x1b[0m\n"@ } else { Seq::empty() },
    {
        if !self.thinking.as_str().is_empty() {
            String::from_str("\x1b[0m\n")
        } else {
            String::new()
        }
    }

    /// The estimated tokens of the reasoning and of the answer: a quarter of
    /// their UTF-8 byte lengths.
    pub fn token_estimates(&self) -> (r: (usize, usize))
        ensures
            r.0 == utf8_len(self.thinking@) / 4,
            r.1 == utf8_len(self.content@) / 4,
    {
        (byte_len(self.thinking.as_str()) / 4, byte_len(self.content.as_str()) / 4)
    }
}

} // verus!

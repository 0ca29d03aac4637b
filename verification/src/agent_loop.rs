//! The loop of a run with tools: the model is asked, the tools it calls are
//! run and their results handed back, until it answers or the rounds run out.
//! The caller performs each request and each tool call; the decisions are here.
use vstd::prelude::*;
use crate::ollama::{ChatMessage, ToolCall};
use crate::text::{
    decimal, decimal_string, indented, preview, push_indented, push_joined, push_preview,
    push_str, take_chars, take_string, text_eq, chars_of, join_with, views, utf8_len, byte_len,
};

verus! {

/// The most requests a run with tools sends.
pub open spec fn max_rounds() -> usize {
    15
}

/// Whether a reply asks for at least one tool call.
pub open spec fn has_calls(m: ChatMessage) -> bool {
    m.tool_calls matches Some(c) && c@.len() > 0
}

/// The number of tool calls a message asks for.
pub open spec fn call_count(m: ChatMessage) -> nat {
    match m.tool_calls {
        Some(c) => c@.len(),
        None => 0,
    }
}

/// A tool call that was run: its round, the tool, its arguments as JSON, and its result.
pub struct ToolCallRecord {
    pub iteration: usize,
    pub name: String,
    pub args: String,
    pub result: String,
}

/// What the model replied in a round: a request for tools, kept among the
/// messages at position `at`, or an answer. `calls_pretty` and `listed_calls`
/// hold the tool calls of the reply as indented JSON, where it has a list of them.
pub enum RoundReply {
    ToolRequest { at: usize, calls_pretty: String },
    Answer { reply: ChatMessage, listed_calls: Option<String> },
}

/// One request and its reply; the request was the first `request_len` messages.
pub struct OllamaRound {
    pub round: usize,
    pub request_len: usize,
    pub reply: RoundReply,
}

/// Where the loop is.
#[derive(Clone, Copy)]
pub enum LoopPhase {
    /// A request is to be sent with all messages so far.
    AwaitingReply,
    /// The calls of the message at `at` are being run; `next` is the next one.
    RunningTools { at: usize, next: usize },
    /// The loop is over; the answer stands.
    Done,
}

/// The state of a run with tools.
pub struct AgenticLoop {
    pub messages: Vec<ChatMessage>,
    pub rounds: Vec<OllamaRound>,
    pub records: Vec<ToolCallRecord>,
    pub iteration: usize,
    pub phase: LoopPhase,
    pub answer: String,
}

/// What the caller does next.
pub enum LoopAction {
    /// Send a request with all messages.
    Send,
    /// Run the next tool call (see `AgenticLoop::current_call`).
    RunTool,
    /// The run is over; its answer is `AgenticLoop::answer`.
    Finish,
}

/// A round whose tool messages were all in place keeps its shape when the
/// run goes on: messages, records and rounds only grow.
proof fn lemma_round_kept(o: AgenticLoop, l: AgenticLoop, i: int)
    requires
        0 <= i < o.rounds@.len(),
        o.round_shape(i),
        o.rounds@[i].reply is ToolRequest,
        o.rounds@[i].reply->at + 1 + call_count(o.messages@[o.rounds@[i].reply->at as int]) <= o.messages@.len(),
        i + 1 < l.rounds@.len() ==> l.rounds@[i + 1].request_len == o.rounds@[i].reply->at + 1 + call_count(
            o.messages@[o.rounds@[i].reply->at as int],
        ),
        o.rounds@.len() <= l.rounds@.len(),
        l.rounds@[i] == o.rounds@[i],
        o.messages@.len() <= l.messages@.len(),
        l.messages@.subrange(0, o.messages@.len() as int) == o.messages@,
        o.records@.len() <= l.records@.len(),
        l.records@.subrange(0, o.records@.len() as int) == o.records@,
    ensures
        l.round_shape(i),
{
    let at = o.rounds@[i].reply->at;
    assert(l.messages@[at as int] == o.messages@[at as int]) by {
        assert(l.messages@.subrange(0, o.messages@.len() as int)[at as int] == l.messages@[at as int]);
    }
    let calls = l.messages@[at as int].tool_calls->0@;
    assert(calls == o.messages@[at as int].tool_calls->0@);
    assert(o.rounds@[i].reply matches RoundReply::ToolRequest { at: a, .. } && a == at);
    assert forall|m: int| at < m <= at + calls.len() && m < l.messages@.len() implies #[trigger] l.result_message(i, at as int, m) by {
        let k = m - 2 - i;
        assert(m < o.messages@.len());
        assert(o.result_message(i, at as int, m));
        assert(o.messages@[m] == l.messages@.subrange(0, o.messages@.len() as int)[m]);
        assert(o.records@[k] == l.records@.subrange(0, o.records@.len() as int)[k]);
    }
    assert(l.rounds@[i].reply matches RoundReply::ToolRequest { at: a, .. } && a == at);
}

/// A message with the given role and text.
pub fn plain_message(role: &str, content: String) -> (m: ChatMessage)
    ensures
        m.role@ == role@,
        m.content == content,
        m.thinking is None,
        m.tool_calls is None,
{
    ChatMessage { role: role.to_owned(), content, thinking: None, tool_calls: None }
}

/// A `tool` message that hands back the result of a recorded call.
pub open spec fn is_tool_result(m: ChatMessage, r: ToolCallRecord) -> bool {
    &&& m.role@ == "tool"@
    &&& m.content@ == r.result@
    &&& m.thinking is None
    &&& m.tool_calls is None
}

impl AgenticLoop {
    /// The message at `m` hands back the result of the call at place
    /// `m - at - 1` of round `i`'s reply, kept at `at`: it is a `tool` message
    /// with the result of the record at place `m - 2 - i`, which holds the
    /// round's number, the tool and its arguments.
    pub open spec fn result_message(&self, i: int, at: int, m: int) -> bool {
        let calls = self.messages@[at].tool_calls->0@;
        let k = m - 2 - i;
        &&& k < self.records@.len()
        &&& is_tool_result(self.messages@[m], self.records@[k])
        &&& self.records@[k].iteration == i + 1
        &&& self.records@[k].name@ == calls[m - at - 1].function.name@
        &&& self.records@[k].args@ == calls[m - at - 1].function.arguments.json@
    }

    /// Round `i` of the run: it is numbered `i + 1`; the first request is the
    /// first message alone. A reply that asks for tools is the message right
    /// after its request; each of its calls that has been run is recorded in
    /// order with the round, the tool and its arguments, and its result is
    /// the `tool` message at the call's place after the reply; the next
    /// request is all of these. An answer is the last round, leaves the
    /// messages as they were, and is the run's answer.
    pub open spec fn round_shape(&self, i: int) -> bool {
        let r = self.rounds@[i];
        &&& r.round == i + 1
        &&& (i == 0 ==> r.request_len == 1)
        &&& match r.reply {
            RoundReply::ToolRequest { at, .. } => {
                let calls = self.messages@[at as int].tool_calls->0@;
                &&& at == r.request_len
                &&& at < self.messages@.len()
                &&& has_calls(self.messages@[at as int])
                &&& at >= 1 + i
                &&& (i + 1 < self.rounds@.len() ==> self.rounds@[i + 1].request_len == at + 1 + calls.len())
                &&& forall|m: int| at < m <= at + calls.len() && m < self.messages@.len() ==> #[trigger] self.result_message(i, at as int, m)
            },
            RoundReply::Answer { reply, .. } => {
                &&& i == self.rounds@.len() - 1
                &&& r.request_len == self.messages@.len()
                &&& self.answer@ == reply.content@
            },
        }
    }

    /// Where the run stands: the messages after the last round's, and the
    /// records of the calls run so far.
    pub open spec fn run_progress(&self) -> bool {
        let n = self.rounds@.len();
        match self.phase {
            LoopPhase::AwaitingReply => {
                &&& self.records@.len() + 1 + n == self.messages@.len()
                &&& self.answer@.len() == 0
                &&& (n == 0 ==> self.messages@.len() == 1)
                &&& (n > 0 ==> (self.rounds@[n - 1].reply matches RoundReply::ToolRequest { at, .. }
                    && self.messages@.len() == at + 1 + call_count(self.messages@[at as int])))
            },
            LoopPhase::RunningTools { at, next } => {
                &&& self.records@.len() + 1 + n == self.messages@.len()
                &&& self.answer@.len() == 0
                &&& n > 0
                &&& (self.rounds@[n - 1].reply matches RoundReply::ToolRequest { at: a, .. } && a == at)
                &&& self.messages@.len() == at + 1 + next
            },
            LoopPhase::Done => {
                &&& n > 0
                &&& match self.rounds@[n - 1].reply {
                    RoundReply::Answer { .. } => self.records@.len() + n == self.messages@.len(),
                    RoundReply::ToolRequest { at, .. } => {
                        &&& self.records@.len() + 1 + n == self.messages@.len()
                        &&& self.messages@.len() == at + 1 + call_count(self.messages@[at as int])
                        &&& n == max_rounds()
                        &&& self.answer@.len() == 0
                    },
                }
            },
        }
    }

    /// The loop's bookkeeping agrees with its phase, and the run so far has
    /// the shape a run takes (see `round_shape` and `run_progress`).
    pub open spec fn wf(&self) -> bool {
        &&& self.iteration <= max_rounds()
        &&& rounds_fit(self.rounds@, self.messages@)
        &&& self.messages@.len() >= 1
        &&& self.messages@[0].role@ == "user"@
        &&& self.messages@[0].thinking is None
        &&& self.messages@[0].tool_calls is None
        &&& forall|i: int| 0 <= i < self.rounds@.len() ==> #[trigger] self.round_shape(i)
        &&& self.run_progress()
        &&& match self.phase {
            LoopPhase::AwaitingReply => {
                &&& self.iteration < max_rounds()
                &&& self.rounds@.len() == self.iteration
            },
            LoopPhase::RunningTools { at, next } => {
                &&& at < self.messages@.len()
                &&& has_calls(self.messages@[at as int])
                &&& next < call_count(self.messages@[at as int])
                &&& self.iteration < max_rounds()
                &&& self.rounds@.len() == self.iteration + 1
            },
            LoopPhase::Done => self.rounds@.len() <= max_rounds(),
        }
    }

    /// A run that starts with the prompt as the one user message.
    pub fn start(prompt: &str) -> (l: Self)
        ensures
            l.wf(),
            l.messages@.len() == 1,
            l.messages@[0].role@ == "user"@,
            l.messages@[0].content@ == prompt@,
            l.phase is AwaitingReply,
            l.iteration == 0,
            l.rounds@.len() == 0,
            l.records@.len() == 0,
            l.answer@.len() == 0,
    {
        let mut messages: Vec<ChatMessage> = Vec::new();
        messages.push(plain_message("user", prompt.to_owned()));
        AgenticLoop {
            messages,
            rounds: Vec::new(),
            records: Vec::new(),
            iteration: 0,
            phase: LoopPhase::AwaitingReply,
            answer: String::new(),
        }
    }

    /// Takes the model's reply. A reply with tool calls joins the messages
    /// and its calls are run next; any other reply is the answer.
    /// `calls_pretty` is the reply's tool calls as indented JSON.
    pub fn on_reply(&mut self, reply: ChatMessage, calls_pretty: Option<String>) -> (a: LoopAction)
        requires
            old(self).wf(),
            old(self).phase is AwaitingReply,
            reply.tool_calls is Some <==> calls_pretty is Some,
        ensures
            final(self).wf(),
            final(self).iteration == old(self).iteration,
            final(self).records == old(self).records,
            final(self).rounds@.len() == old(self).rounds@.len() + 1,
            final(self).rounds@.subrange(0, old(self).rounds@.len() as int) == old(self).rounds@,
            final(self).rounds@.last().round == old(self).iteration + 1,
            final(self).rounds@.last().request_len == old(self).messages@.len(),
            has_calls(reply) ==> {
                &&& a is RunTool
                &&& final(self).messages@ == old(self).messages@.push(reply)
                &&& final(self).phase == (LoopPhase::RunningTools { at: old(self).messages@.len() as usize, next: 0 })
                &&& final(self).answer == old(self).answer
            },
            !has_calls(reply) ==> {
                &&& a is Finish
                &&& final(self).messages == old(self).messages
                &&& final(self).phase is Done
                &&& final(self).answer@ == reply.content@
            },
    {
        let ghost o = *self;
        let round = self.iteration + 1;
        let request_len = self.messages.len();
        let calls = match &reply.tool_calls {
            Some(c) => c.len(),
            None => 0,
        };
        if calls > 0 {
            let at = self.messages.len();
            let pretty = match calls_pretty {
                Some(p) => p,
                None => String::new(),
            };
            self.messages.push(reply);
            self.rounds.push(OllamaRound { round, request_len, reply: RoundReply::ToolRequest { at, calls_pretty: pretty } });
            self.phase = LoopPhase::RunningTools { at, next: 0 };
            proof {
                assert(self.rounds@.drop_last() =~= o.rounds@);
                assert(self.messages@.subrange(0, o.messages@.len() as int) =~= o.messages@);
                Self::lemma_reply_keeps_rounds(o, *self);
            }
            LoopAction::RunTool
        } else {
            self.answer = reply.content.clone();
            self.rounds.push(OllamaRound { round, request_len, reply: RoundReply::Answer { reply, listed_calls: calls_pretty } });
            self.phase = LoopPhase::Done;
            proof {
                assert(self.rounds@.drop_last() =~= o.rounds@);
                assert(self.messages@.subrange(0, o.messages@.len() as int) =~= o.messages@);
                Self::lemma_reply_keeps_rounds(o, *self);
            }
            LoopAction::Finish
        }
    }

    /// A reply adds a round after the earlier ones, which keep their shape.
    proof fn lemma_reply_keeps_rounds(o: AgenticLoop, l: AgenticLoop)
        requires
            o.wf(),
            o.phase is AwaitingReply,
            l.rounds@.len() == o.rounds@.len() + 1,
            l.rounds@.drop_last() == o.rounds@,
            o.messages@.len() <= l.messages@.len(),
            l.messages@.len() <= o.messages@.len() + 1,
            l.messages@.subrange(0, o.messages@.len() as int) == o.messages@,
            l.records == o.records,
            l.rounds@.last().request_len == o.messages@.len(),
            l.rounds@.last().round == o.rounds@.len() + 1,
            l.rounds@.last().reply is ToolRequest ==> l.answer == o.answer,
        ensures
            forall|i: int| 0 <= i < o.rounds@.len() ==> #[trigger] l.round_shape(i),
    {
        let n = o.rounds@.len() as int;
        assert(l.records@.subrange(0, o.records@.len() as int) =~= o.records@);
        assert forall|i: int| 0 <= i < n implies #[trigger] l.round_shape(i) by {
            assert(o.round_shape(i));
            assert(l.rounds@[i] == l.rounds@.drop_last()[i]);
            if i + 1 < n {
                assert(o.round_shape(i + 1));
                assert(l.rounds@[i + 1] == l.rounds@.drop_last()[i + 1]);
            }
            lemma_round_kept(o, l, i);
        }
    }

    /// The tool call to run next.
    pub fn current_call(&self) -> (c: &ToolCall)
        requires
            self.wf(),
            self.phase is RunningTools,
        ensures
            match self.phase {
                LoopPhase::RunningTools { at, next } => *c == self.messages@[at as int].tool_calls->0@[next as int],
                _ => false,
            },
    {
        let (at, next) = match self.phase {
            LoopPhase::RunningTools { at, next } => (at, next),
            _ => (0, 0),
        };
        let calls = self.messages[at].tool_calls.as_ref().unwrap();
        &calls[next]
    }
}

impl AgenticLoop {
    /// Takes the result of the tool call just run: it is recorded, and handed
    /// back to the model as a `tool` message. After the last call of a reply
    /// the next request is sent, unless that would exceed the rounds allowed;
    /// then the run ends with an empty answer.
    pub fn on_tool_result(&mut self, result: String) -> (a: LoopAction)
        requires
            old(self).wf(),
            old(self).phase is RunningTools,
        ensures
            final(self).wf(),
            final(self).rounds == old(self).rounds,
            final(self).answer == old(self).answer,
            match old(self).phase {
                LoopPhase::RunningTools { at, next } => {
                    let call = old(self).messages@[at as int].tool_calls->0@[next as int];
                    let rec = final(self).records@.last();
                    &&& final(self).records@.len() == old(self).records@.len() + 1
                    &&& final(self).records@.drop_last() == old(self).records@
                    &&& rec.iteration == old(self).iteration + 1
                    &&& rec.name@ == call.function.name@
                    &&& rec.args@ == call.function.arguments.json@
                    &&& rec.result@ == result@
                    &&& final(self).messages@.len() == old(self).messages@.len() + 1
                    &&& final(self).messages@.drop_last() == old(self).messages@
                    &&& final(self).messages@.last().role@ == "tool"@
                    &&& final(self).messages@.last().content@ == result@
                    &&& final(self).messages@.last().tool_calls is None
                    &&& if next + 1 < call_count(old(self).messages@[at as int]) {
                        &&& a is RunTool
                        &&& final(self).iteration == old(self).iteration
                        &&& final(self).phase == (LoopPhase::RunningTools { at, next: (next + 1) as usize })
                    } else if old(self).iteration + 1 < max_rounds() {
                        &&& a is Send
                        &&& final(self).iteration == old(self).iteration + 1
                        &&& final(self).phase is AwaitingReply
                    } else {
                        &&& a is Finish
                        &&& final(self).iteration == old(self).iteration + 1
                        &&& final(self).phase is Done
                    }
                },
                _ => false,
            },
    {
        let ghost o = *self;
        let (at, next) = match self.phase {
            LoopPhase::RunningTools { at, next } => (at, next),
            _ => (0, 0),
        };
        let count = self.messages[at].tool_calls.as_ref().unwrap().len();
        let (name, args) = {
            let call = &self.messages[at].tool_calls.as_ref().unwrap()[next];
            (call.function.name.clone(), call.function.arguments.json.clone())
        };
        self.records.push(ToolCallRecord { iteration: self.iteration + 1, name, args, result: result.clone() });
        let ghost m0 = self.messages@;
        self.messages.push(plain_message("tool", result));
        proof {
            assert(self.messages@.drop_last() =~= m0);
            assert(self.messages@[at as int] == m0[at as int]);
            assert(self.records@.drop_last() =~= o.records@);
        }
        if next + 1 < count {
            self.phase = LoopPhase::RunningTools { at, next: next + 1 };
            proof { Self::lemma_result_keeps_rounds(o, *self); }
            LoopAction::RunTool
        } else {
            self.iteration = self.iteration + 1;
            if self.iteration < 15 {
                self.phase = LoopPhase::AwaitingReply;
                proof { Self::lemma_result_keeps_rounds(o, *self); }
                LoopAction::Send
            } else {
                self.phase = LoopPhase::Done;
                proof { Self::lemma_result_keeps_rounds(o, *self); }
                LoopAction::Finish
            }
        }
    }

    /// The result of a call adds its `tool` message and its record after
    /// the others, and every round keeps its shape.
    proof fn lemma_result_keeps_rounds(o: AgenticLoop, l: AgenticLoop)
        requires
            o.wf(),
            o.phase is RunningTools,
            l.rounds == o.rounds,
            l.messages@.len() == o.messages@.len() + 1,
            l.messages@.drop_last() == o.messages@,
            l.records@.len() == o.records@.len() + 1,
            l.records@.drop_last() == o.records@,
            is_tool_result(l.messages@.last(), l.records@.last()),
            match o.phase {
                LoopPhase::RunningTools { at, next } => {
                    let call = o.messages@[at as int].tool_calls->0@[next as int];
                    &&& l.records@.last().iteration == o.iteration + 1
                    &&& l.records@.last().name@ == call.function.name@
                    &&& l.records@.last().args@ == call.function.arguments.json@
                },
                _ => false,
            },
        ensures
            forall|i: int| 0 <= i < l.rounds@.len() ==> #[trigger] l.round_shape(i),
    {
        let n = o.rounds@.len() as int;
        let (at, next) = match o.phase {
            LoopPhase::RunningTools { at, next } => (at as int, next as int),
            _ => (0, 0),
        };
        assert(l.messages@.subrange(0, o.messages@.len() as int) =~= o.messages@);
        assert(l.records@.subrange(0, o.records@.len() as int) =~= o.records@);
        assert forall|i: int| 0 <= i < n implies #[trigger] l.round_shape(i) by {
            assert(o.round_shape(i));
            if i + 1 < n {
                assert(o.round_shape(i + 1));
                lemma_round_kept(o, l, i);
            } else {
                // the round whose calls are being run gains the new result
                let calls = o.messages@[at].tool_calls->0@;
                assert(l.messages@[at] == o.messages@[at]);
                assert forall|m: int| at < m <= at + calls.len() && m < l.messages@.len() implies #[trigger] l.result_message(i, at, m) by {
                    let k = m - 2 - i;
                    if m < o.messages@.len() {
                        assert(o.result_message(i, at, m));
                        assert(l.messages@[m] == o.messages@[m]);
                        assert(l.records@[k] == o.records@[k]);
                    } else {
                        assert(m == at + 1 + next);
                        assert(k == o.records@.len());
                        assert(l.messages@[m] == l.messages@.last());
                        assert(l.records@[k] == l.records@.last());
                    }
                }
            }
        }
    }

    /// The estimated tokens of the answer: a quarter of its UTF-8 bytes.
    pub fn answer_tokens(&self) -> (n: usize)
        ensures
            n == utf8_len(self.answer@) / 4,
    {
        byte_len(self.answer.as_str()) / 4
    }
}

/// The shape of a run with tools, whatever the model replies: it sends at
/// most fifteen requests, its rounds are numbered from one in order, and the
/// first request is the first message alone, the user's, which `start` makes
/// of the prompt and no step changes. A reply that asks for tools joins the
/// messages right after its request; each of its calls, once run, is
/// recorded with the round, the tool and its arguments, and handed back in
/// order as a `tool` message with its result; the next request is all of
/// these messages. Only an answer ends a run before its rounds run out, and
/// it is the run's answer: a run whose fifteen replies all ask for tools
/// ends with an empty answer.
pub proof fn lemma_run_shape(l: AgenticLoop)
    requires
        l.wf(),
    ensures
        l.rounds@.len() <= max_rounds(),
        l.messages@[0].role@ == "user"@,
        l.messages@[0].tool_calls is None,
        l.rounds@.len() > 0 ==> l.rounds@[0].request_len == 1,
        forall|i: int| 0 <= i < l.rounds@.len() ==> (#[trigger] l.rounds@[i]).round == i + 1,
        forall|i: int| 0 <= i < l.rounds@.len() ==> ((#[trigger] l.rounds@[i]).reply matches RoundReply::ToolRequest { at, .. } ==> {
            let n = call_count(l.messages@[at as int]);
            &&& at == l.rounds@[i].request_len
            &&& has_calls(l.messages@[at as int])
            &&& (i + 1 < l.rounds@.len() ==> l.rounds@[i + 1].request_len == at + 1 + n)
            &&& forall|m: int| at < m <= at + n && m < l.messages@.len() ==> #[trigger] l.result_message(i, at as int, m)
        }),
        forall|i: int| 0 <= i < l.rounds@.len() ==> ((#[trigger] l.rounds@[i]).reply matches RoundReply::Answer { reply, .. } ==> {
            &&& i == l.rounds@.len() - 1
            &&& l.phase is Done
            &&& l.answer@ == reply.content@
        }),
        l.phase is Done ==> l.rounds@.len() > 0,
        l.phase is Done && l.rounds@.last().reply is ToolRequest ==> l.rounds@.len() == max_rounds() && l.answer@.len() == 0,
{
    assert forall|i: int| 0 <= i < l.rounds@.len() implies ((#[trigger] l.rounds@[i]).reply matches RoundReply::Answer { reply, .. } ==> {
        &&& i == l.rounds@.len() - 1
        &&& l.phase is Done
        &&& l.answer@ == reply.content@
    }) by {
        assert(l.round_shape(i));
    }
    assert forall|i: int| 0 <= i < l.rounds@.len() implies (#[trigger] l.rounds@[i]).round == i + 1 by {
        assert(l.round_shape(i));
    }
    if l.rounds@.len() > 0 {
        assert(l.round_shape(0));
    }
    assert forall|i: int| 0 <= i < l.rounds@.len() implies ((#[trigger] l.rounds@[i]).reply matches RoundReply::ToolRequest { at, .. } ==> {
        let n = call_count(l.messages@[at as int]);
        &&& at == l.rounds@[i].request_len
        &&& has_calls(l.messages@[at as int])
        &&& (i + 1 < l.rounds@.len() ==> l.rounds@[i + 1].request_len == at + 1 + n)
        &&& forall|m: int| at < m <= at + n && m < l.messages@.len() ==> #[trigger] l.result_message(i, at as int, m)
    }) by {
        assert(l.round_shape(i));
    }
}

/// The entry of one tool call in the readable log.
pub open spec fn tool_entry(r: ToolCallRecord) -> Seq<char> {
    "["@ + decimal(r.iteration as nat) + "] "@ + r.name@ + "("@ + r.args@ + ")\n    Result:\n"@
        + indented(r.result@) + "\n"@
}

/// The readable log of the tool calls of a run.
pub open spec fn tool_log(records: Seq<ToolCallRecord>) -> Seq<char>
    decreases records.len(),
{
    if records.len() == 0 {
        Seq::empty()
    } else {
        tool_log(records.drop_last()) + tool_entry(records.last())
    }
}

/// The readable log of the tool calls of a run (see `tool_log`).
pub fn format_tool_log(records: &Vec<ToolCallRecord>) -> (s: String)
    ensures
        s@ == tool_log(records@),
{
    let mut s = String::new();
    let mut i: usize = 0;
    while i < records.len()
        invariant
            i <= records@.len(),
            s@ == tool_log(records@.subrange(0, i as int)),
        decreases records@.len() - i,
    {
        proof {
            assert(records@.subrange(0, i + 1).drop_last() =~= records@.subrange(0, i as int));
        }
        let r = &records[i];
        push_str(&mut s, "[");
        let n = decimal_string(r.iteration as u64);
        push_str(&mut s, n.as_str());
        push_str(&mut s, "] ");
        push_str(&mut s, r.name.as_str());
        push_str(&mut s, "(");
        push_str(&mut s, r.args.as_str());
        push_str(&mut s, ")\n    Result:\n");
        push_indented(&mut s, r.result.as_str());
        push_str(&mut s, "\n");
        i = i + 1;
    }
    proof {
        assert(records@.subrange(0, records@.len() as int) =~= records@);
    }
    s
}

/// A tool call written as `name(arguments)`.
pub open spec fn call_text(c: ToolCall) -> Seq<char> {
    c.function.name@ + "("@ + c.function.arguments.json@ + ")"@
}

/// The line of the readable log for one message of a request.
pub open spec fn message_line(m: ChatMessage) -> Seq<char> {
    if m.role@ == "user"@ {
        "  [user] "@ + preview(m.content@, 300) + "\n"@
    } else if m.role@ == "assistant"@ {
        match m.tool_calls {
            Some(calls) => "  [assistant] TOOL_CALLS: "@ + join_with(calls@.map_values(|c: ToolCall| call_text(c)), ", "@) + "\n"@,
            None => "  [assistant] "@ + take_chars(m.content@, 200) + "\n"@,
        }
    } else if m.role@ == "tool"@ {
        "  [tool] "@ + preview(m.content@, 300) + "\n"@
    } else {
        "  ["@ + m.role@ + "] "@ + m.content@ + "\n"@
    }
}

/// The lines of the readable log for the messages of a request.
pub open spec fn message_lines(ms: Seq<ChatMessage>) -> Seq<char>
    decreases ms.len(),
{
    if ms.len() == 0 {
        Seq::empty()
    } else {
        message_lines(ms.drop_last()) + message_line(ms.last())
    }
}

/// The part of the readable log for a reply with a list of tool calls.
pub open spec fn calls_reply_text(role: Seq<char>, calls_pretty: Seq<char>) -> Seq<char> {
    "  role: "@ + role + "\n  tool_calls:\n"@ + indented(calls_pretty) + "\n"@
}

/// The part of the readable log for a reply.
pub open spec fn reply_text(r: RoundReply, messages: Seq<ChatMessage>) -> Seq<char> {
    match r {
        RoundReply::ToolRequest { at, calls_pretty } => calls_reply_text(messages[at as int].role@, calls_pretty@),
        RoundReply::Answer { reply, listed_calls } => match listed_calls {
            Some(p) => calls_reply_text(reply.role@, p@),
            None => "  role: "@ + reply.role@ + "\n  content: "@ + preview(reply.content@, 300) + "\n"@,
        },
    }
}

/// The part of the readable log for one round.
pub open spec fn round_text(r: OllamaRound, messages: Seq<ChatMessage>) -> Seq<char> {
    "--- Round "@ + decimal(r.round as nat) + " ---\n"@ + "\u{2192} Request messages sent to Ollama:\n"@
        + message_lines(messages.subrange(0, r.request_len as int)) + "\u{2190} Ollama response:\n"@
        + reply_text(r.reply, messages) + "\n"@
}

/// The readable log of the requests and replies of a run.
pub open spec fn exchange_log(rounds: Seq<OllamaRound>, messages: Seq<ChatMessage>) -> Seq<char>
    decreases rounds.len(),
{
    if rounds.len() == 0 {
        Seq::empty()
    } else {
        exchange_log(rounds.drop_last(), messages) + round_text(rounds.last(), messages)
    }
}

/// The lines of messages are those of the first followed by those of the rest.
proof fn lemma_message_lines_front(ms: Seq<ChatMessage>)
    requires
        ms.len() > 0,
    ensures
        message_lines(ms) == message_line(ms[0]) + message_lines(ms.drop_first()),
    decreases ms.len(),
{
    if ms.len() == 1 {
        assert(ms.drop_last() =~= Seq::<ChatMessage>::empty());
        assert(ms.drop_first() =~= Seq::<ChatMessage>::empty());
        assert(message_lines(Seq::<ChatMessage>::empty()) == Seq::<char>::empty());
        assert(message_line(ms[0]) + Seq::<char>::empty() =~= Seq::<char>::empty() + message_line(ms.last()));
    } else {
        let p = ms.drop_last();
        lemma_message_lines_front(p);
        assert(p[0] == ms[0]);
        assert(p.drop_first() =~= ms.drop_first().drop_last());
        assert(ms.drop_first().last() == ms.last());
        assert(message_line(ms[0]) + message_lines(p.drop_first()) + message_line(ms.last())
            =~= message_line(ms[0]) + (message_lines(ms.drop_first().drop_last()) + message_line(ms.drop_first().last())));
    }
}

/// The readable log of a run lists, in each round's section, every message
/// that round's request sent, in order from the first, the user's prompt,
/// whatever the round's number: a section is the round's heading, the line
/// of message 0, the lines of messages 1 to `request_len - 1`, and the reply.
pub proof fn lemma_round_lists_every_message(rounds: Seq<OllamaRound>, messages: Seq<ChatMessage>)
    requires
        rounds.len() > 0,
        0 < rounds.last().request_len <= messages.len(),
    ensures
        ({
            let r = rounds.last();
            exchange_log(rounds, messages) == exchange_log(rounds.drop_last(), messages) + "--- Round "@
                + decimal(r.round as nat) + " ---\n"@ + "\u{2192} Request messages sent to Ollama:\n"@ + message_line(messages[0])
                + message_lines(messages.subrange(1, r.request_len as int)) + "\u{2190} Ollama response:\n"@ + reply_text(
                r.reply,
                messages,
            ) + "\n"@
        }),
{
    let r = rounds.last();
    let sent = messages.subrange(0, r.request_len as int);
    lemma_message_lines_front(sent);
    assert(sent[0] == messages[0]);
    assert(sent.drop_first() =~= messages.subrange(1, r.request_len as int));
    assert(exchange_log(rounds, messages) =~= exchange_log(rounds.drop_last(), messages) + "--- Round "@
        + decimal(r.round as nat) + " ---\n"@ + "\u{2192} Request messages sent to Ollama:\n"@ + message_line(messages[0])
        + message_lines(messages.subrange(1, r.request_len as int)) + "\u{2190} Ollama response:\n"@ + reply_text(
        r.reply,
        messages,
    ) + "\n"@);
}

/// The reply part of a round's section: the reply's role, and its tool
/// calls as indented JSON where it asks for tools or lists calls, else the
/// start of its text.
pub proof fn lemma_reply_section(r: RoundReply, messages: Seq<ChatMessage>)
    ensures
        reply_text(r, messages) == match r {
            RoundReply::ToolRequest { at, calls_pretty } => "  role: "@ + messages[at as int].role@ + "\n  tool_calls:\n"@
                + indented(calls_pretty@) + "\n"@,
            RoundReply::Answer { reply, listed_calls } => match listed_calls {
                Some(p) => "  role: "@ + reply.role@ + "\n  tool_calls:\n"@ + indented(p@) + "\n"@,
                None => "  role: "@ + reply.role@ + "\n  content: "@ + preview(reply.content@, 300) + "\n"@,
            },
        },
{
}

/// The rounds refer only to messages that exist.
pub open spec fn rounds_fit(rounds: Seq<OllamaRound>, messages: Seq<ChatMessage>) -> bool {
    forall|i: int| 0 <= i < rounds.len() ==> {
        &&& #[trigger] rounds[i].request_len <= messages.len()
        &&& (rounds[i].reply matches RoundReply::ToolRequest { at, .. } ==> at < messages.len())
    }
}

/// Whether the rounds refer only to messages that exist (see `rounds_fit`).
pub fn rounds_fit_messages(rounds: &Vec<OllamaRound>, messages: &Vec<ChatMessage>) -> (b: bool)
    ensures
        b == rounds_fit(rounds@, messages@),
{
    let mut i: usize = 0;
    while i < rounds.len()
        invariant
            i <= rounds@.len(),
            forall|k: int| 0 <= k < i ==> {
                &&& #[trigger] rounds@[k].request_len <= messages@.len()
                &&& (rounds@[k].reply matches RoundReply::ToolRequest { at, .. } ==> at < messages@.len())
            },
        decreases rounds@.len() - i,
    {
        if rounds[i].request_len > messages.len() {
            return false;
        }
        match &rounds[i].reply {
            RoundReply::ToolRequest { at, .. } => {
                if *at >= messages.len() {
                    return false;
                }
            },
            RoundReply::Answer { .. } => {},
        }
        i = i + 1;
    }
    true
}

fn push_message_line(out: &mut String, m: &ChatMessage)
    ensures
        final(out)@ == old(out)@ + message_line(*m),
{
    if text_eq(m.role.as_str(), "user") {
        push_str(out, "  [user] ");
        push_preview(out, m.content.as_str(), 300);
        push_str(out, "\n");
    } else if text_eq(m.role.as_str(), "assistant") {
        match &m.tool_calls {
            Some(calls) => {
                push_str(out, "  [assistant] TOOL_CALLS: ");
                let mut texts: Vec<Vec<char>> = Vec::new();
                let mut i: usize = 0;
                let ghost target = calls@.map_values(|c: ToolCall| call_text(c));
                while i < calls.len()
                    invariant
                        i <= calls@.len(),
                        target == calls@.map_values(|c: ToolCall| call_text(c)),
                        views(texts@) =~= target.subrange(0, i as int),
                    decreases calls@.len() - i,
                {
                    let mut t = calls[i].function.name.clone();
                    push_str(&mut t, "(");
                    push_str(&mut t, calls[i].function.arguments.json.as_str());
                    push_str(&mut t, ")");
                    let ghost v0 = views(texts@);
                    texts.push(chars_of(t.as_str()));
                    proof {
                        assert(views(texts@) =~= v0.push(t@));
                    }
                    i = i + 1;
                }
                proof {
                    assert(views(texts@) =~= target);
                }
                push_joined(out, &texts, ", ");
                push_str(out, "\n");
            },
            None => {
                push_str(out, "  [assistant] ");
                let t = take_string(m.content.as_str(), 200);
                push_str(out, t.as_str());
                push_str(out, "\n");
            },
        }
    } else if text_eq(m.role.as_str(), "tool") {
        push_str(out, "  [tool] ");
        push_preview(out, m.content.as_str(), 300);
        push_str(out, "\n");
    } else {
        push_str(out, "  [");
        push_str(out, m.role.as_str());
        push_str(out, "] ");
        push_str(out, m.content.as_str());
        push_str(out, "\n");
    }
}

fn push_calls_reply(out: &mut String, role: &str, calls_pretty: &str)
    ensures
        final(out)@ == old(out)@ + calls_reply_text(role@, calls_pretty@),
{
    push_str(out, "  role: ");
    push_str(out, role);
    push_str(out, "\n  tool_calls:\n");
    push_indented(out, calls_pretty);
    push_str(out, "\n");
}

fn push_round(out: &mut String, r: &OllamaRound, messages: &Vec<ChatMessage>)
    requires
        r.request_len <= messages@.len(),
        r.reply matches RoundReply::ToolRequest { at, .. } ==> at < messages@.len(),
    ensures
        final(out)@ == old(out)@ + round_text(*r, messages@),
{
    let ghost o0 = out@;
    push_str(out, "--- Round ");
    let n = decimal_string(r.round as u64);
    push_str(out, n.as_str());
    push_str(out, " ---\n");
    push_str(out, "\u{2192} Request messages sent to Ollama:\n");
    let ghost o1 = out@;
    let mut i: usize = 0;
    while i < r.request_len
        invariant
            i <= r.request_len <= messages@.len(),
            out@ == o1 + message_lines(messages@.subrange(0, i as int)),
        decreases r.request_len - i,
    {
        proof {
            assert(messages@.subrange(0, i + 1).drop_last() =~= messages@.subrange(0, i as int));
        }
        push_message_line(out, &messages[i]);
        i = i + 1;
    }
    push_str(out, "\u{2190} Ollama response:\n");
    match &r.reply {
        RoundReply::ToolRequest { at, calls_pretty } => {
            push_calls_reply(out, messages[*at].role.as_str(), calls_pretty.as_str());
        },
        RoundReply::Answer { reply, listed_calls } => match listed_calls {
            Some(p) => {
                push_calls_reply(out, reply.role.as_str(), p.as_str());
            },
            None => {
                push_str(out, "  role: ");
                push_str(out, reply.role.as_str());
                push_str(out, "\n  content: ");
                push_preview(out, reply.content.as_str(), 300);
                push_str(out, "\n");
            },
        },
    }
    push_str(out, "\n");
}

/// The readable log of the requests and replies of a run (see `exchange_log`).
pub fn format_exchange_log(rounds: &Vec<OllamaRound>, messages: &Vec<ChatMessage>) -> (s: String)
    requires
        rounds_fit(rounds@, messages@),
    ensures
        s@ == exchange_log(rounds@, messages@),
{
    let mut s = String::new();
    let mut i: usize = 0;
    while i < rounds.len()
        invariant
            i <= rounds@.len(),
            rounds_fit(rounds@, messages@),
            s@ == exchange_log(rounds@.subrange(0, i as int), messages@),
        decreases rounds@.len() - i,
    {
        proof {
            assert(rounds@.subrange(0, i + 1).drop_last() =~= rounds@.subrange(0, i as int));
            assert(rounds@[i as int].request_len <= messages@.len());
        }
        push_round(&mut s, &rounds[i], messages);
        i = i + 1;
    }
    proof {
        assert(rounds@.subrange(0, rounds@.len() as int) =~= rounds@);
    }
    s
}

impl AgenticLoop {
    /// The readable logs of this run: its tool calls, and its requests and replies.
    pub fn readable_logs(&self) -> (r: (String, String))
        requires
            self.wf(),
        ensures
            r.0@ == tool_log(self.records@),
            r.1@ == exchange_log(self.rounds@, self.messages@),
    {
        (format_tool_log(&self.records), format_exchange_log(&self.rounds, &self.messages))
    }
}

/// One entry of the machine-readable record of an interaction, by reference
/// to the run it records.
#[derive(PartialEq, Eq, Structural, Clone, Copy, Debug)]
pub enum RecordEntry {
    /// The one request of a run without tools: the full prompt as the one
    /// user message, in round 1.
    PromptRequest,
    /// The answer of a run without tools, in round 1.
    AnswerContent,
    /// A request: the round's number, and how many of the messages it sent.
    Request { round: usize, sent: usize },
    /// A reply that asks for tools: the round's number, and where the reply
    /// stands among the messages.
    CallsReply { round: usize, at: usize },
    /// The last reply, which lists tool calls: the round's number and place.
    FinalCalls { round: usize, index: usize },
    /// The last reply, an answer: the round's number and place.
    FinalContent { round: usize, index: usize },
    /// A tool call that was run: the record at this place.
    ToolExecution { record: usize },
}

/// Whether a run called tools: only then is it recorded round by round.
pub open spec fn ran_tools(tool_loop: Option<&AgenticLoop>) -> bool {
    tool_loop matches Some(l) && l.records@.len() > 0
}

/// The entry of the reply of the round at place `i`.
pub open spec fn reply_entry(r: OllamaRound, i: int) -> RecordEntry {
    match r.reply {
        RoundReply::ToolRequest { at, .. } => RecordEntry::CallsReply { round: r.round, at },
        RoundReply::Answer { reply, .. } => if reply.tool_calls is Some {
            RecordEntry::FinalCalls { round: r.round, index: i as usize }
        } else {
            RecordEntry::FinalContent { round: r.round, index: i as usize }
        },
    }
}

/// The entries of the rounds: each request, then its reply.
pub open spec fn round_entries(rounds: Seq<OllamaRound>) -> Seq<RecordEntry>
    decreases rounds.len(),
{
    if rounds.len() == 0 {
        Seq::empty()
    } else {
        let r = rounds.last();
        round_entries(rounds.drop_last()).push(RecordEntry::Request { round: r.round, sent: r.request_len }).push(
            reply_entry(r, rounds.len() - 1),
        )
    }
}

/// The entries of the tool calls that were run, in order.
pub open spec fn execution_entries(n: nat) -> Seq<RecordEntry> {
    Seq::new(n, |k: int| RecordEntry::ToolExecution { record: k as usize })
}

/// The record of an interaction: for a run that called tools, its rounds
/// and then its tool calls; otherwise the prompt and the answer.
pub open spec fn interaction_entries(tool_loop: Option<&AgenticLoop>) -> Seq<RecordEntry> {
    match tool_loop {
        Some(l) => if l.records@.len() > 0 {
            round_entries(l.rounds@) + execution_entries(l.records@.len())
        } else {
            seq![RecordEntry::PromptRequest, RecordEntry::AnswerContent]
        },
        None => seq![RecordEntry::PromptRequest, RecordEntry::AnswerContent],
    }
}

/// Whether a run called tools (see `ran_tools`).
pub fn tools_were_run(tool_loop: Option<&AgenticLoop>) -> (b: bool)
    ensures
        b == ran_tools(tool_loop),
{
    match tool_loop {
        Some(l) => l.records.len() > 0,
        None => false,
    }
}

/// The record of an interaction (see `interaction_entries`).
pub fn interaction_records(tool_loop: Option<&AgenticLoop>) -> (r: Vec<RecordEntry>)
    ensures
        r@ == interaction_entries(tool_loop),
{
    let mut out: Vec<RecordEntry> = Vec::new();
    match tool_loop {
        Some(l) => {
            if l.records.len() == 0 {
                out.push(RecordEntry::PromptRequest);
                out.push(RecordEntry::AnswerContent);
                return out;
            }
            let mut i: usize = 0;
            while i < l.rounds.len()
                invariant
                    i <= l.rounds@.len(),
                    out@ == round_entries(l.rounds@.subrange(0, i as int)),
                decreases l.rounds@.len() - i,
            {
                let r = &l.rounds[i];
                out.push(RecordEntry::Request { round: r.round, sent: r.request_len });
                let e = match &r.reply {
                    RoundReply::ToolRequest { at, .. } => RecordEntry::CallsReply { round: r.round, at: *at },
                    RoundReply::Answer { reply, .. } => match &reply.tool_calls {
                        Some(_) => RecordEntry::FinalCalls { round: r.round, index: i },
                        None => RecordEntry::FinalContent { round: r.round, index: i },
                    },
                };
                out.push(e);
                proof {
                    let sub = l.rounds@.subrange(0, i + 1);
                    assert(sub.drop_last() =~= l.rounds@.subrange(0, i as int));
                    assert(sub.last() == l.rounds@[i as int]);
                }
                i = i + 1;
            }
            proof {
                assert(l.rounds@.subrange(0, l.rounds@.len() as int) =~= l.rounds@);
            }
            let ghost base = out@;
            let mut k: usize = 0;
            while k < l.records.len()
                invariant
                    k <= l.records@.len(),
                    out@ == base + execution_entries(k as nat),
                decreases l.records@.len() - k,
            {
                out.push(RecordEntry::ToolExecution { record: k });
                proof {
                    assert(base + execution_entries((k + 1) as nat) =~= (base + execution_entries(k as nat)).push(
                        RecordEntry::ToolExecution { record: k },
                    ));
                }
                k = k + 1;
            }
        },
        None => {
            out.push(RecordEntry::PromptRequest);
            out.push(RecordEntry::AnswerContent);
        },
    }
    out
}

} // verus!

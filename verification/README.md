# mullande

A command line agent that talks to language models served by Ollama, keeps
the conversation in a git repository under `.mullande/.memory`, logs every
interaction, runs tools for the model, and compares models against each other
with a judge model.

The library in `src/` holds the decisions and texts of the program, each with
a contract proved by Verus:

- `config`: model settings, how named models override the default one, the
  import of the models of an Ollama server;
- `agent`, `agent_loop`: the model a run uses, the prompt it sends, where the
  request goes, and the loop of tool calls, with the proof of the shape of a
  whole run (at most fifteen rounds, numbered in order, each request made of
  the earlier messages, the reply and one `tool` message per call) and the
  record of an interaction that is written from it;
- `comparison`: the steps of a comparison of models, each on a branch of its
  own, and the judge's verdicts;
- `ollama`: the client settings and the reading of a streamed answer;
- `memory`, `conversation_log`: the workspace layout, its setup, the write
  transactions on the memory repository, and the conversation log, with the
  proofs that a turn added to the log is read back as its last turn, input
  and answer trimmed (for every model name no further line of which opens a
  user turn, and texts of one line or whose further lines are not blank and
  do not look like the log's markers), and that a log of turns with one-line
  model names gives back every turn;
- `logging`, `performance`, `tools`, `commands`: interaction logs, performance
  records, tool calls, and the commands of the command line;
- `text`, `clock`: text helpers and instants written by chrono.

`app/` is the program around it: argument parsing, files, git, HTTP, terminal
dialogs and the statistics table, which uses floating point.

`tests/` runs the library on concrete values.

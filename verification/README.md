# Sir Bone

The logic of a coding agent, written in Verus: the functions of the library have
contracts that Verus proves. The contracts of the calls into other crates are
believed, not proved; see below.

## Layout

- `src/` is the library.
  - `text`, `json`, `table`, `paths`, `patterns`, `types`: texts, JSON values,
    ordered tables, paths, patterns, and the messages of a conversation.
  - `agent`: a run (`machine`, `run`), a turn (`turn`, `answer`), a batch of tool
    calls (`batch`, `tools`, `lanes`, `policy`), questions to the user (`ask`),
    compaction (`compact`, `tokens`), the pass that finds where to work
    (`prepass`), and the facts that answers are held against (`grounding`).
  - `ai`: requests, streams and retries of the providers.
  - `acp`: the protocol that editors speak to the agent.
  - `checks`, `risk`, `permissions`: hooks, filters, checks after edits, and what
    a call may do.
  - `config`, `ablate`, `claude_md`, `attachments`, `best_of`, `highlight`:
    settings, switches, instructions, attachments, repeated attempts, languages.
  - `cmd`: what the commands say and decide.
- `tests/` runs the library, the outside crates with it.
- `app/` is the program: files, processes, the network, and the loops that do what
  the machines of the library ask for. It has no tools of its own; a front end
  brings them through the traits `Tools` and `Rules`.

## How it is specified

A type has a view, most often a sequence of characters or a structure of them. A
function says over views what it returns, and when it refuses. A machine has a
spec function that gives the next state, the events and the action for each event,
and its `step` is proved equal to it. What holds across functions stands in the
proof functions whose names begin with `law_`.

Calls into other crates stand behind small functions marked
`#[verifier::external_body]`, whose comments say what is believed of the call.

## Settings of the program

Besides the variables that `sirbone env` lists, the program reads a few that may
be left unset. `SIRBONE_VENDOR_BRAND`, `SIRBONE_VENDOR_MODEL`,
`SIRBONE_VENDOR_ROUTED_MODEL` and `SIRBONE_VENDOR_FILE` say how the vendor of the
Anthropic endpoint names its brand, its models and its instructions file; without
a model there is none by default, and `login` asks for it. `SIRBONE_PROJECT_DIR`
says where the state of the project is.

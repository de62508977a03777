# newbound_agent

The decision logic of the Newbound agent plugin, written in Verus: each
public function carries a contract that states what it returns, and the
library's laws are proved as public proof functions (`law_*`).

## Layout

- `src/` — the verified library.
  - `text` — string helpers with specifications (trimming, searching,
    replacing, joining, decimal rendering).
  - `fnv` — FNV-1a 64/128 hashing, a streaming hasher, a directory
    listing's fingerprint.
  - `registry` — the model/dataset/adapter registry's request checks and
    service replies.
  - `toolloop` — the tool loop's state machine, output clamping, compile
    error extraction, tool-name parsing.
  - `executive` — the observe-orient-decide-act loop as a step machine:
    each tick says which command the caller runs next (`TickAction`) and
    takes its answer back.
  - `settings` — reading and rewriting `KEY=value` settings files.
  - `json` — the agent's JSON values, rendered with members in canonical
    order.
  - `curriculum` — the curriculum export's sample lines and the
    deduplicated stream datasets.
  - `jsonread` — the plain values read from a JSON object's keys.
  - `bench`, `inspect`, `service`, `archivist`, `messages`, `sensor`,
    `llm`, `command` — the remaining commands' decisions.
- `tests/` — tests on concrete values, run against the compiled library.
- `app/` — the plugin's commands around the library: the store, files,
  HTTP calls to the model service, threads, and the conversion between
  the store's values and the library's types. Where a command
  alternates outside work and decisions, the library decides each step
  and `app/` performs it. The one rule `app/` keeps is the system
  sensor's banding of its readings, which works on floating-point
  measurements.

## Outside crates

`ndata`'s JSON parser reads the JSON text the library is handed (persona
files, model replies, memory facets) through one trusted wrapper,
`jsonread::object_field`; the library takes the plain values it needs
from the parsed object. Otherwise `ndata`, `flowlang` and `ureq` are used
by `app/` only: the store, the command registry and the HTTP client,
all of which are I/O. The other trusted items are three std functions:
`String::push`, `str::to_lowercase` and `format!("{:?}")` on a string.

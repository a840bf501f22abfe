# heliosav_layers

The detection layers of an endpoint scanner as a verified library. Each layer is a
module of `src/`: executable Rust with contracts that Verus proves.

| Modules | What they decide |
|---|---|
| `score`, `total`, `monotone`, `text`, `bytes`, `order`, `calendar`, `net`, `paths`, `json` | the ground the layers stand on: single-precision scores, texts, dates, addresses, paths, JSON trees |
| `behavior`, `sequence`, `process_state`, `fusion`, `rollback` | scores of events, ordered chains, process states, the final decision and how to undo damage |
| `heuristic`, `static_sandbox`, `sandbox_laws`, `cookie_guard`, `unpacking`, `objects`, `object_fields` | what the bytes of a file say |
| `hash`, `threat_intel`, `yara`, `rule_text`, `cache` | signature stores and remembered results |
| `clamav`, `memory_snapshot`, `ai` | the decisions in conversations with a daemon, a process's memory and models |
| `synthetic` | inert images for training and trials |

Scores are exact: a `Score` counts units of 2^-60 and its operations round as
single-precision floats do, down to that unit: what a float would resolve below 2^-60 is
rounded to it. So thresholds and calibrations can be stated and proved.
Laws that relate several functions are the public proof functions named `law_..`.

Outside code is reached through a few wrappers, each with a comment on what is believed
of it: object files through goblin, digests through sha2, sha1 and md-5, JSON through
serde_json, tables through csv, rules through yara, and the concurrent map of dashmap.

`app/` is the engine around the library: files, sockets, SQLite, ONNX plans, threads and
what needs floating-point logarithms. `tests/` runs the library from outside.

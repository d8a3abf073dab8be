# domiform

A home as data. Devices, scenes and rules are written down once, compiled into a
resolved graph, and run by a deterministic engine. Nothing is configured at run time,
and nothing in the core depends on the wall clock, a network or a thread.

The library is written in Verus. Every function states what it returns as a contract
over plain mathematical values, and every contract is proved. What the outside crates
`serde_json`, `chrono`, `chrono-tz`, `croner` and `sunrise` do is stated in a few small
functions (`src/json.rs`, `src/calendar.rs`), each with a comment that says what is
taken on trust. Two string operations of the standard library are taken the same way
(`src/text.rs`).

## Layout

| Where | What |
|---|---|
| `src/model.rs`, `src/ids.rs` | capabilities, states, events, commands |
| `src/state.rs`, `src/rule.rs` | what is known, triggers, three-valued conditions |
| `src/causality.rs` | what one turn of the event loop does, as mathematics |
| `src/engine.rs` | the loop, proved to do exactly that, and to call whom it says |
| `src/replay.rs` | laws of the loop: turns, starting, determinism, cascades, retries, waits |
| `src/nesting.rs` | whether a scene that activates scenes ends |
| `src/adapters/` | protocols: zigbee2mqtt, Matter, Z-Wave, the scheduler, the clock, … |
| `src/adapters/rest_api/` | the HTTP API: directory, routing, stream, protocol |
| `src/compile/` | configuration to object graph to engine, with every diagnostic |
| `src/compile/sound.rs` | what a configuration that compiles promises |
| `src/gui.rs` | the picture of a configuration |
| `src/cli.rs` | the decisions of the command line host |
| `app/` | the host: YAML, sockets, threads, signals, transports |
| `tests/` | the library from outside |

## Whom the engine calls

Adapters, observers and transports are traits, for a home to implement. Each has
specification functions by which an implementation can say what it has heard, how it
answers and when it wants to be woken; a plain Rust implementation need not mention
them. The engine's contracts are stated over them: every command, tick, fold and notice
of its trace was heard by the adapter or observer it concerns, and every answer in it is
the one that adapter gave. What an implementation answers is its own.

## How time works

The engine's clock starts at 0 and moves only when the host advances it. The scheduler
and the wall clock are adapters like any other: a timer that elapses and a minute that
passes are events. Two runs that are handed the same events, and get the same answers
from their adapters, end in the same state.

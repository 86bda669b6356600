# bubbler-core

The logic of a desktop sandbox runner on top of bubblewrap, written in Verus:
every function of the library states in its contract what it returns, and the
contract is proved.

An application runs in an instance whose `config.kdl` lists exactly what it is
granted. The library reads that file, builds the argument vector of the
sandbox and of its sidecars, plans the filtered buses, speaks the D-Bus wire
protocol, writes launcher entries and decides what a run does at each step.

- `src/config`: configurations, from the bound on the text to the grants.
- `src/bwrap.rs`: the argument vectors; `src/bwrap_laws.rs` and
  `src/bwrap_calls.rs`: what holds of all of them.
- `src/dbus`: the identity of an instance, the rules of its proxy and where
  the host's buses are.
- `src/dbus_wire`: marshalling, messages, and a session as a state machine.
- `src/desktop`: launcher entries.
- `src/cgroup.rs`, `src/exec.rs`, `src/audio_policy.rs`, `src/catalogue.rs`,
  `src/env.rs`, `src/host.rs`: the other decisions of a run.
- `src/text.rs`, `src/split.rs`, `src/paths.rs`: what they are written with.
- `app`: files, sockets, descriptors and signals around the library.

Operating-system strings and paths are byte strings. What a decision needs to
know of the host is read beforehand and handed over as a table.

Properties that hold of several functions together are public proof functions
named after what they say. What is believed and not proved is small and
marked: the KDL parser's result, and a handful of functions of the standard
library.

# blackswan

Deterministic chaos engineering for order management and smart order routing
systems. A scenario names faults and says when each is armed and disarmed; a
seed and a virtual clock make a run repeatable, and a recorded trace can be
checked against a later run.

The library in `src/` is verified with Verus. It holds every decision; what
touches the network, the kernel, the file system or a process is in `app/`,
which asks the library what to do next and tells it what came of it.

- `src/harness/` - the traits and types that everything shares: faults, protocol
  adapters, clocks, scenarios, errors.
- `src/replay/` - the determinism engine: the random numbers, the checks on a
  schedule, the scheduler, the runner and the trace. A run against the clock of
  the machine (`realtime.rs`) leaves a trace that every replay reproduces.
- `src/fix/` - FIX messages and their framing, the faults of a FIX session, and
  the relay that applies them to a stream of bytes.
- `src/kernel/` - packet loss, corruption and partition in the network path,
  memory pressure through control groups, clock skew through time namespaces.
- `src/cli/` - scenario files, the faults built from them, the summary of a run.
- `src/text.rs` - numbers as digits.

Files named `*laws.rs` hold what is true of several operations together: that
runs repeat, that framing does not depend on how a stream is cut, that a message
written anew parses and frames, that a fault touches only what it is about.

The programs that the network faults attach are loaded from
`/usr/lib/blackswan/bpf`.

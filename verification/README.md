# sandbox

Policy logic for sandboxing native code (binary programs and functions of
shared libraries) started from a JavaScript runtime, verified with Verus.

A policy file names commands, libraries and library functions, and says what
each may do with the file system (Landlock rules), inter-process
communication (seccomp filters, eBPF programs) and the network (eBPF host
maps). The library decides, for every caller, which rules apply; the code
around it enforces them.

- `src/` — the verified library:
  - `policy.rs`: the policy types, splitting policies per type, namespaced names;
  - `strmap.rs`: a string-keyed map that keeps its keys unique;
  - `utils.rs`: resolving `$NAME` references to environment variables;
  - `fs.rs`, `ipc.rs`, `net.rs`: each component's encoding of a policy and
    the lookup of the policy that applies to a caller; the seccomp filters to
    apply; the eBPF host maps to build;
  - `lib.rs`: the sandboxing plan of a caller and the steps of preparing the
    sandbox;
  - `process.rs`, `bench.rs`: decisions of the runtime's process and
    benchmark operations.
- `tests/` — tests of the library.
- `app/` — the unverified glue: reading policy files, the environment,
  Landlock, seccomp, capabilities and the eBPF attachment points.

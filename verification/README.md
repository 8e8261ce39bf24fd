# chuk_robot_benches

The robot bench estate: a deterministic arena simulator with its benches and
differential rig, the robot-as-data derivation tools, and the run-mode
circuit model. The deterministic, discrete core is a library verified with
Verus; the floating-point physics and the command-line tools sit around it.

## Layout

| path | what it is |
|---|---|
| `src/rng.rs` | splitmix64-seeded xoshiro256++ streams with FNV-1a domain separation |
| `src/graph.rs` | net graphs and BFS reachability (exactly the nets a walk reaches) |
| `src/circuit.rs` | energization of a wired circuit: bridge graphs, ground plane, gated passthroughs, hot nets |
| `src/components.rs` | per-instance run-mode rules: powered supplies, LEDs, motors, bus conflicts |
| `src/voltage.rs` | voltage inheritance across lossless connections |
| `src/episode.rs` | intervention-window counting |
| `src/digest.rs` | SHA-256 content hashes as lowercase hex (through `sha2`) |
| `src/cli.rs` | flag lookup and `u64` flag parsing |
| `src/clock.rs`, `src/versions.rs`, `src/schema.rs`, `src/checks.rs` | world clock, layer version tags, shared record types, the X03 check |
| `tests/` | tests of the library |
| `app/` | the `arena` command line, the f64 plants, cells, benches, contact solver, rapier differential rig, robot derivation and inspector |

# cargo-install-update

The decisions of `cargo install-update`, the command that updates what `cargo install` put on a
machine, as a library verified with Verus.

A run is a conversation. `Session::start` takes the options, the settings of the packages and the
packages, and hands back a `Step`: effects to perform (text to print, files to move) and one
`Request` (resolve a registry, fetch an index, run `cargo`, exit). The caller does what it says,
and gives `Session::advance` the `Event` that came of it. What a run does on every event is stated
in `src/plan.rs`; what holds of whole runs is stated and proved in `src/course.rs`,
`src/record.rs`, `src/report.rs` and `src/quiet.rs`.

| Path | What it holds |
| --- | --- |
| `src/select.rs` | which packages a run is about |
| `src/registry.rs` | the packages by registry, and the order of the registries |
| `src/table.rs` | the table of versions |
| `src/command.rs` | the arguments of `cargo` |
| `src/tally.rs` | what was updated, what failed, and the exit code |
| `src/executable.rs` | moving the running executable out of the way, and back |
| `src/plan.rs`, `src/step.rs` | the states and turns of a run |
| `src/course.rs` | what holds of every run |
| `src/record.rs` | what a run installs, and the order of its requests |
| `src/report.rs` | what a run prints and complains of in its whole course |
| `src/quiet.rs` | what quiet changes in a run |
| `src/session.rs` | a run, as a program drives it |
| `app/` | the command: arguments, registries, repositories, processes and files |

Sorting is done by `lazysort`, alignment by `tabwriter`, matching by `regex`. The functions that
call them are the only ones whose contracts are not proved.

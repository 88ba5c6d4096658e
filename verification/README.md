# ZeroSh

The logic of a small job-control shell, verified with Verus: how a command line is read, which
tables of jobs and processes are kept, and what each event asks of the world outside.

- `src/` is the verified library. `model.rs` describes the tables as mathematical maps and says
  what every event makes of them; `worker.rs`, `launch.rs`, `wait.rs` and `service.rs` keep the
  tables accordingly; `parse.rs`, `text.rs` and `number.rs` read and write lines; `shell.rs` is the
  side that prompts and reads. `line_laws.rs`, `job_laws.rs` and
  `session_laws.rs` prove what holds of the whole.
- `app/` does what the library asks for: the terminal, threads, signals and processes.
- `tests/` runs the library on concrete values.

The library never acts by itself. Its functions append to a list of `Effect`s, which the program
around it performs in order, and they are handed the answers of the system as plain values. The
only outside function that it calls is `dirs::home_dir`, of which nothing is assumed.

# deepseek_swarm

The logic of an agent client for the terminal and the desktop, written in Rust and proved with
Verus: swarms of sub-agents with dependencies between their tasks, the footer of the terminal, and
the chat, editor and file tree of the desktop window.

- `src/swarm/` checks the tasks of a swarm, plans and runs it step by step, reports on it and keeps
  the outcomes. `run.rs` is the machine that an event loop drives, `model.rs` the mathematical
  model that it follows, and `laws.rs` what holds of every run.
- `src/footer.rs` lays out the footer line.
- `src/gui/` holds the state of the desktop window and what it shows.
- `src/text.rs` has the text operations that the others build on.
- `app/` connects the library to files, agents, the terminal and the screen.
- `tests/` runs the library on concrete values.

A function that calls another crate does so through a small wrapper or a declared contract. The
comment above each says what is taken on trust.

# tasky

A command-line to-do list. The library (`src/`, verified with Verus) holds the
tasks and every rule the commands follow; `app/` is the program around it
(argument parsing with clap, the JSON file in the config directory, coloured
terminal output).

- `src/todo.rs` — a task, its priority levels and its one-line text form.
- `src/store.rs` — add, mark done or pending, edit, remove, clear completed.
- `src/query.rs` — which tasks a listing or a search shows, and in what order.
- `src/text.rs` — substring search, joining, decimal numbers over characters.
- `src/timestamp.rs` — points in time and the clock.
- `src/laws.rs` — properties that relate the commands to each other.

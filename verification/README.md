# chill_bevy_console

A developer console for Bevy games, split into a verified core and a thin
Bevy plugin.

- `src/` is the core, verified with Verus: command-line parsing, argument
  access, the command registry, runtime aliases and key bindings, the
  built-in commands (`help`, `clear`, `alias`, `bind`, `state`, `res`),
  completion ranking and paging, key handling and command recall, command
  execution with alias expansion, the output buffer, and the plain-text
  transcript that saves recall and output between runs. Each public function
  states its result in its contract; the `law_*` proof functions state
  properties that span several calls (a saved transcript restores its recall
  and output, a set alias or binding reads back, ranking puts the best
  matches first, alias expansion is bounded, and so on).
- `app/` is the Bevy plugin: resources wrapping the core's values, the
  systems that feed it key presses and run the commands' systems, the
  interface, reflection of states and resources, log capture and file I/O.
- `tests/` exercises the core on concrete values.

Resource properties are exposed through Bevy reflection: register a
reflected resource with `add_console_resource::<R>()`, and optionally mark
fields with a reflected `ConsoleProperty` attribute. There is no
`#[derive(ConsoleResource)]` macro.

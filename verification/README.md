# bwoc-chat

Desktop chat for one agent or a team of agents in one window. Each agent is a subprocess that
streams events; the window shows them and routes the user's messages and permission decisions.

- `src/` is the library: state and rules, verified with Verus. It reads no file and starts no
  process. Every step takes plain values and returns the actions to perform.
  - `launch`, `config`, `personal`: from a command line to settled agent configurations
  - `chat`, `session`, `protocol`: the window's state and how events change it
  - `routing`, `command`, `complete`, `frame`: what the user's input does
  - `screen`, `label`, `colour`: what the panels show
  - `text`: strings as sequences of characters
- `tests/` runs the library, with egui's text layout where it matters.
- `app/` is the program around it: environment, file system, processes, drawing with egui. It needs
  the framework's own crate, `bwoc-core`, for the wire format, the registry and the manifests.

Laws that relate several functions are the public proof functions whose names start with `law_`.
What the library takes on trust from outside is in `colour` (`egui::Color32`) and at the top of
`text` (`String::push`, `str::to_lowercase`).

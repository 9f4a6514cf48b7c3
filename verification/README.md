# applet_executor

The logic of a panel applet that runs shell commands, each at its own
interval, and shows their output in the panel, colored by ANSI codes and
separated by a configurable separator. It is written in Verus and verified.

- `src/text.rs`: Unicode white space, trimming, reading and writing decimal
  numbers, finding a character.
- `src/ansi.rs`: splitting command output into colored pieces (SGR codes
  30–37, 90–97, and 0 to reset).
- `src/config.rs`: the configuration (blocks and separator) and how the text
  of its JSON file is read, with `serde_json`.
- `src/command.rs`: the text shown for a command that ran or failed to run.
- `src/applet.rs`: the applet's state, the step each message takes it
  through and the action that follows, the panel label and the editor rows,
  and the laws that hold of them.
- `app/`: the desktop application around the library: the toolkit, the
  timers, running the commands, the configuration file, colors and font
  sizes.

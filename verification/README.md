# srb2_relay

A Discord bot that relays chat between a Discord channel and an SRB2 game server,
which exchange messages through two text files in the SRB2 home directory.

- `src/` is the verified library (Verus): message sanitising (`sanitize`), decimal
  numbers (`number`), the message file's lines and ranges (`message_file`), markdown
  escaping, emoji markup and the relay loop's state machine with its run law (`relay`), the JSON settings and the relay
  decision (`config`), and the command line, file paths and help text (`cli`).
- `app/main.rs` is the program: the Discord client (serenity), tokio, file access and
  the home directory; it drives the library's functions and state machine.
- `tests/` runs the library on concrete inputs.

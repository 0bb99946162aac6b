# dar_extensions

Chat channels for agents: IRC, WhatsApp, Telegram, Slack and Discord. What the channels
decide is a library that Verus verifies; the connections around it are ordinary Rust.

- `src/` holds the library. Each channel has a module: who is answered (`addressing`),
  what settings mean (`config`), where sessions live (`session`), how text is rendered and
  cut into messages (`markdown`, `mrkdwn`, `split`), how replies grow (`live_answer`,
  `stream`), and what is done with each message or event (`worker`, `runtime`, `channel`).
  Public `proof fn`s state what holds across functions: that no text is lost when it is
  cut, that conversations do not share directories, that the count of bot turns keeps its
  cap.
- `tests/` runs the library on concrete values.
- `app/` holds sockets, files, tasks and the host's traits. It asks the library what to do
  and does it.

Functions that call other crates (`url`, `serde_json`, `regex`, `hex`, `hmac`) are marked
`#[verifier::external_body]`; their doc comments say what is claimed of those crates.

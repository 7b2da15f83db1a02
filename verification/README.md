# teams_channel

The rules of a Microsoft Teams channel for a chat agent, written in Rust and
proved with Verus.

Messages come in by polling Microsoft Graph, one cycle over all configured
channels at most every five seconds. A message reaches the agent if it mentions
the bot, by a mention chip or by name, and is not the bot's own; within a page
the oldest comes first. Answers go back to the channel or thread that a message
came from. An operator can be asked in the channel to
approve a tool call or to pick one of several choices; where nobody answers, an
approval is denied.

- `src/` is the library. It does no I/O: it says what to request, reads what
  came back and decides. Each function has a contract over sequences of
  characters and mathematical integers, and functions named `law_*` state what
  holds of several of them together.
- `app/` is the program around it: HTTP, the credentials and state files, the
  waiting.
- `tests/` run the library on examples.

A message reaches the agent once. That is proved over any number of poll cycles
from the empty state on (`history`), as long as each cycle's state is saved, and
at most 200 messages of a channel share one creation time: that many ids are
kept. A message that turns up only after a later one of its channel has been
read is not seen at all.

## What is not proved

A few functions of the standard library and of outside crates are called with
contracts that are believed, not proved. Each is marked `Trusted` where it is
declared and says what is claimed of it:

- `text`: `String::push`.
- `mentions`: `char::is_alphanumeric`.
- `graph`: `SystemTime::now`, `SystemTime::duration_since`,
  `Duration::from_millis`, `Duration::as_millis`.
- `retry`: `rand::random`, and chrono's `Utc::now`,
  `NaiveDateTime::parse_from_str` and `DateTime::signed_duration_since`.

The jitter of the backoff is that of double-precision arithmetic, computed in
whole numbers: `rounding` says what 53 significant bits hold of a number.

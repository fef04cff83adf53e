# qwobot (verified core)

The Discord bot qwobot serves a local language model and interprets SPW
expressions. This crate holds the part of it that decides and computes,
with machine-checked proofs of its contracts:

- `stats`: per-command counters, the window of the 50 most recent failures,
  and the summary sorted by invocations.
- `stats_history`: what the statistics and their summary hold after any
  history of recorded calls.
- `prompt_watcher`: the current prompt template, replaced only when the
  SHA-256 hash of a fetched template differs; hex encoding of hashes.
- `commands`: the text of each command's reply (`/complete`,
  `/bot-status`, `/model`, `/model-switch`, `/prompt-refresh`) and the
  thinking-block filter, cut to Discord's message limit.
- `error`, `error_replies`: the bot's errors and the replies to failed
  commands.
- `config`: configuration defaults.
- `text`: the character and UTF-8 byte model the replies are specified in.

`app/` is the bot around it: the Discord framework, the HTTP fetch of the
template, the background watcher, locking, logging and configuration
loading.

# moltis_slack

A Slack channel for a chat bot: it connects to Slack in socket mode, decides
which messages are let through, lets unknown senders approve themselves with a
one-time code, and sends answers in Slack's markup.

- `src/` is the library. It decides who is let through, what is done next, what
  is sent and where it goes, and is verified with Verus: each function states in
  its contract what it returns, and the laws that span several functions stand
  as public proof functions named `law_*`.
- `app/` performs what the library decides: calls to Slack's web API, the
  socket, tasks, locks, and settings as JSON.
- `tests/` runs the library on concrete values.

| module | what it holds |
| --- | --- |
| `access`, `gating` | who may talk to the bot |
| `otp` | one-time codes, their expiry and lockouts |
| `handlers` | what is done with a message that comes in |
| `markdown`, `chunk` | Markdown to Slack's markup, long texts to messages |
| `outbound` | what is sent, streamed answers included |
| `socket` | the connection loop and the frames that come in |
| `plugin`, `state` | the accounts, started, stopped and probed |
| `config`, `channel`, `error` | settings, what the host is told, what can go wrong |
| `text`, `decimal`, `table`, `clock`, `json` | what the rest is built on |

What the library takes from elsewhere without proof is the random number behind
a code (`rand`), the two clocks and `String::push` (the standard library), and
the text of a JSON object (`serde_json`). Each stands behind one item whose
comment says what is claimed of it.

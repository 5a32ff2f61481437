# q38

The decision core of a local coding agent for OpenAI-compatible endpoints, written in
Verus: every public function carries the contract it is proved against.

- `src/` is the library.
  - A model's reply: `reply` (from its bytes to the turn), `stream` (server-sent events),
    `turn`, `xml_tools`, `think`, `usage`, `paint` (what is shown while it comes).
  - A request: `adapter`, `endpoint`, `policy`.
  - One turn of the agent: `turn_loop` and `drive` (which step follows which), `tools`
    (which call may run, and what is learned from it), `guard` and `oracle` (edits and
    tests), `context`, `message`, `notes`, `asks`, `setup`.
  - Messages from outside: `channel` (envelopes, access, routing, batching, and the
    gateways of QQ, DingTalk and Feishu), `pb` (the frames of Feishu's socket).
  - The three benchmark tasks and their report: `bench`, `report`. The command line: `cli`.
  - `text`, `json`, `double`, `table` and `paths` are what all of these are built on. `outside` holds
    every call into another crate, with what is relied on of it.
- `tests/` runs the library from outside.
- `app/` is the program around it: sockets, files, processes and the command line.

Public proof functions whose names begin with `law_` state what holds across functions.

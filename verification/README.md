# telegram_bot_gateway

A gateway that lets Agents talk with people in Telegram Topics. Agents use the `tbg` CLI
over HTTP; people write in Telegram; the Gateway keeps the conversation, each Agent's
subscriptions and acknowledgement progress, and a queue of deliveries to Telegram.

The library under `src/` holds every rule of the Gateway and is verified with Verus:

- `db` — the store: its tables, their invariants, and every query and update.
- `gateway`, `management`, `wait`, `ingest`, `delivery`, `dispatch` — what the Gateway does
  for Agents, for Telegram updates and for the delivery queue. Where a Telegram call or a
  wait stands in the middle of an operation, the operation is split into the steps around
  it.
- `contract`, `telegram`, `bot`, `client`, `config` — the HTTP interface, the Bot API
  requests and replies, the Bot's answers, and the checks on configuration.
- `json`, `text`, `model` — JSON values, text operations and the shared types.
- `laws` — properties that hold across operations.

`app/` is the program around it: the CLI, the HTTP server, the SQLite files, the calls to
Telegram. Started as `tbg-gateway` it runs the Gateway; under any other name it is the
`tbg` CLI.

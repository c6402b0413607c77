# sbx — a verified core for an Azure Service Bus explorer

A desktop explorer for Azure Service Bus: browse queues, topics and subscriptions,
peek, send, receive, purge and resubmit messages, and create, update and delete
entities over the ATOM management API.

The library in `src/` is written in Verus and proved against its contracts:

- `connection` — connection strings (`Endpoint=…;SharedAccessKeyName=…;SharedAccessKey=…`).
- `sas` — Shared Access Signature tokens (URL encoding, HMAC-SHA256, base64 by their crates).
- `mgmt` — entities, the management client's signed requests, the ATOM bodies it sends,
  reply checking and the paging of listings.
- `feed` — reading ATOM feeds (parsed by `roxmltree`) into entities.
- `worker` — what the background worker decides: the messages a send or resubmit puts
  on the wire, the paging of a peek, the management request of each command, and the
  status and error lines it reports.
- `explorer` — the explorer's state and how each report of the worker changes it.
- `views` — what the panels and dialogs show and the commands they send.
- `strmap`, `text`, `num`, `clock` — small verified helpers.

`app/` is the program around the library: the egui window, the worker thread with its
AMQP and HTTP I/O, and the settings file. `tests/` exercises the library with the real
outside crates linked.

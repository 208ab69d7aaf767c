# EdgeShield

EdgeShield is a passive network monitor: it captures frames on a local
interface, decodes and classifies them, keeps an inventory of the devices
it sees, raises alerts from configurable rules, and serves the inventory
over a small REST API.

The library in `src/` holds the logic, written in Verus with its
contracts proved:

- `decode`, `classifier`, `dhcp`, `mdns`, `ntp`: frame decoding, protocol
  classification and the application-protocol parsers;
- `types`, `discovery`, `device_store`, `history`: device records, what a
  frame changes in them, and the in-memory device store;
- `alert`, `alert_store`, `rules`: alerts, the in-memory alert store, rule
  conditions, cooldowns and acknowledgement;
- `config`, `setup`, `cli`: the configuration file, the first-run setup
  and the command line;
- `auth`, `audit`, `crypto`, `routes`, `codec`, `notify`: API keys, rate
  limiting, request auditing, API answers, stored-record encodings and
  notification content;
- `daemon`: which rules run, which devices count as offline, and the
  capture thread's decisions.

Each module states its laws as public proof functions (`law_*`).

`app/` is the program around the library: argument parsing, packet
capture with pcap, the async tasks, SQLite storage, the HTTP server and
the notifiers. The SQLite device store lives on disk, so the library's
`DeviceStore` contract is not claimed of it: frames are recorded into it
by running the library's `begin_frame`, `sender_read` and
`receiver_read` steps, which fix what is read and written; the
in-memory store goes through `process_frame`.

# local_transport

A small peer-to-peer file sender for a local network, with its protocol
logic verified by Verus.

A receiver announces itself with mDNS and waits on a TCP port; a sender
finds it and sends either one file or every file under a directory.

## Layout

- `src/` — the verified library
  - `wire.rs`: big-endian framing of lengths and counts, with the laws that
    reading back what was written gives the value, and the reverse.
  - `sender.rs`: the bytes of the protocol (kind byte, file count, file
    header), the plan of a directory transfer, the name a single file is sent
    under, and how a directory walk treats its entries.
  - `receiver.rs`: the receiving state machine, and the laws that a single
    file or a directory sent by the sender is received whole.
  - `streamer.rs`: absolute paths, the choice of a private LAN address,
    the text of the address to connect to, what each discovery event leads
    to, and the mDNS service record.
  - `announce.rs`: the mDNS service, bound to the record it was built from.
  - `stream.rs`: the path checks and destination of the single-file variant.
  - `menu.rs`: reading the user's choice at start.
- `tests/` — tests of the library on concrete values.
- `app/` — the program: standard input, sockets, files, mDNS and progress bars.

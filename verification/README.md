# sync

A small backup system: a client walks the directories that its server tells
it to back up and sends each file that changed; the server keeps the current
copy of each file and moves the replaced ones aside, dated.

`src/` is the library, verified with Verus:

- `protocol::net` — the wire format: the scrambling of bytes, frames that
  carry LZ4-compressed data, the 32-byte greeting field, status bytes, and
  the block plan of file transfers;
- `protocol::server` — the server's decisions: handshake checks, updates,
  the client's settings file, and the plan of a backup round (what stays,
  what is versioned, what the client must send);
- `protocol::client` — the client's decisions: the reconnect loop, the next
  job, what to send for an entry, self-update;
- `protocol::auth` — client ids and program digests;
- `types` — the settings of both programs and the directory lists they
  exchange;
- `utils` — text, paths (held as text with `/` between parts), the
  directories a client offers, and the command line.

`app/` is the program around it: sockets, files, JSON, logging and the
command line.

# waypoint_core

The verified core of Waypoint, an NMEA 0183 debugger for GNSS receivers.

`src/` is a Verus library, verified by Verus. Its functions carry contracts,
with three exceptions that state nothing of their results: the methods of
`source::Cancel`, whose flag is a std atomic shared with other threads. Paths
are opaque: `basemap::cache_path` states which `Path::join` calls make its
result, not what the path holds.

Modules:

- `checksum` — the `*HH` XOR checksum, over the bytes of a raw line.
- `framing` — cutting a serial byte stream into lines, whatever the reads.
- `receiver` — one receiver's picture and how a raw line changes it: trimmed,
  checksummed once, parsed, counted, logged, and folded in.
- `fix`, `sky`, `counters`, `status` — the fix, the satellite table
  reassembled from GSV groups and GSA cycles, and the stream-health counters.
- `source`, `record`, `display` — decisions the frontends share: which source
  a command line selects, reconnection pacing, whether a capture may start,
  how its size reads, and panel toggling.
- `basemap` — the terminal basemap's feature classes, slippy-tile addressing,
  tile URLs and the TileJSON reader.

`app/` is ordinary Rust around it: the serial, TCP and file transports, the
engine that runs them on Tokio, capture to disk, the `nmea` crate as sentence
parser, and the floating-point track and trip statistics.

`tests/` exercises the library from outside, with the real outside crates
linked.

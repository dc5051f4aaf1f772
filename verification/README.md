# dank-gallery

A picture frame made of a 7-colour e-paper display and a small picture server.

- `src/` is the verified library (Verus):
  - `frame.rs`: receiving a frame over HTTP/1.0 into the display buffer (header skipping,
    chunk copying, the stop conditions), with laws on what each read writes.
  - `session.rs`: the display firmware's loop as a state machine (lookup, connect, request,
    receive, draw, pause).
  - `dns.rs`: the firmware's `A` query and the choice of the answer's address, on top of
    `dns_protocol`.
  - `packing.rs`: packing dithered pixels as palette indices, two to a byte.
  - `feeds.rs`: picking a picture from the RSS feed (via `rss`), the subreddits and the
    gallery, with random choices from `rand`.
- `app/` is the unverified shell: the warp server, the network and image I/O, the
  floating-point dithering, and the firmware's hardware and socket code.
- `tests/` runs the library against the real outside crates.

# librqbit

Two parts of a BitTorrent client, with contracts that Verus proves.

- `checker` and `torrent_info`: a torrent's files and pieces, and the figures of
  a read-only check of them.
- `instances`: several instances on one machine that share a listening port.
  `protocol` and `wire` are what they say and its bytes, `routing` and `peers`
  what they know, `sockets` and `discovery` how they find each other,
  `fd_passing` and `prefixed_reader` how connections change hands,
  `coordinator` one instance with all of its decisions, and `guarantees` what
  follows for one instance over time and for two that talk.

`text` puts numbers and lists into the sentences of errors.

The library holds state and decides. `app/` opens files, owns sockets and runs
tasks: it hands the library what arrived and does what the library returns.

What is believed without proof: the postcard encoding of integers, texts, byte
strings and lists of hashes (`wire`), and nothing at all about the number that
`rand::random` draws (`sockets`).

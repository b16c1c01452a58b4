# PicoCap

PicoCap checks one packet capture (pcap or pcapng) before it is used as evidence:
is the container whole, are the frames complete, does the file cover enough
devices and time, did the capture drop segments, and was the mirror port set up
well? It answers with a verdict (`ACCEPT`, `REVIEW` or `REJECT`), a conformance
score, findings with their sources, and the distribution of the packets. It only
reads captures.

## Layout

- `src/` is the library. All of it is verified with Verus.
  - `reader`, `capture`: the blocks of a capture and the walk over them. The
    blocks come from the `pcap_parser` crate.
  - `frame`, `packet`, `stats`, `session`: what a packet carries, through VLAN
    tags and tunnels, and the tallies over all packets.
  - `checks`, `notices`, `figures`, `binary64`: the criteria, the findings and
    the scores. Shares, scores, rates and the durations that are shown are
    computed as IEEE 754 binary64 computes them.
  - `moments`: the time of a packet, in seconds for what is shown and in whole
    nanoseconds for what is held against a limit.
  - `summary`, `markdown`, `api`: the report as text, as Markdown and as JSON.
  - `config`, `decimals`, `auth`, `words`, `text`, `time`, `bytes`, `ranking`,
    `digest`: settings, the token of a request, and the tools of the rest.
- `app/` is the program around it: files, arguments, environment, web server.
- `tests/` runs the library.

What the library promises is stated in the contracts of its functions, and where
it spans several of them in the public proof functions whose names start with
`law_`. The functions marked `external_body` call the outside crates; what they
claim of them is said above each.

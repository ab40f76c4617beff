# minsec

A minimalist intrusion prevention daemon's core, written in Verus.

`src/` is the verified library:

- `nft` — the nftables backend: every script it feeds to `nft` (setup,
  rebuilding a set whose definition changed, bans, unbans, the allow list),
  the reader of `nft -j list set` output, and the setup protocol as a state
  machine; `script_laws` and `nft_laws` prove what holds of all of them
  (every script stays inside `table inet minsec`, allow rules come before
  ban rules, a rebuilt set keeps its elements and their timeouts, setup
  ends and succeeds only once the setup script went through, and a whole
  run rebuilds exactly the sets whose probe fails, in order).
- `net`, `addr_parse` — addresses and networks, their text forms as the
  standard library and `ipnet` write them, the address parser, and the
  reader of network arguments.
- `json` — the JSON values the listing reader walks, parsed by `serde_json`.
- `control` — the messages of the control protocol.
- `report`, `commands`, `order` — what the command line prints: the
  `inspect` summary in order, and the lines of `check`, `filters`, `list`,
  `status` and `events`.
- `tally`, `key_order` — the counts of `test`: lines read, lines matched,
  and matches per address in a `BTreeMap` keyed by (family, bits), so that
  its in-order walk lists addresses as `IpAddr` sorts them.
- `dropin` — the drop-in file of `enable` / `disable` as a TOML document
  of plain data, and the edit that sets `filters.<name>.enabled` and keeps
  everything else; `toml` only parses and writes the text.
- `text` — numerals and joined lists.

`app/` runs what the library decides: it spawns `nft`, talks to the
control socket, reads and writes drop-in files, prints what the commands
show, generates shell completions and sets up logging.

`tests/` runs the library on concrete values.

# zeph

The decisions of a ZephCraft node, verified with Verus.

A node keeps an overlay of peers, agrees with them on who is alive, spreads named heads over
sharded registries, measures what it serves, and answers a control interface. What it decides
in doing so stands in `src/`, as executable Rust with contracts. What it exchanges with disks,
clocks, sockets and the rest of the system stands in `app/`.

- `src/` the library, one module for each concern: `membership` (the member set, the views and
  how they move), `headreg` (shards, elections, routing and migration of the registry),
  `epoch`, `epoch_committee`, `committee`, `governance`, `attest` and `chain` (time slots, who
  attests, and which chain is believed), `ledger`, `cheque`, `econ_store`, `econ_tables` and
  `economy_egress` (balances, serving, and what is stored of them), `control` and `cli` (requests, reports and
  the command line), `content`, `scan` and `manifest` (what is held and how it is kept),
  `config`, `resources`, and the small modules they share.
- `tests/` runs the library on concrete values.
- `app/` the node itself: the command line, the daemon, and the transport, storage and HTTP
  around the library.

Each module states what its functions return over mathematical models. Public proof functions
named `law_...` state what holds across functions: that member sets converge, that views stay
sound, that growing the number of shards splits each in two, that quorums intersect.

What is believed rather than proved is marked `external_body` or `assume_specification`: the
calls into `blake3`, `hex`, `postcard`, `rand`, `serde_json` and a few functions of the
standard library. A comment above each says what it claims.

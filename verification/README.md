# aetherd

The decisions of an HF modem daemon, in Rust verified with Verus: what a station does between a
link engine, a physical layer, a sound card and a radio.

- `src/` is the library. Its functions are verified against their contracts, but for a few that
  call the standard library or `serde_json` and whose contracts are taken from their documentation:
  in `text`, `json` and `ptt::cat`, each marked `external_body`.
  - `station` is the run loop's side of things: what is queued for the air, the regulatory gate
    every transmission passes, the key, what is heard, and the account of a session.
  - `regulatory` is a policy over an administration's rules: whether a transmission may go out on
    a dial, and the fastest rung of the ladder that may.
  - `ptt` holds the keying watchdog, the CAT dialects, `rigctld`'s lines and the codecs' pins.
  - `profile` and `settings` are station profiles and the registry of settings they carry.
  - `record`, `replay`, `sessions`, `spectrum` and `sim` are recordings, their replay, the
    history, the passband estimate and the simulated channel.
- `app/` is ordinary Rust round it: files, sockets, serial ports, the transform of a spectrum, and
  the loop that carries the station's decisions out.
- `tests/` run the library.

Quantities are integers throughout the library: microseconds, thousandths of a hertz or of a
decibel, milliwatts. A document's real number is held in billionths where it is a whole number of
them, and by its digits and power of ten where it is not.

# dratchet

The logic of an end-to-end encrypted messenger, written in Verus: executable Rust whose
behaviour is stated in contracts and proved.

- `src/server/` is the relay server. `ws` decides what each frame of a connection leads to;
  `state` is what it decides on; `abuse` holds the rate limits and the proof of work;
  `pruning` is the periodic sweep; `laws` states what holds whatever clients send.
- `src/store/` is the client's encrypted store. `db` keeps records under three independent
  keys; `contacts`, `messages`, `profile`, `routing`, `wipe_policy` and `notification_prefs`
  are the records; `gate` keeps chat from unverified contacts; `laws` states what holds of the
  store as a whole.
- `src/ui/` is the desktop shell: what it shows, and when it reconnects.
- `src/map.rs`, `src/bytes.rs`, `src/hex.rs` and `src/text.rs` are what the others build on.

`app/` is the programs around the library: sockets, files, clocks, the window, and the calls
into the key library. The library takes clock readings, key facts and the record table as plain
values and gives back actions and changes to carry out.

Times are nanoseconds. Hashing, encryption, CBOR and random bytes come from outside crates; the
few functions that call them say in their contracts what is relied on.

# nostr_double_ratchet

Double ratchet conversations over Nostr, as a library that is proved against
its contracts with Verus.

- `src/` is the library. Every function states what it returns and changes, and
  Verus checks it. Nothing in it reads a clock, a disk or a relay: operations
  are given the time and a source of random numbers, and hand back what is to
  be stored, published, shown or listened to.
- `tests/` runs the library, with the real cryptography linked.
- `app/` is the ordinary Rust around it: the clock, storage, locks,
  subscriptions and the JSON form of what is stored.

## Modules

- `session`, `session::domain`: the ratchet between two devices.
  `session::properties` shows that messages open at the other end.
- `invite`, `invite::domain`, `invite::stored`, `invite_actor`: how a
  conversation begins.
- `codec::nostr`, `event`, `rumor`: events, addresses and messages.
- `roster`, `roster_editor`, `app_keys`: the devices of an owner.
- `session_manager`, `shelf`: owners with many devices. What is sent goes to
  all of them, and what cannot be sent says what is missing.
  `session_manager::order` states what every manager keeps: rosters decide who
  acts for an owner.
- `group_manager`, `group_wire`, `group`: groups of owners.
- `peer_book`, `state`: a device and its peers, without rosters.
- `runtime`: everything that a device keeps, and what it asks to be done.
- `v2`: the callbacks of a host, and the effects that it drains.
- `crypto`, `encoding`, `json`, `event`, `types`: the calls into other crates.
  Each such call is a small function whose doc comment says what is taken for
  granted of it.

# smb_server

The core of an SMB2/3 file-sharing server, written in Verus: what a server has to
remember and decide, without the sockets and the file system around it.

- `src/proto`: the messages of the protocol, their codecs, and the encryption and
  compression transforms.
- `src/info_class`: how files, directories, extended attributes, streams and security
  descriptors are written for queries.
- `src/server`: the state of a server. Opens, leases, oplocks, durable handles, byte-range
  locks, watches, requests that wait, shares and users. Every operation takes the state
  from one mathematical model to the next, and hands out what is to be done in an outbox.
- `src/server/soundness.rs`: what every operation keeps. The proofs stand in `keeping.rs`,
  `breaking.rs` and `endings.rs`.
- `src/quic.rs`: the settings of the transport over QUIC.
- `app`: ordinary Rust around the library. It listens, talks to backends, runs timers, and
  carries out the work that the state hands out.

Ciphers, message authentication, random bytes and QUIC settings come from outside crates.
Each call stands behind a small function whose contract is believed and not proved; its
doc comment says what is claimed.

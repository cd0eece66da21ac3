# openworld

The protocol logic of a proxy client, written in Verus: what goes on the wire
for each outbound protocol and transport, how replies are parsed and checked,
and the state that the relay loop, the buffer pool and the connection pool
keep. Every function under `src/` is verified against its contract; the
contracts are stated over `Seq`, `Map` and spec functions, and the laws that
tie several functions together (round trips, what one call undoes, what each
operation keeps) are public proof functions next to the code they speak of.

## Layout

- `src/` — the verified library.
  - `address.rs`, `netaddr.rs`, `varint.rs`, `bytes_util.rs`, `text.rs`,
    `b64.rs`: addresses, IP and CIDR text, QUIC varints, byte and text helpers.
  - `crypto.rs`: the calls into the hash, MAC, AEAD, KDF and randomness crates,
    each behind one trusted wrapper whose contract names what it returns.
  - `sniff.rs`: TLS, QUIC and HTTP sniffing of the first bytes of a stream.
  - `relay.rs`, `rate_limit.rs`: the relay state machine, its counters, the
    tiered buffer pool and the token bucket.
  - `config.rs`: the outbound and transport settings the protocols read.
  - `outbound/`: one module per protocol (Shadowsocks, VMess, VLESS with
    Vision and REALITY, Trojan, WireGuard, TUIC, Hysteria, MASQUE, SOCKS5,
    HTTP CONNECT, Tor, SSH, chains) and the connection pool.
  - `transport/`: WebSocket, HTTP upgrade, gRPC, HTTP/2, TLS fingerprints and
    ECH, ShadowTLS, AnyTLS, fragmentation, Brutal and the Sudoku obfuscation.
- `tests/` — ordinary Rust tests that run the compiled library with the real
  outside crates linked.
- `app/` — the unverified edge: socket I/O for the relay loop, the SOCKS5/Tor
  handshake and the Trojan, VLESS, HTTP CONNECT, Shadowsocks, VMess and WireGuard
  outbounds, the chain health-check driver, the blackhole stream, and the Brutal
  congestion controller, whose arithmetic is floating point.

The clock, randomness and sockets stay outside the verified code: functions that
need the time or random bytes take them as arguments, and the wrappers that
fetch them state only what holds of every outcome.

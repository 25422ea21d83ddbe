# nym_hs

A SOCKS proxy and a hidden service that talk to each other over the Nym mixnet. The library under
`src/` is written in Verus: its functions carry contracts, and Verus proves them.

- `identity`, `base32`, `address`, `text`: who is reached, and the texts that say so.
- `packet`, `codec`, `message`: what is sent, and its bytes.
- `transport`, `course`, `session`: one endpoint of a connection, what it guarantees whatever
  happens to it, and what two of them guarantee over a network that loses, repeats and reorders
  packets.
- `driver`: an endpoint with its socket and its channel, and how it ends when one of them fails.
- `link`: the way of packets to the Nym client, one at a time.
- `connections`, `relay`: where incoming messages go.
- `socks`, `handshake`, `error`: the messages of local programs, the handshake that they make up,
  and what can go wrong.

`app/` holds the programs around the library: sockets, channels, clocks and the command line.

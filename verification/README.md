# netcalyx

Verified building blocks of a network telemetry collector.

- `src/netconf`: NETCONF framing over SSH (RFC 6242) and the shared cache of YANG
  module texts.
- `src/udp_notif`: the wire format of UDP-Notif packets and the reassembly of
  segmented messages.
- `src/yang_push`: subscriptions, and the decisions of the actor that validates
  their notifications.
- `src/publishers`: the decisions of the actor that publishes messages to Kafka.
- `src/octets.rs`, `src/fx_map.rs`: the buffers of `bytes` and the hash maps of
  `rustc_hash`, as sequences and maps.
- `src/decimal.rs`, `src/text.rs`: numerals, optional text and counters.

Each module states what its functions do over mathematical models: a `View` of
each type, and functions from one state to the next. What holds of a module as a
whole stands in its public proof functions, most of them in files named `laws.rs`.

`app/` holds what runs around the library: sockets, channels, instruments, XML,
`libyang` and the Kafka client.

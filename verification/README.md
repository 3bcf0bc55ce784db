# rolodex

The core of a DNS server, with contracts that are proved: what a query is answered with
and from where, how records are written and read, how zones are signed, how answers from
elsewhere are validated, which blocklists are asked and believed, which forwarders are
worth asking, and what is said on the encrypted transports.

- `src/` is the library. Every function states what it returns; the laws that relate
  several functions stand as public proof functions named `law_..`. The few calls into
  other crates (wire format, cryptography, encodings, a concurrent map) stand behind small
  functions whose contracts say what is believed of them.
- `tests/` runs the library with those crates linked.
- `app/` holds sockets, tasks, clocks and the interfaces of the stores. It performs the
  lookups and exchanges that the library asks for and hands it what came of them.

The resolution of a query alternates between lookups and decisions. The decisions are
`dns_server::resolve::Resolution`; `dns_server::session::Session` adds the records that the
lookups found; `app/dns_server.rs` performs the lookups. What a server learns from its
upstreams is kept in `dns_server::memory` and forgotten with a change of upstream; which
forwarders have failed is kept in `forwarder::Breakers`.

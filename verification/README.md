# netscope

A network inspection core: a passive packet capture and an explicit HTTP/1.1 proxy that report
what they see as events, and let local hooks decide about proxied traffic.

The library under `src/` holds the logic and is verified with Verus. It does no I/O of its own.

- `capture`: decoding of Ethernet, IPv4, IPv6, TCP, UDP and ICMP; flows and their anomalies;
  bounded TCP reassembly; DNS latencies; rotating pcapng files; libpcap filters; the events that a
  packet gives.
- `parsers`: HTTP/1 heads, DNS messages, TLS ClientHello and Certificate messages, X.509 summaries.
- `proxy`: where a request goes, how bodies are framed, how messages are modified and written, and
  a proxied connection as a machine from inputs to effects.
- `hooks`: the registration of hooks, their actions, and how a broken hook is dealt with.
- `certs`: the local certificate authority and the leaves that it issues.
- `events`, `addr`, `paths`, `text`, `textmap`, `wire`: what the others are made of.
- `outside`: what is taken from other crates. Its contracts are believed, not proved.

Laws that relate several calls are public proof functions, in the module that they are about.

The program under `app/` does the rest: the command line, sockets, TLS, libpcap, files, JSON and
the WebSocket endpoint. `tests/` holds the tests of the library.

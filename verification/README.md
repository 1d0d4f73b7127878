# inquirynet

A request/response transport over datagrams, with its logic verified in Verus.

- `src/io/memory_stream.rs`: an in-memory read/write/seek byte stream.
- `src/net/rfc6298.rs`: the retransmission-timeout estimator of RFC 6298.
- `src/net/frame.rs`: the wire format of requests and responses.
- `src/net/inquiry.rs`: request ids, retransmission policy, handler registry.
- `src/net/sock_suppl.rs`: poll events and socket flags.
- `src/cron.rs`: the timer queue of one-shot, dynamic and periodic tasks.
- `app/`: the threads, sockets and MessagePack serialization around them.

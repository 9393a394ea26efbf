# xux

A client of the Salem / Haven and Hearth game protocol whose core is
verified with Verus.

## Layout

- `src/` — the verified library.
  - `codec.rs`: the cursor over received bytes and the little-endian
    writers, with the format of every primitive as a specification.
  - `list.rs`: argument lists (tagged values, nested lists), decoding,
    encoding, and the law that an encoded list decodes back to itself.
  - `proto/`: the messages of both directions (SESS, REL and its elements,
    ACK, BEAT, MAPREQ, MAPDATA, OBJDATA, OBJACK, CLOSE).
  - `state/`: the session — message queues and retransmission, ordered
    delivery of REL messages, widgets, objects, the hero, grid packets and
    their reassembly and decoding — and the laws that hold across it;
    `state/client.rs` is a plainer session that acknowledges every REL
    message on arrival.
  - `auth.rs`: the authentication commands and answers.
  - `ai_decl.rs`: a scripted player.
  - `driver.rs`: the events that drive a session.
  - `util.rs`: grids drawn as RGB images.
  - `web.rs`: which page of the debugging web view a request asks for.
  - `pages.rs`: the pages themselves, written from the session.
  - `follow.rs`: the capture viewer's filter by message type and its
    following of a REL stream.
  - `shift_to_unsigned.rs`, `to_unsigned.rs`: order-keeping maps from signed
    to unsigned integers.
- `tests/` — tests of the library.
- `app/` — the program: TLS authentication, the UDP socket and timers, the
  web view's socket, PNG files.

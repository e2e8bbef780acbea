# gbhub_stress

A load generator for GB/T 28181 platforms: it simulates many devices that
register with an upstream SIP server (with digest authentication), keep their
registration alive, answer catalog queries, and serve one fixed ZLMediaKit
stream to every INVITE.

The protocol logic is a Verus library (`src/`); every public function states
its behaviour in `requires`/`ensures` and is proved.

- `text`, `num`: searching, splitting, trimming and case folding of message
  text; decimal numerals.
- `codec`: hex, MD5, SHA-256, GB18030/GBK encoding, random bytes and UUIDs,
  each a thin wrapper over the crate that provides it.
- `sip::utils`: SIP lines and headers, XML elements, digest challenges and
  session descriptions.
- `sip::state`, `sip::register`, `sip::invite`: one device's state and the
  messages it sends in answer to what it receives, as functions from state and
  input to new state and output.
- `sip::keepalive`: the decisions of the device's life (registration attempts,
  keepalive retries, re-registration).
- `sip::session`, `stats`: the session store and the load statistics, over
  `DashMap`.
- `zlm_client`: the media server's request URLs and the reading of its replies.
- `fleet`: device identifiers, channel identifiers and ports.

Proof functions named `law_*` state the properties that hold across calls, for
example that a reply gives back the request's dialog headers, that a BYE ends
the session its INVITE opened, and that different devices get different
identifiers.

`app/` is the executable around the library: sockets, timers, HTTP calls to
the media server, environment variables and printing.

# matter_commissioning

Matter commissioning, verified with Verus: from a setup code to the commands
that bring a device onto a fabric.

- `src/` is the library. Every function states what it returns over models of
  the wire formats, and Verus proves it.
  - `setup`: QR codes and manual codes, Base38 and Verhoeff check digits.
  - `attestation`: device certificates, their profile and chain, signed
    responses.
  - `noc`: CSR verification, what issued certificates hold, credential commands.
  - `clusters`: the General and Network Commissioning command codecs.
  - `im`: Interaction Model requests.
  - `driver`: frames without a session, handshakes, secured exchanges, discovery
    and the commissioning loop, as decisions on plain values.
  - `tlv`, `text`, `crypto`: what the others are built on.
- `app/` carries the decisions out: sockets, timers and the asynchronous loops.
- `tests/` runs the library with `ring`, `x509-parser` and `webpki` linked.

Signatures, digests, random bytes, certificate parsing and path validation come
from those crates. The functions that call them are marked
`#[verifier::external_body]`; the comment above each says what its contract
claims of the call.

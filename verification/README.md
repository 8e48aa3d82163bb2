# dimpl

The decisions and computations of a Sans-IO DTLS endpoint, written in Rust and
proved with Verus.

| module | what it holds |
| --- | --- |
| `config`, `config_rules` | settings of an endpoint, the builder, which settings can be used with a crypto provider, and which cipher suites and key exchange groups they leave |
| `crypto::dtls_aead` | IV, nonce and additional data of AEAD records, with and without a Connection ID |
| `crypto::provider` | what a provider of cryptographic operations offers |
| `dtls12::framing` | where the records of a datagram begin and end, and how framing is found again behind a stray `tls12_cid` record |
| `dtls12::incoming` | parsing, decryption and classification of the records of a datagram |
| `dtls12::incoming_laws` | what holds of every incoming datagram |
| `dtls12::message` | record and handshake headers, `ServerHello`, Hello extensions |
| `session` | the cached session of an abbreviated handshake |
| `arrays`, `constant_time` | calls into `arrayvec` and `subtle`, with the contracts that are believed of them |

`RecordHandler` is implemented by the association that owns the keys and the
replay window. Its methods are described by relations, so that what is proved of
the parser holds whatever an implementation does, as long as it meets the clauses
that the trait puts on its methods.

`app/` holds the process-wide default provider, which it hands to the builder, and
text output.

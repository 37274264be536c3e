# rpow2_miner

A mining client for rpow2.com whose core is verified with Verus.

- `src/` — the verified library:
  - `pow` — trailing zero bits of a digest, the message hashed for a nonce,
    the batch search a mining worker runs, and the choice of the reported
    solution; lemmas on what the difficulty means bit by bit, on how the
    workers split the nonces and on how batches chain.
  - `hashing` — SHA-256 through the `sha2` crate.
  - `hexcodec` — decoding the hex nonce prefix through the `hex` crate.
  - `text` — user name, cookies, the login token, the worker count and
    short display forms; lemmas on the token taken from a magic link.
  - `auth` — decisions of the login flow.
  - `miner` — the counters and decisions of the mining loop.
- `tests/` — tests of the library on concrete values.
- `app/` — the program: prompts, HTTP, threads, the session file and the
  floating-point amounts.

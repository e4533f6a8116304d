# rice_golomb

Rice-Golomb coding of integers into bit vectors, verified with Verus.

Each value is split into a quotient, written in unary (that many set bits,
then a clear bit), and a remainder written in a fixed number of bits, least
significant first. Small values get short codes.

Layout of `src/`:

- `bits.rs`: the mathematical model: bit strings as `Seq<bool>`, the bits of
  a number, the unary and Rice-Golomb codes, and what reading a code from the
  front of a bit string yields, with the lemmas relating them.
- `store.rs`: `BitVec`, a growable bit vector backed by the `bitvec` crate,
  and `BitSlice`, a read-only view of a run of its bits. Each call into `bitvec` sits
  in a small trusted function whose contract describes it.
- `word.rs`: `RiceInt`, the twelve primitive integer types described by their
  width, signedness and two's complement bit pattern.
- `rice.rs`: `RiceAux` (unary mask, quotient, remainder) and `Rice` (encoding
  and decoding of quotient, remainder and whole codes), with the round-trip
  and stream laws.
- `encodable.rs`: `Encodable`, writing integers and byte slices as raw bits.
- `lib.rs`: `Encoder`, the entry point fixing the integer type and the
  remainder width.

Tests are under `tests/`.

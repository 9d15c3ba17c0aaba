use vstd::prelude::*;

verus! {

// ---------------------------------------------------------------------------------------------
// Run-length layer
// ---------------------------------------------------------------------------------------------

/// The bytes `bitfield_rle::encode` produces for `raw`.
pub uninterp spec fn rle_encoding(raw: Seq<u8>) -> Seq<u8>;

/// The largest input for which the run-length encoder's headers cannot overflow.
pub open spec fn rle_encodable(raw: Seq<u8>) -> bool {
    raw.len() < 0x1000_0000_0000_0000
}

/// The multiplier the varint reader applies to the `k`-th byte of a varint: powers of 128 that
/// wrap to zero once they leave 64 bits, as repeated shifts of a `u64` do.
pub open spec fn varint_factor(k: nat) -> nat
    decreases k,
{
    if k == 0 {
        1
    } else {
        let p = varint_factor((k - 1) as nat) * 128;
        if p <= u64::MAX {
            p
        } else {
            0
        }
    }
}

/// Reads the varint starting at `off` (continuing at its `k`-th byte with value `acc` so far):
/// its value and the offset after it. `None` when the bytes run out before the last varint byte
/// or when the reader's checked `u64` arithmetic would overflow.
pub open spec fn varint_at(buf: Seq<u8>, off: int, k: nat, acc: nat) -> Option<(nat, int)>
    decreases buf.len() - off,
{
    if off < 0 || off >= buf.len() {
        None
    } else {
        let b = buf[off] as nat;
        let term = varint_factor(k) * (b % 128);
        let acc2 = acc + term;
        if term > u64::MAX || acc2 > u64::MAX {
            None
        } else if b < 128 {
            Some((acc2, off + 1))
        } else {
            varint_at(buf, off + 1, k + 1, acc2)
        }
    }
}

/// A varint that can be read ends after the offset it starts at, within the buffer.
pub proof fn lemma_varint_advances(buf: Seq<u8>, off: int, k: nat, acc: nat)
    ensures
        varint_at(buf, off, k, acc) matches Some((v, next)) ==> off < next <= buf.len() && v
            <= u64::MAX,
    decreases buf.len() - off,
{
    if 0 <= off < buf.len() {
        let b = buf[off] as nat;
        let term = varint_factor(k) * (b % 128);
        if b >= 128 {
            lemma_varint_advances(buf, off + 1, k + 1, acc + term);
        }
    }
}

/// The byte length of the run a header `v` announces.
pub open spec fn run_len(v: nat) -> nat {
    if v % 2 == 1 {
        v / 4
    } else {
        v / 2
    }
}

/// Whether decoding the runs from `off`, with `total` bytes decoded so far, would make the
/// run-length decoder panic: a header that cannot be read, a length sum that overflows `usize`,
/// or a decoded size beyond what one allocation may hold.
pub open spec fn rle_panics(buf: Seq<u8>, off: int, total: nat) -> bool
    decreases buf.len() - off,
{
    if off >= buf.len() {
        total > isize::MAX
    } else {
        match varint_at(buf, off, 0, 0) {
            None => true,
            Some((v, next)) => {
                proof {
                    lemma_varint_advances(buf, off, 0, 0);
                }
                let len = run_len(v);
                if total + len > usize::MAX {
                    true
                } else if v % 2 == 1 {
                    rle_panics(buf, next, total + len)
                } else if next + len > usize::MAX {
                    true
                } else if next + len > buf.len() {
                    false
                } else {
                    rle_panics(buf, next + len, total + len)
                }
            },
        }
    }
}

/// The bytes the runs from `off` decode to, following the documented format: a header with its
/// lowest bit set is a run of `v / 4` bytes, all 255 when its second bit is set and all 0
/// otherwise; any other header is followed by `v / 2` literal bytes. `None` when a literal run
/// reaches past the end of the buffer.
pub open spec fn rle_output(buf: Seq<u8>, off: int) -> Option<Seq<u8>>
    decreases buf.len() - off,
{
    if off >= buf.len() {
        if off > buf.len() {
            None
        } else {
            Some(Seq::empty())
        }
    } else {
        match varint_at(buf, off, 0, 0) {
            None => None,
            Some((v, next)) => {
                proof {
                    lemma_varint_advances(buf, off, 0, 0);
                }
                let len = run_len(v);
                if v % 2 == 1 {
                    let fill: u8 = if (v / 2) % 2 == 1 {
                        255
                    } else {
                        0
                    };
                    match rle_output(buf, next) {
                        None => None,
                        Some(rest) => Some(Seq::new(len, |i: int| fill) + rest),
                    }
                } else if next + len > buf.len() {
                    None
                } else {
                    match rle_output(buf, next + len) {
                        None => None,
                        Some(rest) => Some(buf.subrange(next, next + len) + rest),
                    }
                }
            },
        }
    }
}

/// Run-length encodes `buf` with `bitfield_rle::encode`. The contract claims what the crate
/// documents and tests: the output decodes back to `buf` without panicking (for inputs small
/// enough that its run headers cannot overflow).
#[verifier::external_body]
fn rle_encode(buf: Vec<u8>) -> (r: Vec<u8>)
    ensures
        r@ == rle_encoding(buf@),
        rle_encodable(buf@) ==> !rle_panics(r@, 0, 0) && rle_output(r@, 0) == Some(buf@),
{
    bitfield_rle::encode(buf)
}

/// Decodes run-length encoded bytes with `bitfield_rle::decode`. The contract claims that the
/// decoder follows the documented format (`rle_output`) and fails exactly when a literal run
/// reaches past the end of the data; `requires` excludes the inputs on which it panics.
#[verifier::external_body]
fn rle_decode(data: &[u8]) -> (r: Result<Vec<u8>, ()>)
    requires
        !rle_panics(data@, 0, 0),
    ensures
        match r {
            Ok(v) => rle_output(data@, 0) == Some(v@),
            Err(_) => rle_output(data@, 0) is None,
        },
{
    match bitfield_rle::decode(data) {
        Ok(v) => Ok(v),
        Err(_) => Err(()),
    }
}

/// Reads the varint at `off` the way the run-length decoder does, reporting `None` where it
/// would panic.
fn read_varint(data: &[u8], off: usize) -> (r: Option<(u64, usize)>)
    requires
        off < data@.len(),
    ensures
        match varint_at(data@, off as int, 0, 0) {
            None => r is None,
            Some((v, next)) => r == Some((v as u64, next as usize)),
        },
{
    let mut pos = off;
    let mut acc: u64 = 0;
    let mut fac: u64 = 1;
    let ghost mut k: nat = 0;
    while pos < data.len()
        invariant
            off <= pos <= data@.len(),
            fac == varint_factor(k),
            varint_at(data@, off as int, 0, 0) == varint_at(data@, pos as int, k, acc as nat),
        decreases data@.len() - pos,
    {
        let b = data[pos];
        let digit: u64 = (b % 128) as u64;
        let term = match fac.checked_mul(digit) {
            Some(t) => t,
            None => return None,
        };
        let acc2 = match acc.checked_add(term) {
            Some(a) => a,
            None => return None,
        };
        if b < 128 {
            return Some((acc2, pos + 1));
        }
        acc = acc2;
        proof {
            reveal_with_fuel(varint_factor, 2);
        }
        fac = if fac <= u64::MAX / 128 {
            fac * 128
        } else {
            0
        };
        pos = pos + 1;
        proof {
            k = k + 1;
        }
    }
    None
}

/// Whether `bitfield_rle::decode` returns on `data` without panicking.
pub fn rle_decodable(data: &[u8]) -> (r: bool)
    ensures
        r == !rle_panics(data@, 0, 0),
{
    let mut off: usize = 0;
    let mut total: usize = 0;
    while off < data.len()
        invariant
            off <= data@.len(),
            rle_panics(data@, 0, 0) == rle_panics(data@, off as int, total as nat),
        decreases data@.len() - off,
    {
        let (v, next) = match read_varint(data, off) {
            Some(p) => p,
            None => return false,
        };
        proof {
            lemma_varint_advances(data@, off as int, 0, 0);
        }
        let len: u64 = if v % 2 == 1 {
            v / 4
        } else {
            v / 2
        };
        if len > (usize::MAX - total) as u64 {
            return false;
        }
        total = total + len as usize;
        if v % 2 == 1 {
            off = next;
        } else {
            if len > (usize::MAX - next) as u64 {
                return false;
            }
            if next + len as usize > data.len() {
                return true;
            }
            off = next + len as usize;
        }
    }
    total <= isize::MAX as usize
}

// ---------------------------------------------------------------------------------------------
// Delta layer
// ---------------------------------------------------------------------------------------------

/// Why decoding received input bytes failed.
#[derive(Debug, Clone, Copy, PartialEq, Eq)]
pub enum DecodeError {
    /// The run-length layer was malformed: a literal run reached past the end of the data.
    Rle,
    /// Fewer than two bytes were left where a length prefix was expected.
    TruncatedLengthPrefix,
    /// A length prefix announced more bytes than were left.
    TruncatedInputData,
}

impl DecodeError {
    /// A human-readable description of the error.
    pub fn message(&self) -> (r: &'static str)
        ensures
            r@ == (match *self {
                DecodeError::Rle => "invalid run-length encoding"@,
                DecodeError::TruncatedLengthPrefix => "truncated length prefix"@,
                DecodeError::TruncatedInputData => "truncated input data"@,
            }),
    {
        match self {
            DecodeError::Rle => "invalid run-length encoding",
            DecodeError::TruncatedLengthPrefix => "truncated length prefix",
            DecodeError::TruncatedInputData => "truncated input data",
        }
    }
}

/// The two little-endian bytes of `n` truncated to 16 bits.
pub open spec fn u16_le(n: nat) -> Seq<u8> {
    let m = n % 65536;
    seq![(m % 256) as u8, (m / 256) as u8]
}

/// `x` XORed bytewise against `base` as far as both reach; the rest of `x` is kept as it is.
pub open spec fn xor_against(base: Seq<u8>, x: Seq<u8>) -> Seq<u8> {
    Seq::new(x.len(), |i: int| if i < base.len() { base[i] ^ x[i] } else { x[i] })
}

/// The delta encoding of `inputs` against `base`: each input is written as its length (two
/// little-endian bytes) followed by its bytes XORed against the previous input (the first one
/// against `base`).
pub open spec fn delta_encoded(base: Seq<u8>, inputs: Seq<Seq<u8>>) -> Seq<u8>
    decreases inputs.len(),
{
    if inputs.len() == 0 {
        Seq::empty()
    } else {
        u16_le(inputs[0].len()) + xor_against(base, inputs[0]) + delta_encoded(
            inputs[0],
            inputs.drop_first(),
        )
    }
}

/// The inputs a delta encoding decodes to against `base`, or why it cannot be decoded.
pub open spec fn delta_decoded(base: Seq<u8>, data: Seq<u8>) -> Result<Seq<Seq<u8>>, DecodeError>
    decreases data.len(),
{
    if data.len() == 0 {
        Ok(Seq::empty())
    } else if data.len() < 2 {
        Err(DecodeError::TruncatedLengthPrefix)
    } else {
        let len: int = data[0] as int + 256 * (data[1] as int);
        if 2 + len > data.len() {
            Err(DecodeError::TruncatedInputData)
        } else {
            let dec = xor_against(base, data.subrange(2, 2 + len));
            match delta_decoded(dec, data.subrange(2 + len, data.len() as int)) {
                Ok(rest) => Ok(seq![dec] + rest),
                Err(e) => Err(e),
            }
        }
    }
}

/// The byte views of a list of byte vectors.
pub open spec fn views(v: Seq<Vec<u8>>) -> Seq<Seq<u8>> {
    v.map_values(|x: Vec<u8>| x@)
}

/// What `decode(reference, data)` returns on run-length data that does not make the decoder
/// panic.
pub open spec fn decode_result(reference: Seq<u8>, data: Seq<u8>) -> Result<Seq<Seq<u8>>, DecodeError> {
    match rle_output(data, 0) {
        None => Err(DecodeError::Rle),
        Some(raw) => delta_decoded(reference, raw),
    }
}

/// Writes the XOR of `input` against `base` (as far as both reach) and the rest of `input` to
/// the end of `bytes`.
fn push_xor(bytes: &mut Vec<u8>, base: &[u8], input: &[u8])
    ensures
        final(bytes)@ == old(bytes)@ + xor_against(base@, input@),
{
    let ghost start = bytes@;
    let mut j: usize = 0;
    while j < input.len()
        invariant
            j <= input@.len(),
            bytes@ == start + xor_against(base@, input@).subrange(0, j as int),
        decreases input@.len() - j,
    {
        let b = if j < base.len() {
            base[j] ^ input[j]
        } else {
            input[j]
        };
        bytes.push(b);
        j = j + 1;
        assert(bytes@ =~= start + xor_against(base@, input@).subrange(0, j as int));
    }
    assert(xor_against(base@, input@).subrange(0, j as int) =~= xor_against(base@, input@));
}

/// Delta-encodes `pending_input` against `ref_bytes`: each input is prefixed with its length
/// (truncated to 16 bits, little endian) and XORed against the previous input, the first one
/// against `ref_bytes`.
pub fn delta_encode(ref_bytes: &[u8], pending_input: &[Vec<u8>]) -> (r: Vec<u8>)
    ensures
        r@ == delta_encoded(ref_bytes@, views(pending_input@)),
{
    let ghost xs = views(pending_input@);
    let mut bytes: Vec<u8> = Vec::new();
    let mut i: usize = 0;
    assert(xs.skip(0) =~= xs);
    assert(bytes@ + delta_encoded(ref_bytes@, xs) =~= delta_encoded(ref_bytes@, xs));
    while i < pending_input.len()
        invariant
            i <= pending_input@.len(),
            xs == views(pending_input@),
            bytes@ + delta_encoded(
                if i == 0 {
                    ref_bytes@
                } else {
                    xs[i - 1]
                },
                xs.skip(i as int),
            ) == delta_encoded(ref_bytes@, xs),
        decreases pending_input@.len() - i,
    {
        let base: &[u8] = if i == 0 {
            ref_bytes
        } else {
            pending_input[i - 1].as_slice()
        };
        let input: &[u8] = pending_input[i].as_slice();
        let ghost before = bytes@;
        let n: usize = input.len();
        let len16: u16 = #[verifier::truncate] (n as u16);
        bytes.push((len16 % 256) as u8);
        bytes.push((len16 / 256) as u8);
        push_xor(&mut bytes, base, input);
        proof {
            assert(xs.skip(i as int).drop_first() =~= xs.skip(i + 1));
            assert(xs.skip(i as int)[0] == xs[i as int]);
            assert(input@ == xs[i as int]);
            assert(base@ == if i == 0 {
                ref_bytes@
            } else {
                xs[i - 1]
            });
            assert(len16 as int == n as int % 65536) by (bit_vector)
                requires
                    len16 == (n as u16),
            ;
            assert(bytes@ =~= before + u16_le(input@.len()) + xor_against(base@, input@));
        }
        i = i + 1;
    }
    assert(xs.skip(i as int) =~= Seq::<Seq<u8>>::empty());
    bytes
}

/// Prepends `out` to a successful decoding result.
pub open spec fn prepend(out: Seq<Seq<u8>>, r: Result<Seq<Seq<u8>>, DecodeError>) -> Result<
    Seq<Seq<u8>>,
    DecodeError,
> {
    match r {
        Ok(rest) => Ok(out + rest),
        Err(e) => Err(e),
    }
}

/// The bytes `data[start .. start + len]` XORed against `base` as far as both reach.
fn xor_slice(base: &[u8], data: &[u8], start: usize, len: usize) -> (r: Vec<u8>)
    requires
        start + len <= data@.len(),
    ensures
        r@ == xor_against(base@, data@.subrange(start as int, start + len)),
{
    let ghost x = data@.subrange(start as int, start + len);
    let mut out: Vec<u8> = Vec::new();
    let mut j: usize = 0;
    let dl = data.len();
    while j < len
        invariant
            j <= len,
            dl == data@.len(),
            start + len <= data@.len(),
            x == data@.subrange(start as int, start + len),
            out@ == xor_against(base@, x).subrange(0, j as int),
        decreases len - j,
    {
        let b = if j < base.len() {
            base[j] ^ data[start + j]
        } else {
            data[start + j]
        };
        out.push(b);
        j = j + 1;
        assert(out@ =~= xor_against(base@, x).subrange(0, j as int));
    }
    assert(xor_against(base@, x).subrange(0, j as int) =~= xor_against(base@, x));
    out
}

/// Decodes the delta encoding `data` against `ref_bytes` back into the list of inputs: reads a
/// two-byte little-endian length, then that many bytes XORed against the previous decoded input
/// (the first against `ref_bytes`), until the data is used up.
pub fn delta_decode(ref_bytes: &[u8], data: &[u8]) -> (r: Result<Vec<Vec<u8>>, DecodeError>)
    ensures
        match delta_decoded(ref_bytes@, data@) {
            Ok(xs) => r matches Ok(v) && views(v@) == xs,
            Err(e) => r == Err::<Vec<Vec<u8>>, DecodeError>(e),
        },
{
    let mut output: Vec<Vec<u8>> = Vec::new();
    let mut pos: usize = 0;
    assert(data@.skip(0) =~= data@);
    assert(prepend(views(output@), delta_decoded(ref_bytes@, data@.skip(0))) =~= delta_decoded(
        ref_bytes@,
        data@,
    )) by {
        match delta_decoded(ref_bytes@, data@) {
            Ok(rest) => {
                assert(views(output@) + rest =~= rest);
            },
            Err(_) => {},
        }
    }
    while pos < data.len()
        invariant
            pos <= data@.len(),
            delta_decoded(ref_bytes@, data@) == prepend(
                views(output@),
                delta_decoded(
                    if output@.len() == 0 {
                        ref_bytes@
                    } else {
                        output@.last()@
                    },
                    data@.skip(pos as int),
                ),
            ),
        decreases data@.len() - pos,
    {
        let ghost base_view = if output@.len() == 0 {
            ref_bytes@
        } else {
            output@.last()@
        };
        let ghost rest = data@.skip(pos as int);
        if data.len() - pos < 2 {
            return Err(DecodeError::TruncatedLengthPrefix);
        }
        let len: usize = data[pos] as usize + 256 * (data[pos + 1] as usize);
        if data.len() - pos - 2 < len {
            return Err(DecodeError::TruncatedInputData);
        }
        let decoded = {
            let base: &[u8] = if output.len() == 0 {
                ref_bytes
            } else {
                output[output.len() - 1].as_slice()
            };
            xor_slice(base, data, pos + 2, len)
        };
        proof {
            assert(rest[0] == data@[pos as int]);
            assert(rest[1] == data@[pos + 1]);
            assert(rest.subrange(2, 2 + len) =~= data@.subrange(pos + 2, pos + 2 + len));
            assert(rest.subrange(2 + len, rest.len() as int) =~= data@.skip(pos + 2 + len));
        }
        let ghost old_out = views(output@);
        output.push(decoded);
        proof {
            assert(views(output@) =~= old_out.push(decoded@));
            assert(output@.last()@ == decoded@);
            match delta_decoded(decoded@, data@.skip(pos + 2 + len)) {
                Ok(r2) => {
                    assert(old_out + (seq![decoded@] + r2) =~= old_out.push(decoded@) + r2);
                },
                Err(_) => {},
            }
        }
        pos = pos + 2 + len;
    }
    proof {
        assert(data@.skip(pos as int) =~= Seq::<u8>::empty());
        assert(views(output@) + Seq::<Seq<u8>>::empty() =~= views(output@));
    }
    Ok(output)
}

/// Compresses the pending inputs for the wire: delta-encodes them against `reference` and
/// run-length encodes the result.
pub fn encode(reference: &[u8], pending_input: &[Vec<u8>]) -> (r: Vec<u8>)
    ensures
        r@ == rle_encoding(delta_encoded(reference@, views(pending_input@))),
        rle_encodable(delta_encoded(reference@, views(pending_input@))) ==> !rle_panics(r@, 0, 0)
            && rle_output(r@, 0) == Some(delta_encoded(reference@, views(pending_input@))),
{
    let buf = delta_encode(reference, pending_input);
    rle_encode(buf)
}

/// Decompresses received input bytes: undoes the run-length encoding, then the delta encoding
/// against `reference`. The data must be one the run-length decoder does not panic on (see
/// [`rle_decodable`]).
pub fn decode(reference: &[u8], data: &[u8]) -> (r: Result<Vec<Vec<u8>>, DecodeError>)
    requires
        !rle_panics(data@, 0, 0),
    ensures
        match decode_result(reference@, data@) {
            Ok(xs) => r matches Ok(v) && views(v@) == xs,
            Err(e) => r == Err::<Vec<Vec<u8>>, DecodeError>(e),
        },
{
    let buf = match rle_decode(data) {
        Ok(b) => b,
        Err(_) => return Err(DecodeError::Rle),
    };
    delta_decode(reference, buf.as_slice())
}

/// Delta-decoding the delta encoding of a list of inputs against the same base gives the
/// inputs back, as long as each input is shorter than 65536 bytes (its length prefix holds 16
/// bits).
pub proof fn lemma_delta_roundtrip(base: Seq<u8>, xs: Seq<Seq<u8>>)
    requires
        forall|i: int| 0 <= i < xs.len() ==> (#[trigger] xs[i]).len() < 65536,
    ensures
        delta_decoded(base, delta_encoded(base, xs)) == Ok::<Seq<Seq<u8>>, DecodeError>(xs),
    decreases xs.len(),
{
    if xs.len() == 0 {
        assert(delta_encoded(base, xs) =~= Seq::<u8>::empty());
        assert(xs =~= Seq::<Seq<u8>>::empty());
    } else {
        let x0 = xs[0];
        let l: int = x0.len() as int;
        let rest = xs.drop_first();
        let tail = delta_encoded(x0, rest);
        let data = delta_encoded(base, xs);
        let enc = xor_against(base, x0);
        assert(data == u16_le(x0.len()) + enc + tail);
        assert(data[0] == (l % 256) as u8);
        assert(data[1] == (l / 256) as u8);
        assert(data[0] as int + 256 * (data[1] as int) == l);
        assert(data.subrange(2, 2 + l) =~= enc);
        assert(data.subrange(2 + l, data.len() as int) =~= tail);
        assert forall|i: int| 0 <= i < x0.len() implies #[trigger] xor_against(base, enc)[i] == x0[i] by {
            if i < base.len() {
                let b = base[i];
                let x = x0[i];
                assert(b ^ (b ^ x) == x) by (bit_vector);
            }
        }
        assert(xor_against(base, enc) =~= x0);
        assert forall|i: int| 0 <= i < rest.len() implies (#[trigger] rest[i]).len() < 65536 by {
            assert(rest[i] == xs[i + 1]);
        }
        lemma_delta_roundtrip(x0, rest);
        assert(seq![x0] + rest =~= xs);
    }
}

/// Decoding the bytes `encode` produced for a list of inputs (each shorter than 65536 bytes)
/// against the same reference gives those inputs back.
pub proof fn lemma_encode_decode(reference: Seq<u8>, xs: Seq<Seq<u8>>, data: Seq<u8>)
    requires
        forall|i: int| 0 <= i < xs.len() ==> (#[trigger] xs[i]).len() < 65536,
        rle_output(data, 0) == Some(delta_encoded(reference, xs)),
    ensures
        decode_result(reference, data) == Ok::<Seq<Seq<u8>>, DecodeError>(xs),
{
    lemma_delta_roundtrip(reference, xs);
}

} // verus!

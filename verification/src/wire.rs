//! The self-delimiting wire framing: one frame per message, made of a
//! variable-width length prefix (1 to 10 bytes, seven data bits plus a
//! continuation bit per byte, least significant group first) followed by
//! exactly that many payload bytes.

use vstd::prelude::*;
use vstd::arithmetic::power::pow;
use vstd::slice::{slice_subrange, slice_to_vec};

verus! {

/// The longest legal length prefix, in bytes.
pub const MAX_PREFIX_LEN: usize = 10;

/// The byte encoding of an unsigned length: seven bits of magnitude per
/// byte, least significant group first, the high bit set on every byte
/// but the last.
pub open spec fn varint_encoding(n: nat) -> Seq<u8>
    decreases n,
{
    if n < 128 {
        seq![n as u8]
    } else {
        seq![(n % 128 + 128) as u8] + varint_encoding(n / 128)
    }
}

/// Parses one varint from the front of `bytes`, reading at most `fuel`
/// bytes: the decoded magnitude and the number of bytes consumed.
pub open spec fn varint_parse(bytes: Seq<u8>, fuel: nat) -> Option<(nat, int)>
    decreases fuel,
{
    if fuel == 0 || bytes.len() == 0 {
        None
    } else if bytes[0] < 128 {
        Some((bytes[0] as nat, 1))
    } else {
        match varint_parse(bytes.skip(1), (fuel - 1) as nat) {
            Some((v, l)) => Some((((bytes[0] - 128) as nat + 128 * v) as nat, l + 1)),
            None => None,
        }
    }
}

/// A parse consumes at least one byte, and never more than the fuel or
/// the bytes at hand.
pub proof fn lemma_varint_parse_len(bytes: Seq<u8>, fuel: nat)
    ensures
        match varint_parse(bytes, fuel) {
            Some((v, l)) => 1 <= l <= bytes.len() && l <= fuel,
            None => true,
        },
    decreases fuel,
{
    if fuel > 0 && bytes.len() > 0 && bytes[0] >= 128 {
        lemma_varint_parse_len(bytes.skip(1), (fuel - 1) as nat);
    }
}

/// A varint encoding takes one byte per started group of seven bits.
pub proof fn lemma_varint_encoding_len(n: nat)
    ensures
        1 <= varint_encoding(n).len(),
        n < pow(128, varint_encoding(n).len() as nat),
        forall|f: nat| n < pow(128, f) && f >= 1 ==> varint_encoding(n).len() <= f,
    decreases n,
{
    vstd::arithmetic::power::lemma_pow_positive(128, varint_encoding(n).len() as nat);
    if n < 128 {
        assert(pow(128, 1) == 128) by {
            vstd::arithmetic::power::lemma_pow1(128);
        }
        assert forall|f: nat| n < pow(128, f) && f >= 1 implies varint_encoding(n).len() <= f by {}
    } else {
        lemma_varint_encoding_len(n / 128);
        let l = varint_encoding(n / 128).len() as nat;
        assert(varint_encoding(n).len() == l + 1);
        assert(pow(128, l + 1) == 128 * pow(128, l)) by {
            vstd::arithmetic::power::lemma_pow_adds(128, 1, l);
            vstd::arithmetic::power::lemma_pow1(128);
        }
        assert(n < 128 * pow(128, l)) by (nonlinear_arith)
            requires
                n / 128 < pow(128, l),
                n >= 128,
        {}
        assert forall|f: nat| n < pow(128, f) && f >= 1 implies varint_encoding(n).len() <= f by {
            assert(f >= 2) by {
                if f == 1 {
                    vstd::arithmetic::power::lemma_pow1(128);
                }
            }
            assert(pow(128, f) == 128 * pow(128, (f - 1) as nat)) by {
                vstd::arithmetic::power::lemma_pow_adds(128, 1, (f - 1) as nat);
                vstd::arithmetic::power::lemma_pow1(128);
            }
            assert(n / 128 < pow(128, (f - 1) as nat)) by (nonlinear_arith)
                requires
                    n < 128 * pow(128, (f - 1) as nat),
            {}
        }
    }
}

/// Parsing inverts encoding: a varint followed by anything parses back to
/// the encoded magnitude, consuming exactly the encoding, whenever the
/// fuel covers the encoding's length.
pub proof fn lemma_varint_round_trip(n: nat, rest: Seq<u8>, fuel: nat)
    requires
        n < pow(128, fuel),
        fuel >= 1,
    ensures
        varint_encoding(n).len() <= fuel,
        varint_parse(varint_encoding(n) + rest, fuel)
            == Some((n, varint_encoding(n).len() as int)),
    decreases n,
{
    lemma_varint_encoding_len(n);
    let enc = varint_encoding(n);
    let whole = enc + rest;
    if n < 128 {
        assert(whole[0] == n as u8);
    } else {
        assert(fuel >= 2) by {
            if fuel == 1 {
                vstd::arithmetic::power::lemma_pow1(128);
            }
        }
        assert(pow(128, fuel) == 128 * pow(128, (fuel - 1) as nat)) by {
            vstd::arithmetic::power::lemma_pow_adds(128, 1, (fuel - 1) as nat);
            vstd::arithmetic::power::lemma_pow1(128);
        }
        assert(n / 128 < pow(128, (fuel - 1) as nat)) by (nonlinear_arith)
            requires
                n < 128 * pow(128, (fuel - 1) as nat),
        {}
        lemma_varint_round_trip(n / 128, rest, (fuel - 1) as nat);
        assert(whole[0] == (n % 128 + 128) as u8);
        assert(whole[0] >= 128);
        assert(whole.skip(1) =~= varint_encoding(n / 128) + rest);
        let v = (n / 128) as nat;
        assert((whole[0] - 128) as nat + 128 * v == n) by (nonlinear_arith)
            requires
                whole[0] == (n % 128 + 128) as u8,
                v == n / 128,
                n >= 128,
        {}
    }
}

/// Appends the varint encoding of `n` to `out`.
pub fn write_varint(n: u64, out: &mut Vec<u8>)
    ensures
        final(out)@ == old(out)@ + varint_encoding(n as nat),
    decreases n,
{
    if n < 128 {
        out.push(n as u8);
        assert(out@ =~= old(out)@ + varint_encoding(n as nat));
    } else {
        out.push((n % 128 + 128) as u8);
        write_varint(n / 128, out);
        assert(out@ =~= old(out)@ + varint_encoding(n as nat));
    }
}

/// Reads one varint from `buf` starting at `start`, taking at most `fuel`
/// bytes. `None` means the bytes at hand do not hold a complete varint
/// within the fuel, or its magnitude does not fit in 64 bits.
pub fn read_varint_at(buf: &[u8], start: usize, fuel: usize) -> (r: Option<(u64, usize)>)
    requires
        start <= buf@.len(),
    ensures
        match r {
            Some((v, end)) => {
                &&& start < end <= buf@.len()
                &&& varint_parse(buf@.skip(start as int), fuel as nat)
                    == Some((v as nat, end - start))
            },
            None => match varint_parse(buf@.skip(start as int), fuel as nat) {
                Some((v, _)) => v > u64::MAX,
                None => true,
            },
        },
    decreases fuel,
{
    let ghost tail = buf@.skip(start as int);
    if fuel == 0 || start == buf.len() {
        return None;
    }
    let b = buf[start];
    if b < 128 {
        assert(tail[0] == b);
        return Some((b as u64, start + 1));
    }
    assert(tail[0] == b && b >= 128);
    assert(tail.skip(1) =~= buf@.skip(start as int + 1));
    match read_varint_at(buf, start + 1, fuel - 1) {
        None => None,
        Some((v, end)) => {
            let low = (b - 128) as u64;
            if v <= (u64::MAX - low) / 128 {
                assert(128 * v + low <= u64::MAX) by (nonlinear_arith)
                    requires
                        v <= (u64::MAX - low) / 128,
                        low <= 127,
                {}
                Some((low + 128 * v, end))
            } else {
                assert((low as nat + 128 * (v as nat)) > u64::MAX) by (nonlinear_arith)
                    requires
                        v > (u64::MAX - low) / 128,
                        low <= 127,
                {}
                None
            }
        },
    }
}

/// The byte encoding of one frame: the payload's length as a varint,
/// then the payload itself.
pub open spec fn frame_encoding(payload: Seq<u8>) -> Seq<u8> {
    varint_encoding(payload.len()) + payload
}

/// Parses one frame from the front of `bytes`: the payload and the number
/// of bytes consumed. `None` when no complete, well-formed frame starts
/// there.
pub open spec fn frame_parse(bytes: Seq<u8>) -> Option<(Seq<u8>, int)> {
    match varint_parse(bytes, MAX_PREFIX_LEN as nat) {
        Some((n, l)) => if l + n <= bytes.len() {
            Some((bytes.subrange(l, l + n), l + n))
        } else {
            None
        },
        None => None,
    }
}

/// What `decode_frame` found in the buffer.
pub enum FrameOutcome {
    /// One whole frame: its payload, and how many bytes it took.
    Frame(Vec<u8>, usize),
    /// The buffer ends before the frame does: read more bytes.
    Incomplete,
    /// The length prefix never terminates within its 10 allowed bytes,
    /// or does not fit in 64 bits: fatal for the stream.
    Corrupt,
}

/// Appends one frame carrying `payload` to `out`.
pub fn encode_frame(payload: &Vec<u8>, out: &mut Vec<u8>)
    ensures
        final(out)@ == old(out)@ + frame_encoding(payload@),
{
    write_varint(payload.len() as u64, out);
    out.extend_from_slice(payload.as_slice());
    assert(out@ =~= old(out)@ + frame_encoding(payload@));
}

/// Reads one frame from `buf` starting at `start`.
pub fn decode_frame(buf: &Vec<u8>, start: usize) -> (r: FrameOutcome)
    requires
        start <= buf@.len(),
    ensures
        match r {
            FrameOutcome::Frame(payload, consumed) => {
                &&& frame_parse(buf@.skip(start as int))
                    == Some((payload@, consumed as int))
                &&& start + consumed <= buf@.len()
            },
            FrameOutcome::Incomplete => frame_parse(buf@.skip(start as int)) is None,
            FrameOutcome::Corrupt => frame_parse(buf@.skip(start as int)) is None,
        },
{
    let ghost tail = buf@.skip(start as int);
    match read_varint_at(buf.as_slice(), start, MAX_PREFIX_LEN) {
        None => {
            // A magnitude beyond 64 bits can never fit in memory; a prefix
            // that is still unfinished may yet be completed by more bytes,
            // unless 10 bytes are already at hand.
            proof {
                vstd::std_specs::vec::axiom_spec_len(buf);
                lemma_varint_parse_len(tail, MAX_PREFIX_LEN as nat);
                match varint_parse(tail, MAX_PREFIX_LEN as nat) {
                    Some((n, l)) => {
                        assert(n > u64::MAX);
                        assert(tail.len() <= usize::MAX);
                        assert(l + n > tail.len());
                    },
                    None => {},
                }
            }
            if buf.len() - start >= MAX_PREFIX_LEN {
                FrameOutcome::Corrupt
            } else {
                FrameOutcome::Incomplete
            }
        },
        Some((n, prefix_end)) => {
            if n > (buf.len() - prefix_end) as u64 {
                assert(frame_parse(tail) is None);
                FrameOutcome::Incomplete
            } else {
                let len = n as usize;
                let payload = slice_to_vec(slice_subrange(buf.as_slice(), prefix_end, prefix_end + len));
                let consumed = prefix_end + len - start;
                proof {
                    let l = prefix_end - start;
                    assert(tail.subrange(l as int, l + n) =~= buf@.subrange(
                        prefix_end as int, prefix_end + len));
                }
                FrameOutcome::Frame(payload, consumed)
            }
        },
    }
}

/// Framing round-trip: encoding any payload, of any length including
/// zero, and decoding from the front of the resulting bytes (with
/// anything at all after them) gives back exactly that payload.
pub proof fn lemma_frame_round_trip(payload: Seq<u8>, rest: Seq<u8>)
    requires
        payload.len() <= u64::MAX,
    ensures
        frame_parse(frame_encoding(payload) + rest) == Some((
            payload,
            frame_encoding(payload).len() as int,
        )),
{
    let enc = varint_encoding(payload.len());
    assert(pow(128, 10) > u64::MAX) by {
        reveal_with_fuel(pow, 11);
    }
    lemma_varint_round_trip(payload.len(), payload + rest, MAX_PREFIX_LEN as nat);
    let whole = frame_encoding(payload) + rest;
    assert(whole =~= enc + (payload + rest));
    assert(varint_parse(whole, MAX_PREFIX_LEN as nat)
        == Some((payload.len(), enc.len() as int)));
    assert(whole.subrange(enc.len() as int, enc.len() + payload.len() as int) =~= payload);
}

} // verus!

//! The byte encoding of a [`Value`]: a tagged union with a stable field
//! encoding. Each populated alternative is one tag byte followed by its
//! payload — a length-delimited UTF-8 string, a varint integer, a
//! fixed-width little-endian float bit pattern, a one-byte boolean, or
//! length-delimited binary bytes. The empty value encodes to no bytes at
//! all, so a zero-length payload decodes to the default value.

use vstd::prelude::*;
use vstd::slice::{slice_subrange, slice_to_vec};
use vstd::string::StrSliceExecFns;
use vstd::utf8::{decode_utf8, encode_utf8, encode_utf8_decode_utf8, encode_utf8_valid_utf8,
    valid_utf8};
use crate::error::KVError;
use crate::pb::{Value, ValueModel};
use crate::wire::{lemma_varint_parse_len, lemma_varint_round_trip, read_varint_at,
    varint_encoding, varint_parse, write_varint, MAX_PREFIX_LEN};

verus! {

/// The tag byte that opens each populated alternative.
pub const TAG_STR: u8 = 0x0a;
pub const TAG_INTEGER: u8 = 0x10;
pub const TAG_FLOAT: u8 = 0x19;
pub const TAG_BOOLEAN: u8 = 0x20;
pub const TAG_BINARY: u8 = 0x2a;

/// The eight bytes of a 64-bit value, least significant first.
pub open spec fn u64_le_bytes(x: u64) -> Seq<u8> {
    seq![
        x as u8,
        (x >> 8) as u8,
        (x >> 16) as u8,
        (x >> 24) as u8,
        (x >> 32) as u8,
        (x >> 40) as u8,
        (x >> 48) as u8,
        (x >> 56) as u8,
    ]
}

/// The 64-bit value held by eight bytes, least significant first.
pub open spec fn u64_from_le_bytes(b: Seq<u8>) -> u64
    recommends
        b.len() == 8,
{
    (b[0] as u64) | ((b[1] as u64) << 8) | ((b[2] as u64) << 16) | ((b[3] as u64) << 24)
        | ((b[4] as u64) << 32) | ((b[5] as u64) << 40) | ((b[6] as u64) << 48)
        | ((b[7] as u64) << 56)
}

/// Eight little-endian bytes carry their value back.
pub proof fn lemma_u64_le_round_trip(x: u64)
    ensures
        u64_from_le_bytes(u64_le_bytes(x)) == x,
{
    assert(((x as u8) as u64) | (((x >> 8) as u8 as u64) << 8) | (((x >> 16) as u8 as u64) << 16)
        | (((x >> 24) as u8 as u64) << 24) | (((x >> 32) as u8 as u64) << 32)
        | (((x >> 40) as u8 as u64) << 40) | (((x >> 48) as u8 as u64) << 48)
        | (((x >> 56) as u8 as u64) << 56) == x) by (bit_vector);
}

/// The byte encoding of a value.
pub open spec fn value_encoding(v: ValueModel) -> Seq<u8> {
    match v {
        ValueModel::Str(s) => seq![TAG_STR] + varint_encoding(encode_utf8(s).len())
            + encode_utf8(s),
        ValueModel::Integer(i) => seq![TAG_INTEGER] + varint_encoding((i as u64) as nat),
        ValueModel::Float(bits) => seq![TAG_FLOAT] + u64_le_bytes(bits),
        ValueModel::Boolean(b) => seq![TAG_BOOLEAN, if b { 1u8 } else { 0u8 }],
        ValueModel::Binary(bs) => seq![TAG_BINARY] + varint_encoding(bs.len()) + bs,
        ValueModel::Empty => Seq::empty(),
    }
}

/// Parses a whole byte sequence as one value. The parse is strict: the
/// payload must fill the bytes exactly, and a parse of no bytes is the
/// empty value.
pub open spec fn value_parse(bytes: Seq<u8>) -> Option<ValueModel> {
    if bytes.len() == 0 {
        Some(ValueModel::Empty)
    } else {
        let tag = bytes[0];
        let rest = bytes.skip(1);
        if tag == TAG_STR {
            match varint_parse(rest, MAX_PREFIX_LEN as nat) {
                Some((n, l)) => if rest.len() - l == n && valid_utf8(rest.skip(l)) {
                    Some(ValueModel::Str(decode_utf8(rest.skip(l))))
                } else {
                    None
                },
                None => None,
            }
        } else if tag == TAG_INTEGER {
            match varint_parse(rest, MAX_PREFIX_LEN as nat) {
                Some((n, l)) => if l == rest.len() && n <= u64::MAX {
                    Some(ValueModel::Integer((n as u64) as i64))
                } else {
                    None
                },
                None => None,
            }
        } else if tag == TAG_FLOAT {
            if rest.len() == 8 {
                Some(ValueModel::Float(u64_from_le_bytes(rest)))
            } else {
                None
            }
        } else if tag == TAG_BOOLEAN {
            if rest.len() == 1 && (rest[0] == 0 || rest[0] == 1) {
                Some(ValueModel::Boolean(rest[0] == 1))
            } else {
                None
            }
        } else if tag == TAG_BINARY {
            match varint_parse(rest, MAX_PREFIX_LEN as nat) {
                Some((n, l)) => if rest.len() - l == n {
                    Some(ValueModel::Binary(rest.skip(l)))
                } else {
                    None
                },
                None => None,
            }
        } else {
            None
        }
    }
}

/// A value whose variable-length payloads are small enough to carry a
/// length prefix. Every value held in memory satisfies this.
pub open spec fn value_fits(v: ValueModel) -> bool {
    match v {
        ValueModel::Str(s) => encode_utf8(s).len() <= u64::MAX,
        ValueModel::Binary(bs) => bs.len() <= u64::MAX,
        _ => true,
    }
}

/// Value round-trip: decoding the encoded bytes of any supported value
/// gives back exactly that value.
pub proof fn lemma_value_round_trip(v: ValueModel)
    requires
        value_fits(v),
    ensures
        value_parse(value_encoding(v)) == Some(v),
{
    vstd::arithmetic::power::lemma_pow1(128);
    assert(vstd::arithmetic::power::pow(128, MAX_PREFIX_LEN as nat) > u64::MAX) by {
        reveal_with_fuel(vstd::arithmetic::power::pow, 11);
    }
    let enc = value_encoding(v);
    match v {
        ValueModel::Str(s) => {
            let payload = encode_utf8(s);
            let rest = enc.skip(1);
            assert(rest =~= varint_encoding(payload.len()) + payload);
            lemma_varint_round_trip(payload.len(), payload, MAX_PREFIX_LEN as nat);
            let l = varint_encoding(payload.len()).len() as int;
            assert(rest.skip(l) =~= payload);
            encode_utf8_valid_utf8(s);
            encode_utf8_decode_utf8(s);
        },
        ValueModel::Integer(i) => {
            let rest = enc.skip(1);
            assert(rest =~= varint_encoding((i as u64) as nat) + Seq::<u8>::empty());
            lemma_varint_round_trip((i as u64) as nat, Seq::empty(), MAX_PREFIX_LEN as nat);
            assert(((i as u64) as i64) == i) by (bit_vector);
        },
        ValueModel::Float(bits) => {
            let rest = enc.skip(1);
            assert(rest =~= u64_le_bytes(bits));
            lemma_u64_le_round_trip(bits);
        },
        ValueModel::Boolean(b) => {
            let rest = enc.skip(1);
            assert(rest =~= seq![if b { 1u8 } else { 0u8 }]);
        },
        ValueModel::Binary(bs) => {
            let rest = enc.skip(1);
            assert(rest =~= varint_encoding(bs.len()) + bs);
            lemma_varint_round_trip(bs.len(), bs, MAX_PREFIX_LEN as nat);
            let l = varint_encoding(bs.len()).len() as int;
            assert(rest.skip(l) =~= bs);
        },
        ValueModel::Empty => {},
    }
}

/// Relies on `String::from_utf8`: it succeeds exactly on valid UTF-8 and
/// returns the string whose encoding is the given bytes.
#[verifier::external_body]
fn string_from_utf8(bytes: Vec<u8>) -> (r: Option<String>)
    ensures
        match r {
            Some(s) => valid_utf8(bytes@) && encode_utf8(s@) == bytes@,
            None => !valid_utf8(bytes@),
        },
{
    String::from_utf8(bytes).ok()
}

/// Serialises a value to its byte encoding.
pub fn encode_value(v: &Value) -> (r: Vec<u8>)
    ensures
        r@ == value_encoding(v@),
{
    let mut out: Vec<u8> = Vec::new();
    match v {
        Value::Empty => {
            assert(out@ =~= value_encoding(v@));
        },
        Value::Str(s) => {
            let bytes = s.as_str().as_bytes_vec();
            out.push(TAG_STR);
            write_varint(bytes.len() as u64, &mut out);
            out.extend_from_slice(bytes.as_slice());
            assert(out@ =~= value_encoding(v@));
        },
        Value::Integer(i) => {
            out.push(TAG_INTEGER);
            write_varint(*i as u64, &mut out);
            assert(out@ =~= value_encoding(v@));
        },
        Value::Float(bits) => {
            let x = *bits;
            out.push(TAG_FLOAT);
            out.push(x as u8);
            out.push((x >> 8) as u8);
            out.push((x >> 16) as u8);
            out.push((x >> 24) as u8);
            out.push((x >> 32) as u8);
            out.push((x >> 40) as u8);
            out.push((x >> 48) as u8);
            out.push((x >> 56) as u8);
            assert(out@ =~= value_encoding(v@));
        },
        Value::Boolean(b) => {
            out.push(TAG_BOOLEAN);
            out.push(if *b { 1u8 } else { 0u8 });
            assert(out@ =~= value_encoding(v@));
        },
        Value::Binary(bs) => {
            out.push(TAG_BINARY);
            write_varint(bs.len() as u64, &mut out);
            out.extend_from_slice(bs.as_slice());
            assert(out@ =~= value_encoding(v@));
        },
    }
    out
}

/// Deserialises a byte sequence as one value; a sequence that is not the
/// exact encoding of any value is a decode error.
pub fn decode_value(bytes: &Vec<u8>) -> (r: Result<Value, KVError>)
    ensures
        match r {
            Ok(v) => value_parse(bytes@) == Some(v@),
            Err(e) => value_parse(bytes@) is None && e == KVError::DecodeError,
        },
{
    proof {
        vstd::std_specs::vec::axiom_spec_len(bytes);
    }
    if bytes.len() == 0 {
        return Ok(Value::Empty);
    }
    let ghost rest = bytes@.skip(1);
    let tag = bytes[0];
    if tag == TAG_STR {
        proof {
            lemma_varint_parse_len(rest, MAX_PREFIX_LEN as nat);
        }
        match read_varint_at(bytes.as_slice(), 1, MAX_PREFIX_LEN) {
            Some((n, end)) => {
                assert(varint_parse(rest, MAX_PREFIX_LEN as nat) == Some((
                    n as nat,
                    end - 1int,
                ))) by {
                    assert(bytes@.skip(1) =~= rest);
                }
                if n == (bytes.len() - end) as u64 {
                    let payload = slice_to_vec(slice_subrange(bytes.as_slice(), end,
                        bytes.len()));
                    assert(payload@ =~= rest.skip(end - 1));
                    match string_from_utf8(payload) {
                        Some(s) => {
                            proof {
                                encode_utf8_decode_utf8(s@);
                            }
                            Ok(Value::Str(s))
                        },
                        None => Err(KVError::DecodeError),
                    }
                } else {
                    Err(KVError::DecodeError)
                }
            },
            None => {
                proof {
                    match varint_parse(rest, MAX_PREFIX_LEN as nat) {
                        Some((n, l)) => {
                            assert(n > u64::MAX);
                            assert(rest.len() - l < n);
                        },
                        None => {},
                    }
                }
                Err(KVError::DecodeError)
            },
        }
    } else if tag == TAG_INTEGER {
        match read_varint_at(bytes.as_slice(), 1, MAX_PREFIX_LEN) {
            Some((n, end)) => {
                if end == bytes.len() {
                    assert(((n as nat) as u64) as i64 == n as i64);
                    Ok(Value::Integer(n as i64))
                } else {
                    proof {
                        lemma_varint_parse_len(rest, MAX_PREFIX_LEN as nat);
                    }
                    Err(KVError::DecodeError)
                }
            },
            None => {
                proof {
                    match varint_parse(rest, MAX_PREFIX_LEN as nat) {
                        Some((n, l)) => {
                            assert(n > u64::MAX);
                        },
                        None => {},
                    }
                }
                Err(KVError::DecodeError)
            },
        }
    } else if tag == TAG_FLOAT {
        if bytes.len() == 9 {
            let b = bytes.as_slice();
            let bits = (b[1] as u64) | ((b[2] as u64) << 8) | ((b[3] as u64) << 16)
                | ((b[4] as u64) << 24) | ((b[5] as u64) << 32) | ((b[6] as u64) << 40)
                | ((b[7] as u64) << 48) | ((b[8] as u64) << 56);
            assert(bits == u64_from_le_bytes(rest));
            Ok(Value::Float(bits))
        } else {
            Err(KVError::DecodeError)
        }
    } else if tag == TAG_BOOLEAN {
        if bytes.len() == 2 && (bytes[1] == 0 || bytes[1] == 1) {
            Ok(Value::Boolean(bytes[1] == 1))
        } else {
            Err(KVError::DecodeError)
        }
    } else if tag == TAG_BINARY {
        proof {
            lemma_varint_parse_len(rest, MAX_PREFIX_LEN as nat);
        }
        match read_varint_at(bytes.as_slice(), 1, MAX_PREFIX_LEN) {
            Some((n, end)) => {
                assert(varint_parse(rest, MAX_PREFIX_LEN as nat) == Some((
                    n as nat,
                    end - 1int,
                ))) by {
                    assert(bytes@.skip(1) =~= rest);
                }
                if n == (bytes.len() - end) as u64 {
                    let payload = slice_to_vec(slice_subrange(bytes.as_slice(), end,
                        bytes.len()));
                    assert(payload@ =~= rest.skip(end - 1));
                    Ok(Value::Binary(payload))
                } else {
                    Err(KVError::DecodeError)
                }
            },
            None => {
                proof {
                    match varint_parse(rest, MAX_PREFIX_LEN as nat) {
                        Some((n, l)) => {
                            assert(n > u64::MAX);
                            assert(rest.len() - l < n);
                        },
                        None => {},
                    }
                }
                Err(KVError::DecodeError)
            },
        }
    } else {
        Err(KVError::DecodeError)
    }
}

} // verus!

//! The compact binary encoding of what travels between a vehicle, the
//! gateway and the canister. A whole number is written in one byte where it
//! is below 251, and else as a marker byte (251, 252, 253 or 254) followed
//! by its 2, 4, 8 or 16 bytes, least significant first. A reader takes any
//! of the widths that the number's type allows, so every encoding is read
//! back as what was written, and bytes behind a value are left alone.

use vstd::prelude::*;
use vstd::bytes::*;
use vstd::slice::slice_subrange;
use crate::telemetry::TelemetryType;

verus! {

/// The marker of a number written in 16 bytes, the widest there is.
pub const WIDE_128: u8 = 254;

/// The marker of a number written in 8 bytes: the widest for a length.
pub const WIDE_64: u8 = 253;

/// The marker of a number written in 4 bytes: the widest for a variant.
pub const WIDE_32: u8 = 252;

/// The payload that a vehicle signs: one value and what it measures.
#[derive(Clone, Copy, Debug, PartialEq, Eq, Structural)]
pub struct StoreTelemetryRequest {
    pub value: u128,
    pub t_type: TelemetryType,
}

/// The bytes of a whole number.
pub open spec fn varint(v: u128) -> Seq<u8> {
    if v < 251 {
        seq![v as u8]
    } else if v < 0x1_0000 {
        seq![251u8] + spec_u16_to_le_bytes(v as u16)
    } else if v < 0x1_0000_0000 {
        seq![252u8] + spec_u32_to_le_bytes(v as u32)
    } else if v < 0x1_0000_0000_0000_0000 {
        seq![253u8] + spec_u64_to_le_bytes(v as u64)
    } else {
        seq![254u8] + spec_u128_to_le_bytes(v)
    }
}

/// The whole number at the front of `b` and the bytes behind it, for a
/// reader that takes markers up to `widest`.
pub open spec fn read_varint(b: Seq<u8>, widest: u8) -> Option<(u128, Seq<u8>)> {
    if b.len() == 0 {
        None
    } else if b[0] < 251 {
        Some((b[0] as u128, b.skip(1)))
    } else if b[0] > widest {
        None
    } else if b[0] == 251 {
        if b.len() >= 3 {
            Some((spec_u16_from_le_bytes(b.subrange(1, 3)) as u128, b.skip(3)))
        } else {
            None
        }
    } else if b[0] == 252 {
        if b.len() >= 5 {
            Some((spec_u32_from_le_bytes(b.subrange(1, 5)) as u128, b.skip(5)))
        } else {
            None
        }
    } else if b[0] == 253 {
        if b.len() >= 9 {
            Some((spec_u64_from_le_bytes(b.subrange(1, 9)) as u128, b.skip(9)))
        } else {
            None
        }
    } else if b[0] == 254 {
        if b.len() >= 17 {
            Some((spec_u128_from_le_bytes(b.subrange(1, 17)), b.skip(17)))
        } else {
            None
        }
    } else {
        None
    }
}

/// Whether a reader that takes markers up to `widest` can hold `v`.
pub open spec fn within(v: u128, widest: u8) -> bool {
    if widest == 252 {
        v < 0x1_0000_0000
    } else if widest == 253 {
        v < 0x1_0000_0000_0000_0000
    } else {
        widest == 254
    }
}

/// A number that was written is read back, whatever follows it.
pub proof fn lemma_varint_round_trip(v: u128, widest: u8, rest: Seq<u8>)
    requires
        within(v, widest),
    ensures
        read_varint(varint(v) + rest, widest) == Some((v, rest)),
{
    lemma_auto_spec_u16_to_from_le_bytes();
    lemma_auto_spec_u32_to_from_le_bytes();
    lemma_auto_spec_u64_to_from_le_bytes();
    lemma_auto_spec_u128_to_from_le_bytes();
    let b = varint(v) + rest;
    if v < 251 {
        assert(b.skip(1) =~= rest);
    } else if v < 0x1_0000 {
        assert(b.subrange(1, 3) =~= spec_u16_to_le_bytes(v as u16));
        assert(b.skip(3) =~= rest);
    } else if v < 0x1_0000_0000 {
        assert(b.subrange(1, 5) =~= spec_u32_to_le_bytes(v as u32));
        assert(b.skip(5) =~= rest);
    } else if v < 0x1_0000_0000_0000_0000 {
        assert(b.subrange(1, 9) =~= spec_u64_to_le_bytes(v as u64));
        assert(b.skip(9) =~= rest);
    } else {
        assert(b.subrange(1, 17) =~= spec_u128_to_le_bytes(v));
        assert(b.skip(17) =~= rest);
    }
}

/// Appends the bytes of a whole number to `out`.
pub fn put_varint(v: u128, out: &mut Vec<u8>)
    ensures
        final(out)@ == old(out)@ + varint(v),
{
    if v < 251 {
        out.push(v as u8);
        assert(out@ =~= old(out)@ + varint(v));
    } else if v < 0x1_0000 {
        out.push(251u8);
        let mut bytes = u16_to_le_bytes(v as u16);
        out.append(&mut bytes);
        assert(out@ =~= old(out)@ + varint(v));
    } else if v < 0x1_0000_0000 {
        out.push(252u8);
        let mut bytes = u32_to_le_bytes(v as u32);
        out.append(&mut bytes);
        assert(out@ =~= old(out)@ + varint(v));
    } else if v < 0x1_0000_0000_0000_0000 {
        out.push(253u8);
        let mut bytes = u64_to_le_bytes(v as u64);
        out.append(&mut bytes);
        assert(out@ =~= old(out)@ + varint(v));
    } else {
        out.push(254u8);
        let mut bytes = u128_to_le_bytes(v);
        out.append(&mut bytes);
        assert(out@ =~= old(out)@ + varint(v));
    }
}

/// Reads a whole number at `pos`, taking markers up to `widest`; gives it
/// with the position behind it.
pub fn get_varint(data: &[u8], pos: usize, widest: u8) -> (r: Option<(u128, usize)>)
    requires
        pos <= data@.len(),
    ensures
        match read_varint(data@.skip(pos as int), widest) {
            Some((v, rest)) => match r {
                Some((value, end)) => value == v && pos < end <= data@.len() && data@.skip(
                    end as int,
                ) == rest,
                None => false,
            },
            None => r is None,
        },
{
    let len = data.len();
    if pos >= len {
        return None;
    }
    let left = len - pos;
    let tag = data[pos];
    let ghost b = data@.skip(pos as int);
    assert(b[0] == tag);
    if tag < 251 {
        assert(b.skip(1) =~= data@.skip(pos + 1));
        Some((tag as u128, pos + 1))
    } else if tag > widest {
        None
    } else if tag == 251 {
        if left < 3 {
            return None;
        }
        let v = u16_from_le_bytes(slice_subrange(data, pos + 1, pos + 3));
        assert(b.subrange(1, 3) =~= data@.subrange(pos + 1, pos + 3));
        assert(b.skip(3) =~= data@.skip(pos + 3));
        Some((v as u128, pos + 3))
    } else if tag == 252 {
        if left < 5 {
            return None;
        }
        let v = u32_from_le_bytes(slice_subrange(data, pos + 1, pos + 5));
        assert(b.subrange(1, 5) =~= data@.subrange(pos + 1, pos + 5));
        assert(b.skip(5) =~= data@.skip(pos + 5));
        Some((v as u128, pos + 5))
    } else if tag == 253 {
        if left < 9 {
            return None;
        }
        let v = u64_from_le_bytes(slice_subrange(data, pos + 1, pos + 9));
        assert(b.subrange(1, 9) =~= data@.subrange(pos + 1, pos + 9));
        assert(b.skip(9) =~= data@.skip(pos + 9));
        Some((v as u128, pos + 9))
    } else if tag == 254 {
        if left < 17 {
            return None;
        }
        let v = u128_from_le_bytes(slice_subrange(data, pos + 1, pos + 17));
        assert(b.subrange(1, 17) =~= data@.subrange(pos + 1, pos + 17));
        assert(b.skip(17) =~= data@.skip(pos + 17));
        Some((v, pos + 17))
    } else {
        None
    }
}

/// The number that a kind of telemetry is written as.
pub open spec fn kind_number(t: TelemetryType) -> u128 {
    match t {
        TelemetryType::Gas => 0,
    }
}

/// The bytes of a payload: its value, then the number of its kind.
pub open spec fn payload_bytes(request: StoreTelemetryRequest) -> Seq<u8> {
    varint(request.value) + varint(kind_number(request.t_type))
}

/// The payload at the front of `b`, or `None` where `b` does not start
/// with one.
pub open spec fn payload_of(b: Seq<u8>) -> Option<StoreTelemetryRequest> {
    match read_varint(b, WIDE_128) {
        Some((value, rest)) => match read_varint(rest, WIDE_32) {
            Some((kind, end)) => if kind == 0 {
                Some(StoreTelemetryRequest { value, t_type: TelemetryType::Gas })
            } else {
                None
            },
            None => None,
        },
        None => None,
    }
}

/// Every payload is read back from its bytes.
pub proof fn law_payload_round_trip(request: StoreTelemetryRequest)
    ensures
        payload_of(payload_bytes(request)) == Some(request),
{
    let tail = varint(kind_number(request.t_type));
    lemma_varint_round_trip(request.value, WIDE_128, tail);
    lemma_varint_round_trip(0, WIDE_32, Seq::empty());
    assert(tail + Seq::<u8>::empty() =~= tail);
}

/// The bytes that a vehicle signs and sends for a sample.
pub fn encode_telemetry(request: &StoreTelemetryRequest) -> (out: Vec<u8>)
    ensures
        out@ == payload_bytes(*request),
{
    let mut out: Vec<u8> = Vec::new();
    put_varint(request.value, &mut out);
    match request.t_type {
        TelemetryType::Gas => put_varint(0, &mut out),
    }
    assert(out@ =~= payload_bytes(*request));
    out
}

/// The payload that the bytes start with, if they start with one.
pub fn decode_telemetry(data: &[u8]) -> (r: Option<StoreTelemetryRequest>)
    ensures
        r == payload_of(data@),
{
    assert(data@.skip(0) =~= data@);
    let (value, next) = match get_varint(data, 0, WIDE_128) {
        Some(pair) => pair,
        None => { return None; },
    };
    let (kind, end) = match get_varint(data, next, WIDE_32) {
        Some(pair) => pair,
        None => { return None; },
    };
    if kind == 0 {
        Some(StoreTelemetryRequest { value, t_type: TelemetryType::Gas })
    } else {
        None
    }
}

} // verus!

use super::tag::{compound_map, list_values, names_unique, put_entry, unique_names, NbtTag, NbtValue};
use crate::common::binary::{bytes_to_vec, le_u16, le_u32, le_u64, read_u16_le, read_u32_le, read_u64_le};
use crate::common::error::AmberError;
use crate::common::text::{hex_string, hex_text};
use crate::common::utf8::utf8_text;
use vstd::prelude::*;
use vstd::utf8::{decode_utf8, valid_utf8};

verus! {

/// Why decoding NBT stopped.
pub enum NbtFault {
    /// A read needed `needed` bytes where `remaining` were left.
    Underflow { needed: usize, remaining: usize },
    /// A string payload is not well-formed UTF-8.
    BadUtf8,
    /// A tag type byte outside `0x00..=0x0c`.
    UnknownTag(u8),
    /// The root tag is not a compound; the byte is its type.
    RootNotCompound(u8),
}

/// The error value that reports `f`.
pub open spec fn describes(e: AmberError, f: NbtFault) -> bool {
    match f {
        NbtFault::Underflow { needed, remaining } => e == AmberError::BufferUnderflow {
            needed,
            remaining,
        },
        NbtFault::BadUtf8 => e matches AmberError::NbtError(m) && exists|d: Seq<char>|
            m@ == "invalid utf8 string: "@ + d,
        NbtFault::UnknownTag(t) => e matches AmberError::NbtError(m) && m@
            == "unrecognized nbt tag type 0x"@ + hex_text(t),
        NbtFault::RootNotCompound(t) => e matches AmberError::NbtError(m) && m@
            == "expected compound tag 0x0a at root, found 0x"@ + hex_text(t),
    }
}

/// Outcome of a decoding step: a value and the position after it.
pub type Step<T> = Result<(T, int), NbtFault>;

/// The bytes of `data` from `pos` on.
pub open spec fn rest(data: Seq<u8>, pos: int) -> Seq<u8> {
    data.subrange(pos, data.len() as int)
}

/// Bytes left after `pos`, never negative.
pub open spec fn remaining(data: Seq<u8>, pos: int) -> int {
    if pos <= data.len() {
        data.len() - pos
    } else {
        0
    }
}

/// Reserves `len` bytes at `pos`; gives the position after them.
pub open spec fn spec_take(data: Seq<u8>, pos: int, len: usize) -> Result<int, NbtFault> {
    if remaining(data, pos) < len {
        Err(NbtFault::Underflow { needed: len, remaining: remaining(data, pos) as usize })
    } else {
        Ok(pos + len)
    }
}

pub open spec fn spec_u8(data: Seq<u8>, pos: int) -> Step<u8> {
    if 0 <= pos < data.len() {
        Ok((data[pos], pos + 1))
    } else {
        Err(NbtFault::Underflow { needed: 1, remaining: 0 })
    }
}

pub open spec fn spec_i16(data: Seq<u8>, pos: int) -> Step<i16> {
    match spec_take(data, pos, 2) {
        Ok(p) => Ok((le_u16(rest(data, pos)) as i16, p)),
        Err(f) => Err(f),
    }
}

pub open spec fn spec_u32(data: Seq<u8>, pos: int) -> Step<u32> {
    match spec_take(data, pos, 4) {
        Ok(p) => Ok((le_u32(rest(data, pos)), p)),
        Err(f) => Err(f),
    }
}

pub open spec fn spec_i32(data: Seq<u8>, pos: int) -> Step<i32> {
    match spec_u32(data, pos) {
        Ok((v, p)) => Ok((v as i32, p)),
        Err(f) => Err(f),
    }
}

pub open spec fn spec_u64(data: Seq<u8>, pos: int) -> Step<u64> {
    match spec_take(data, pos, 8) {
        Ok(p) => Ok((le_u64(rest(data, pos)), p)),
        Err(f) => Err(f),
    }
}

/// A string: a little-endian `i16` byte count (taken as `usize`), then that
/// many bytes of UTF-8.
pub open spec fn spec_string(data: Seq<u8>, pos: int) -> Step<Seq<char>> {
    match spec_i16(data, pos) {
        Err(f) => Err(f),
        Ok((n, p1)) => match spec_take(data, p1, n as usize) {
            Err(f) => Err(f),
            Ok(p2) => {
                let bytes = data.subrange(p1, p2);
                if valid_utf8(bytes) {
                    Ok((decode_utf8(bytes), p2))
                } else {
                    Err(NbtFault::BadUtf8)
                }
            },
        },
    }
}

/// `count` little-endian `i32` values from `pos`, appended to `acc`.
pub open spec fn spec_ints_from(data: Seq<u8>, pos: int, count: nat, acc: Seq<i32>) -> Step<
    Seq<i32>,
>
    decreases count,
{
    if count == 0 {
        Ok((acc, pos))
    } else {
        match spec_i32(data, pos) {
            Err(f) => Err(f),
            Ok((v, p)) => spec_ints_from(data, p, (count - 1) as nat, acc.push(v)),
        }
    }
}

/// `count` little-endian `i64` values from `pos`, appended to `acc`.
pub open spec fn spec_longs_from(data: Seq<u8>, pos: int, count: nat, acc: Seq<i64>) -> Step<
    Seq<i64>,
>
    decreases count,
{
    if count == 0 {
        Ok((acc, pos))
    } else {
        match spec_u64(data, pos) {
            Err(f) => Err(f),
            Ok((v, p)) => spec_longs_from(data, p, (count - 1) as nat, acc.push(v as i64)),
        }
    }
}

/// The payload of a tag of type `t` starting at `pos`.
pub open spec fn spec_payload(data: Seq<u8>, pos: int, t: u8) -> Step<NbtValue>
    decreases data.len() - pos, 1int, 0int,
{
    if t == 0 {
        Ok((NbtValue::End, pos))
    } else if t == 1 {
        match spec_u8(data, pos) {
            Ok((b, p)) => Ok((NbtValue::Byte(b as i8), p)),
            Err(f) => Err(f),
        }
    } else if t == 2 {
        match spec_i16(data, pos) {
            Ok((v, p)) => Ok((NbtValue::Short(v), p)),
            Err(f) => Err(f),
        }
    } else if t == 3 {
        match spec_i32(data, pos) {
            Ok((v, p)) => Ok((NbtValue::Int(v), p)),
            Err(f) => Err(f),
        }
    } else if t == 4 {
        match spec_u64(data, pos) {
            Ok((v, p)) => Ok((NbtValue::Long(v as i64), p)),
            Err(f) => Err(f),
        }
    } else if t == 5 {
        match spec_u32(data, pos) {
            Ok((v, p)) => Ok((NbtValue::Float(v), p)),
            Err(f) => Err(f),
        }
    } else if t == 6 {
        match spec_u64(data, pos) {
            Ok((v, p)) => Ok((NbtValue::Double(v), p)),
            Err(f) => Err(f),
        }
    } else if t == 7 {
        match spec_i32(data, pos) {
            Err(f) => Err(f),
            Ok((n, p1)) => match spec_take(data, p1, n as usize) {
                Err(f) => Err(f),
                Ok(p2) => Ok((NbtValue::ByteArray(data.subrange(p1, p2)), p2)),
            },
        }
    } else if t == 8 {
        match spec_string(data, pos) {
            Ok((s, p)) => Ok((NbtValue::String(s), p)),
            Err(f) => Err(f),
        }
    } else if t == 9 {
        match spec_u8(data, pos) {
            Err(f) => Err(f),
            Ok((et, p1)) => match spec_i32(data, p1) {
                Err(f) => Err(f),
                Ok((n, p2)) => if pos < p2 <= data.len() {
                    match spec_list_from(data, p2, et, (n as usize) as nat, Seq::empty()) {
                        Ok((items, p3)) => Ok((NbtValue::List(items), p3)),
                        Err(f) => Err(f),
                    }
                } else {
                    Err(NbtFault::Underflow { needed: 0, remaining: 0 })
                },
            },
        }
    } else if t == 10 {
        if 0 <= pos <= data.len() {
            match spec_compound_from(data, pos, Map::empty()) {
                Ok((m, p)) => Ok((NbtValue::Compound(m), p)),
                Err(f) => Err(f),
            }
        } else {
            Err(NbtFault::Underflow { needed: 1, remaining: 0 })
        }
    } else if t == 11 {
        match spec_i32(data, pos) {
            Err(f) => Err(f),
            Ok((n, p1)) => match spec_ints_from(data, p1, (n as usize) as nat, Seq::empty()) {
                Ok((v, p2)) => Ok((NbtValue::IntArray(v), p2)),
                Err(f) => Err(f),
            },
        }
    } else if t == 12 {
        match spec_i32(data, pos) {
            Err(f) => Err(f),
            Ok((n, p1)) => match spec_longs_from(data, p1, (n as usize) as nat, Seq::empty()) {
                Ok((v, p2)) => Ok((NbtValue::LongArray(v), p2)),
                Err(f) => Err(f),
            },
        }
    } else {
        Err(NbtFault::UnknownTag(t))
    }
}

/// `count` payloads of type `t` from `pos`, appended to `acc`.
pub open spec fn spec_list_from(
    data: Seq<u8>,
    pos: int,
    t: u8,
    count: nat,
    acc: Seq<NbtValue>,
) -> Step<Seq<NbtValue>>
    decreases data.len() - pos, 2int, count,
{
    if count == 0 {
        Ok((acc, pos))
    } else {
        match spec_payload(data, pos, t) {
            Err(f) => Err(f),
            Ok((v, p)) => if pos <= p <= data.len() {
                spec_list_from(data, p, t, (count - 1) as nat, acc.push(v))
            } else {
                Err(NbtFault::Underflow { needed: 0, remaining: 0 })
            },
        }
    }
}

/// Named entries from `pos` up to and including the end byte `0x00`,
/// inserted into `acc` in order.
pub open spec fn spec_compound_from(data: Seq<u8>, pos: int, acc: Map<Seq<char>, NbtValue>) -> Step<
    Map<Seq<char>, NbtValue>,
>
    decreases data.len() - pos, 0int, 0int,
{
    match spec_u8(data, pos) {
        Err(f) => Err(f),
        Ok((t, p1)) => if t == 0 {
            Ok((acc, p1))
        } else {
            match spec_string(data, p1) {
                Err(f) => Err(f),
                Ok((name, p2)) => if pos < p2 <= data.len() {
                    match spec_payload(data, p2, t) {
                        Err(f) => Err(f),
                        Ok((v, p3)) => if p2 <= p3 <= data.len() {
                            spec_compound_from(data, p3, acc.insert(name, v))
                        } else {
                            Err(NbtFault::Underflow { needed: 0, remaining: 0 })
                        },
                    }
                } else {
                    Err(NbtFault::Underflow { needed: 0, remaining: 0 })
                },
            }
        },
    }
}

/// A root tag at `pos`: the type byte `0x0a`, a name, then a compound
/// payload.
pub open spec fn spec_root(data: Seq<u8>, pos: int) -> Step<(Seq<char>, NbtValue)> {
    match spec_u8(data, pos) {
        Err(f) => Err(f),
        Ok((t, p1)) => if t != 10 {
            Err(NbtFault::RootNotCompound(t))
        } else {
            match spec_string(data, p1) {
                Err(f) => Err(f),
                Ok((name, p2)) => match spec_payload(data, p2, 10) {
                    Err(f) => Err(f),
                    Ok((v, p3)) => Ok(((name, v), p3)),
                },
            }
        },
    }
}

/// Every successful decoding step ends inside the data, no earlier than it
/// started.
pub proof fn lemma_payload_advances(data: Seq<u8>, pos: int, t: u8)
    requires
        0 <= pos <= data.len(),
    ensures
        spec_payload(data, pos, t) matches Ok((_, p)) ==> pos <= p <= data.len(),
    decreases data.len() - pos, 1int, 0int,
{
    if t == 9 {
        if let Ok((et, p1)) = spec_u8(data, pos) {
            if let Ok((n, p2)) = spec_i32(data, p1) {
                if pos < p2 <= data.len() {
                    lemma_list_advances(data, p2, et, (n as usize) as nat, Seq::empty());
                }
            }
        }
    } else if t == 10 {
        lemma_compound_advances(data, pos, Map::empty());
    } else if t == 11 {
        if let Ok((n, p1)) = spec_i32(data, pos) {
            lemma_ints_advance(data, p1, (n as usize) as nat, Seq::empty());
        }
    } else if t == 12 {
        if let Ok((n, p1)) = spec_i32(data, pos) {
            lemma_longs_advance(data, p1, (n as usize) as nat, Seq::empty());
        }
    }
}

pub proof fn lemma_list_advances(data: Seq<u8>, pos: int, t: u8, count: nat, acc: Seq<NbtValue>)
    requires
        0 <= pos <= data.len(),
    ensures
        spec_list_from(data, pos, t, count, acc) matches Ok((_, p)) ==> pos <= p <= data.len(),
    decreases data.len() - pos, 2int, count,
{
    if count > 0 {
        lemma_payload_advances(data, pos, t);
        if let Ok((v, p)) = spec_payload(data, pos, t) {
            lemma_list_advances(data, p, t, (count - 1) as nat, acc.push(v));
        }
    }
}

pub proof fn lemma_compound_advances(data: Seq<u8>, pos: int, acc: Map<Seq<char>, NbtValue>)
    requires
        0 <= pos <= data.len(),
    ensures
        spec_compound_from(data, pos, acc) matches Ok((_, p)) ==> pos <= p <= data.len(),
    decreases data.len() - pos, 0int, 0int,
{
    if let Ok((t, p1)) = spec_u8(data, pos) {
        if t != 0 {
            if let Ok((name, p2)) = spec_string(data, p1) {
                if pos < p2 <= data.len() {
                    lemma_payload_advances(data, p2, t);
                    if let Ok((v, p3)) = spec_payload(data, p2, t) {
                        lemma_compound_advances(data, p3, acc.insert(name, v));
                    }
                }
            }
        }
    }
}

pub proof fn lemma_ints_advance(data: Seq<u8>, pos: int, count: nat, acc: Seq<i32>)
    requires
        0 <= pos <= data.len(),
    ensures
        spec_ints_from(data, pos, count, acc) matches Ok((_, p)) ==> pos <= p <= data.len(),
    decreases count,
{
    if count > 0 {
        if let Ok((v, p)) = spec_i32(data, pos) {
            lemma_ints_advance(data, p, (count - 1) as nat, acc.push(v));
        }
    }
}

pub proof fn lemma_longs_advance(data: Seq<u8>, pos: int, count: nat, acc: Seq<i64>)
    requires
        0 <= pos <= data.len(),
    ensures
        spec_longs_from(data, pos, count, acc) matches Ok((_, p)) ==> pos <= p <= data.len(),
    decreases count,
{
    if count > 0 {
        if let Ok((v, p)) = spec_u64(data, pos) {
            lemma_longs_advance(data, p, (count - 1) as nat, acc.push(v as i64));
        }
    }
}

/// The executable outcome `res` reports the decoding step `s`.
pub open spec fn agrees<T>(res: Result<(T, usize), AmberError>, s: Step<T>) -> bool {
    match (res, s) {
        (Ok((v, p)), Ok((w, q))) => v == w && p == q,
        (Err(e), Err(f)) => describes(e, f),
        _ => false,
    }
}

/// Like [`agrees`], for decoded text.
pub open spec fn agrees_text(res: Result<(String, usize), AmberError>, s: Step<Seq<char>>) -> bool {
    match (res, s) {
        (Ok((v, p)), Ok((w, q))) => v@ == w && p == q,
        (Err(e), Err(f)) => describes(e, f),
        _ => false,
    }
}

/// Like [`agrees`], for a decoded tag.
pub open spec fn agrees_tag(res: Result<(NbtTag, usize), AmberError>, s: Step<NbtValue>) -> bool {
    match (res, s) {
        (Ok((v, p)), Ok((w, q))) => v.value() == w && p == q,
        (Err(e), Err(f)) => describes(e, f),
        _ => false,
    }
}

fn underflow(needed: usize, remaining: usize) -> (e: AmberError)
    ensures
        describes(e, NbtFault::Underflow { needed, remaining }),
{
    AmberError::BufferUnderflow { needed, remaining }
}

fn read_u8_at(data: &[u8], pos: usize) -> (res: Result<(u8, usize), AmberError>)
    requires
        pos <= data@.len(),
    ensures
        agrees(res, spec_u8(data@, pos as int)),
{
    if pos >= data.len() {
        return Err(underflow(1, 0));
    }
    Ok((data[pos], pos + 1))
}

/// Reserves `len` bytes at `pos`.
fn take_at(data: &[u8], pos: usize, len: usize) -> (res: Result<usize, AmberError>)
    requires
        pos <= data@.len(),
    ensures
        match (res, spec_take(data@, pos as int, len)) {
            (Ok(p), Ok(q)) => p == q && p <= data@.len(),
            (Err(e), Err(f)) => describes(e, f),
            _ => false,
        },
{
    let left = data.len() - pos;
    if left < len {
        return Err(underflow(len, left));
    }
    Ok(pos + len)
}

fn read_i16_at(data: &[u8], pos: usize) -> (res: Result<(i16, usize), AmberError>)
    requires
        pos <= data@.len(),
    ensures
        agrees(res, spec_i16(data@, pos as int)),
{
    match take_at(data, pos, 2) {
        Err(e) => Err(e),
        Ok(p) => {
            let v = read_u16_le(slice_from(data, pos));
            Ok((v as i16, p))
        },
    }
}

fn read_u32_at(data: &[u8], pos: usize) -> (res: Result<(u32, usize), AmberError>)
    requires
        pos <= data@.len(),
    ensures
        agrees(res, spec_u32(data@, pos as int)),
{
    match take_at(data, pos, 4) {
        Err(e) => Err(e),
        Ok(p) => Ok((read_u32_le(slice_from(data, pos)), p)),
    }
}

fn read_i32_at(data: &[u8], pos: usize) -> (res: Result<(i32, usize), AmberError>)
    requires
        pos <= data@.len(),
    ensures
        agrees(res, spec_i32(data@, pos as int)),
{
    match read_u32_at(data, pos) {
        Err(e) => Err(e),
        Ok((v, p)) => Ok((v as i32, p)),
    }
}

fn read_u64_at(data: &[u8], pos: usize) -> (res: Result<(u64, usize), AmberError>)
    requires
        pos <= data@.len(),
    ensures
        agrees(res, spec_u64(data@, pos as int)),
{
    match take_at(data, pos, 8) {
        Err(e) => Err(e),
        Ok(p) => Ok((read_u64_le(slice_from(data, pos)), p)),
    }
}

/// The bytes of `data` from `pos` on.
pub fn slice_from(data: &[u8], pos: usize) -> (s: &[u8])
    requires
        pos <= data@.len(),
    ensures
        s@ == rest(data@, pos as int),
{
    &data[pos..data.len()]
}

fn read_string_at(data: &[u8], pos: usize) -> (res: Result<(String, usize), AmberError>)
    requires
        pos <= data@.len(),
    ensures
        agrees_text(res, spec_string(data@, pos as int)),
        res matches Ok((_, p)) ==> pos <= p <= data@.len(),
{
    let (n, p1) = match read_i16_at(data, pos) {
        Err(e) => return Err(e),
        Ok(r) => r,
    };
    let len = n as usize;
    let p2 = match take_at(data, p1, len) {
        Err(e) => return Err(e),
        Ok(p) => p,
    };
    let bytes = &data[p1..p2];
    match utf8_text(bytes) {
        Ok(s) => Ok((s, p2)),
        Err(msg) => {
            let mut m = String::from_str("invalid utf8 string: ");
            m.append(msg.as_str());
            Err(AmberError::NbtError(m))
        },
    }
}

fn read_ints_at(data: &[u8], pos: usize, count: usize) -> (res: Result<(Vec<i32>, usize), AmberError>)
    requires
        pos <= data@.len(),
    ensures
        match (res, spec_ints_from(data@, pos as int, count as nat, Seq::empty())) {
            (Ok((v, p)), Ok((w, q))) => v@ == w && p == q && pos <= p <= data@.len(),
            (Err(e), Err(f)) => describes(e, f),
            _ => false,
        },
{
    let mut out: Vec<i32> = Vec::new();
    let mut cur = pos;
    let mut i: usize = 0;
    while i < count
        invariant
            i <= count,
            pos <= cur <= data@.len(),
            spec_ints_from(data@, pos as int, count as nat, Seq::empty()) == spec_ints_from(
                data@,
                cur as int,
                (count - i) as nat,
                out@,
            ),
        decreases count - i,
    {
        match read_i32_at(data, cur) {
            Err(e) => return Err(e),
            Ok((v, p)) => {
                out.push(v);
                cur = p;
            },
        }
        i = i + 1;
    }
    Ok((out, cur))
}

fn read_longs_at(data: &[u8], pos: usize, count: usize) -> (res: Result<(Vec<i64>, usize), AmberError>)
    requires
        pos <= data@.len(),
    ensures
        match (res, spec_longs_from(data@, pos as int, count as nat, Seq::empty())) {
            (Ok((v, p)), Ok((w, q))) => v@ == w && p == q && pos <= p <= data@.len(),
            (Err(e), Err(f)) => describes(e, f),
            _ => false,
        },
{
    let mut out: Vec<i64> = Vec::new();
    let mut cur = pos;
    let mut i: usize = 0;
    while i < count
        invariant
            i <= count,
            pos <= cur <= data@.len(),
            spec_longs_from(data@, pos as int, count as nat, Seq::empty()) == spec_longs_from(
                data@,
                cur as int,
                (count - i) as nat,
                out@,
            ),
        decreases count - i,
    {
        match read_u64_at(data, cur) {
            Err(e) => return Err(e),
            Ok((v, p)) => {
                out.push(v as i64);
                cur = p;
            },
        }
        i = i + 1;
    }
    Ok((out, cur))
}

fn unknown_tag(t: u8) -> (e: AmberError)
    ensures
        describes(e, NbtFault::UnknownTag(t)),
{
    let mut m = String::from_str("unrecognized nbt tag type 0x");
    m.append(hex_string(t).as_str());
    AmberError::NbtError(m)
}

/// Decodes the payload of a tag of type `t` at `pos`.
fn read_payload(data: &[u8], pos: usize, t: u8) -> (res: Result<(NbtTag, usize), AmberError>)
    requires
        pos <= data@.len(),
    ensures
        agrees_tag(res, spec_payload(data@, pos as int, t)),
        res matches Ok((_, p)) ==> pos <= p <= data@.len(),
        res matches Ok((tag, _)) ==> names_unique(tag),
    decreases data@.len() - pos, 1int,
{
    if t == 0 {
        Ok((NbtTag::End, pos))
    } else if t == 1 {
        match read_u8_at(data, pos) {
            Ok((b, p)) => Ok((NbtTag::Byte(b as i8), p)),
            Err(e) => Err(e),
        }
    } else if t == 2 {
        match read_i16_at(data, pos) {
            Ok((v, p)) => Ok((NbtTag::Short(v), p)),
            Err(e) => Err(e),
        }
    } else if t == 3 {
        match read_i32_at(data, pos) {
            Ok((v, p)) => Ok((NbtTag::Int(v), p)),
            Err(e) => Err(e),
        }
    } else if t == 4 {
        match read_u64_at(data, pos) {
            Ok((v, p)) => Ok((NbtTag::Long(v as i64), p)),
            Err(e) => Err(e),
        }
    } else if t == 5 {
        match read_u32_at(data, pos) {
            Ok((v, p)) => Ok((NbtTag::Float(v), p)),
            Err(e) => Err(e),
        }
    } else if t == 6 {
        match read_u64_at(data, pos) {
            Ok((v, p)) => Ok((NbtTag::Double(v), p)),
            Err(e) => Err(e),
        }
    } else if t == 7 {
        let (n, p1) = match read_i32_at(data, pos) {
            Err(e) => return Err(e),
            Ok(r) => r,
        };
        let p2 = match take_at(data, p1, n as usize) {
            Err(e) => return Err(e),
            Ok(p) => p,
        };
        let bytes = bytes_to_vec(&data[p1..p2]);
        Ok((NbtTag::ByteArray(bytes), p2))
    } else if t == 8 {
        match read_string_at(data, pos) {
            Ok((s, p)) => Ok((NbtTag::String(s), p)),
            Err(e) => Err(e),
        }
    } else if t == 9 {
        let (et, p1) = match read_u8_at(data, pos) {
            Err(e) => return Err(e),
            Ok(r) => r,
        };
        let (n, p2) = match read_i32_at(data, p1) {
            Err(e) => return Err(e),
            Ok(r) => r,
        };
        let count = n as usize;
        let mut items: Vec<NbtTag> = Vec::new();
        let mut cur = p2;
        let mut i: usize = 0;
        while i < count
            invariant
                pos < p2 <= cur <= data@.len(),
                i <= count,
                spec_payload(data@, pos as int, t) == match spec_list_from(
                    data@,
                    p2 as int,
                    et,
                    count as nat,
                    Seq::empty(),
                ) {
                    Ok((items, p3)) => Ok((NbtValue::List(items), p3)),
                    Err(f) => Err(f),
                },
                spec_list_from(data@, p2 as int, et, count as nat, Seq::empty()) == spec_list_from(
                    data@,
                    cur as int,
                    et,
                    (count - i) as nat,
                    list_values(items@),
                ),
                forall|k: int| 0 <= k < items@.len() ==> names_unique(#[trigger] items@[k]),
            decreases count - i,
        {
            match read_payload(data, cur, et) {
                Err(e) => return Err(e),
                Ok((item, p)) => {
                    let ghost before = items@;
                    items.push(item);
                    assert(items@.drop_last() =~= before);
                    cur = p;
                },
            }
            i = i + 1;
        }
        Ok((NbtTag::List(items), cur))
    } else if t == 10 {
        match read_compound(data, pos) {
            Ok((entries, p)) => Ok((NbtTag::Compound(entries), p)),
            Err(e) => Err(e),
        }
    } else if t == 11 {
        let (n, p1) = match read_i32_at(data, pos) {
            Err(e) => return Err(e),
            Ok(r) => r,
        };
        match read_ints_at(data, p1, n as usize) {
            Ok((v, p)) => Ok((NbtTag::IntArray(v), p)),
            Err(e) => Err(e),
        }
    } else if t == 12 {
        let (n, p1) = match read_i32_at(data, pos) {
            Err(e) => return Err(e),
            Ok(r) => r,
        };
        match read_longs_at(data, p1, n as usize) {
            Ok((v, p)) => Ok((NbtTag::LongArray(v), p)),
            Err(e) => Err(e),
        }
    } else {
        Err(unknown_tag(t))
    }
}

/// Decodes named entries from `pos` up to and including the end byte.
fn read_compound(data: &[u8], pos: usize) -> (res: Result<(Vec<(String, NbtTag)>, usize), AmberError>)
    requires
        pos <= data@.len(),
    ensures
        match (res, spec_compound_from(data@, pos as int, Map::empty())) {
            (Ok((v, p)), Ok((w, q))) => compound_map(v@) == w && p == q && pos <= p <= data@.len(),
            (Err(e), Err(f)) => describes(e, f),
            _ => false,
        },
        res matches Ok((v, _)) ==> names_unique(NbtTag::Compound(v)),
    decreases data@.len() - pos, 0int,
{
    let mut entries: Vec<(String, NbtTag)> = Vec::new();
    let mut cur = pos;
    loop
        invariant
            pos <= cur <= data@.len(),
            spec_compound_from(data@, pos as int, Map::empty()) == spec_compound_from(
                data@,
                cur as int,
                compound_map(entries@),
            ),
            unique_names(entries@),
            forall|k: int| 0 <= k < entries@.len() ==> names_unique(#[trigger] entries@[k].1),
        decreases data@.len() - cur,
    {
        let (t, p1) = match read_u8_at(data, cur) {
            Err(e) => return Err(e),
            Ok(r) => r,
        };
        if t == 0 {
            return Ok((entries, p1));
        }
        let (name, p2) = match read_string_at(data, p1) {
            Err(e) => return Err(e),
            Ok(r) => r,
        };
        let (value, p3) = match read_payload(data, p2, t) {
            Err(e) => return Err(e),
            Ok(r) => r,
        };
        let ghost before = entries@;
        let ghost entry = (name, value);
        put_entry(&mut entries, name, value);
        proof {
            assert forall|k: int| 0 <= k < entries@.len() implies names_unique(#[trigger] entries@[k].1) by {
                if entries@[k] != entry {
                    let j = choose|j: int| 0 <= j < before.len() && entries@[k] == before[j];
                    assert(names_unique(before[j].1));
                }
            }
        }
        cur = p3;
    }
}

/// A cursor over NBT data in the little-endian layout of Bedrock Edition.
pub struct NbtReader<'a> {
    data: &'a [u8],
    offset: usize,
}

impl<'a> NbtReader<'a> {
    /// The position never runs past the end of the data.
    #[verifier::type_invariant]
    closed spec fn within_data(&self) -> bool {
        self.offset <= self.data@.len()
    }

    /// The bytes this reader decodes.
    pub closed spec fn bytes(&self) -> Seq<u8> {
        self.data@
    }

    /// The position of the next byte to decode.
    pub closed spec fn position(&self) -> int {
        self.offset as int
    }

    pub fn new(data: &'a [u8]) -> (res: Self)
        ensures
            res.bytes() == data@,
            res.position() == 0,
    {
        Self { data, offset: 0 }
    }

    pub fn offset(&self) -> (res: usize)
        ensures
            res == self.position(),
            res <= self.bytes().len(),
    {
        proof {
            use_type_invariant(self);
        }
        self.offset
    }

    /// Decodes a root tag at the current position: it must be a compound.
    /// On success the position moves past it and its name and value are
    /// returned. On failure the position stays inside the data; where it
    /// stops is not stated.
    pub fn read_root_compound(&mut self) -> (res: Result<(String, NbtTag), AmberError>)
        ensures
            0 <= final(self).position() <= final(self).bytes().len(),
            final(self).bytes() == old(self).bytes(),
            match (res, spec_root(old(self).bytes(), old(self).position())) {
                (Ok((name, tag)), Ok(((n, v), p))) => name@ == n && tag.value() == v
                    && final(self).position() == p && names_unique(tag),
                (Err(e), Err(f)) => describes(e, f),
                _ => false,
            },
    {
        proof {
            use_type_invariant(&*self);
        }
        let data = self.data;
        let pos = self.offset;
        let (t, p1) = match read_u8_at(data, pos) {
            Err(e) => return Err(e),
            Ok(r) => r,
        };
        self.offset = p1;
        if t != 10 {
            let mut m = String::from_str("expected compound tag 0x0a at root, found 0x");
            m.append(hex_string(t).as_str());
            return Err(AmberError::NbtError(m));
        }
        let (name, p2) = match read_string_at(data, p1) {
            Err(e) => return Err(e),
            Ok(r) => r,
        };
        self.offset = p2;
        let (tag, p3) = match read_payload(data, p2, 10) {
            Err(e) => return Err(e),
            Ok(r) => r,
        };
        self.offset = p3;
        Ok((name, tag))
    }
}

} // verus!

//! The wire format of serialized values.
//!
//! A stream may begin with the bytes `QJSV`. Then follow records, each with a tag byte:
//!
//! - `V`: a value, as a length in 4 bytes and so many bytes that the engine wrote;
//! - `4`: a number of 4 bytes;
//! - `8`: a number of 8 bytes;
//! - `D`: a double, as its 8 bytes;
//! - `R`: raw bytes, as a length in 4 bytes and the bytes.
//!
//! Numbers are little-endian.

use crate::bytes::{
    law_bytes_round_trip, lemma_little_endian_len, lemma_powers, little_endian, number, number_at,
    power, push_little_endian,
};
use crate::status::MaybeBool;
use vstd::prelude::*;

verus! {

/// `V`
pub const TAG_VALUE: u8 = 0x56;

/// The number 4.
pub const TAG_U32: u8 = 4;

/// The number 8.
pub const TAG_U64: u8 = 8;

/// `D`
pub const TAG_DOUBLE: u8 = 0x44;

/// `R`
pub const TAG_RAW: u8 = 0x52;

/// The version that readers of the format are told.
pub const WIRE_FORMAT_VERSION: u32 = 15;

/// `QJSV`
pub open spec fn magic() -> Seq<u8> {
    seq![0x51u8, 0x4au8, 0x53u8, 0x56u8]
}

/// The record of a number of 4 bytes.
pub open spec fn u32_record(v: u32) -> Seq<u8> {
    seq![TAG_U32] + little_endian(v as nat, 4)
}

/// The record of a number of 8 bytes.
pub open spec fn u64_record(v: u64) -> Seq<u8> {
    seq![TAG_U64] + little_endian(v as nat, 8)
}

/// The record of a double, given as its bits.
pub open spec fn double_record(bits: u64) -> Seq<u8> {
    seq![TAG_DOUBLE] + little_endian(bits as nat, 8)
}

/// The record of raw bytes that are said to be `length` many.
pub open spec fn raw_record(length: usize, bytes: Seq<u8>) -> Seq<u8> {
    seq![TAG_RAW] + little_endian(length as nat, 4) + bytes
}

/// The record of a value that the engine wrote as `blob`.
pub open spec fn value_record(blob: Seq<u8>) -> Seq<u8> {
    seq![TAG_VALUE] + little_endian(blob.len(), 4) + blob
}

/// Appends the bytes `s`.
fn push_bytes(out: &mut Vec<u8>, s: &[u8])
    ensures
        final(out)@ == old(out)@ + s@,
{
    let ghost before = out@;
    let mut i: usize = 0;
    while i < s.len()
        invariant
            i <= s.len(),
            out@ =~= before + s@.take(i as int),
        decreases s.len() - i,
    {
        out.push(s[i]);
        i += 1;
    }
    assert(s@.take(s@.len() as int) =~= s@);
}

/// A stream that is being written.
pub struct Serializer {
    buf: Vec<u8>,
}

impl View for Serializer {
    type V = Seq<u8>;

    closed spec fn view(&self) -> Seq<u8> {
        self.buf@
    }
}

impl Serializer {
    /// An empty stream.
    pub fn new() -> (r: Serializer)
        ensures
            r@ == Seq::<u8>::empty(),
    {
        Serializer { buf: Vec::new() }
    }

    /// Writes the bytes `QJSV`, unless something was written before.
    pub fn write_header(&mut self)
        ensures
            final(self)@ == if old(self)@.len() == 0 {
                magic()
            } else {
                old(self)@
            },
    {
        if self.buf.len() == 0 {
            self.buf.push(0x51);
            self.buf.push(0x4a);
            self.buf.push(0x53);
            self.buf.push(0x56);
            assert(self.buf@ =~= magic());
        }
    }

    /// Writes a value that the engine turned into `blob`; nothing, where it could not.
    pub fn write_value(&mut self, blob: Option<&[u8]>) -> (r: MaybeBool)
        ensures
            match blob {
                Some(b) => r == MaybeBool::JustTrue && final(self)@ == old(self)@ + value_record(b@),
                None => r == MaybeBool::JustFalse && final(self)@ == old(self)@,
            },
    {
        match blob {
            None => MaybeBool::JustFalse,
            Some(b) => {
                self.buf.push(TAG_VALUE);
                push_little_endian(&mut self.buf, b.len() as u64, 4);
                push_bytes(&mut self.buf, b);
                assert(self.buf@ =~= old(self)@ + value_record(b@));
                MaybeBool::JustTrue
            },
        }
    }

    /// Writes a number of 4 bytes.
    pub fn write_uint32(&mut self, value: u32)
        ensures
            final(self)@ == old(self)@ + u32_record(value),
    {
        self.buf.push(TAG_U32);
        push_little_endian(&mut self.buf, value as u64, 4);
        assert(self.buf@ =~= old(self)@ + u32_record(value));
    }

    /// Writes a number of 8 bytes.
    pub fn write_uint64(&mut self, value: u64)
        ensures
            final(self)@ == old(self)@ + u64_record(value),
    {
        self.buf.push(TAG_U64);
        push_little_endian(&mut self.buf, value, 8);
        assert(self.buf@ =~= old(self)@ + u64_record(value));
    }

    /// Writes a double, given as its bits.
    pub fn write_double(&mut self, bits: u64)
        ensures
            final(self)@ == old(self)@ + double_record(bits),
    {
        self.buf.push(TAG_DOUBLE);
        push_little_endian(&mut self.buf, bits, 8);
        assert(self.buf@ =~= old(self)@ + double_record(bits));
    }

    /// Writes raw bytes. Without a source the length alone is written.
    pub fn write_raw_bytes(&mut self, source: Option<&[u8]>, length: usize)
        requires
            source matches Some(s) ==> s@.len() == length,
        ensures
            final(self)@ == old(self)@ + raw_record(
                length,
                match source {
                    Some(s) => s@,
                    None => seq![],
                },
            ),
    {
        self.buf.push(TAG_RAW);
        push_little_endian(&mut self.buf, length as u64, 4);
        match source {
            Some(s) => {
                push_bytes(&mut self.buf, s);
                assert(self.buf@ =~= old(self)@ + raw_record(length, s@));
            },
            None => {
                assert(self.buf@ =~= old(self)@ + raw_record(length, seq![]));
            },
        }
    }

    /// The bytes written so far.
    pub fn bytes(&self) -> (r: &[u8])
        ensures
            r@ == self@,
    {
        &self.buf
    }

    /// Hands nothing out: the buffer cannot be given to an owner who would free it by a size that it was
    /// never told. The bytes stay here.
    pub fn release(&self) -> (r: Vec<u8>)
        ensures
            r@.len() == 0,
    {
        Vec::new()
    }
}

/// The byte at `pos`.
pub open spec fn byte_at(buf: Seq<u8>, pos: int) -> Option<u8> {
    if 0 <= pos < buf.len() {
        Some(buf[pos])
    } else {
        None
    }
}

/// The number of `width` bytes at `pos`.
pub open spec fn wide_at(buf: Seq<u8>, pos: int, width: int) -> Option<nat> {
    if 0 <= pos && pos + width <= buf.len() {
        Some(number(buf.subrange(pos, pos + width)))
    } else {
        None
    }
}

/// Reads a byte. Where there is none, the position stays.
pub fn read_u8(buf: &[u8], pos: &mut usize) -> (r: Option<u8>)
    ensures
        r == byte_at(buf@, *old(pos) as int),
        *final(pos) == if r is Some {
            *old(pos) + 1
        } else {
            *old(pos) as int
        },
{
    let p = *pos;
    if p >= buf.len() {
        return None;
    }
    *pos = p + 1;
    Some(buf[p])
}

/// Reads a number of 4 bytes. Where there are fewer, the position stays.
pub fn read_le_u32(buf: &[u8], pos: &mut usize) -> (r: Option<u32>)
    ensures
        match r {
            Some(v) => wide_at(buf@, *old(pos) as int, 4) == Some(v as nat) && *final(pos) == *old(
                pos,
            ) + 4,
            None => wide_at(buf@, *old(pos) as int, 4) is None && *final(pos) == *old(pos),
        },
{
    let p = *pos;
    if p > buf.len() || buf.len() - p < 4 {
        return None;
    }
    let v = number_at(buf, p, 4);
    proof {
        crate::bytes::law_number_round_trip(buf@.subrange(p as int, p + 4));
        lemma_powers();
    }
    *pos = p + 4;
    Some(v as u32)
}

/// A stream that is being read.
pub struct Deserializer {
    buf: Vec<u8>,
    pos: usize,
}

/// What a stream holds and how far it has been read.
#[verifier::ext_equal]
pub struct Reading {
    pub buf: Seq<u8>,
    pub pos: int,
}

impl View for Deserializer {
    type V = Reading;

    closed spec fn view(&self) -> Reading {
        Reading { buf: self.buf@, pos: self.pos as int }
    }
}

/// The stream read up to `pos`.
pub open spec fn at(r: Reading, pos: int) -> Reading {
    Reading { pos, ..r }
}

/// A header stands at the position.
pub open spec fn header_next(r: Reading) -> bool {
    r.pos + 4 <= r.buf.len() && r.buf.subrange(r.pos, r.pos + 4) == magic()
}

/// The record with tag `tag` and a number of `width` bytes at the position: the number, and the position
/// behind it.
pub open spec fn number_record(r: Reading, tag: u8, width: int) -> Option<(nat, int)> {
    if byte_at(r.buf, r.pos) == Some(tag) {
        match wide_at(r.buf, r.pos + 1, width) {
            Some(v) => Some((v, r.pos + 1 + width)),
            None => None,
        }
    } else {
        None
    }
}

/// The bytes of the value record at the position: where they begin and how many they are.
pub open spec fn value_bytes(r: Reading) -> Option<(int, int)> {
    match number_record(r, TAG_VALUE, 4) {
        Some((len, start)) => if start + len <= r.buf.len() {
            Some((start, len as int))
        } else {
            None
        },
        None => None,
    }
}

/// How far a stream has been read once its value record has been asked for. A record that is no value
/// record costs its tag, one that is cut short what could be read of it.
pub open spec fn after_value(r: Reading) -> int {
    if r.pos >= r.buf.len() {
        r.pos
    } else if r.buf[r.pos] != TAG_VALUE {
        r.pos + 1
    } else {
        match wide_at(r.buf, r.pos + 1, 4) {
            None => r.pos + 1,
            Some(len) => if r.pos + 5 + len <= r.buf.len() {
                r.pos + 5 + len
            } else {
                r.pos + 5
            },
        }
    }
}

/// Where the bytes of the raw record at the position begin, if `length` bytes are left there.
pub open spec fn raw_bytes(r: Reading, length: int) -> Option<int> {
    match number_record(r, TAG_RAW, 4) {
        Some((_, start)) => if start + length <= r.buf.len() {
            Some(start)
        } else {
            None
        },
        None => None,
    }
}

impl Deserializer {
    /// The position lies within the bytes.
    pub closed spec fn well_formed(&self) -> bool {
        self.pos <= self.buf@.len()
    }

    /// A stream of these bytes, at its beginning.
    pub fn new(bytes: Vec<u8>) -> (r: Deserializer)
        ensures
            r@ == (Reading { buf: bytes@, pos: 0 }),
            r.well_formed(),
    {
        Deserializer { buf: bytes, pos: 0 }
    }

    /// All bytes of the stream.
    pub fn bytes(&self) -> (r: &[u8])
        ensures
            r@ == self@.buf,
    {
        &self.buf
    }

    /// Reads a header, where there is one.
    pub fn read_header(&mut self) -> (r: MaybeBool)
        requires
            old(self).well_formed(),
        ensures
            r == MaybeBool::JustTrue,
            final(self).well_formed(),
            final(self)@ == if header_next(old(self)@) {
                at(old(self)@, old(self)@.pos + 4)
            } else {
                old(self)@
            },
    {
        let p = self.pos;
        if self.buf.len() - p >= 4 && self.buf[p] == 0x51 && self.buf[p + 1] == 0x4a
            && self.buf[p + 2] == 0x53 && self.buf[p + 3] == 0x56 {
            assert(self.buf@.subrange(p as int, p + 4) =~= magic());
            self.pos = p + 4;
        } else {
            proof {
                if header_next(self@) {
                    let s = self.buf@.subrange(p as int, p + 4);
                    assert(s[0] == 0x51 && s[1] == 0x4a && s[2] == 0x53 && s[3] == 0x56);
                }
            }
        }
        MaybeBool::JustTrue
    }

    /// Reads a value record: where its bytes begin and how many they are.
    pub fn read_value(&mut self) -> (r: Option<(usize, usize)>)
        requires
            old(self).well_formed(),
        ensures
            final(self).well_formed(),
            match r {
                Some((start, len)) => value_bytes(old(self)@) == Some((start as int, len as int)),
                None => value_bytes(old(self)@) is None,
            },
            final(self)@ == at(old(self)@, after_value(old(self)@)),
    {
        match read_u8(&self.buf, &mut self.pos) {
            Some(tag) => {
                if tag != TAG_VALUE {
                    return None;
                }
            },
            None => {
                return None;
            },
        }
        match read_le_u32(&self.buf, &mut self.pos) {
            None => None,
            Some(len) => {
                let start = self.pos;
                if (self.buf.len() - start) as u64 >= len as u64 {
                    self.pos = start + len as usize;
                    Some((start, len as usize))
                } else {
                    None
                }
            },
        }
    }

    /// Reads a record with tag `tag` and a number of `width` bytes; leaves the position where it is if
    /// there is none.
    fn read_number(&mut self, tag: u8, width: usize) -> (r: Option<u64>)
        requires
            old(self).well_formed(),
            width == 4 || width == 8,
        ensures
            final(self).well_formed(),
            match r {
                Some(v) => number_record(old(self)@, tag, width as int) == Some(
                    (v as nat, final(self)@.pos),
                ) && final(self)@ == at(old(self)@, old(self)@.pos + 1 + width),
                None => number_record(old(self)@, tag, width as int) is None && final(self)@ == old(
                    self,
                )@,
            },
    {
        let p = self.pos;
        if p >= self.buf.len() || self.buf[p] != tag || self.buf.len() - p - 1 < width {
            return None;
        }
        let v = number_at(&self.buf, p + 1, width);
        self.pos = p + 1 + width;
        Some(v)
    }

    /// Reads a number of 4 bytes; leaves the position where it is if there is none.
    pub fn read_uint32(&mut self) -> (r: Option<u32>)
        requires
            old(self).well_formed(),
        ensures
            final(self).well_formed(),
            match r {
                Some(v) => number_record(old(self)@, TAG_U32, 4) == Some(
                    (v as nat, final(self)@.pos),
                ) && final(self)@ == at(old(self)@, old(self)@.pos + 5),
                None => number_record(old(self)@, TAG_U32, 4) is None && final(self)@ == old(self)@,
            },
    {
        let ghost r = self@;
        match self.read_number(TAG_U32, 4) {
            Some(v) => {
                proof {
                    crate::bytes::law_number_round_trip(
                        r.buf.subrange(r.pos + 1, r.pos + 5),
                    );
                    lemma_powers();
                }
                Some(v as u32)
            },
            None => None,
        }
    }

    /// Reads a number of 8 bytes; leaves the position where it is if there is none.
    pub fn read_uint64(&mut self) -> (r: Option<u64>)
        requires
            old(self).well_formed(),
        ensures
            final(self).well_formed(),
            match r {
                Some(v) => number_record(old(self)@, TAG_U64, 8) == Some(
                    (v as nat, final(self)@.pos),
                ) && final(self)@ == at(old(self)@, old(self)@.pos + 9),
                None => number_record(old(self)@, TAG_U64, 8) is None && final(self)@ == old(self)@,
            },
    {
        self.read_number(TAG_U64, 8)
    }

    /// Reads the bits of a double; leaves the position where it is if there is none.
    pub fn read_double(&mut self) -> (r: Option<u64>)
        requires
            old(self).well_formed(),
        ensures
            final(self).well_formed(),
            match r {
                Some(v) => number_record(old(self)@, TAG_DOUBLE, 8) == Some(
                    (v as nat, final(self)@.pos),
                ) && final(self)@ == at(old(self)@, old(self)@.pos + 9),
                None => number_record(old(self)@, TAG_DOUBLE, 8) is None && final(self)@ == old(
                    self,
                )@,
            },
    {
        self.read_number(TAG_DOUBLE, 8)
    }

    /// Reads `length` bytes of a raw record, whatever length it says; the result is where they begin.
    /// Leaves the position where it is if there are not so many.
    pub fn read_raw_bytes(&mut self, length: usize) -> (r: Option<usize>)
        requires
            old(self).well_formed(),
        ensures
            final(self).well_formed(),
            match r {
                Some(start) => raw_bytes(old(self)@, length as int) == Some(start as int)
                    && final(self)@ == at(old(self)@, start + length),
                None => raw_bytes(old(self)@, length as int) is None && final(self)@ == old(self)@,
            },
    {
        let p = self.pos;
        match self.read_number(TAG_RAW, 4) {
            None => None,
            Some(_) => {
                let start = self.pos;
                if self.buf.len() - start < length {
                    self.pos = p;
                    return None;
                }
                self.pos = start + length;
                Some(start)
            },
        }
    }
}

/// The stream of `before`, the bytes `record` and `rest`, read up to the record.
pub open spec fn reading(before: Seq<u8>, record: Seq<u8>, rest: Seq<u8>) -> Reading {
    Reading { buf: before + record + rest, pos: before.len() as int }
}

proof fn lemma_number_record(before: Seq<u8>, tag: u8, n: nat, width: nat, rest: Seq<u8>)
    requires
        n < power(width),
    ensures
        number_record(
            reading(before, seq![tag] + little_endian(n, width), rest),
            tag,
            width as int,
        ) == Some((n, before.len() + 1int + width)),
{
    lemma_little_endian_len(n, width);
    law_bytes_round_trip(n, width);
    let r = reading(before, seq![tag] + little_endian(n, width), rest);
    assert(r.buf.subrange(r.pos + 1, r.pos + 1 + width) =~= little_endian(n, width));
}

/// A number of 4 bytes that was written is read back, whatever stands before and behind it.
pub proof fn law_uint32_round_trip(before: Seq<u8>, v: u32, rest: Seq<u8>)
    ensures
        number_record(reading(before, u32_record(v), rest), TAG_U32, 4) == Some(
            (v as nat, (before + u32_record(v)).len() as int),
        ),
{
    lemma_powers();
    lemma_number_record(before, TAG_U32, v as nat, 4, rest);
    lemma_little_endian_len(v as nat, 4);
}

/// A number of 8 bytes that was written is read back, whatever stands before and behind it.
pub proof fn law_uint64_round_trip(before: Seq<u8>, v: u64, rest: Seq<u8>)
    ensures
        number_record(reading(before, u64_record(v), rest), TAG_U64, 8) == Some(
            (v as nat, (before + u64_record(v)).len() as int),
        ),
{
    lemma_powers();
    lemma_number_record(before, TAG_U64, v as nat, 8, rest);
    lemma_little_endian_len(v as nat, 8);
}

/// The bits of a double that was written are read back, whatever stands before and behind them.
pub proof fn law_double_round_trip(before: Seq<u8>, bits: u64, rest: Seq<u8>)
    ensures
        number_record(reading(before, double_record(bits), rest), TAG_DOUBLE, 8) == Some(
            (bits as nat, (before + double_record(bits)).len() as int),
        ),
{
    lemma_powers();
    lemma_number_record(before, TAG_DOUBLE, bits as nat, 8, rest);
    lemma_little_endian_len(bits as nat, 8);
}

/// The bytes of a value that was written are read back, whatever stands before and behind them, as long
/// as their number fits its 4 bytes.
pub proof fn law_value_round_trip(before: Seq<u8>, blob: Seq<u8>, rest: Seq<u8>)
    requires
        blob.len() <= u32::MAX,
    ensures
        ({
            let r = reading(before, value_record(blob), rest);
            &&& value_bytes(r) == Some((before.len() + 5int, blob.len() as int))
            &&& r.buf.subrange(before.len() + 5int, before.len() + 5int + blob.len()) == blob
            &&& after_value(r) == (before + value_record(blob)).len()
        }),
{
    lemma_powers();
    lemma_little_endian_len(blob.len(), 4);
    let head = seq![TAG_VALUE] + little_endian(blob.len(), 4);
    let r = reading(before, value_record(blob), rest);
    assert(r.buf =~= before + head + (blob + rest));
    lemma_number_record(before, TAG_VALUE, blob.len(), 4, blob + rest);
    assert(r.buf.subrange(before.len() + 5int, before.len() + 5int + blob.len()) =~= blob);
}

/// Raw bytes that were written are read back, whatever stands before and behind them, as long as their
/// number fits its 4 bytes.
pub proof fn law_raw_bytes_round_trip(before: Seq<u8>, bytes: Seq<u8>, rest: Seq<u8>)
    requires
        bytes.len() <= u32::MAX,
        bytes.len() <= usize::MAX,
    ensures
        ({
            let r = reading(before, raw_record(bytes.len() as usize, bytes), rest);
            &&& raw_bytes(r, bytes.len() as int) == Some(before.len() + 5int)
            &&& r.buf.subrange(before.len() + 5int, before.len() + 5int + bytes.len()) == bytes
        }),
{
    lemma_powers();
    lemma_little_endian_len(bytes.len(), 4);
    let head = seq![TAG_RAW] + little_endian(bytes.len(), 4);
    let r = reading(before, raw_record(bytes.len() as usize, bytes), rest);
    assert(r.buf =~= before + head + (bytes + rest));
    lemma_number_record(before, TAG_RAW, bytes.len(), 4, bytes + rest);
    assert(r.buf.subrange(before.len() + 5int, before.len() + 5int + bytes.len()) =~= bytes);
}

/// The header of a stream is read over, and nothing is lost by reading the header of a stream that begins
/// with a record.
pub proof fn law_header_is_optional(rest: Seq<u8>)
    ensures
        header_next(Reading { buf: magic() + rest, pos: 0 }),
        rest.len() > 0 && rest[0] != 0x51 ==> !header_next(Reading { buf: rest, pos: 0 }),
{
    assert((magic() + rest).subrange(0, 4) =~= magic());
    if rest.len() >= 4 && rest.subrange(0, 4) == magic() {
        assert(rest.subrange(0, 4)[0] == 0x51);
    }
}

/// A record is its tag, then its number from the lowest byte on, then its bytes.
pub proof fn law_layout_of_records(v: u32, w: u64, n: usize, bytes: Seq<u8>)
    requires
        n <= u32::MAX,
        bytes.len() <= u32::MAX,
    ensures
        u32_record(v).len() == 5 && u32_record(v)[0] == 4 && number(u32_record(v).skip(1)) == v,
        u64_record(w).len() == 9 && u64_record(w)[0] == 8 && number(u64_record(w).skip(1)) == w,
        double_record(w).len() == 9 && double_record(w)[0] == 0x44 && number(double_record(w).skip(1))
            == w,
        raw_record(n, bytes)[0] == 0x52 && number(raw_record(n, bytes).subrange(1, 5)) == n
            && raw_record(n, bytes).skip(5) == bytes,
        value_record(bytes)[0] == 0x56 && number(value_record(bytes).subrange(1, 5)) == bytes.len()
            && value_record(bytes).skip(5) == bytes,
        magic() == seq![0x51u8, 0x4a, 0x53, 0x56],
{
    lemma_width(v as nat, 4);
    lemma_width(w as nat, 8);
    lemma_width(n as nat, 4);
    lemma_width(bytes.len(), 4);
    reveal_with_fuel(power, 9);
    law_bytes_round_trip(v as nat, 4);
    law_bytes_round_trip(w as nat, 8);
    law_bytes_round_trip(n as nat, 4);
    law_bytes_round_trip(bytes.len(), 4);
    assert(u32_record(v).skip(1) =~= little_endian(v as nat, 4));
    assert(u64_record(w).skip(1) =~= little_endian(w as nat, 8));
    assert(double_record(w).skip(1) =~= little_endian(w as nat, 8));
    assert(raw_record(n, bytes).subrange(1, 5) =~= little_endian(n as nat, 4));
    assert(raw_record(n, bytes).skip(5) =~= bytes);
    assert(value_record(bytes).subrange(1, 5) =~= little_endian(bytes.len(), 4));
    assert(value_record(bytes).skip(5) =~= bytes);
}

proof fn lemma_width(n: nat, width: nat)
    ensures
        little_endian(n, width).len() == width,
    decreases width,
{
    if width > 0 {
        lemma_width(n / 256, (width - 1) as nat);
    }
}

/// A record of another kind, or one that the bytes do not hold in full, is not read.
pub proof fn law_other_records_are_not_read(r: Reading, tag: u8, width: int)
    requires
        0 <= r.pos,
        width >= 0,
    ensures
        r.pos >= r.buf.len() ==> number_record(r, tag, width) is None,
        0 <= r.pos < r.buf.len() && r.buf[r.pos] != tag ==> number_record(r, tag, width) is None,
        r.pos + 1 + width > r.buf.len() ==> number_record(r, tag, width) is None,
        0 <= r.pos && r.pos + 1 + width <= r.buf.len() && r.buf[r.pos] == tag ==> number_record(
            r,
            tag,
            width,
        ) == Some((number(r.buf.subrange(r.pos + 1, r.pos + 1 + width)), r.pos + 1 + width)),
{
}

/// A value whose length goes beyond the bytes is not read; the tag and the length count as read.
pub proof fn law_cut_values(before: Seq<u8>, n: u32, rest: Seq<u8>)
    requires
        rest.len() < n,
    ensures
        ({
            let r = reading(before, seq![0x56u8] + little_endian(n as nat, 4), rest);
            value_bytes(r) is None && after_value(r) == before.len() + 5
        }),
{
    let record = seq![0x56u8] + little_endian(n as nat, 4);
    let r = reading(before, record, rest);
    lemma_width(n as nat, 4);
    reveal_with_fuel(power, 5);
    law_bytes_round_trip(n as nat, 4);
    let p = before.len() as int;
    assert(r.buf[p] == 0x56);
    assert(r.buf.subrange(p + 1, p + 5) =~= little_endian(n as nat, 4));
}

/// Where there is no value, one byte is passed over; at the end nothing is.
pub proof fn law_no_value(r: Reading)
    requires
        0 <= r.pos <= r.buf.len(),
        r.pos < r.buf.len() ==> r.buf[r.pos] != 0x56,
    ensures
        value_bytes(r) is None,
        r.pos < r.buf.len() ==> after_value(r) == r.pos + 1,
        r.pos == r.buf.len() ==> after_value(r) == r.pos,
{
}

/// Raw bytes are read as far as they are asked for, whatever length was written, as long as there are as many.
pub proof fn law_raw_bytes_asked_for(before: Seq<u8>, n: u32, rest: Seq<u8>, length: int)
    requires
        length >= 0,
    ensures
        ({
            let r = reading(before, seq![0x52u8] + little_endian(n as nat, 4), rest);
            raw_bytes(r, length) == if length <= rest.len() {
                Some(before.len() + 5int)
            } else {
                None
            }
        }),
{
    let record = seq![0x52u8] + little_endian(n as nat, 4);
    let r = reading(before, record, rest);
    lemma_width(n as nat, 4);
    let p = before.len() as int;
    assert(r.buf[p] == 0x52);
    assert(r.buf.len() == p + 5 + rest.len());
}

} // verus!

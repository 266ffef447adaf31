//! Writing strings to buffers, and looking at their contents.

use crate::string::{
    char_units, contains_only_one_byte, lossy_text, narrow, narrowed, one_byte, passed_length,
    units_of_utf8, utf16,
};
use crate::utf8::{byte_offset, char_width, fitting, fitting_from, lemma_character, lemma_fitting};
use vstd::prelude::*;
use vstd::slice::slice_subrange;
use vstd::utf8::{decode_utf8, encode_utf8, valid_utf8};

verus! {

/// The number of bytes of the character that this byte begins.
pub open spec fn sequence_length(b: u8) -> int {
    if b < 0x80 {
        1
    } else if b < 0xe0 {
        2
    } else if b < 0xf0 {
        3
    } else {
        4
    }
}

/// The number of 16-bit units of a character of so many bytes.
pub open spec fn sequence_units(length: int) -> int {
    if length == 4 {
        2
    } else {
        1
    }
}

/// From the byte `i` on, with `units` units before it: where the last character ends that fits into `cap`
/// bytes, and how many units there are up to there.
pub open spec fn complete_prefix(s: Seq<u8>, cap: int, i: int, units: int) -> (int, int)
    decreases s.len() + 4 - i,
{
    if i < 0 || i >= s.len() {
        (i, units)
    } else {
        let n = sequence_length(s[i]);
        if i + n > cap {
            (i, units)
        } else {
            complete_prefix(s, cap, i + n, units + sequence_units(n))
        }
    }
}

/// Where the last character ends that fits into `cap` bytes, and how many 16-bit units there are up to
/// there.
pub fn utf8_complete_prefix(s: &[u8], cap: usize) -> (r: (usize, usize))
    ensures
        (r.0 as int, r.1 as int) == complete_prefix(s@, cap as int, 0, 0),
        r.0 <= cap,
{
    let mut i: usize = 0;
    let mut units: usize = 0;
    while i < s.len()
        invariant
            units <= i <= cap,
            complete_prefix(s@, cap as int, i as int, units as int) == complete_prefix(
                s@,
                cap as int,
                0,
                0,
            ),
        decreases s.len() + 4 - i,
    {
        let b = s[i];
        let n: usize = if b < 0x80 {
            1
        } else if b < 0xe0 {
            2
        } else if b < 0xf0 {
            3
        } else {
            4
        };
        if n > cap - i {
            return (i, units);
        }
        units += if n == 4 {
            2
        } else {
            1
        };
        i += n;
    }
    (i, units)
}

proof fn lemma_prefix(text: Seq<char>, cap: int, k: int)
    requires
        0 <= k <= text.len(),
        byte_offset(text, k) <= cap,
    ensures
        complete_prefix(
            encode_utf8(text),
            cap,
            byte_offset(text, k),
            utf16(text.take(k)).len() as int,
        ) == (
            byte_offset(text, fitting_from(text, cap, k)),
            utf16(text.take(fitting_from(text, cap, k))).len() as int,
        ),
    decreases text.len() - k,
{
    let s = encode_utf8(text);
    if k < text.len() {
        lemma_character(text, k);
        let n = char_width(text[k]);
        let o = byte_offset(text, k);
        assert(o + n == byte_offset(text, k + 1));
        if o + n <= cap {
            assert(text.take(k + 1).drop_last() =~= text.take(k));
            assert(text.take(k + 1).last() == text[k]);
            assert(char_units(text[k]).len() == sequence_units(n));
            lemma_prefix(text, cap, k + 1);
        }
    } else {
        assert(text.take(k) =~= text);
    }
}

/// Of a text, as many whole characters as fit are taken: none is split, and one more would not fit. The
/// units that are counted are those of these characters.
pub proof fn law_prefix_is_whole_characters(text: Seq<char>, cap: int)
    requires
        cap >= 0,
    ensures
        complete_prefix(encode_utf8(text), cap, 0, 0) == (
            byte_offset(text, fitting(text, cap)),
            utf16(text.take(fitting(text, cap))).len() as int,
        ),
        byte_offset(text, fitting(text, cap)) <= cap,
        fitting(text, cap) < text.len() ==> byte_offset(text, fitting(text, cap) + 1) > cap,
{
    assert(text.take(0) =~= seq![]);
    lemma_prefix(text, cap, 0);
    lemma_fitting(text, cap, 0);
}

/// A buffer after bytes were written to its beginning, and a zero behind them if there was room.
pub open spec fn terminated(buffer: Seq<u8>, bytes: Seq<u8>, capacity: int) -> Seq<u8> {
    let n = bytes.len() as int;
    if n < capacity {
        bytes + seq![0u8] + buffer.skip(n + 1)
    } else {
        bytes + buffer.skip(n)
    }
}

/// How many bytes of a string are written to a buffer with room for `capacity`, and how many units they
/// stand for: all, where there is room.
pub open spec fn utf8_written(utf8: Seq<u8>, char_count: int, capacity: int) -> (int, int) {
    if utf8.len() <= capacity {
        (utf8.len() as int, char_count)
    } else {
        complete_prefix(utf8, capacity, 0, 0)
    }
}

/// Writes the bytes of a string of `char_count` units to a buffer with room for `capacity`. The result is how
/// many bytes were written and how many units they stand for.
pub fn write_utf8(utf8: &[u8], char_count: usize, capacity: usize, buffer: &mut Vec<u8>) -> (r: (
    usize,
    usize,
))
    requires
        old(buffer)@.len() >= capacity,
    ensures
        (r.0 as int, r.1 as int) == utf8_written(utf8@, char_count as int, capacity as int),
        r.0 <= utf8@.len(),
        final(buffer)@ == terminated(old(buffer)@, utf8@.take(r.0 as int), capacity as int),
{
    let (copy, units) = if utf8.len() <= capacity {
        (utf8.len(), char_count)
    } else {
        utf8_complete_prefix(utf8, capacity)
    };
    let ghost before = buffer@;
    let mut i: usize = 0;
    while i < copy
        invariant
            i <= copy <= utf8@.len(),
            copy <= capacity,
            buffer@.len() == before.len(),
            before.len() >= capacity,
            buffer@ =~= utf8@.take(i as int) + before.skip(i as int),
        decreases copy - i,
    {
        buffer[i] = utf8[i];
        i += 1;
    }
    if copy < capacity {
        buffer[copy] = 0;
    }
    assert(buffer@ =~= terminated(before, utf8@.take(copy as int), capacity as int));
    (copy, units)
}

/// The number of bytes of a string, by the number that the engine wrote, the final zero among them.
pub fn utf8_length(written: usize) -> (r: usize)
    ensures
        r == if written == 0 {
            0
        } else {
            written - 1
        },
{
    if written == 0 {
        0
    } else {
        written - 1
    }
}

/// The bit that says that the units are bytes.
pub const ONE_BYTE_FLAG: u64 = 0x8000_0000_0000_0000;

/// A length of less than 63 bits and a flag in one word.
pub open spec fn packed(len: u64, is_one_byte: bool) -> u64 {
    (len & !ONE_BYTE_FLAG) | if is_one_byte {
        ONE_BYTE_FLAG
    } else {
        0
    }
}

/// A length and a flag in one word.
pub fn pack(len: u64, is_one_byte: bool) -> (r: u64)
    ensures
        r == packed(len, is_one_byte),
{
    (len & !ONE_BYTE_FLAG) | if is_one_byte {
        ONE_BYTE_FLAG
    } else {
        0
    }
}

/// The length in a word.
pub fn length(word: u64) -> (r: u64)
    ensures
        r == word & !ONE_BYTE_FLAG,
{
    word & !ONE_BYTE_FLAG
}

/// The flag in a word.
pub fn is_one_byte(word: u64) -> (r: bool)
    ensures
        r == (word & ONE_BYTE_FLAG != 0),
{
    word & ONE_BYTE_FLAG != 0
}

/// What was packed is read back, as long as the length leaves the bit of the flag free.
pub proof fn law_packed_is_read_back(len: u64, is_one_byte: bool)
    requires
        len < ONE_BYTE_FLAG,
    ensures
        packed(len, is_one_byte) & !ONE_BYTE_FLAG == len,
        (packed(len, is_one_byte) & ONE_BYTE_FLAG != 0) == is_one_byte,
{
    assert(len < 0x8000_0000_0000_0000 ==> ((len & !0x8000_0000_0000_0000u64)
        | 0x8000_0000_0000_0000u64) & !0x8000_0000_0000_0000u64 == len && ((len
        & !0x8000_0000_0000_0000u64) | 0x8000_0000_0000_0000u64) & 0x8000_0000_0000_0000u64 != 0)
        by (bit_vector);
    assert(len < 0x8000_0000_0000_0000 ==> ((len & !0x8000_0000_0000_0000u64) | 0u64)
        & !0x8000_0000_0000_0000u64 == len && ((len & !0x8000_0000_0000_0000u64) | 0u64)
        & 0x8000_0000_0000_0000u64 == 0) by (bit_vector);
}

/// A look at the contents of a string.
pub enum ValueView {
    /// There is no string.
    Empty,
    /// Its units, each in a byte.
    OneByte(Vec<u8>),
    /// Its units, where they are.
    TwoByte,
}

/// A look at the contents of a string of `len` units: without access to them they count as zeros; units that
/// all fit a byte are copied to bytes.
pub fn value_view(has_string: bool, len: usize, units: Option<&[u16]>) -> (r: ValueView)
    requires
        units matches Some(u) ==> u@.len() == len,
    ensures
        match r {
            ValueView::Empty => !has_string,
            ValueView::OneByte(b) => has_string && b@ == match units {
                Some(u) => narrowed(u@),
                None => Seq::new(len as nat, |i: int| 0u8),
            } && (units matches Some(u) ==> one_byte(u@)),
            ValueView::TwoByte => has_string && units is Some && !one_byte(units->0@),
        },
{
    if !has_string {
        return ValueView::Empty;
    }
    match units {
        None => {
            let mut zeros: Vec<u8> = Vec::new();
            let mut i: usize = 0;
            while i < len
                invariant
                    i <= len,
                    zeros@ =~= Seq::new(i as nat, |j: int| 0u8),
                decreases len - i,
            {
                zeros.push(0);
                i += 1;
            }
            ValueView::OneByte(zeros)
        },
        Some(u) => {
            if contains_only_one_byte(u) {
                ValueView::OneByte(narrow(u))
            } else {
                ValueView::TwoByte
            }
        },
    }
}

/// The units of a new string, by the bytes that the embedder passed; none where it passed nothing.
pub fn new_from_utf8(data: Option<&[u8]>, length: i32) -> (r: Option<Vec<u16>>)
    requires
        data matches Some(d) ==> length <= d@.len(),
    ensures
        match r {
            Some(units) => {
                &&& data matches Some(d)
                &&& length >= 0
                &&& units@ == utf16(lossy_text(d@.take(length as int)))
                &&& valid_utf8(d@.take(length as int)) ==> units@ == utf16(
                    decode_utf8(d@.take(length as int)),
                )
            },
            None => data is None || length < 0,
        },
{
    match (data, passed_length(data.is_some(), length)) {
        (Some(d), Some(n)) => {
            let bytes = slice_subrange(d, 0, n);
            assert(bytes@ =~= d@.take(length as int));
            Some(units_of_utf8(bytes))
        },
        _ => None,
    }
}

/// How many bytes a character takes is told by its first byte.
pub proof fn law_first_bytes(b: u8)
    ensures
        b <= 0x7f ==> sequence_length(b) == 1,
        0xc0 <= b <= 0xdf ==> sequence_length(b) == 2,
        0xe0 <= b <= 0xef ==> sequence_length(b) == 3,
        0xf0 <= b ==> sequence_length(b) == 4,
        0x80 <= b <= 0xbf ==> sequence_length(b) == 2,
        sequence_units(1) == 1 && sequence_units(2) == 1 && sequence_units(3) == 1,
        sequence_units(4) == 2,
{
}

/// Where all fits, all is written and counted; else the whole characters that fit.
pub proof fn law_written_or_cut(utf8: Seq<u8>, count: int, capacity: int, text: Seq<char>)
    requires
        capacity >= 0,
    ensures
        utf8.len() <= capacity ==> utf8_written(utf8, count, capacity) == (utf8.len() as int, count),
        utf8 == encode_utf8(text) && utf8.len() > capacity ==> utf8_written(utf8, count, capacity)
            == (
            byte_offset(text, fitting(text, capacity)),
            utf16(text.take(fitting(text, capacity))).len() as int,
        ),
{
    if utf8 == encode_utf8(text) {
        law_prefix_is_whole_characters(text, capacity);
    }
}

/// Writing puts the bytes first and a zero behind them where it fits, and leaves the rest of the buffer.
pub proof fn law_terminated(buffer: Seq<u8>, bytes: Seq<u8>, capacity: int)
    requires
        bytes.len() <= capacity <= buffer.len(),
    ensures
        ({
            let r = terminated(buffer, bytes, capacity);
            &&& r.len() == buffer.len()
            &&& forall|i: int| 0 <= i < bytes.len() ==> r[i] == bytes[i]
            &&& forall|i: int| bytes.len() < i < buffer.len() ==> r[i] == buffer[i]
            &&& bytes.len() < buffer.len() ==> r[bytes.len() as int] == if bytes.len() < capacity {
                0u8
            } else {
                buffer[bytes.len() as int]
            }
        }),
{
}

/// A length below 2 to the 63rd is packed as itself, with the highest bit for the flag.
pub proof fn law_packed_word(len: u64)
    requires
        len < 0x8000_0000_0000_0000,
    ensures
        packed(len, false) == len,
        packed(len, true) == len + 0x8000_0000_0000_0000,
{
    assert(len < 0x8000_0000_0000_0000 ==> (len & !0x8000_0000_0000_0000u64) | 0u64 == len && (len
        & !0x8000_0000_0000_0000u64) | 0x8000_0000_0000_0000u64 == len + 0x8000_0000_0000_0000u64)
        by (bit_vector);
}

/// The zero at the end is not counted.
pub proof fn law_length_without_zero(written: usize, r: usize)
    requires
        call_ensures(utf8_length, (written,), r),
    ensures
        written > 0 ==> r + 1 == written,
        written == 0 ==> r == 0,
{
}

/// What was packed is told by the functions that read a word.
pub proof fn law_words_are_read(len: u64, flag: bool, word: u64, n: u64, one: bool)
    requires
        len < 0x8000_0000_0000_0000,
        call_ensures(pack, (len, flag), word),
        call_ensures(length, (word,), n),
        call_ensures(is_one_byte, (word,), one),
    ensures
        n == len,
        one == flag,
{
    law_packed_is_read_back(len, flag);
}

} // verus!

//! Writing strings to buffers.

use crate::string::{decoded, from_utf16_lossy, lossy_text, passed_length, units_of_utf8, utf16};
use crate::text::string_of;
use crate::utf8::{byte_offset, fitting, lemma_character, lemma_encode_concat, lemma_fitting};
use vstd::prelude::*;
use vstd::slice::slice_subrange;
use vstd::utf8::{
    decode_utf8, decode_utf8_encode_utf8, encode_utf8, encode_utf8_decode_utf8,
    encode_utf8_valid_utf8, is_continuation_byte, valid_utf8,
};

verus! {

/// The last position up to `i` at which a character begins.
pub open spec fn backed_up(s: Seq<u8>, i: int) -> int
    decreases i,
{
    if 0 < i < s.len() && is_continuation_byte(s[i]) {
        backed_up(s, i - 1)
    } else {
        i
    }
}

/// How many bytes of a string are written to a buffer with room for `capacity`: all, where there is room,
/// or as many as end where a character does.
pub open spec fn utf8_fit(s: Seq<u8>, capacity: int) -> int {
    if s.len() <= capacity {
        s.len() as int
    } else {
        backed_up(s, capacity)
    }
}

/// How many bytes of a string are written to a buffer with room for `capacity`.
pub fn utf8_copy_length(s: &[u8], capacity: usize) -> (r: usize)
    ensures
        r == utf8_fit(s@, capacity as int),
        r <= capacity,
        r <= s@.len(),
{
    if s.len() <= capacity {
        return s.len();
    }
    let mut copy: usize = capacity;
    while copy > 0 && s[copy] >= 0x80 && s[copy] <= 0xbf
        invariant
            copy <= capacity < s@.len(),
            backed_up(s@, copy as int) == backed_up(s@, capacity as int),
        decreases copy,
    {
        copy -= 1;
    }
    copy
}

/// A buffer after bytes were written to its beginning, and a zero behind them if it was asked for and
/// there was room.
pub open spec fn written(buffer: Seq<u8>, bytes: Seq<u8>, capacity: int, terminate: bool) -> Seq<u8> {
    let n = bytes.len() as int;
    if terminate && n < capacity {
        bytes + seq![0u8] + buffer.skip(n + 1)
    } else {
        bytes + buffer.skip(n)
    }
}

/// Writes the bytes of a string to a buffer with room for `capacity`. The result is how many bytes were
/// written and how many units they stand for.
pub fn write_utf8(utf8: &[u8], capacity: usize, buffer: &mut Vec<u8>, null_terminate: bool) -> (r: (
    usize,
    usize,
))
    requires
        old(buffer)@.len() >= capacity,
    ensures
        r.0 == utf8_fit(utf8@, capacity as int),
        r.0 <= utf8@.len(),
        r.1 == utf16(lossy_text(utf8@.take(r.0 as int))).len(),
        valid_utf8(utf8@) ==> {
            let text = decode_utf8(utf8@);
            r.1 == utf16(text.take(fitting(text, capacity as int))).len()
        },
        final(buffer)@ == written(
            old(buffer)@,
            utf8@.take(r.0 as int),
            capacity as int,
            null_terminate,
        ),
{
    let copy = utf8_copy_length(utf8, capacity);
    let ghost before = buffer@;
    let mut i: usize = 0;
    while i < copy
        invariant
            i <= copy <= utf8@.len(),
            copy <= capacity,
            buffer@.len() == before.len(),
            before.len() >= capacity,
            buffer@ =~= utf8@.take(i as int) + before.skip(i as int),
        decreases copy - i,
    {
        buffer[i] = utf8[i];
        i += 1;
    }
    if null_terminate && copy < capacity {
        buffer[copy] = 0;
    }
    assert(buffer@ =~= written(before, utf8@.take(copy as int), capacity as int, null_terminate));
    let head = slice_subrange(utf8, 0, copy);
    assert(head@ =~= utf8@.take(copy as int));
    proof {
        if valid_utf8(utf8@) {
            let text = decode_utf8(utf8@);
            let n = fitting(text, capacity as int);
            decode_utf8_encode_utf8(utf8@);
            law_written_are_whole_characters(text, capacity as int);
            assert(text.take(0) =~= seq![]);
            lemma_fitting(text, capacity as int, 0);
            assert(text =~= text.take(n) + text.skip(n));
            lemma_encode_concat(text.take(n), text.skip(n));
            assert(head@ =~= encode_utf8(text.take(n)));
            encode_utf8_valid_utf8(text.take(n));
            encode_utf8_decode_utf8(text.take(n));
        }
    }
    let units = units_of_utf8(head);
    (copy, units.len())
}

/// The units of a string, by the bytes that the engine gives of it; none where it gives none.
pub fn handle_to_utf16(utf8: Option<&[u8]>) -> (r: Vec<u16>)
    ensures
        match utf8 {
            Some(b) => r@ == utf16(lossy_text(b@)) && (valid_utf8(b@) ==> r@ == utf16(
                decode_utf8(b@),
            )),
            None => r@.len() == 0,
        },
{
    match utf8 {
        Some(b) => units_of_utf8(b),
        None => Vec::new(),
    }
}

/// The text of a new string, by the units that the embedder passed. Without units it is empty.
pub fn new_from_two_byte(data: Option<&[u16]>, length: i32) -> (r: String)
    requires
        data matches Some(d) ==> length <= d@.len(),
    ensures
        r@ == match data {
            Some(d) => if length > 0 {
                decoded(d@.take(length as int))
            } else {
                seq![]
            },
            None => seq![],
        },
{
    match data {
        Some(d) => {
            if length > 0 {
                let units = slice_subrange(d, 0, length as usize);
                assert(units@ =~= d@.take(length as int));
                from_utf16_lossy(units)
            } else {
                String::new()
            }
        },
        None => String::new(),
    }
}

/// The characters that bytes stand for, each for the one with its number.
pub open spec fn latin1(bytes: Seq<u8>) -> Seq<char> {
    bytes.map_values(|b: u8| b as char)
}

/// The text of a new string, by the bytes that the embedder passed, one for each character; none where it
/// passed nothing.
pub fn new_external_one_byte_static(data: Option<&[u8]>, length: i32) -> (r: Option<String>)
    requires
        data matches Some(d) ==> length <= d@.len(),
    ensures
        match r {
            Some(s) => data is Some && length >= 0 && s@ == latin1(data->0@.take(length as int)),
            None => data is None || length < 0,
        },
{
    match (data, passed_length(data.is_some(), length)) {
        (Some(d), Some(n)) => {
            let mut out: Vec<char> = Vec::new();
            let mut i: usize = 0;
            while i < n
                invariant
                    i <= n <= d@.len(),
                    out@ =~= latin1(d@.take(i as int)),
                decreases n - i,
            {
                out.push(d[i] as char);
                i += 1;
            }
            Some(string_of(&out))
        },
        _ => None,
    }
}

proof fn lemma_backed_up(s: Seq<u8>, start: int, i: int)
    requires
        0 <= start <= i < s.len(),
        !is_continuation_byte(s[start]),
        forall|j: int| start < j <= i ==> is_continuation_byte(#[trigger] s[j]),
    ensures
        backed_up(s, i) == start,
    decreases i - start,
{
    if i > start {
        assert(is_continuation_byte(s[i]));
        lemma_backed_up(s, start, i - 1);
    }
}

/// Of a text, as many whole characters as fit are written: none is split, and one more would not fit.
pub proof fn law_written_are_whole_characters(text: Seq<char>, capacity: int)
    requires
        capacity >= 0,
    ensures
        utf8_fit(encode_utf8(text), capacity) == byte_offset(text, fitting(text, capacity)),
{
    assert(text.take(0) =~= seq![]);
    lemma_fitting(text, capacity, 0);
    let n = fitting(text, capacity);
    let s = encode_utf8(text);
    if n < text.len() {
        lemma_character(text, n);
        assert(s.len() > capacity);
        lemma_backed_up(s, byte_offset(text, n), capacity);
    } else {
        assert(text.take(n) =~= text);
    }
}

/// The bytes that are written end before a byte that begins a character; no more are left out than the
/// character that does not fit.
pub proof fn law_cut_between_characters(s: Seq<u8>, capacity: int)
    requires
        capacity >= 0,
    ensures
        ({
            let n = utf8_fit(s, capacity);
            &&& 0 <= n <= s.len() && n <= capacity
            &&& s.len() <= capacity ==> n == s.len()
            &&& s.len() > capacity && n > 0 ==> !(0x80 <= s[n] <= 0xbf)
            &&& s.len() > capacity ==> forall|i: int| n < i <= capacity ==> 0x80 <= #[trigger] s[i]
                <= 0xbf
        }),
{
    if s.len() > capacity {
        lemma_backed_up_to(s, capacity);
    }
}

proof fn lemma_backed_up_to(s: Seq<u8>, i: int)
    requires
        0 <= i < s.len(),
    ensures
        0 <= backed_up(s, i) <= i,
        backed_up(s, i) > 0 ==> !(0x80 <= s[backed_up(s, i)] <= 0xbf),
        forall|k: int| backed_up(s, i) < k <= i ==> 0x80 <= #[trigger] s[k] <= 0xbf,
    decreases i,
{
    if i > 0 && is_continuation_byte(s[i]) {
        lemma_backed_up_to(s, i - 1);
    }
}

/// Writing puts the bytes first and leaves the rest of the buffer, but for a zero right behind them where one
/// was asked for and fits.
pub proof fn law_bytes_written(buffer: Seq<u8>, bytes: Seq<u8>, capacity: int, terminate: bool)
    requires
        bytes.len() <= capacity <= buffer.len(),
    ensures
        ({
            let r = written(buffer, bytes, capacity, terminate);
            &&& r.len() == buffer.len()
            &&& forall|i: int| 0 <= i < bytes.len() ==> r[i] == bytes[i]
            &&& forall|i: int| bytes.len() < i < buffer.len() ==> r[i] == buffer[i]
            &&& bytes.len() < buffer.len() ==> r[bytes.len() as int] == if terminate && bytes.len()
                < capacity {
                0u8
            } else {
                buffer[bytes.len() as int]
            }
        }),
{
}

/// A byte of a one-byte string is the character of its number.
pub proof fn law_one_byte_characters(bytes: Seq<u8>, i: int)
    requires
        0 <= i < bytes.len(),
    ensures
        latin1(bytes).len() == bytes.len(),
        latin1(bytes)[i] as int == bytes[i],
{
}

/// A new string has the text of as many units as were asked for; none without data or for a negative length.
pub proof fn law_new_two_byte_strings(d: &[u16], length: i32, r: String, empty: String)
    requires
        length <= d@.len(),
        call_ensures(new_from_two_byte, (Some(d), length), r),
        call_ensures(new_from_two_byte, (None, length), empty),
    ensures
        empty@.len() == 0,
        length <= 0 ==> r@.len() == 0,
        length >= 0 ==> r@ == decoded(d@.take(length as int)),
{
    if length == 0 {
        assert(d@.take(0) =~= seq![]);
    }
}

} // verus!

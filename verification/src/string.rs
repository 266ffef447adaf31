//! Strings as 16-bit units.

use crate::text::{chars_of, string_of};
use vstd::prelude::*;
use vstd::utf8::{char_is_scalar, char_u32_cast, decode_utf8, valid_utf8};

verus! {

/// `char::from_u32` gives the character with this number, for exactly the numbers that are Unicode scalar
/// values.
pub assume_specification[ char::from_u32 ](i: u32) -> (r: Option<char>)
    ensures
        r is Some <==> i < 0xd800 || 0xe000 <= i <= 0x10ffff,
        r matches Some(c) ==> c as u32 == i,
;

/// The units of a character.
pub open spec fn char_units(c: char) -> Seq<u16> {
    let u = c as u32;
    if u < 0x10000 {
        seq![u as u16]
    } else {
        seq![
            (0xd800 + (u - 0x10000) / 0x400) as u16,
            (0xdc00 + (u - 0x10000) % 0x400) as u16,
        ]
    }
}

/// The units of a text.
pub open spec fn utf16(s: Seq<char>) -> Seq<u16>
    decreases s.len(),
{
    if s.len() == 0 {
        seq![]
    } else {
        utf16(s.drop_last()) + char_units(s.last())
    }
}

/// The units of a text.
pub fn encode_utf16(s: &str) -> (r: Vec<u16>)
    ensures
        r@ == utf16(s@),
{
    let c = chars_of(s);
    let mut r: Vec<u16> = Vec::new();
    let mut i: usize = 0;
    assert(s@.take(0) =~= seq![]);
    while i < c.len()
        invariant
            i <= c.len(),
            c@ == s@,
            r@ == utf16(s@.take(i as int)),
        decreases c.len() - i,
    {
        assert(s@.take(i + 1).drop_last() =~= s@.take(i as int));
        assert(s@.take(i + 1).last() == s@[i as int]);
        let ghost before = r@;
        let u: u32 = c[i] as u32;
        if u < 0x10000 {
            r.push(u as u16);
            assert(r@ =~= before + char_units(c[i as int]));
        } else {
            proof {
                char_is_scalar(c[i as int]);
            }
            assert(u <= 0x10ffff);
            let v: u32 = u - 0x10000;
            r.push((0xd800 + v / 0x400) as u16);
            r.push((0xdc00 + v % 0x400) as u16);
            assert(r@ =~= before + char_units(c[i as int]));
        }
        i += 1;
    }
    assert(s@.take(i as int) =~= s@);
    r
}

/// The text that `String::from_utf8_lossy` makes of bytes.
pub uninterp spec fn lossy_text(bytes: Seq<u8>) -> Seq<char>;

/// `String::from_utf8_lossy` gives the text that the bytes encode. Which bytes are replaced by U+FFFD, where
/// they encode none, is left to it.
#[verifier::external_body]
fn lossy_string(bytes: &[u8]) -> (r: String)
    ensures
        r@ == lossy_text(bytes@),
        valid_utf8(bytes@) ==> r@ == decode_utf8(bytes@),
{
    String::from_utf8_lossy(bytes).into_owned()
}

/// The units of the text that bytes encode.
pub fn units_of_utf8(bytes: &[u8]) -> (r: Vec<u16>)
    ensures
        r@ == utf16(lossy_text(bytes@)),
        valid_utf8(bytes@) ==> r@ == utf16(decode_utf8(bytes@)),
{
    let text = lossy_string(bytes);
    encode_utf16(text.as_str())
}

/// A unit that begins a pair.
pub open spec fn is_lead(u: u16) -> bool {
    0xd800 <= u <= 0xdbff
}

/// A unit that ends a pair.
pub open spec fn is_trail(u: u16) -> bool {
    0xdc00 <= u <= 0xdfff
}

/// The character that a pair stands for.
pub open spec fn pair(lead: u16, trail: u16) -> char {
    (0x10000 + (lead - 0xd800) * 0x400 + (trail - 0xdc00)) as char
}

/// The text of these units from `i` on. A half of a pair without its other half is U+FFFD.
pub open spec fn decoded_from(u: Seq<u16>, i: int) -> Seq<char>
    decreases u.len() + 1 - i,
{
    if i < 0 || i >= u.len() {
        seq![]
    } else if is_lead(u[i]) && i + 1 < u.len() && is_trail(u[i + 1]) {
        seq![pair(u[i], u[i + 1])] + decoded_from(u, i + 2)
    } else if is_lead(u[i]) || is_trail(u[i]) {
        seq!['\u{fffd}'] + decoded_from(u, i + 1)
    } else {
        seq![u[i] as char] + decoded_from(u, i + 1)
    }
}

/// The text of these units.
pub open spec fn decoded(u: Seq<u16>) -> Seq<char> {
    decoded_from(u, 0)
}

/// The text of these units.
pub fn from_utf16_lossy(u: &[u16]) -> (r: String)
    ensures
        r@ == decoded(u@),
{
    let mut out: Vec<char> = Vec::new();
    let mut i: usize = 0;
    let n = u.len();
    assert(out@ + decoded_from(u@, 0) =~= decoded(u@));
    while i < n
        invariant
            i <= n,
            n == u@.len(),
            n == u.len(),
            out@ + decoded_from(u@, i as int) =~= decoded(u@),
        decreases n - i,
    {
        let a = u[i];
        let ghost before = out@;
        if a >= 0xd800 && a <= 0xdbff && n - i > 1 && u[i + 1] >= 0xdc00 && u[i + 1] <= 0xdfff {
            let b = u[i + 1];
            let v: u32 = 0x10000 + (a as u32 - 0xd800) * 0x400 + (b as u32 - 0xdc00);
            match char::from_u32(v) {
                Some(c) => {
                    proof {
                        char_u32_cast(c, v);
                    }
                    assert(c == pair(a, b));
                    out.push(c);
                },
                None => {},
            }
            assert(out@ + decoded_from(u@, i + 2) =~= before + decoded_from(u@, i as int));
            i += 2;
        } else if a >= 0xd800 && a <= 0xdfff {
            out.push('\u{fffd}');
            assert(out@ + decoded_from(u@, i + 1) =~= before + decoded_from(u@, i as int));
            i += 1;
        } else {
            match char::from_u32(a as u32) {
                Some(c) => {
                    proof {
                        char_u32_cast(c, a as u32);
                    }
                    assert(c == a as char);
                    out.push(c);
                },
                None => {},
            }
            assert(out@ + decoded_from(u@, i + 1) =~= before + decoded_from(u@, i as int));
            i += 1;
        }
    }
    assert(decoded_from(u@, i as int) =~= seq![]);
    assert(out@ =~= decoded(u@));
    string_of(&out)
}

proof fn lemma_decoded_append(a: Seq<u16>, b: Seq<u16>, i: int)
    requires
        0 <= i <= a.len(),
        b.len() > 0 ==> !is_trail(b[0]),
        a.len() > 0 ==> !is_lead(a.last()),
    ensures
        decoded_from(a + b, i) == decoded_from(a, i) + decoded_from(a + b, a.len() as int),
    decreases a.len() - i,
{
    let s = a + b;
    if i < a.len() {
        assert(s[i] == a[i]);
        if is_lead(a[i]) && i + 1 < a.len() && is_trail(a[i + 1]) {
            assert(s[i + 1] == a[i + 1]);
            lemma_decoded_append(a, b, i + 2);
        } else {
            if i + 1 < a.len() {
                assert(s[i + 1] == a[i + 1]);
            }
            lemma_decoded_append(a, b, i + 1);
        }
        assert(decoded_from(s, i) =~= decoded_from(a, i) + decoded_from(s, a.len() as int));
    } else {
        assert(decoded_from(a, i) =~= seq![]);
        assert(decoded_from(s, i) =~= decoded_from(a, i) + decoded_from(s, a.len() as int));
    }
}

/// The units of a text are read back as the text.
pub proof fn law_utf16_round_trip(s: Seq<char>)
    ensures
        decoded(utf16(s)) == s,
        utf16(s).len() > 0 ==> !is_lead(utf16(s).last()),
    decreases s.len(),
{
    if s.len() == 0 {
        assert(decoded(utf16(s)) =~= s);
    } else {
        let d = s.drop_last();
        let c = s.last();
        law_utf16_round_trip(d);
        let a = utf16(d);
        let b = char_units(c);
        let u = a + b;
        let n = a.len() as int;
        assert(u[n] == b[0]);
        let k = c as u32;
        char_is_scalar(c);
        char_u32_cast(c, k);
        assert(k <= 0x10ffff && !(0xd800 <= k <= 0xdfff));
        if k >= 0x10000 {
            let v = k - 0x10000;
            assert(v / 0x400 <= 0x3ff);
            assert(b[0] == 0xd800 + v / 0x400);
            assert(b[1] == 0xdc00 + v % 0x400);
            assert(u[n + 1] == b[1]);
            assert(u.last() == b[1]);
            assert((b[0] - 0xd800) * 0x400 + (b[1] - 0xdc00) == v);
            assert(pair(b[0], b[1]) == c);
            assert(decoded_from(u, n + 2) =~= seq![]);
            assert(decoded_from(u, n) =~= seq![c]);
        } else {
            assert(u.last() == b[0]);
            assert(decoded_from(u, n + 1) =~= seq![]);
            assert(decoded_from(u, n) =~= seq![c]);
        }
        lemma_decoded_append(a, b, 0);
        assert(decoded(u) =~= s);
    }
}

/// Every unit fits a byte.
pub open spec fn one_byte(u: Seq<u16>) -> bool {
    forall|i: int| 0 <= i < u.len() ==> #[trigger] u[i] <= 0xff
}

/// Whether every unit fits a byte.
pub fn contains_only_one_byte(u: &[u16]) -> (r: bool)
    ensures
        r == one_byte(u@),
{
    let mut i: usize = 0;
    while i < u.len()
        invariant
            i <= u.len(),
            forall|j: int| 0 <= j < i ==> #[trigger] u@[j] <= 0xff,
        decreases u.len() - i,
    {
        if u[i] > 0xff {
            return false;
        }
        i += 1;
    }
    true
}

/// The units of bytes, one of each.
pub open spec fn widened(b: Seq<u8>) -> Seq<u16> {
    Seq::new(b.len(), |i: int| b[i] as u16)
}

/// The units of bytes, one of each.
pub fn widen(b: &[u8]) -> (r: Vec<u16>)
    ensures
        r@ == widened(b@),
{
    let mut r: Vec<u16> = Vec::new();
    let mut i: usize = 0;
    while i < b.len()
        invariant
            i <= b.len(),
            r@ =~= widened(b@).take(i as int),
        decreases b.len() - i,
    {
        r.push(b[i] as u16);
        i += 1;
    }
    assert(widened(b@).take(i as int) =~= widened(b@));
    r
}

/// The low bytes of units.
pub open spec fn narrowed(u: Seq<u16>) -> Seq<u8> {
    Seq::new(u.len(), |i: int| (u[i] % 256) as u8)
}

/// The low bytes of units.
pub fn narrow(u: &[u16]) -> (r: Vec<u8>)
    ensures
        r@ == narrowed(u@),
{
    let mut r: Vec<u8> = Vec::new();
    let mut i: usize = 0;
    while i < u.len()
        invariant
            i <= u.len(),
            r@ =~= narrowed(u@).take(i as int),
        decreases u.len() - i,
    {
        r.push((u[i] % 256) as u8);
        i += 1;
    }
    assert(narrowed(u@).take(i as int) =~= narrowed(u@));
    r
}

/// Units that fit bytes keep what they are as bytes.
pub proof fn law_one_byte_round_trip(u: Seq<u16>, b: Seq<u8>)
    ensures
        one_byte(u) ==> widened(narrowed(u)) == u,
        narrowed(widened(b)) == b,
        one_byte(widened(b)),
{
    if one_byte(u) {
        assert(widened(narrowed(u)) =~= u);
    }
    assert(narrowed(widened(b)) =~= b);
}

/// How many units are written from `offset` on, where there is room for `length`.
pub open spec fn writable(total: int, offset: int, length: int) -> int {
    if offset >= total {
        0
    } else if total - offset < length {
        total - offset
    } else {
        length
    }
}

/// A buffer after units were written to its beginning, and a zero behind them if it was asked for and
/// there was room for one more.
pub open spec fn written<T>(buffer: Seq<T>, units: Seq<T>, length: int, zero: T, terminate: bool) -> Seq<T> {
    let n = units.len() as int;
    if terminate && n < length {
        units + seq![zero] + buffer.skip(n + 1)
    } else {
        units + buffer.skip(n)
    }
}

/// Writes the units of a string from `offset` on to a buffer with room for `length`. The result is how many
/// were written.
pub fn write_units(
    units: &[u16],
    offset: u32,
    length: u32,
    buffer: &mut Vec<u16>,
    null_terminate: bool,
) -> (r: usize)
    requires
        old(buffer)@.len() >= length,
    ensures
        r == writable(units@.len() as int, offset as int, length as int),
        units@.len() >= offset ==> final(buffer)@ == written(
            old(buffer)@,
            units@.skip(offset as int).take(r as int),
            length as int,
            0,
            null_terminate,
        ),
        units@.len() < offset ==> final(buffer)@ == written(
            old(buffer)@,
            Seq::<u16>::empty(),
            length as int,
            0,
            null_terminate,
        ),
{
    let total = units.len();
    let start = offset as usize;
    let mut n: usize = 0;
    if start < total {
        n = total - start;
        if n > length as usize {
            n = length as usize;
        }
    }
    let ghost before = buffer@;
    let ghost source = if offset <= units@.len() {
        units@.skip(offset as int).take(n as int)
    } else {
        Seq::<u16>::empty()
    };
    let mut i: usize = 0;
    while i < n
        invariant
            i <= n,
            n <= length,
            start == offset,
            total == units@.len(),
            total == units.len(),
            n > 0 ==> start + n <= total,
            buffer@.len() == before.len(),
            before.len() >= length,
            source.len() == n,
            n > 0 ==> source == units@.skip(offset as int).take(n as int),
            buffer@ =~= source.take(i as int) + before.skip(i as int),
        decreases n - i,
    {
        assert(source[i as int] == units@[start + i]);
        buffer[i] = units[start + i];
        i += 1;
    }
    assert(source.take(n as int) =~= source);
    if null_terminate && n < length as usize {
        buffer[n] = 0;
    }
    assert(buffer@ =~= written(before, source, length as int, 0, null_terminate));
    n
}

/// Writes the low bytes of the units of a string from `offset` on to a buffer with room for `length`. The
/// result is how many were written.
pub fn write_one_byte(
    units: &[u16],
    offset: u32,
    length: u32,
    buffer: &mut Vec<u8>,
    null_terminate: bool,
) -> (r: usize)
    requires
        old(buffer)@.len() >= length,
    ensures
        r == writable(units@.len() as int, offset as int, length as int),
        units@.len() >= offset ==> final(buffer)@ == written(
            old(buffer)@,
            narrowed(units@.skip(offset as int).take(r as int)),
            length as int,
            0,
            null_terminate,
        ),
        units@.len() < offset ==> final(buffer)@ == written(
            old(buffer)@,
            Seq::<u8>::empty(),
            length as int,
            0,
            null_terminate,
        ),
{
    let total = units.len();
    let start = offset as usize;
    let mut n: usize = 0;
    if start < total {
        n = total - start;
        if n > length as usize {
            n = length as usize;
        }
    }
    let ghost before = buffer@;
    let ghost source = if offset <= units@.len() {
        narrowed(units@.skip(offset as int).take(n as int))
    } else {
        Seq::<u8>::empty()
    };
    let mut i: usize = 0;
    while i < n
        invariant
            i <= n,
            n <= length,
            start == offset,
            total == units@.len(),
            total == units.len(),
            n > 0 ==> start + n <= total,
            buffer@.len() == before.len(),
            before.len() >= length,
            source.len() == n,
            n > 0 ==> source == narrowed(units@.skip(offset as int).take(n as int)),
            buffer@ =~= source.take(i as int) + before.skip(i as int),
        decreases n - i,
    {
        assert(source[i as int] == (units@[start + i] % 256) as u8);
        buffer[i] = (units[start + i] % 256) as u8;
        i += 1;
    }
    assert(source.take(n as int) =~= source);
    if null_terminate && n < length as usize {
        buffer[n] = 0;
    }
    assert(buffer@ =~= written(before, source, length as int, 0, null_terminate));
    n
}

/// The element of an array of primitives that an index stands for; none where it is negative.
pub fn primitive_index(index: i32) -> (r: Option<u32>)
    ensures
        r == if index < 0 {
            None
        } else {
            Some(index as u32)
        },
{
    if index < 0 {
        None
    } else {
        Some(index as u32)
    }
}

/// The length of what the embedder passed as a string, if it passed one.
pub fn passed_length(has_data: bool, length: i32) -> (r: Option<usize>)
    ensures
        r == if has_data && length >= 0 {
            Some(length as usize)
        } else {
            None
        },
{
    if length < 0 || !has_data {
        None
    } else {
        Some(length as usize)
    }
}

/// A character below U+10000 is one unit, its own number; any other is a pair that gives its number back.
pub proof fn law_units_of_a_character(c: char)
    ensures
        (c as u32) < 0x10000 ==> utf16(seq![c]).len() == 1 && utf16(seq![c])[0] as u32 == c as u32,
        (c as u32) >= 0x10000 ==> {
            let u = utf16(seq![c]);
            &&& u.len() == 2
            &&& 0xd800 <= u[0] <= 0xdbff
            &&& 0xdc00 <= u[1] <= 0xdfff
            &&& 0x10000 + (u[0] - 0xd800) * 0x400 + (u[1] - 0xdc00) == c as int
        },
{
    let s = seq![c];
    assert(s.drop_last() =~= seq![]);
    assert(utf16(s.drop_last()) =~= seq![]);
    assert(utf16(s) =~= char_units(c));
}

/// The units of two texts behind each other are those of the first and then those of the second.
pub proof fn law_units_behind_each_other(a: Seq<char>, b: Seq<char>)
    ensures
        utf16(a + b) == utf16(a) + utf16(b),
    decreases b.len(),
{
    if b.len() == 0 {
        assert(a + b =~= a);
        assert(utf16(a) + utf16(b) =~= utf16(a));
    } else {
        assert((a + b).drop_last() =~= a + b.drop_last());
        law_units_behind_each_other(a, b.drop_last());
        assert(utf16(a + b) =~= utf16(a) + utf16(b));
    }
}

proof fn lemma_decoded_behind(u: Seq<u16>, k: int, i: int)
    requires
        0 <= k <= u.len(),
        0 <= i,
    ensures
        decoded_from(u, k + i) == decoded_from(u.skip(k), i),
    decreases u.len() - k - i + 1,
{
    if k + i < u.len() {
        let v = u.skip(k);
        assert(v[i] == u[k + i]);
        if k + i + 1 < u.len() {
            assert(v[i + 1] == u[k + i + 1]);
        }
        lemma_decoded_behind(u, k, i + 1);
        lemma_decoded_behind(u, k, i + 2);
    }
}

/// Half of a pair without its other half is read as U+FFFD, and any other unit as the character of its number;
/// what follows is read on its own.
pub proof fn law_units_are_read(u: u16, rest: Seq<u16>)
    requires
        !(0xd800 <= u <= 0xdbff) || rest.len() == 0 || !(0xdc00 <= rest[0] <= 0xdfff),
    ensures
        0xd800 <= u <= 0xdfff ==> decoded(seq![u] + rest) == seq!['\u{fffd}'] + decoded(rest),
        !(0xd800 <= u <= 0xdfff) ==> decoded(seq![u] + rest) == seq![u as char] + decoded(rest),
        decoded(seq![]) == Seq::<char>::empty(),
{
    let s = seq![u] + rest;
    assert(s.skip(1) =~= rest);
    assert(s[0] == u);
    if rest.len() > 0 {
        assert(s[1] == rest[0]);
    }
    lemma_decoded_behind(s, 1, 0);
}

/// The units that are written are those that there are, and never more than there is room for.
pub proof fn law_writable(total: int, offset: int, length: int)
    requires
        total >= 0 && offset >= 0 && length >= 0,
    ensures
        0 <= writable(total, offset, length) <= length,
        offset <= total ==> offset + writable(total, offset, length) <= total,
        offset + length <= total ==> writable(total, offset, length) == length,
        offset <= total < offset + length ==> writable(total, offset, length) == total - offset,
        offset >= total ==> writable(total, offset, length) == 0,
{
}

/// Writing puts the units first and leaves the rest of the buffer, but for a zero right behind them where one
/// was asked for and fits.
pub proof fn law_written<T>(buffer: Seq<T>, units: Seq<T>, length: int, zero: T, terminate: bool)
    requires
        units.len() <= length <= buffer.len(),
    ensures
        ({
            let r = written(buffer, units, length, zero, terminate);
            &&& r.len() == buffer.len()
            &&& forall|i: int| 0 <= i < units.len() ==> r[i] == units[i]
            &&& forall|i: int| units.len() < i < buffer.len() ==> r[i] == buffer[i]
            &&& units.len() < buffer.len() ==> r[units.len() as int] == if terminate && units.len()
                < length {
                zero
            } else {
                buffer[units.len() as int]
            }
        }),
{
}

/// Bytes and units of the same number stand for each other; of a larger unit the low byte is left.
pub proof fn law_bytes_as_units(b: Seq<u8>, u: Seq<u16>, i: int)
    ensures
        widened(b).len() == b.len(),
        0 <= i < b.len() ==> widened(b)[i] == b[i],
        narrowed(u).len() == u.len(),
        0 <= i < u.len() ==> narrowed(u)[i] == u[i] % 256,
        0 <= i < u.len() && u[i] > 255 ==> !one_byte(u),
{
}

/// A negative index or length is none, nor is a length without data.
pub proof fn law_numbers_passed(n: i32, index: Option<u32>, passed: Option<usize>, missing: Option<usize>)
    requires
        call_ensures(primitive_index, (n,), index),
        call_ensures(passed_length, (true, n), passed),
        call_ensures(passed_length, (false, n), missing),
    ensures
        missing is None,
        n < 0 ==> index is None && passed is None,
        n >= 0 ==> index is Some && passed is Some && index->0 == n && passed->0 == n,
{
}

} // verus!

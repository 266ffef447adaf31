//! Strings and their UTF-8 bytes.

use vstd::prelude::*;
use vstd::utf8::{
    char_is_scalar, decode_utf8, encode_scalar, encode_utf8, encode_utf8_decode_utf8,
    encode_utf8_first_scalar, encode_utf8_valid_utf8, is_char_boundary,
    is_char_boundary_iff_not_is_continuation_byte, is_char_boundary_start_end_of_seq,
    is_continuation_byte, pop_first_scalar, valid_utf8, valid_utf8_split,
};

verus! {

/// A position at either end of UTF-8 text, or next to an ASCII byte, lies between characters.
pub proof fn lemma_boundary(b: Seq<u8>, i: int)
    requires
        valid_utf8(b),
        0 <= i <= b.len(),
        i == 0 || i == b.len() || b[i] < 0x80 || b[i - 1] < 0x80,
    ensures
        is_char_boundary(b, i),
{
    if i == 0 || i == b.len() {
        is_char_boundary_start_end_of_seq(b);
    } else if b[i] < 0x80 {
        is_char_boundary_iff_not_is_continuation_byte(b, i);
    } else {
        is_char_boundary_iff_not_is_continuation_byte(b, i - 1);
        valid_utf8_split(b, i - 1);
        let t = b.subrange(i - 1, b.len() as int);
        assert(t[0] == b[i - 1]);
        let u = pop_first_scalar(t);
        assert(u =~= t.subrange(1, t.len() as int));
        assert(u[0] == b[i]);
        reveal_with_fuel(valid_utf8, 3);
        assert(valid_utf8(u) && u.len() > 0);
        assert(!is_continuation_byte(u[0]));
        is_char_boundary_iff_not_is_continuation_byte(b, i);
    }
}

/// The part of `s` between the bytes `a` and `b`.
pub fn str_slice(s: &str, a: usize, b: usize) -> (r: &str)
    requires
        a <= b,
        b <= encode_utf8(s@).len(),
        is_char_boundary(encode_utf8(s@), a as int),
        is_char_boundary(encode_utf8(s@), b as int),
    ensures
        encode_utf8(r@) == encode_utf8(s@).subrange(a as int, b as int),
        r@ == decode_utf8(encode_utf8(s@).subrange(a as int, b as int)),
{
    let ghost bytes = encode_utf8(s@);
    proof {
        encode_utf8_valid_utf8(s@);
        valid_utf8_split(bytes, b as int);
        let head = bytes.subrange(0, b as int);
        if a == b {
            is_char_boundary_start_end_of_seq(head);
        } else {
            is_char_boundary_iff_not_is_continuation_byte(bytes, a as int);
            assert(head[a as int] == bytes[a as int]);
            is_char_boundary_iff_not_is_continuation_byte(head, a as int);
        }
    }
    let (head, _) = s.split_at(b);
    let (_, r) = head.split_at(a);
    proof {
        assert(encode_utf8(r@) =~= bytes.subrange(a as int, b as int));
        encode_utf8_decode_utf8(r@);
    }
    r
}

/// The number of bytes that a character takes.
pub open spec fn char_width(c: char) -> int {
    let u = c as u32;
    if u < 0x80 {
        1
    } else if u < 0x800 {
        2
    } else if u < 0x10000 {
        3
    } else {
        4
    }
}

/// The number of bytes that a character takes.
pub fn width_of(c: char) -> (r: usize)
    ensures
        r == char_width(c),
{
    let u: u32 = c as u32;
    if u < 0x80 {
        1
    } else if u < 0x800 {
        2
    } else if u < 0x10000 {
        3
    } else {
        4
    }
}

/// Encoding two texts one after the other is encoding them together.
pub proof fn lemma_encode_concat(a: Seq<char>, b: Seq<char>)
    ensures
        encode_utf8(a + b) == encode_utf8(a) + encode_utf8(b),
    decreases a.len(),
{
    if a.len() == 0 {
        assert(a + b =~= b);
        assert(encode_utf8(a) + encode_utf8(b) =~= encode_utf8(b));
    } else {
        assert((a + b).drop_first() =~= a.drop_first() + b);
        lemma_encode_concat(a.drop_first(), b);
        assert(encode_utf8(a + b) =~= encode_utf8(a) + encode_utf8(b));
    }
}

/// One more character takes its own bytes more.
pub proof fn lemma_encode_push(s: Seq<char>, c: char)
    ensures
        encode_utf8(s.push(c)).len() == encode_utf8(s).len() + char_width(c),
{
    assert(s.push(c) =~= s + seq![c]);
    lemma_encode_concat(s, seq![c]);
    char_is_scalar(c);
    assert(seq![c].drop_first() =~= seq![]);
    assert(encode_utf8(seq![c].drop_first()) =~= seq![]);
    assert(encode_utf8(seq![c]) =~= encode_scalar(c as u32));
}

/// The number of bytes before the character `k` of `s`.
pub open spec fn byte_offset(s: Seq<char>, k: int) -> int {
    encode_utf8(s.take(k)).len() as int
}

/// The number of bytes before the character `k` of the text `s`, whose characters are `chars`.
pub fn offset_of(s: &str, chars: &[char], k: usize) -> (r: usize)
    requires
        chars@ == s@,
        k <= chars@.len(),
    ensures
        r == byte_offset(s@, k as int),
{
    let bytes = s.as_bytes();
    let total = bytes.len();
    let mut r: usize = 0;
    let mut i: usize = 0;
    assert(s@.take(0) =~= seq![]);
    while i < k
        invariant
            i <= k <= chars@.len(),
            chars@ == s@,
            total == encode_utf8(s@).len(),
            r == byte_offset(s@, i as int),
            r <= total,
        decreases k - i,
    {
        proof {
            let head = s@.take(i as int);
            assert(s@.take(i + 1) =~= head.push(s@[i as int]));
            lemma_encode_push(head, s@[i as int]);
            assert(s@ =~= s@.take(i + 1) + s@.skip(i + 1));
            lemma_encode_concat(s@.take(i + 1), s@.skip(i + 1));
        }
        r += width_of(chars[i]);
        i += 1;
    }
    r
}

/// How many characters of `s` fit into `capacity` bytes, if the first `k` do.
pub open spec fn fitting_from(s: Seq<char>, capacity: int, k: int) -> int
    decreases s.len() - k,
{
    if k < 0 || k >= s.len() || byte_offset(s, k + 1) > capacity {
        k
    } else {
        fitting_from(s, capacity, k + 1)
    }
}

/// How many characters of `s` fit into `capacity` bytes.
pub open spec fn fitting(s: Seq<char>, capacity: int) -> int {
    fitting_from(s, capacity, 0)
}

/// The bytes of the character `k`: the first tells how many they are, and the others cannot begin a
/// character.
pub proof fn lemma_character(s: Seq<char>, k: int)
    requires
        0 <= k < s.len(),
    ensures
        byte_offset(s, k + 1) == byte_offset(s, k) + char_width(s[k]),
        byte_offset(s, k + 1) <= encode_utf8(s).len(),
        ({
            let b = encode_utf8(s)[byte_offset(s, k)];
            char_width(s[k]) == if b < 0x80 {
                1int
            } else if b < 0xe0 {
                2
            } else if b < 0xf0 {
                3
            } else {
                4
            }
        }),
        !is_continuation_byte(encode_utf8(s)[byte_offset(s, k)]),
        forall|j: int|
            byte_offset(s, k) < j < byte_offset(s, k + 1) ==> is_continuation_byte(
                #[trigger] encode_utf8(s)[j],
            ),
{
    let head = s.take(k);
    let rest = s.skip(k);
    let c = s[k];
    let u = c as u32;
    let o = byte_offset(s, k);
    assert(s =~= head + rest);
    lemma_encode_concat(head, rest);
    assert(s.take(k + 1) =~= head.push(c));
    lemma_encode_push(head, c);
    char_is_scalar(c);
    encode_utf8_first_scalar(rest);
    let r = encode_utf8(rest);
    let e = encode_scalar(u);
    assert(rest[0] == c);
    assert(r =~= e + encode_utf8(rest.drop_first()));
    assert(encode_utf8(s)[o] == r[0]);
    assert(e.len() == char_width(c));
    assert forall|j: int| o < j < byte_offset(s, k + 1) implies is_continuation_byte(
        #[trigger] encode_utf8(s)[j],
    ) by {
        assert(encode_utf8(s)[j] == r[j - o]);
        assert(r[j - o] == e[j - o]);
        let a = (u & 0x3F) as u8;
        let b = ((u >> 6) & 0x3F) as u8;
        let d = ((u >> 12) & 0x3F) as u8;
        assert(0x80 <= 0x80u8 | a <= 0xbf) by (bit_vector)
            requires
                a == (u & 0x3F) as u8,
        ;
        assert(0x80 <= 0x80u8 | b <= 0xbf) by (bit_vector)
            requires
                b == ((u >> 6) & 0x3F) as u8,
        ;
        assert(0x80 <= 0x80u8 | d <= 0xbf) by (bit_vector)
            requires
                d == ((u >> 12) & 0x3F) as u8,
        ;
    }
}

/// An ASCII character is its own byte; every byte of another character is none of ASCII.
pub proof fn lemma_ascii(s: Seq<char>, k: int)
    requires
        0 <= k < s.len(),
    ensures
        (s[k] as u32) < 0x80 ==> encode_utf8(s)[byte_offset(s, k)] as u32 == s[k] as u32,
        (s[k] as u32) >= 0x80 ==> forall|j: int|
            byte_offset(s, k) <= j < byte_offset(s, k + 1) ==> #[trigger] encode_utf8(s)[j] >= 0x80,
{
    let rest = s.skip(k);
    let u = s[k] as u32;
    assert(s =~= s.take(k) + rest);
    lemma_encode_concat(s.take(k), rest);
    lemma_character(s, k);
    assert(rest[0] == s[k]);
    assert(encode_utf8(s)[byte_offset(s, k)] == encode_utf8(rest)[0]);
    assert(encode_utf8(rest) =~= encode_scalar(u) + encode_utf8(rest.drop_first()));
    char_is_scalar(s[k]);
    assert(u < 0x80 ==> (u & 0x7f) as u8 as u32 == u) by (bit_vector);
}

/// The bytes before the character `k` are those of the characters before it.
pub proof fn lemma_bytes_before(s: Seq<char>, k: int)
    requires
        0 <= k <= s.len(),
    ensures
        byte_offset(s, k) <= encode_utf8(s).len(),
        encode_utf8(s).subrange(0, byte_offset(s, k)) == encode_utf8(s.take(k)),
        encode_utf8(s).skip(byte_offset(s, k)) == encode_utf8(s.skip(k)),
        decode_utf8(encode_utf8(s).subrange(0, byte_offset(s, k))) == s.take(k),
{
    assert(s =~= s.take(k) + s.skip(k));
    lemma_encode_concat(s.take(k), s.skip(k));
    assert(encode_utf8(s).subrange(0, byte_offset(s, k)) =~= encode_utf8(s.take(k)));
    assert(encode_utf8(s).skip(byte_offset(s, k)) =~= encode_utf8(s.skip(k)));
    encode_utf8_decode_utf8(s.take(k));
}

/// The characters that fit do fit, and one more would not.
pub proof fn lemma_fitting(s: Seq<char>, capacity: int, k: int)
    requires
        0 <= k <= s.len(),
        byte_offset(s, k) <= capacity,
    ensures
        ({
            let n = fitting_from(s, capacity, k);
            &&& k <= n <= s.len()
            &&& byte_offset(s, n) <= capacity
            &&& n < s.len() ==> byte_offset(s, n + 1) > capacity
        }),
    decreases s.len() - k,
{
    if k < s.len() && byte_offset(s, k + 1) <= capacity {
        lemma_fitting(s, capacity, k + 1);
    }
}

/// A character takes one byte up to U+7F, two up to U+7FF, three up to U+FFFF, and else four.
pub proof fn law_widths(c: char)
    ensures
        c <= '\u{7f}' ==> char_width(c) == 1,
        '\u{80}' <= c <= '\u{7ff}' ==> char_width(c) == 2,
        '\u{800}' <= c <= '\u{ffff}' ==> char_width(c) == 3,
        '\u{10000}' <= c ==> char_width(c) == 4,
{
}

/// As many characters fit as can be encoded in so many bytes, and not one more.
pub proof fn law_fitting(s: Seq<char>, capacity: int)
    requires
        capacity >= 0,
    ensures
        0 <= fitting(s, capacity) <= s.len(),
        encode_utf8(s.take(fitting(s, capacity))).len() <= capacity,
        fitting(s, capacity) < s.len() ==> encode_utf8(s.take(fitting(s, capacity) + 1)).len()
            > capacity,
{
    assert(s.take(0) =~= seq![]);
    lemma_fitting(s, capacity, 0);
}

} // verus!

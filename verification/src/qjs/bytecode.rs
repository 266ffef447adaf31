//! Compiled modules that outlive the process: under which name a module's bytecode is kept.

use crate::bytes::{little_endian, push_little_endian};
use crate::text::{push_str, string_of};
use std::collections::hash_map::DefaultHasher;
use std::hash::Hasher;
use vstd::prelude::*;
use vstd::std_specs::hash::DefaultHasherAdditionalSpecFns;
use vstd::utf8::encode_utf8;

verus! {

/// `QBC2`, read as a big-endian number. Any change of the engine or of how modules are run gives it
/// another value.
pub const BC_MAGIC: u32 = 0x5142_4302;

/// What the hasher is given of a module: the magic number, the length of the text, the text, and the byte
/// that ends a text.
pub open spec fn hashed(source: Seq<u8>) -> Seq<Seq<u8>> {
    seq![
        little_endian(BC_MAGIC as nat, 4),
        little_endian(source.len(), 8),
        source,
        seq![0xffu8],
    ]
}

/// The key of the module with the text `source`.
pub fn bc_key(source: &str) -> (r: u64)
    ensures
        r == DefaultHasher::spec_finish(hashed(encode_utf8(source@))),
{
    let bytes = source.as_bytes();
    let mut h = DefaultHasher::new();
    let mut magic: Vec<u8> = Vec::new();
    push_little_endian(&mut magic, BC_MAGIC as u64, 4);
    let mut len: Vec<u8> = Vec::new();
    push_little_endian(&mut len, bytes.len() as u64, 8);
    let mut end: Vec<u8> = Vec::new();
    end.push(0xff);
    h.write(&magic);
    h.write(&len);
    h.write(bytes);
    h.write(&end);
    proof {
        assert(magic@ =~= little_endian(BC_MAGIC as nat, 4));
        assert(len@ =~= little_endian(bytes@.len(), 8));
        assert(end@ =~= seq![0xffu8]);
        assert(h@ =~= hashed(encode_utf8(source@)));
    }
    h.finish()
}

/// A hexadecimal digit.
pub open spec fn hex_digit(d: nat) -> char {
    if d < 10 {
        (d + 48) as char
    } else {
        (d + 87) as char
    }
}

/// The lowest `width` hexadecimal digits of `n`.
pub open spec fn hexadecimal(n: nat, width: nat) -> Seq<char>
    decreases width,
{
    if width == 0 {
        seq![]
    } else {
        hexadecimal(n / 16, (width - 1) as nat).push(hex_digit(n % 16))
    }
}

fn push_hexadecimal(out: &mut Vec<char>, n: u64, width: usize)
    ensures
        final(out)@ == old(out)@ + hexadecimal(n as nat, width as nat),
    decreases width,
{
    if width > 0 {
        push_hexadecimal(out, n / 16, width - 1);
        let d: u8 = (n % 16) as u8;
        if d < 10 {
            out.push((d + 48) as char);
        } else {
            out.push((d + 87) as char);
        }
    }
    assert(out@ =~= old(out)@ + hexadecimal(n as nat, width as nat));
}

/// The name of the file with the bytecode of this key.
pub fn bc_path(key: u64) -> (r: String)
    ensures
        r@ == hexadecimal(key as nat, 16) + ".qbc"@,
{
    let mut out: Vec<char> = Vec::new();
    push_hexadecimal(&mut out, key, 16);
    push_str(&mut out, ".qbc");
    string_of(&out)
}

/// Bytes that were read count only where there are any.
pub fn bc_load(bytes: Option<Vec<u8>>) -> (r: Option<Vec<u8>>)
    ensures
        r == match bytes {
            Some(b) => if b@.len() == 0 {
                None
            } else {
                bytes
            },
            None => None,
        },
{
    match bytes {
        Some(b) => {
            if b.len() == 0 {
                None
            } else {
                Some(b)
            }
        },
        None => None,
    }
}

proof fn lemma_hexadecimal_len(n: nat, width: nat)
    ensures
        hexadecimal(n, width).len() == width,
    decreases width,
{
    if width > 0 {
        lemma_hexadecimal_len(n / 16, (width - 1) as nat);
    }
}

/// `16` to the power of `width`.
pub open spec fn sixteen_to(width: nat) -> nat
    decreases width,
{
    if width == 0 {
        1
    } else {
        16 * sixteen_to((width - 1) as nat)
    }
}

proof fn lemma_hexadecimal_injective(a: nat, b: nat, width: nat)
    requires
        a < sixteen_to(width),
        b < sixteen_to(width),
        hexadecimal(a, width) == hexadecimal(b, width),
    ensures
        a == b,
    decreases width,
{
    if width > 0 {
        let w = (width - 1) as nat;
        let s = hexadecimal(a / 16, w);
        let t = hexadecimal(b / 16, w);
        let x = s.push(hex_digit(a % 16));
        let y = t.push(hex_digit(b % 16));
        assert(x == y);
        lemma_hexadecimal_len(a / 16, w);
        lemma_hexadecimal_len(b / 16, w);
        assert(x.last() == y.last());
        assert(s =~= x.drop_last());
        assert(t =~= y.drop_last());
        lemma_hexadecimal_injective(a / 16, b / 16, w);
    }
}

/// Different keys have different files.
pub proof fn law_keys_have_their_own_files(a: u64, b: u64)
    requires
        hexadecimal(a as nat, 16) + ".qbc"@ == hexadecimal(b as nat, 16) + ".qbc"@,
    ensures
        a == b,
{
    reveal_with_fuel(sixteen_to, 17);
    let s = hexadecimal(a as nat, 16);
    let t = hexadecimal(b as nat, 16);
    lemma_hexadecimal_len(a as nat, 16);
    lemma_hexadecimal_len(b as nat, 16);
    assert(s =~= (s + ".qbc"@).take(16));
    assert(t =~= (t + ".qbc"@).take(16));
    lemma_hexadecimal_injective(a as nat, b as nat, 16);
}

/// The number that hexadecimal digits stand for.
pub open spec fn read_hexadecimal(s: Seq<char>) -> nat
    decreases s.len(),
{
    if s.len() == 0 {
        0
    } else {
        let c = s.last();
        16 * read_hexadecimal(s.drop_last()) + (if c <= '9' {
            (c as int - '0' as int) as nat
        } else {
            (c as int - 'a' as int + 10) as nat
        })
    }
}

/// The hexadecimal digits of a number are digits and small letters, as many as asked for, and stand for it.
pub proof fn law_hexadecimal_digits(n: nat, width: nat)
    requires
        n < sixteen_to(width),
    ensures
        hexadecimal(n, width).len() == width,
        read_hexadecimal(hexadecimal(n, width)) == n,
        forall|i: int|
            0 <= i < width ==> {
                let c = #[trigger] hexadecimal(n, width)[i];
                '0' <= c <= '9' || 'a' <= c <= 'f'
            },
    decreases width,
{
    lemma_hexadecimal_len(n, width);
    if width > 0 {
        let w = (width - 1) as nat;
        law_hexadecimal_digits(n / 16, w);
        let s = hexadecimal(n, width);
        let d = n % 16;
        assert(s.drop_last() =~= hexadecimal(n / 16, w));
        assert(s.last() == hex_digit(d));
        lemma_hexadecimal_len(n / 16, w);
        assert forall|i: int| 0 <= i < width implies {
            let c = #[trigger] s[i];
            '0' <= c <= '9' || 'a' <= c <= 'f'
        } by {
            if i < w {
                assert(s[i] == hexadecimal(n / 16, w)[i]);
            } else {
                assert(s[i] == hex_digit(d));
            }
        }
    }
}

/// What is hashed begins with the magic number and holds the whole text, so that different texts are hashed
/// differently.
pub proof fn law_hashed_text(a: Seq<u8>, b: Seq<u8>)
    ensures
        hashed(a).len() == 4,
        hashed(a)[0] == seq![0x02u8, 0x43, 0x42, 0x51],
        hashed(a)[2] == a,
        hashed(a)[3] == seq![0xffu8],
        hashed(a) == hashed(b) ==> a == b,
{
    assert(little_endian(0x5142_4302, 4) =~= seq![0x02u8, 0x43, 0x42, 0x51]) by {
        reveal_with_fuel(little_endian, 5);
    }
    assert(hashed(a)[2] == a && hashed(b)[2] == b);
}

/// The file of a key is named by its sixteen hexadecimal digits.
pub proof fn law_file_name(key: u64, name: String)
    requires
        call_ensures(bc_path, (key,), name),
    ensures
        name@.len() == 20,
        name@.skip(16) == ".qbc"@,
        read_hexadecimal(name@.take(16)) == key,
{
    reveal_strlit(".qbc");
    reveal_with_fuel(sixteen_to, 17);
    law_hexadecimal_digits(key as nat, 16);
    assert(name@.skip(16) =~= ".qbc"@);
    assert(name@.take(16) =~= hexadecimal(key as nat, 16));
}

/// Only bytes that are there count.
pub proof fn law_loaded_bytecode(b: Vec<u8>, r: Option<Vec<u8>>, none: Option<Vec<u8>>)
    requires
        call_ensures(bc_load, (Some(b),), r),
        call_ensures(bc_load, (None,), none),
    ensures
        none is None,
        b@.len() == 0 ==> r is None,
        b@.len() > 0 ==> r == Some(b),
{
}

} // verus!

//! What filters, attributes and the engine's answers mean for the properties of objects.

use crate::object::{hash_of_address, reply};
use crate::qjs::object::{
    array_length, attr_to_jsprop, constructor_name, engine_reply, gpn, hash_of_atom,
    is_write_rejection, listed, names_wanted, preview_reply, property_attributes,
    real_named_property, PropertyFlags, Read, ATOM_TAG_INT,
};
use crate::status::MaybeBool;
use crate::text::{contains_text, occurs_at};
use vstd::prelude::*;

verus! {

/// Each bit of the number that stands for a choice of names follows from its own bit of the filter: only
/// enumerable names are listed exactly where the filter asks for it, symbols exactly where it does not leave
/// them out, and strings where it does not leave them out or leaves symbols out too. Something is always
/// listed.
pub proof fn law_filter_bits_are_independent(filter: u32)
    ensures
        0 <= gpn(names_wanted(filter)) < 32,
        (gpn(names_wanted(filter)) / 16 == 1) == (filter & 2 != 0),
        (gpn(names_wanted(filter)) / 2 % 2 == 1) == (filter & 16 == 0),
        (gpn(names_wanted(filter)) % 2 == 1) == (filter & 8 == 0 || filter & 16 != 0),
        gpn(names_wanted(filter)) / 4 % 4 == 0,
        gpn(names_wanted(filter)) % 4 != 0,
{
}

/// A filter that asks for enumerable names asks for the same names as without that, and for enumerable ones
/// alone.
pub proof fn law_enumerable_adds_one_bit(filter: u32)
    requires
        filter & 2 == 0,
    ensures
        gpn(names_wanted(filter | 2)) == gpn(names_wanted(filter)) + 16,
{
    assert((filter | 2) & 2 != 0) by (bit_vector);
    assert((filter | 2) & 8 == filter & 8 && (filter | 2) & 16 == filter & 16) by (bit_vector);
}

/// What is listed of two lists is what is listed of each, in order.
pub proof fn law_names_are_listed_in_order(a: Seq<u32>, b: Seq<u32>, skip_indices: bool)
    ensures
        listed(a + b, skip_indices) == listed(a, skip_indices) + listed(b, skip_indices),
    decreases b.len(),
{
    if b.len() == 0 {
        assert(a + b =~= a);
        assert(listed(a, skip_indices) + listed(b, skip_indices) =~= listed(a, skip_indices));
    } else {
        law_names_are_listed_in_order(a, b.drop_last(), skip_indices);
        assert((a + b).drop_last() =~= a + b.drop_last());
        assert(listed(a + b, skip_indices) =~= listed(a, skip_indices) + listed(b, skip_indices));
    }
}

/// All names are listed where indices are not skipped; else exactly those below the mark of an index.
pub proof fn law_only_indices_are_skipped(atoms: Seq<u32>, atom: u32)
    ensures
        listed(atoms, false) == atoms,
        listed(atoms, true).contains(atom) == (atoms.contains(atom) && atom < 0x8000_0000),
        listed(seq![atom], true) == if atom < 0x8000_0000 {
            seq![atom]
        } else {
            seq![]
        },
    decreases atoms.len(),
{
    assert forall|x: u32| (x & ATOM_TAG_INT != 0) == (x >= 0x8000_0000) by {
        assert((x & 0x8000_0000 != 0) == (x >= 0x8000_0000)) by (bit_vector);
    }
    let one = seq![atom];
    assert(one.drop_last() =~= seq![]);
    assert(listed(one.drop_last(), true) =~= seq![]);
    if atom < 0x8000_0000 {
        assert(listed(one, true) =~= seq![atom]);
    }
    if atoms.len() == 0 {
        assert(listed(atoms, false) =~= atoms);
    } else {
        let rest = atoms.drop_last();
        let last = atoms.last();
        law_only_indices_are_skipped(rest, atom);
        assert(listed(atoms, false) =~= atoms);
        assert(atoms =~= rest.push(last));
        assert(atoms.contains(atom) == (rest.contains(atom) || last == atom)) by {
            if rest.contains(atom) {
                let i = choose|i: int| 0 <= i < rest.len() && rest[i] == atom;
                assert(atoms[i] == atom);
            }
            if last == atom {
                assert(atoms[atoms.len() - 1] == atom);
            }
            if atoms.contains(atom) {
                let i = choose|i: int| 0 <= i < atoms.len() && atoms[i] == atom;
                if i < rest.len() {
                    assert(rest[i] == atom);
                }
            }
        }
        let l = listed(rest, true);
        assert(l.push(last).contains(atom) == (l.contains(atom) || last == atom)) by {
            if l.contains(atom) {
                let i = choose|i: int| 0 <= i < l.len() && l[i] == atom;
                assert(l.push(last)[i] == atom);
            }
            if last == atom {
                assert(l.push(last)[l.len() as int] == atom);
            }
            if l.push(last).contains(atom) {
                let i = choose|i: int| 0 <= i < l.push(last).len() && l.push(last)[i] == atom;
                if i < l.len() {
                    assert(l[i] == atom);
                }
            }
        }
    }
}

/// The engine's answer to a question: none without an object or with an exception, else yes for every number
/// but zero.
pub proof fn law_answers_by_sign(answer: int)
    ensures
        engine_reply(false, answer) == MaybeBool::Nothing,
        answer < 0 ==> engine_reply(true, answer) == MaybeBool::Nothing,
        engine_reply(true, 0) == MaybeBool::JustFalse,
        answer > 0 ==> engine_reply(true, answer) == MaybeBool::JustTrue,
{
}

/// An answer counts only of an object and without an exception; then it is the answer.
pub proof fn law_reply_is_the_answer(answer: bool)
    ensures
        forall|threw: bool, a: bool| reply(false, threw, a) == MaybeBool::Nothing,
        forall|a: bool| reply(true, true, a) == MaybeBool::Nothing,
        reply(true, false, true) == MaybeBool::JustTrue,
        reply(true, false, false) == MaybeBool::JustFalse,
{
}

/// A message that says anywhere that a property is read-only or an object not extensible tells that a write
/// was rejected.
pub proof fn law_write_rejections_are_told(before: Seq<char>, words: Seq<char>, after: Seq<char>)
    requires
        words == "read-only"@ || words == "not extensible"@ || words == "non-extensible"@,
    ensures
        is_write_rejection(before + words + after),
{
    let s = before + words + after;
    let k = before.len() as int;
    assert(s.subrange(k, k + words.len()) =~= words);
    assert(occurs_at(s, words, k));
    assert(contains_text(s, words));
}

/// Any other message tells of something else: one that holds neither a hyphen nor the word `extensible`.
pub proof fn law_other_exceptions_go_on(message: Seq<char>)
    requires
        !message.contains('-'),
        !contains_text(message, "extensible"@),
    ensures
        !is_write_rejection(message),
{
    reveal_strlit("read-only");
    reveal_strlit("not extensible");
    reveal_strlit("non-extensible");
    reveal_strlit("extensible");
    if contains_text(message, "read-only"@) {
        let k = choose|k: int| occurs_at(message, "read-only"@, k);
        assert(message.subrange(k, k + 9)[4] == "read-only"@[4]);
        assert(message[k + 4] == '-');
    }
    if contains_text(message, "non-extensible"@) {
        let k = choose|k: int| occurs_at(message, "non-extensible"@, k);
        assert(message.subrange(k, k + 14)[3] == "non-extensible"@[3]);
        assert(message[k + 3] == '-');
    }
    if contains_text(message, "not extensible"@) {
        let k = choose|k: int| occurs_at(message, "not extensible"@, k);
        assert(message.subrange(k + 4, k + 14) =~= "extensible"@) by {
            assert forall|j: int| 0 <= j < 10 implies #[trigger] message.subrange(k + 4, k + 14)[j]
                == "extensible"@[j] by {
                assert(message.subrange(k, k + 14)[j + 4] == "not extensible"@[j + 4]);
            }
        }
        assert(occurs_at(message, "extensible"@, k + 4));
    }
}

/// The hash of a name is odd, so not zero, and has the upper bits of a product modulo two to the 31.
pub proof fn law_name_hash_is_odd(atom: u32)
    ensures
        hash_of_atom(atom) % 2 == 1,
        hash_of_atom(atom) <= 0x7fff_ffff,
        hash_of_atom(atom) / 2 == ((atom ^ 0x9e37_79b9) * 2654435761) % 0x8000_0000 / 2,
{
    let x = ((atom ^ 0x9e37_79b9) * 2654435761) % 0x1_0000_0000;
    let h = x as u32;
    assert(((h & 0x7fff_ffff) | 1) % 2 == 1 && ((h & 0x7fff_ffff) | 1) <= 0x7fff_ffff) by (bit_vector);
    assert(((h & 0x7fff_ffff) | 1) / 2 == (h % 0x8000_0000) / 2) by (bit_vector);
    assert(x % 0x8000_0000 == ((atom ^ 0x9e37_79b9) * 2654435761) % 0x8000_0000) by {
        vstd::arithmetic::div_mod::lemma_mod_mod(
            ((atom ^ 0x9e37_79b9) * 2654435761) as int,
            0x8000_0000,
            2,
        );
    }
}

/// The hash of an address mixes its two halves: that of a small address is the address, both halves count
/// alike, and mixed addresses have mixed hashes.
pub proof fn law_address_hash_mixes_halves(p: u64, q: u64)
    ensures
        p < 0x8000_0000 ==> hash_of_address(p) == p,
        p < 0x8000_0000 ==> hash_of_address((p << 32) as u64) == p,
        hash_of_address(p ^ q) == hash_of_address(p) ^ hash_of_address(q),
        hash_of_address(p) <= 0x7fff_ffff,
{
    assert(p < 0x8000_0000 ==> ((p as u32) ^ ((p >> 32) as u32)) & 0x7fff_ffff == p) by (bit_vector);
    assert(p < 0x8000_0000 ==> ((((p << 32) as u64) as u32) ^ ((((p << 32) as u64) >> 32) as u32))
        & 0x7fff_ffff == p) by (bit_vector);
    assert((((p ^ q) as u32) ^ (((p ^ q) >> 32) as u32)) & 0x7fff_ffff == (((p as u32) ^ ((p
        >> 32) as u32)) & 0x7fff_ffff) ^ (((q as u32) ^ ((q >> 32) as u32)) & 0x7fff_ffff))
        by (bit_vector);
    assert(((p as u32) ^ ((p >> 32) as u32)) & 0x7fff_ffff <= 0x7fff_ffff) by (bit_vector);
}

/// An attribute bit takes the right away that it stands for, and no other.
pub proof fn law_property_flags(a: u32, plain: PropertyFlags, r: PropertyFlags)
    requires
        call_ensures(attr_to_jsprop, (0u32,), plain),
        call_ensures(attr_to_jsprop, (a,), r),
    ensures
        plain.writable && plain.enumerable && plain.configurable,
        a & 1 != 0 <==> !r.writable,
        a & 2 != 0 <==> !r.enumerable,
        a & 4 != 0 <==> !r.configurable,
{
    assert(0u32 & 1u32 == 0u32 && 0u32 & 2u32 == 0u32 && 0u32 & 4u32 == 0u32) by (bit_vector);
}

/// What the engine could not read has no value, the name `Object` and no length.
pub proof fn law_what_could_not_be_read(
    v: usize,
    value: Option<usize>,
    name: String,
    read: String,
    none: String,
    n: i64,
    length: u32,
    zero: u32,
)
    requires
        call_ensures(real_named_property, (Read::Value(v),), value),
        call_ensures(constructor_name, (Some(name),), read),
        call_ensures(constructor_name, (None,), none),
        call_ensures(array_length, (Some(n),), length),
        call_ensures(array_length, (None,), zero),
    ensures
        value == Some(v),
        read@ == name@,
        none@ == "Object"@,
        zero == 0,
        n < 0 ==> length == 0,
        0 <= n <= u32::MAX ==> length == n,
{
}

/// A property that is there has attributes, of which none is told; what cannot be asked has none.
pub proof fn law_attributes_are_not_told(n: i32, asked: Option<u32>, not_asked: Option<u32>)
    requires
        call_ensures(property_attributes, (true, n), asked),
        call_ensures(property_attributes, (false, n), not_asked),
    ensures
        n > 0 ==> asked == Some(0u32),
        n <= 0 ==> asked is None,
        not_asked is None,
{
}

/// The entries of an object are the array that was made of them, or an empty one.
pub proof fn law_previews(a: usize, empty: usize, made: Option<usize>, failed: Option<usize>, none: Option<usize>)
    requires
        call_ensures(preview_reply, (true, Some(a), empty), made),
        call_ensures(preview_reply, (true, None, empty), failed),
        call_ensures(preview_reply, (false, Some(a), empty), none),
    ensures
        made == Some(a),
        failed == Some(empty),
        none is None,
{
}

} // verus!

//! Properties of objects, their names, and what collections hold.

use crate::text::{decimal, digit};
use vstd::prelude::*;

verus! {

/// The attributes of a property as the engine wants them: its read-only, hidden and permanent bits stand one
/// place higher.
pub open spec fn engine_attributes(attributes: u32) -> u32 {
    (attributes & 7) << 1
}

/// The attributes of a property as the engine wants them.
pub fn define_attributes(attributes: u32) -> (r: u32)
    ensures
        r == engine_attributes(attributes),
{
    let mut r: u32 = 0;
    if attributes & 1 != 0 {
        r = r | 2;
    }
    if attributes & 2 != 0 {
        r = r | 4;
    }
    if attributes & 4 != 0 {
        r = r | 8;
    }
    proof {
        let a = attributes;
        let b0: u32 = if a & 1 != 0 {
            2
        } else {
            0
        };
        let b1: u32 = if a & 2 != 0 {
            4
        } else {
            0
        };
        let b2: u32 = if a & 4 != 0 {
            8
        } else {
            0
        };
        assert((a & 7) << 1 == ((0u32 | b0) | b1) | b2) by (bit_vector)
            requires
                b0 == if a & 1 != 0 {
                    2u32
                } else {
                    0u32
                },
                b1 == if a & 2 != 0 {
                    4u32
                } else {
                    0u32
                },
                b2 == if a & 4 != 0 {
                    8u32
                } else {
                    0u32
                },
        ;
        assert(0u32 | 0u32 == 0u32) by (bit_vector);
        let x = 0u32 | b0;
        assert(x | 0u32 == x) by (bit_vector);
        let y = x | b1;
        assert(y | 0u32 == y) by (bit_vector);
    }
    r
}

/// The attributes of a private property: it is hidden.
pub const PRIVATE_ATTRIBUTES: u32 = 4;

/// A text as 16-bit units, if it is ASCII.
pub open spec fn units(s: Seq<char>) -> Seq<u16> {
    Seq::new(s.len(), |i: int| s[i] as u16)
}

/// A name is an index: a number of at most 32 bits, written in decimal without leading zeros.
pub open spec fn is_array_index(s: Seq<u16>) -> bool {
    exists|n: nat| n <= u32::MAX && s == units(#[trigger] decimal(n))
}

/// All units are decimal digits.
pub open spec fn all_digits(s: Seq<u16>) -> bool {
    forall|i: int| 0 <= i < s.len() ==> 48 <= #[trigger] s[i] <= 57
}

/// The number that the digits stand for.
pub open spec fn value(s: Seq<u16>) -> nat
    decreases s.len(),
{
    if s.len() == 0 {
        0
    } else {
        (value(s.drop_last()) * 10 + (s.last() - 48)) as nat
    }
}

/// `10` to the power of `k`.
spec fn ten_to(k: nat) -> nat
    decreases k,
{
    if k == 0 {
        1
    } else {
        10 * ten_to((k - 1) as nat)
    }
}

proof fn lemma_value_bound(s: Seq<u16>)
    requires
        all_digits(s),
    ensures
        value(s) < ten_to(s.len()),
    decreases s.len(),
{
    if s.len() > 0 {
        assert(all_digits(s.drop_last())) by {
            assert forall|i: int| 0 <= i < s.len() - 1 implies 48 <= #[trigger] s.drop_last()[i] <= 57 by {
                assert(48 <= s[i] <= 57);
            }
        }
        lemma_value_bound(s.drop_last());
        assert(48 <= s[s.len() - 1] <= 57);
    }
}

proof fn lemma_value_positive(s: Seq<u16>)
    requires
        s.len() > 0,
        all_digits(s),
        s[0] != 48,
    ensures
        value(s) >= 1,
    decreases s.len(),
{
    assert(48 <= s[s.len() - 1] <= 57);
    if s.len() > 1 {
        let d = s.drop_last();
        assert forall|i: int| 0 <= i < d.len() implies 48 <= #[trigger] d[i] <= 57 by {
            assert(48 <= s[i] <= 57);
        }
        lemma_value_positive(d);
    }
}

/// Digits without a leading zero are the decimal digits of their value.
proof fn lemma_canonical(s: Seq<u16>)
    requires
        s.len() > 0,
        all_digits(s),
        s[0] != 48 || s.len() == 1,
    ensures
        units(decimal(value(s))) == s,
    decreases s.len(),
{
    let last = s[s.len() - 1];
    assert(48 <= last <= 57);
    let d = s.drop_last();
    if s.len() == 1 {
        assert(value(d) == 0);
        assert(units(decimal(value(s))) =~= s);
    } else {
        assert forall|i: int| 0 <= i < d.len() implies 48 <= #[trigger] d[i] <= 57 by {
            assert(48 <= s[i] <= 57);
        }
        lemma_canonical(d);
        lemma_value_positive(d);
        let n = value(s);
        assert(n / 10 == value(d));
        assert(n % 10 == last - 48);
        assert(decimal(n) == decimal(value(d)).push(digit(n % 10)));
        assert(units(decimal(n)) =~= units(decimal(value(d))).push(last));
        assert(s =~= d.push(last));
    }
}

/// The decimal digits of a number are digits without a leading zero that stand for it.
proof fn lemma_decimal(n: nat)
    ensures
        units(decimal(n)).len() > 0,
        all_digits(units(decimal(n))),
        value(units(decimal(n))) == n,
        units(decimal(n)).len() > 1 ==> units(decimal(n))[0] != 48,
        n >= 1 ==> units(decimal(n))[0] != 48,
    decreases n,
{
    let u = units(decimal(n));
    if n < 10 {
        assert(u =~= seq![(48 + n) as u16]);
        assert(u.drop_last() =~= seq![]);
        assert(value(u.drop_last()) == 0);
    } else {
        lemma_decimal(n / 10);
        let h = units(decimal(n / 10));
        assert(u =~= h.push((48 + n % 10) as u16));
        assert(u.drop_last() =~= h);
        assert forall|i: int| 0 <= i < u.len() implies 48 <= #[trigger] u[i] <= 57 by {
            if i < h.len() {
                assert(u[i] == h[i]);
            }
        }
        assert(u[0] == h[0]);
    }
}

proof fn lemma_decimal_len(n: nat, k: nat)
    requires
        n < ten_to(k),
        k >= 1,
    ensures
        decimal(n).len() <= k,
    decreases n,
{
    if n >= 10 {
        assert(k >= 2) by {
            reveal_with_fuel(ten_to, 2);
        }
        lemma_decimal_len(n / 10, (k - 1) as nat);
    }
}

/// Whether a name is an index.
pub fn jsstr_is_array_index(s: &[u16]) -> (r: bool)
    ensures
        r == is_array_index(s@),
{
    let len = s.len();
    proof {
        assert(ten_to(10) == 10_000_000_000) by {
            reveal_with_fuel(ten_to, 11);
        }
        assert forall|n: nat| n <= u32::MAX && s@ == units(#[trigger] decimal(n)) implies 1 <= len <= 10
            && all_digits(s@) && value(s@) == n && (len > 1 ==> s@[0] != 48) by {
            lemma_decimal(n);
            lemma_decimal_len(n, 10);
        }
    }
    if len == 0 || len > 10 {
        return false;
    }
    if s[0] == 48 {
        if len == 1 {
            assert(units(decimal(0)) =~= s@);
        }
        return len == 1;
    }
    let mut val: u64 = 0;
    let mut i: usize = 0;
    while i < len
        invariant
            i <= len,
            len == s@.len(),
            1 <= len <= 10,
            all_digits(s@.take(i as int)),
            val == value(s@.take(i as int)),
            val < ten_to(i as nat),
            ten_to(10) == 10_000_000_000,
            forall|n: nat|
                n <= u32::MAX && s@ == units(#[trigger] decimal(n)) ==> all_digits(s@),
        decreases len - i,
    {
        let c = s[i];
        if !(c >= 48 && c <= 57) {
            assert(!all_digits(s@)) by {
                assert(s@[i as int] == c);
            }
            return false;
        }
        let ghost t = s@.take(i + 1);
        proof {
            assert(t.drop_last() =~= s@.take(i as int));
            assert(t.last() == c);
            assert(all_digits(t)) by {
                assert forall|j: int| 0 <= j < t.len() implies 48 <= #[trigger] t[j] <= 57 by {
                    if j < i {
                        assert(t[j] == s@.take(i as int)[j]);
                    }
                }
            }
            lemma_value_bound(t);
            lemma_ten_to_grows((i + 1) as nat, 10);
        }
        val = val * 10 + (c - 48) as u64;
        i += 1;
    }
    assert(s@.take(i as int) =~= s@);
    proof {
        lemma_canonical(s@);
        if val <= u32::MAX {
            assert(s@ == units(decimal(val as nat)));
        }
    }
    val <= 0xffff_ffff
}

proof fn lemma_ten_to_grows(i: nat, k: nat)
    requires
        i <= k,
    ensures
        ten_to(i) <= ten_to(k),
    decreases k - i,
{
    if i < k {
        lemma_ten_to_grows(i + 1, k);
    }
}

/// The bit of a filter that leaves names that are strings out.
pub const SKIP_STRINGS: u32 = 8;

/// The names that are listed: none where strings are left out, all that are no index where indices are.
pub open spec fn listed(names: Seq<Seq<u16>>, skip_indices: bool) -> Seq<Seq<u16>>
    decreases names.len(),
{
    if names.len() == 0 {
        seq![]
    } else if skip_indices && is_array_index(names.last()) {
        listed(names.drop_last(), skip_indices)
    } else {
        listed(names.drop_last(), skip_indices).push(names.last())
    }
}

/// The names as plain values.
pub open spec fn name_views(v: Seq<Vec<u16>>) -> Seq<Seq<u16>> {
    Seq::new(v.len(), |i: int| v[i]@)
}

fn copy_units(s: &[u16]) -> (r: Vec<u16>)
    ensures
        r@ == s@,
{
    let mut r: Vec<u16> = Vec::new();
    let mut i: usize = 0;
    while i < s.len()
        invariant
            i <= s.len(),
            r@ =~= s@.take(i as int),
        decreases s.len() - i,
    {
        r.push(s[i]);
        i += 1;
    }
    assert(s@.take(i as int) =~= s@);
    r
}

/// The names of properties that are listed.
pub fn property_names(names: &Vec<Vec<u16>>, filter: u32, skip_indices: bool) -> (r: Vec<Vec<u16>>)
    ensures
        name_views(r@) == if filter & SKIP_STRINGS != 0 {
            seq![]
        } else {
            listed(name_views(names@), skip_indices)
        },
{
    let mut r: Vec<Vec<u16>> = Vec::new();
    assert(name_views(r@) =~= seq![]);
    if filter & SKIP_STRINGS != 0 {
        return r;
    }
    let mut i: usize = 0;
    let ghost all = name_views(names@);
    while i < names.len()
        invariant
            i <= names.len(),
            all == name_views(names@),
            name_views(r@) == listed(all.take(i as int), skip_indices),
        decreases names.len() - i,
    {
        assert(all.take(i + 1).drop_last() =~= all.take(i as int));
        assert(all.take(i + 1).last() == all[i as int]);
        if !(skip_indices && jsstr_is_array_index(&names[i])) {
            let ghost done = name_views(r@);
            r.push(copy_units(&names[i]));
            assert(name_views(r@) =~= done.push(all[i as int]));
        }
        i += 1;
    }
    assert(all.take(i as int) =~= all);
    r
}

/// What is to be done next to show the entries of a collection.
#[derive(Clone, Copy, PartialEq, Eq, Structural, Debug)]
pub enum Preview {
    /// Call the collection's `entries`, if it has one.
    CallEntries,
    /// Call the collection's `values`, if it has one.
    CallValues,
    /// Make an array of this iterator.
    Collect(usize),
    /// Make one array of the pairs in this one.
    Flatten(usize),
    /// The entries, if there are any.
    Done(Option<usize>),
}

/// Begins to show the entries of an object: an iterator shows what it has left, and whether that is keys and
/// values; any other object is asked.
pub fn preview_begin(has_object: bool, native: Option<(usize, bool)>) -> (r: (Preview, Option<bool>))
    ensures
        r == if !has_object {
            (Preview::Done(None), None)
        } else {
            match native {
                Some((array, key_value)) => (Preview::Done(Some(array)), Some(key_value)),
                None => (Preview::CallEntries, None),
            }
        },
{
    if !has_object {
        return (Preview::Done(None), None);
    }
    match native {
        Some((array, key_value)) => (Preview::Done(Some(array)), Some(key_value)),
        None => (Preview::CallEntries, None),
    }
}

/// Goes on once `entries` has been called: what it returned are keys and values. Without it `values` is
/// called.
pub fn entries_called(iterator: Option<usize>) -> (r: (Preview, Option<bool>))
    ensures
        r == match iterator {
            Some(it) => (Preview::Collect(it), Some(true)),
            None => (Preview::CallValues, None),
        },
{
    match iterator {
        Some(it) => (Preview::Collect(it), Some(true)),
        None => (Preview::CallValues, None),
    }
}

/// Goes on once `values` has been called: what it returned are values alone.
pub fn values_called(iterator: Option<usize>) -> (r: (Preview, Option<bool>))
    ensures
        r.1 == Some(false),
        r.0 == match iterator {
            Some(it) => Preview::Collect(it),
            None => Preview::Done(None),
        },
{
    match iterator {
        Some(it) => (Preview::Collect(it), Some(false)),
        None => (Preview::Done(None), Some(false)),
    }
}

/// Goes on once the array has been made.
pub fn collected(array: Option<usize>, key_value: bool) -> (r: Preview)
    ensures
        r == match array {
            Some(a) => if key_value {
                Preview::Flatten(a)
            } else {
                Preview::Done(Some(a))
            },
            None => Preview::Done(None),
        },
{
    match array {
        Some(a) => {
            if key_value {
                Preview::Flatten(a)
            } else {
                Preview::Done(Some(a))
            }
        },
        None => Preview::Done(None),
    }
}

/// Ends once the pairs have been made one array; where that failed, the pairs are shown.
pub fn flattened(array: usize, flat: Option<usize>) -> (r: Preview)
    ensures
        r == Preview::Done(
            Some(
                match flat {
                    Some(f) => f,
                    None => array,
                },
            ),
        ),
{
    match flat {
        Some(f) => Preview::Done(Some(f)),
        None => Preview::Done(Some(array)),
    }
}

/// A name is an index where it is made of digits, without a zero before others, that stand for a number of at
/// most 32 bits.
pub proof fn law_indices(s: Seq<u16>)
    ensures
        is_array_index(s) <==> s.len() > 0 && (forall|i: int|
            0 <= i < s.len() ==> 48 <= #[trigger] s[i] <= 57) && (s.len() == 1 || s[0] != 48)
            && value(s) <= 4294967295,
{
    if is_array_index(s) {
        let n = choose|n: nat| n <= u32::MAX && s == units(#[trigger] decimal(n));
        lemma_decimal(n);
    }
    if s.len() > 0 && all_digits(s) && (s.len() == 1 || s[0] != 48) && value(s) <= u32::MAX {
        lemma_canonical(s);
        assert(s == units(decimal(value(s))));
    }
}

/// The number that digits stand for grows tenfold with each digit.
pub proof fn law_value_of_digits(s: Seq<u16>, d: u16)
    requires
        48 <= d <= 57,
    ensures
        value(s.push(d)) == 10 * value(s) + (d - 48),
        value(seq![]) == 0,
{
    assert(s.push(d).drop_last() =~= s);
}

/// Names are listed in order; an index is left out only where indices are.
pub proof fn law_listed_names(names: Seq<Seq<u16>>, name: Seq<u16>, skip: bool)
    ensures
        listed(names, false) == names,
        is_array_index(name) && skip ==> listed(names.push(name), skip) == listed(names, skip),
        !is_array_index(name) || !skip ==> listed(names.push(name), skip) == listed(names, skip).push(
            name,
        ),
        listed(seq![], skip).len() == 0,
    decreases names.len(),
{
    assert(names.push(name).drop_last() =~= names);
    if names.len() > 0 {
        law_listed_names(names.drop_last(), name, skip);
        assert(names =~= names.drop_last().push(names.last()));
    }
}

/// The bit for strings leaves all names out.
pub proof fn law_strings_are_left_out(names: Vec<Vec<u16>>, filter: u32, skip: bool, r: Vec<Vec<u16>>)
    requires
        call_ensures(property_names, (&names, filter, skip), r),
    ensures
        filter & 8 != 0 ==> r@.len() == 0,
        filter & 8 == 0 ==> name_views(r@) == listed(name_views(names@), skip),
{
    assert(name_views(r@).len() == r@.len());
}

/// Each of the three attributes goes to the next higher bit, whatever the others are.
pub proof fn law_attribute_bits(a: u32)
    ensures
        engine_attributes(a) & 2 != 0 <==> a & 1 != 0,
        engine_attributes(a) & 4 != 0 <==> a & 2 != 0,
        engine_attributes(a) & 8 != 0 <==> a & 4 != 0,
        engine_attributes(a) <= 14,
        engine_attributes(a) & 1 == 0,
{
    assert(((((a & 7u32) << 1u32) & 2u32 != 0u32) <==> (a & 1u32 != 0u32)) && ((((a & 7u32) << 1u32) & 4u32
        != 0u32) <==> (a & 2u32 != 0u32)) && ((((a & 7u32) << 1u32) & 8u32 != 0u32) <==> (a & 4u32
        != 0u32)) && ((a & 7u32) << 1u32) <= 14u32 && ((a & 7u32) << 1u32) & 1u32 == 0u32)
        by (bit_vector);
}

/// Entries are previewed as the engine gives them; else `entries` is called, whose pairs are made flat, and
/// without it `values`.
pub proof fn law_previews(
    a: usize,
    pairs: bool,
    native: (Preview, Option<bool>),
    none: (Preview, Option<bool>),
    begun: (Preview, Option<bool>),
    with: (Preview, Option<bool>),
    without: (Preview, Option<bool>),
)
    requires
        call_ensures(preview_begin, (true, Some((a, pairs))), native),
        call_ensures(preview_begin, (false, Some((a, pairs))), none),
        call_ensures(preview_begin, (true, None), begun),
        call_ensures(entries_called, (Some(a),), with),
        call_ensures(entries_called, (None,), without),
    ensures
        native == (Preview::Done(Some(a)), Some(pairs)),
        none == (Preview::Done(None), None::<bool>),
        begun == (Preview::CallEntries, None::<bool>),
        with == (Preview::Collect(a), Some(true)),
        without == (Preview::CallValues, None::<bool>),
{
}

/// What `values` gives is shown as it is; pairs are made flat, and stay as they are where that fails.
pub proof fn law_previews_go_on(
    a: usize,
    f: usize,
    with: (Preview, Option<bool>),
    without: (Preview, Option<bool>),
    pairs: Preview,
    single: Preview,
    missing: Preview,
    flat: Preview,
    kept: Preview,
)
    requires
        call_ensures(values_called, (Some(a),), with),
        call_ensures(values_called, (None,), without),
        call_ensures(collected, (Some(a), true), pairs),
        call_ensures(collected, (Some(a), false), single),
        call_ensures(collected, (None, true), missing),
        call_ensures(flattened, (a, Some(f)), flat),
        call_ensures(flattened, (a, None), kept),
    ensures
        with == (Preview::Collect(a), Some(false)),
        without == (Preview::Done(None), Some(false)),
        pairs == Preview::Flatten(a),
        single == Preview::Done(Some(a)),
        missing == Preview::Done(None),
        flat == Preview::Done(Some(f)),
        kept == Preview::Done(Some(a)),
{
}

} // verus!

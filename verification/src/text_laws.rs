//! What searching, trimming, splitting and joining do to texts put together from parts.

use crate::text::{
    begins, char_from, contains_text, decimal, digit, first_from, is_name_char, is_plain, is_white,
    joined, last_upto, leading_name, lemma_char_from, lemma_first_from, lemma_last_upto, lines_from,
    lines_of, occurs_at, pieces_from, pieces_of, quoted, replaced, replaced_from, run_end, strings,
    texts, trimmed, trimmed_end, trimmed_start, without_nul, without_prefixes, without_trailing,
    words_from, words_of,
};
use vstd::prelude::*;

verus! {

/// All of the text is white space.
pub open spec fn all_white(s: Seq<char>) -> bool {
    forall|i: int| 0 <= i < s.len() ==> is_white(#[trigger] s[i])
}

/// The characters that are white space.
pub proof fn law_white_space(c: char)
    ensures
        is_white(c) == ('\t' <= c <= '\r' || c == ' ' || c == '\u{85}' || c == '\u{a0}' || c
            == '\u{1680}' || '\u{2000}' <= c <= '\u{200a}' || c == '\u{2028}' || c == '\u{2029}' || c
            == '\u{202f}' || c == '\u{205f}' || c == '\u{3000}'),
{
}

/// A text begins with what stands first in it, and with nothing else of that length.
pub proof fn law_begins(p: Seq<char>, q: Seq<char>, rest: Seq<char>)
    ensures
        begins(p + rest, p),
        p.len() == q.len() && begins(p + rest, q) ==> p == q,
        p.len() > rest.len() ==> !begins(rest, p),
{
    assert((p + rest).subrange(0, p.len() as int) =~= p);
}

/// What stands first is found first; what does not stand in a text is not found.
pub proof fn law_search(a: Seq<char>, p: Seq<char>, b: Seq<char>)
    requires
        p.len() > 0,
    ensures
        contains_text(a + p + b, p),
        (forall|i: int| 0 <= i < a.len() ==> !occurs_at(a + p + b, p, i)) ==> first_from(
            a + p + b,
            p,
            0,
        ) == Some(a.len() as int),
        !contains_text(a, p) ==> first_from(a, p, 0) is None,
{
    let s = a + p + b;
    let n = a.len() as int;
    assert(s.subrange(n, n + p.len()) =~= p);
    assert(occurs_at(s, p, n));
    if forall|i: int| 0 <= i < a.len() ==> !occurs_at(s, p, i) {
        lemma_first_is(s, p, n);
    }
    if !contains_text(a, p) {
        lemma_first_from(a, p, 0);
        if let Some(i) = first_from(a, p, 0) {
            assert(occurs_at(a, p, i));
        }
    }
}

/// Where a text stands before which it does not, it is found.
pub proof fn lemma_first_is(s: Seq<char>, p: Seq<char>, n: int)
    requires
        0 <= n,
        occurs_at(s, p, n),
        forall|i: int| 0 <= i < n ==> !occurs_at(s, p, i),
    ensures
        first_from(s, p, 0) == Some(n),
{
    lemma_first_from(s, p, 0);
}

/// What stands last is found from the end.
pub proof fn law_search_from_the_end(a: Seq<char>, p: Seq<char>, b: Seq<char>)
    requires
        p.len() > 0,
    ensures
        (forall|i: int| i > a.len() ==> !occurs_at(a + p + b, p, i)) ==> last_upto(
            a + p + b,
            p,
            (a + p + b).len() as int,
        ) == Some(a.len() as int),
        !contains_text(a, p) ==> last_upto(a, p, a.len() as int) is None,
{
    let s = a + p + b;
    let n = a.len() as int;
    assert(s.subrange(n, n + p.len()) =~= p);
    assert(occurs_at(s, p, n));
    lemma_last_upto(s, p, s.len() as int);
    assert(!contains_text(a, p) ==> last_upto(a, p, a.len() as int) is None) by {
        lemma_last_upto(a, p, a.len() as int);
    }
}

/// A character is found where it first stands.
pub proof fn law_search_character(a: Seq<char>, c: char, b: Seq<char>)
    requires
        !a.contains(c),
    ensures
        char_from(a + seq![c] + b, c, 0) == Some(a.len() as int),
        char_from(a, c, 0) is None,
{
    let s = a + seq![c] + b;
    lemma_char_from(s, c, 0);
    lemma_char_from(a, c, 0);
    let n = a.len() as int;
    assert(s[n] == c);
    assert forall|i: int| 0 <= i < n implies s[i] != c by {
        assert(s[i] == a[i]);
    }
}

/// White space before a text is taken off its front.
pub proof fn law_trimmed_start(a: Seq<char>, m: Seq<char>)
    requires
        all_white(a),
        m.len() > 0 ==> !is_white(m[0]),
    ensures
        trimmed_start(a + m) == m,
    decreases a.len(),
{
    if a.len() == 0 {
        assert(a + m =~= m);
    } else {
        assert(is_white(a[0]));
        assert((a + m).skip(1) =~= a.skip(1) + m);
        assert forall|i: int| 0 <= i < a.skip(1).len() implies is_white(#[trigger] a.skip(1)[i]) by {
            assert(is_white(a[i + 1]));
        }
        law_trimmed_start(a.skip(1), m);
    }
}

/// White space behind a text is taken off its end.
pub proof fn law_trimmed_end(m: Seq<char>, b: Seq<char>)
    requires
        all_white(b),
        m.len() > 0 ==> !is_white(m.last()),
    ensures
        trimmed_end(m + b) == m,
    decreases b.len(),
{
    if b.len() == 0 {
        assert(m + b =~= m);
    } else {
        assert(is_white(b[b.len() - 1]));
        assert((m + b).drop_last() =~= m + b.drop_last());
        assert forall|i: int| 0 <= i < b.drop_last().len() implies is_white(
            #[trigger] b.drop_last()[i],
        ) by {
            assert(is_white(b[i]));
        }
        law_trimmed_end(m, b.drop_last());
    }
}

/// White space is taken off both ends of a text, and none within it.
pub proof fn law_trimmed(a: Seq<char>, m: Seq<char>, b: Seq<char>)
    requires
        all_white(a) && all_white(b),
        m.len() > 0 ==> !is_white(m[0]) && !is_white(m.last()),
    ensures
        trimmed(a + m + b) == m,
{
    if m.len() > 0 {
        assert(a + m + b =~= a + (m + b));
        assert((m + b)[0] == m[0]);
        law_trimmed_start(a, m + b);
        law_trimmed_end(m, b);
    } else {
        let all = a + b;
        assert(a + m + b =~= all + m);
        assert forall|i: int| 0 <= i < all.len() implies is_white(#[trigger] all[i]) by {
            if i < a.len() {
                assert(is_white(a[i]));
            } else {
                assert(is_white(b[i - a.len()]));
            }
        }
        law_trimmed_start(all, m);
        assert(m + Seq::<char>::empty() =~= m);
        law_trimmed_end(m, seq![]);
    }
}

/// What stands before the first line feed is the first line, without a carriage return at its end; the rest
/// are the lines of what follows.
pub proof fn law_lines(a: Seq<char>, b: Seq<char>)
    requires
        !a.contains('\n'),
    ensures
        lines_of(a + seq!['\n'] + b) == seq![
            if a.len() > 0 && a.last() == '\r' {
                a.drop_last()
            } else {
                a
            },
        ] + lines_of(b),
        a.len() > 0 ==> lines_of(a) == seq![a],
        lines_of(seq![]) == Seq::<Seq<char>>::empty(),
{
    let s = a + seq!['\n'] + b;
    let n = a.len() as int;
    law_search_character(a, '\n', b);
    assert(s.subrange(0, n) =~= a);
    lemma_lines_in_end(s, n + 1, 0);
    assert(s.skip(n + 1) =~= b);
    assert(a.skip(0) =~= a);
}

proof fn lemma_lines_in_end(s: Seq<char>, k: int, i: int)
    requires
        0 <= k <= s.len(),
        0 <= i,
    ensures
        lines_from(s, k + i) == lines_from(s.skip(k), i),
    decreases s.len() - k - i,
{
    let t = s.skip(k);
    if k + i < s.len() {
        lemma_char_from(s, '\n', k + i);
        lemma_char_from(t, '\n', i);
        match char_from(t, '\n', i) {
            Some(m) => {
                assert(s[k + m] == '\n');
                assert(t[m] == s[k + m]);
                let q = char_from(s, '\n', k + i)->0;
                assert(q <= k + m);
                assert(t[q - k] == s[q]);
                assert(q == k + m);
                assert(s.subrange(k + i, k + m) =~= t.subrange(i, m));
                lemma_lines_in_end(s, k, m + 1);
            },
            None => {
                if let Some(q) = char_from(s, '\n', k + i) {
                    assert(t[q - k] == s[q]);
                }
                assert(s.skip(k + i) =~= t.skip(i));
            },
        }
    }
}

/// What stands before the first separator is the first piece; the rest are the pieces of what follows.
pub proof fn law_pieces(a: Seq<char>, c: char, b: Seq<char>)
    requires
        !a.contains(c),
    ensures
        pieces_of(a + seq![c] + b, c) == seq![a] + pieces_of(b, c),
        pieces_of(a, c) == seq![a],
{
    let s = a + seq![c] + b;
    let n = a.len() as int;
    law_search_character(a, c, b);
    assert(s.subrange(0, n) =~= a);
    lemma_pieces_in_end(s, c, n + 1, 0);
    assert(s.skip(n + 1) =~= b);
    assert(a.skip(0) =~= a);
}

proof fn lemma_pieces_in_end(s: Seq<char>, c: char, k: int, i: int)
    requires
        0 <= k <= s.len(),
        0 <= i,
    ensures
        pieces_from(s, c, k + i) == pieces_from(s.skip(k), c, i),
    decreases s.len() - k - i,
{
    let t = s.skip(k);
    if k + i <= s.len() {
        lemma_char_from(s, c, k + i);
        lemma_char_from(t, c, i);
        match char_from(t, c, i) {
            Some(m) => {
                assert(t[m] == s[k + m]);
                let q = char_from(s, c, k + i)->0;
                assert(q <= k + m);
                assert(t[q - k] == s[q]);
                assert(q == k + m);
                assert(s.subrange(k + i, k + m) =~= t.subrange(i, m));
                lemma_pieces_in_end(s, c, k, m + 1);
            },
            None => {
                if let Some(q) = char_from(s, c, k + i) {
                    assert(t[q - k] == s[q]);
                }
                assert(s.skip(k + i) =~= t.skip(i));
            },
        }
    }
}

/// The parts of two lists are joined as those of each, with a separator between; a single part stands by
/// itself.
pub proof fn law_joined(a: Seq<Seq<char>>, b: Seq<Seq<char>>, sep: Seq<char>)
    ensures
        a.len() > 0 && b.len() > 0 ==> joined(a + b, sep) == joined(a, sep) + sep + joined(b, sep),
        a.len() == 1 ==> joined(a, sep) == a[0],
        a.len() == 0 ==> joined(a, sep) == Seq::<char>::empty(),
    decreases b.len(),
{
    if a.len() > 0 && b.len() > 0 {
        assert((a + b).drop_last() =~= a + b.drop_last());
        if b.len() == 1 {
            assert(a + b.drop_last() =~= a);
        } else {
            law_joined(a, b.drop_last(), sep);
        }
        assert(joined(a + b, sep) =~= joined(a, sep) + sep + joined(b, sep));
    }
}

/// A text without white space between white space is a word; the others are the words of what follows.
pub proof fn law_words(blank: Seq<char>, w: Seq<char>, gap: Seq<char>, rest: Seq<char>)
    requires
        all_white(blank) && all_white(gap),
        w.len() > 0,
        forall|i: int| 0 <= i < w.len() ==> !is_white(#[trigger] w[i]),
        gap.len() > 0,
    ensures
        words_of(blank + w + gap + rest) == seq![w] + words_of(rest),
        words_of(blank + w) == seq![w],
        words_of(blank) == Seq::<Seq<char>>::empty(),
{
    let s = blank + w + gap + rest;
    let a = blank.len() as int;
    let b = a + w.len();
    let c = b + gap.len();
    assert forall|i: int| 0 <= i < a implies is_white(#[trigger] s[i]) by {
        assert(s[i] == blank[i]);
        assert(is_white(blank[i]));
    }
    assert forall|i: int| a <= i < b implies !is_white(#[trigger] s[i]) by {
        assert(s[i] == w[i - a]);
    }
    assert forall|i: int| b <= i < c implies is_white(#[trigger] s[i]) by {
        assert(s[i] == gap[i - b]);
        assert(is_white(gap[i - b]));
    }
    assert(!is_white(s[a]));
    lemma_run_end_at(s, false, 0, a);
    assert(is_white(s[b]));
    lemma_run_end_at(s, true, a, b);
    assert(s.subrange(a, b) =~= w);
    lemma_words_skip(s, b, c);
    lemma_words_in_end(s, c, 0);
    assert(s.skip(c) =~= rest);
    let t = blank + w;
    assert forall|i: int| 0 <= i < a implies is_white(#[trigger] t[i]) by {
        assert(t[i] == blank[i]);
        assert(is_white(blank[i]));
    }
    assert forall|i: int| a <= i < b implies !is_white(#[trigger] t[i]) by {
        assert(t[i] == w[i - a]);
    }
    assert(!is_white(t[a]));
    lemma_run_end_at(t, false, 0, a);
    lemma_run_end_at(t, true, a, b);
    assert(t.subrange(a, b) =~= w);
    assert(words_from(t, b) =~= seq![]);
    assert(words_of(t) =~= seq![w]);
    lemma_run_end_at(blank, false, 0, a);
}

proof fn lemma_run_end_at(s: Seq<char>, white: bool, i: int, m: int)
    requires
        0 <= i <= m <= s.len(),
        forall|k: int| i <= k < m ==> is_white(#[trigger] s[k]) != white,
        m < s.len() ==> is_white(s[m]) == white,
    ensures
        run_end(s, white, i) == m,
    decreases m - i,
{
    if i < m {
        assert(is_white(s[i]) != white);
        lemma_run_end_at(s, white, i + 1, m);
    }
}

proof fn lemma_words_skip(s: Seq<char>, i: int, m: int)
    requires
        0 <= i <= m <= s.len(),
        forall|k: int| i <= k < m ==> is_white(#[trigger] s[k]),
    ensures
        words_from(s, i) == words_from(s, m),
    decreases m - i,
{
    if i < m {
        assert(is_white(s[i]));
        lemma_words_skip(s, i + 1, m);
        assert(run_end(s, false, i) == run_end(s, false, i + 1));
        if i + 1 >= s.len() {
            assert(words_from(s, i) =~= words_from(s, i + 1));
        }
    }
}

proof fn lemma_run_end_in_end(s: Seq<char>, white: bool, k: int, i: int)
    requires
        0 <= k <= s.len(),
        0 <= i,
    ensures
        run_end(s, white, k + i) == k + run_end(s.skip(k), white, i),
    decreases s.len() - k - i,
{
    if k + i < s.len() {
        assert(s.skip(k)[i] == s[k + i]);
        if is_white(s[k + i]) != white {
            lemma_run_end_in_end(s, white, k, i + 1);
        }
    }
}

proof fn lemma_words_in_end(s: Seq<char>, k: int, i: int)
    requires
        0 <= k <= s.len(),
        0 <= i,
    ensures
        words_from(s, k + i) == words_from(s.skip(k), i),
    decreases s.len() - k - i,
{
    let t = s.skip(k);
    if k + i < s.len() {
        let a = run_end(t, false, i);
        let b = run_end(t, true, a);
        crate::text::lemma_run_end(t, false, i);
        crate::text::lemma_run_end(t, true, a);
        lemma_run_end_in_end(s, false, k, i);
        lemma_run_end_in_end(s, true, k, a);
        if a < t.len() {
            assert(s.subrange(k + a, k + b) =~= t.subrange(a, b));
            lemma_words_in_end(s, k, b);
        }
    }
}

/// The first place where a text stands is replaced, and then those in what follows; a text in which it does
/// not stand stays.
pub proof fn law_replaced(a: Seq<char>, p: Seq<char>, b: Seq<char>, w: Seq<char>)
    requires
        p.len() > 0,
    ensures
        (forall|i: int| 0 <= i < a.len() ==> !occurs_at(a + p + b, p, i)) ==> replaced(
            a + p + b,
            p,
            w,
        ) == a + w + replaced(b, p, w),
        !contains_text(a, p) ==> replaced(a, p, w) == a,
{
    let s = a + p + b;
    let n = a.len() as int;
    law_search(a, p, b);
    if forall|i: int| 0 <= i < a.len() ==> !occurs_at(s, p, i) {
        assert(s.subrange(0, n) =~= a);
        lemma_replaced_in_end(s, p, w, n + p.len(), 0);
        assert(s.skip(n + p.len()) =~= b);
    }
    assert(a.skip(0) =~= a);
}

proof fn lemma_occurs_in_end(s: Seq<char>, p: Seq<char>, k: int, i: int)
    requires
        0 <= k <= s.len(),
        0 <= i,
    ensures
        occurs_at(s, p, k + i) == occurs_at(s.skip(k), p, i),
{
    if k + i + p.len() <= s.len() {
        assert(s.subrange(k + i, k + i + p.len()) =~= s.skip(k).subrange(i, i + p.len()));
    }
}

proof fn lemma_replaced_in_end(s: Seq<char>, p: Seq<char>, w: Seq<char>, k: int, i: int)
    requires
        0 <= k <= s.len(),
        0 <= i <= s.len() - k,
        p.len() > 0,
    ensures
        replaced_from(s, p, w, k + i) == replaced_from(s.skip(k), p, w, i),
    decreases s.len() - k - i,
{
    let t = s.skip(k);
    lemma_first_from(s, p, k + i);
    lemma_first_from(t, p, i);
    match first_from(t, p, i) {
        Some(m) => {
            lemma_occurs_in_end(s, p, k, m);
            let q = first_from(s, p, k + i)->0;
            assert(q <= k + m);
            lemma_occurs_in_end(s, p, k, q - k);
            assert(q == k + m);
            assert(s.subrange(k + i, k + m) =~= t.subrange(i, m));
            lemma_replaced_in_end(s, p, w, k, m + p.len());
        },
        None => {
            if let Some(q) = first_from(s, p, k + i) {
                lemma_occurs_in_end(s, p, k, q - k);
            }
            assert(s.skip(k + i) =~= t.skip(i));
        },
    }
}

/// A copy of a word at the beginning is taken off, and another behind it too; a text that does not begin with
/// it stays.
pub proof fn law_without_prefixes(p: Seq<char>, rest: Seq<char>)
    requires
        p.len() > 0,
    ensures
        without_prefixes(p + rest, p) == without_prefixes(rest, p),
        !begins(rest, p) ==> without_prefixes(rest, p) == rest,
{
    assert((p + rest).subrange(0, p.len() as int) =~= p);
    assert((p + rest).skip(p.len() as int) =~= rest);
}

/// A character at the end is taken off, and another before it too; a text that ends otherwise stays.
pub proof fn law_without_trailing(s: Seq<char>, c: char)
    ensures
        without_trailing(s.push(c), c) == without_trailing(s, c),
        s.len() == 0 || s.last() != c ==> without_trailing(s, c) == s,
{
    assert(s.push(c).drop_last() =~= s);
}

/// A text of plain characters is quoted by putting it between double quotes.
pub proof fn law_plain_text_is_quoted_as_it_is(s: Seq<char>)
    requires
        forall|i: int| 0 <= i < s.len() ==> ' ' <= (#[trigger] s[i]) <= '~' && s[i] != '"' && s[i] != '\\',
    ensures
        quoted(s) == seq!['"'] + s + seq!['"'],
{
    assert forall|i: int| 0 <= i < s.len() implies is_plain(#[trigger] s[i]) by {
        assert(' ' <= s[i] <= '~');
    }
}

/// The characters of ASCII that stand in names.
pub proof fn law_name_characters(c: char)
    requires
        c <= '~',
    ensures
        is_name_char(c) == ('a' <= c <= 'z' || 'A' <= c <= 'Z' || '0' <= c <= '9' || c == '_' || c == '$'),
{
}

/// The name that a text begins with goes as far as characters of names do.
pub proof fn law_leading_name(name: Seq<char>, rest: Seq<char>)
    requires
        forall|i: int| 0 <= i < name.len() ==> is_name_char(#[trigger] name[i]),
        rest.len() > 0 ==> !is_name_char(rest[0]),
    ensures
        leading_name(name + rest) == name,
    decreases name.len(),
{
    if name.len() == 0 {
        assert(name + rest =~= rest);
    } else {
        assert(is_name_char(name[0]));
        assert((name + rest).skip(1) =~= name.skip(1) + rest);
        assert forall|i: int| 0 <= i < name.skip(1).len() implies is_name_char(
            #[trigger] name.skip(1)[i],
        ) by {
            assert(is_name_char(name[i + 1]));
        }
        law_leading_name(name.skip(1), rest);
        assert(seq![name[0]] + name.skip(1) =~= name);
    }
}

/// The number that decimal digits stand for.
pub open spec fn number(s: Seq<char>) -> int
    decreases s.len(),
{
    if s.len() == 0 {
        0
    } else {
        number(s.drop_last()) * 10 + (s.last() as int - '0' as int)
    }
}

/// The decimal digits of a number stand for it; all are digits, and no zero stands before another.
pub proof fn law_decimal_digits(n: nat)
    ensures
        number(decimal(n)) == n,
        decimal(n).len() > 0,
        forall|i: int| 0 <= i < decimal(n).len() ==> '0' <= #[trigger] decimal(n)[i] <= '9',
        n > 0 ==> decimal(n)[0] != '0',
    decreases n,
{
    assert forall|d: nat| d < 10 implies #[trigger] digit(d) as int == '0' as int + d by {}
    if n < 10 {
        let s = decimal(n);
        assert(s =~= seq![digit(n)]);
        assert(s.drop_last() =~= seq![]);
        assert(number(s.drop_last()) == 0);
    } else {
        law_decimal_digits(n / 10);
        let s = decimal(n);
        let d = n % 10;
        assert(s.drop_last() =~= decimal(n / 10));
        assert(s.last() == digit(d));
        assert(s[0] == decimal(n / 10)[0]);
        assert forall|i: int| 0 <= i < s.len() implies '0' <= #[trigger] s[i] <= '9' by {
            if i < s.len() - 1 {
                assert(s[i] == decimal(n / 10)[i]);
            } else {
                assert(s[i] == digit(d));
            }
        }
    }
}

/// A text with a NUL is not passed on; any other is, as it is.
pub proof fn law_without_nul(s: Seq<char>)
    ensures
        s.contains('\0') ==> without_nul(s) is None,
        !s.contains('\0') ==> without_nul(s) == Some(s),
{
}

/// The texts of a list, one by one.
pub proof fn law_lists_of_texts(v: Seq<String>, w: Seq<Vec<char>>, i: int)
    ensures
        strings(v).len() == v.len(),
        0 <= i < v.len() ==> strings(v)[i] == v[i]@,
        texts(w).len() == w.len(),
        0 <= i < w.len() ==> texts(w)[i] == w[i]@,
{
}

} // verus!

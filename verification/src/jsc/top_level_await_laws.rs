//! Which words await: not those in comments, in literals, in longer words or in the bodies of functions.

use crate::jsc::comment_laws::lemma_string_end_in_end;
use crate::jsc::top_level_await::{
    awaits, awaits_from, bodies_closed, dot_before, has_top_level_await, is_blank, is_plain_code,
    law_await_outside_blocks_is_seen,
};
use crate::scan::{
    block_end, ident_end, is_ident, lemma_block_end, lemma_block_end_in_end, lemma_ident_end,
    lemma_line_end, lemma_line_end_in_end, lemma_string_end, line_end, pair_at, string_end,
};
use crate::text::occurs_at;
use vstd::prelude::*;

verus! {

/// Where a word in the end of a text ends is where it ends in the text.
proof fn lemma_ident_end_in_end(s: Seq<char>, k: int, i: int)
    requires
        0 <= k <= s.len(),
        0 <= i,
    ensures
        ident_end(s, k + i) == k + ident_end(s.skip(k), i),
    decreases s.len() - i,
{
    if k + i < s.len() && is_ident(s[k + i]) {
        lemma_ident_end_in_end(s, k, i + 1);
    }
}

/// Two texts with the same end have a dot before the same position in it, if neither has one where the end
/// begins.
proof fn lemma_same_dot(s: Seq<char>, k: int, t: Seq<char>, m: int, i: int)
    requires
        0 <= k <= s.len(),
        0 <= m <= t.len(),
        s.skip(k) == t.skip(m),
        0 <= i <= s.len() - k,
        dot_before(s, k) == dot_before(t, m),
    ensures
        dot_before(s, k + i) == dot_before(t, m + i),
    decreases i,
{
    assert(s.skip(k).len() == s.len() - k && t.skip(m).len() == t.len() - m);
    if i > 0 {
        assert(s.skip(k)[i - 1] == s[k + i - 1]);
        assert(t.skip(m)[i - 1] == t[m + i - 1]);
        lemma_same_dot(s, k, t, m, i - 1);
    }
}

/// Two texts with the same end await in it alike.
#[verifier::rlimit(40)]
proof fn lemma_same_end(
    s: Seq<char>,
    k: int,
    t: Seq<char>,
    m: int,
    i: int,
    depth: int,
    bodies: Seq<int>,
    pending: bool,
)
    requires
        0 <= k <= s.len(),
        0 <= m <= t.len(),
        s.skip(k) == t.skip(m),
        0 <= i,
        dot_before(s, k) == dot_before(t, m),
    ensures
        awaits_from(s, k + i, depth, bodies, pending) == awaits_from(
            t,
            m + i,
            depth,
            bodies,
            pending,
        ),
    decreases s.len() - k - i,
{
    let u = s.skip(k);
    assert(u.len() == s.len() - k && t.skip(m).len() == t.len() - m);
    if k + i < s.len() {
        let c = u[i];
        assert(c == s[k + i]);
        assert(t.skip(m)[i] == t[m + i]);
        if i + 1 < u.len() {
            assert(u[i + 1] == s[k + i + 1]);
            assert(t.skip(m)[i + 1] == t[m + i + 1]);
        }
        lemma_same_dot(s, k, t, m, i);
        if pair_at(u, i, '/', '/') {
            lemma_line_end(u, i + 2);
            lemma_line_end_in_end(s, k, i + 2);
            lemma_line_end_in_end(t, m, i + 2);
            lemma_same_end(s, k, t, m, line_end(u, i + 2), depth, bodies, pending);
        } else if pair_at(u, i, '/', '*') {
            lemma_block_end(u, i + 2);
            lemma_block_end_in_end(s, k, i + 2);
            lemma_block_end_in_end(t, m, i + 2);
            lemma_same_end(s, k, t, m, block_end(u, i + 2), depth, bodies, pending);
        } else if c == '"' || c == '\'' || c == '`' {
            lemma_string_end(u, c, i + 1);
            lemma_string_end_in_end(s, k, c, i + 1);
            lemma_string_end_in_end(t, m, c, i + 1);
            lemma_same_end(s, k, t, m, string_end(u, c, i + 1), depth, bodies, pending);
        } else if c == '{' {
            let opened = if pending {
                bodies.push(depth + 1)
            } else {
                bodies
            };
            lemma_same_end(s, k, t, m, i + 1, depth + 1, opened, false);
        } else if c == '}' {
            let closed = bodies_closed(bodies, depth);
            lemma_same_end(s, k, t, m, i + 1, depth - 1, closed, pending);
        } else if pair_at(u, i, '=', '>') {
            lemma_same_end(s, k, t, m, i + 2, depth, bodies, true);
        } else if is_ident(c) {
            lemma_ident_end(u, i);
            lemma_ident_end_in_end(s, k, i);
            lemma_ident_end_in_end(t, m, i);
            let e = ident_end(u, i);
            assert(s.subrange(k + i, k + e) =~= u.subrange(i, e));
            assert(t.subrange(m + i, m + e) =~= t.skip(m).subrange(i, e));
            let word = u.subrange(i, e);
            lemma_same_end(s, k, t, m, e, depth, bodies, pending || word == "function"@);
        } else {
            lemma_same_end(s, k, t, m, i + 1, depth, bodies, pending);
        }
    }
}

/// Where a word ends does not depend on what follows it.
proof fn lemma_same_word(s: Seq<char>, t: Seq<char>, i: int, k: int)
    requires
        0 <= i <= k,
        k <= s.len(),
        k <= t.len(),
        forall|j: int| 0 <= j < k ==> s[j] == t[j],
        k < s.len() ==> !is_ident(s[k]),
        k < t.len() ==> !is_ident(t[k]),
    ensures
        ident_end(s, i) == ident_end(t, i),
        i <= ident_end(s, i) <= k,
    decreases k - i,
{
    if i < k && is_ident(s[i]) {
        lemma_same_word(s, t, i + 1, k);
    }
}

proof fn lemma_same_dot_before(s: Seq<char>, t: Seq<char>, i: int)
    requires
        0 <= i <= s.len(),
        i <= t.len(),
        forall|j: int| 0 <= j < i ==> s[j] == t[j],
    ensures
        dot_before(s, i) == dot_before(t, i),
    decreases i,
{
    if i > 0 {
        lemma_same_dot_before(s, t, i - 1);
    }
}

/// `c` begins no comment and no literal.
pub open spec fn is_bare_code(c: char) -> bool {
    c != '/' && c != '"' && c != '\'' && c != '`'
}

/// Two texts that begin with the same bare code await alike, if they await alike behind it.
proof fn lemma_same_beginning(
    s: Seq<char>,
    t: Seq<char>,
    i: int,
    k: int,
    depth: int,
    bodies: Seq<int>,
    pending: bool,
)
    requires
        0 <= i <= k,
        k < s.len(),
        k < t.len(),
        forall|j: int| 0 <= j < k ==> s[j] == t[j],
        forall|j: int| 0 <= j < k ==> is_bare_code(#[trigger] s[j]),
        !is_ident(s[k]) && s[k] != '>',
        !is_ident(t[k]) && t[k] != '>',
        forall|d: int, b: Seq<int>, p: bool|
            awaits_from(s, k, d, b, p) == #[trigger] awaits_from(t, k, d, b, p),
    ensures
        awaits_from(s, i, depth, bodies, pending) == awaits_from(t, i, depth, bodies, pending),
    decreases k - i,
{
    if i < k {
        assert(is_bare_code(s[i]));
        assert(s[i] == t[i]);
        if i + 1 < k {
            assert(s[i + 1] == t[i + 1]);
        }
        assert(pair_at(s, i, '=', '>') == pair_at(t, i, '=', '>'));
        if s[i] == '{' {
            let opened = if pending {
                bodies.push(depth + 1)
            } else {
                bodies
            };
            lemma_same_beginning(s, t, i + 1, k, depth + 1, opened, false);
        } else if s[i] == '}' {
            let closed = bodies_closed(bodies, depth);
            lemma_same_beginning(s, t, i + 1, k, depth - 1, closed, pending);
        } else if pair_at(s, i, '=', '>') {
            lemma_same_beginning(s, t, i + 2, k, depth, bodies, true);
        } else if is_ident(s[i]) {
            lemma_ident_end(s, i);
            lemma_same_word(s, t, i, k);
            lemma_same_dot_before(s, t, i);
            let e = ident_end(s, i);
            assert(s.subrange(i, e) =~= t.subrange(i, e));
            let function = s.subrange(i, e) == "function"@;
            lemma_same_beginning(s, t, e, k, depth, bodies, pending || function);
        } else {
            lemma_same_beginning(s, t, i + 1, k, depth, bodies, pending);
        }
    }
}

proof fn lemma_line_end_at(s: Seq<char>, i: int, m: int)
    requires
        0 <= i <= m < s.len(),
        s[m] == '\n',
        forall|j: int| i <= j < m ==> s[j] != '\n',
    ensures
        line_end(s, i) == m,
    decreases m - i,
{
    if i < m {
        lemma_line_end_at(s, i + 1, m);
    }
}

proof fn lemma_block_end_at(s: Seq<char>, i: int, m: int)
    requires
        0 <= i <= m,
        pair_at(s, m, '*', '/'),
        forall|j: int| i <= j < m ==> !pair_at(s, j, '*', '/'),
    ensures
        block_end(s, i) == m + 2,
    decreases m - i,
{
    if i < m {
        assert(!pair_at(s, i, '*', '/'));
        lemma_block_end_at(s, i + 1, m);
    }
}

proof fn lemma_string_end_at(s: Seq<char>, q: char, i: int, m: int)
    requires
        0 <= i <= m < s.len(),
        q != '\\',
        s[m] == q,
        forall|j: int| i <= j < m ==> s[j] != q && s[j] != '\\',
    ensures
        string_end(s, q, i) == m + 1,
    decreases m - i,
{
    if i < m {
        assert(s[i] != q && s[i] != '\\');
        lemma_string_end_at(s, q, i + 1, m);
    }
}

/// The dot that a text ends with is that of its end, if the end holds more than blanks.
proof fn lemma_dot_of_end(a: Seq<char>, b: Seq<char>, i: int)
    requires
        0 < i <= b.len(),
        !is_blank(b[0]),
    ensures
        dot_before(a + b, a.len() + i) == dot_before(b, i),
    decreases i,
{
    assert((a + b)[a.len() + i - 1] == b[i - 1]);
    if i > 1 {
        lemma_dot_of_end(a, b, i - 1);
    }
}

/// A comment up to the end of its line changes nothing: with it and without it the module awaits alike. A
/// dot at the end of the code before it or at the end of the comment is left aside: it counts for the word
/// behind.
pub proof fn law_line_comment_changes_nothing(
    before: Seq<char>,
    comment: Seq<char>,
    after: Seq<char>,
)
    requires
        forall|j: int| 0 <= j < before.len() ==> is_bare_code(#[trigger] before[j]),
        !comment.contains('\n'),
        !dot_before(before, before.len() as int),
        !dot_before("//"@ + comment, 2 + comment.len() as int),
    ensures
        awaits(before + "//"@ + comment + "\n"@ + after) == awaits(before + "\n"@ + after),
{
    reveal_strlit("//");
    reveal_strlit("\n");
    let s = before + "//"@ + comment + "\n"@ + after;
    let t = before + "\n"@ + after;
    let k = before.len() as int;
    let e = k + 2 + comment.len();
    assert forall|j: int| k + 2 <= j < e implies s[j] != '\n' by {
        assert(s[j] == comment[j - k - 2]);
    }
    assert(s[e] == '\n');
    lemma_line_end_at(s, k + 2, e);
    assert(s.skip(e) =~= t.skip(k));
    lemma_dot_of_end(before, "//"@ + comment, 2 + comment.len() as int);
    let head = before + ("//"@ + comment);
    lemma_same_dot_before(s, head, e);
    lemma_same_dot_before(t, before, k);
    assert forall|x: int, b: Seq<int>, p: bool|
        awaits_from(s, k, x, b, p) == #[trigger] awaits_from(t, k, x, b, p) by {
        lemma_same_end(s, e, t, k, 0, x, b, p);
        assert(pair_at(s, k, '/', '/'));
    }
    assert forall|j: int| 0 <= j < k implies is_bare_code(#[trigger] s[j]) by {
        assert(s[j] == before[j]);
    }
    lemma_same_beginning(s, t, 0, k, 0, seq![], false);
}

/// What a comment between its marks says changes nothing.
pub proof fn law_comment_text_changes_nothing(
    before: Seq<char>,
    text: Seq<char>,
    after: Seq<char>,
)
    requires
        forall|j: int| 0 <= j < before.len() ==> is_bare_code(#[trigger] before[j]),
        forall|j: int| !pair_at(text, j, '*', '/'),
    ensures
        awaits(before + "/*"@ + text + "*/"@ + after) == awaits(before + "/*"@ + "*/"@ + after),
{
    reveal_strlit("/*");
    reveal_strlit("*/");
    let s = before + "/*"@ + text + "*/"@ + after;
    let t = before + "/*"@ + "*/"@ + after;
    let k = before.len() as int;
    let e = k + 2 + text.len();
    assert forall|j: int| k + 2 <= j < e implies !pair_at(s, j, '*', '/') by {
        assert(s[j] == text[j - k - 2]);
        assert(!pair_at(text, j - k - 2, '*', '/'));
        if j + 1 < e {
            assert(s[j + 1] == text[j - k - 1]);
        }
    }
    assert(pair_at(s, e, '*', '/'));
    assert(pair_at(t, k + 2, '*', '/'));
    lemma_block_end_at(s, k + 2, e);
    lemma_block_end_at(t, k + 2, k + 2);
    assert(s.skip(e + 2) =~= t.skip(k + 4));
    assert(s[e + 1] == '/' && t[k + 3] == '/');
    assert forall|x: int, b: Seq<int>, p: bool|
        awaits_from(s, k, x, b, p) == #[trigger] awaits_from(t, k, x, b, p) by {
        lemma_same_end(s, e + 2, t, k + 4, 0, x, b, p);
        assert(pair_at(s, k, '/', '*') && pair_at(t, k, '/', '*'));
    }
    assert forall|j: int| 0 <= j < k implies is_bare_code(#[trigger] s[j]) by {
        assert(s[j] == before[j]);
    }
    lemma_same_beginning(s, t, 0, k, 0, seq![], false);
}

/// What a literal holds changes nothing.
pub proof fn law_literal_text_changes_nothing(
    before: Seq<char>,
    quote: char,
    text: Seq<char>,
    after: Seq<char>,
)
    requires
        forall|j: int| 0 <= j < before.len() ==> is_bare_code(#[trigger] before[j]),
        quote == '"' || quote == '\'' || quote == '`',
        !text.contains(quote),
        !text.contains('\\'),
    ensures
        awaits(before + seq![quote] + text + seq![quote] + after) == awaits(
            before + seq![quote] + seq![quote] + after,
        ),
{
    let s = before + seq![quote] + text + seq![quote] + after;
    let t = before + seq![quote] + seq![quote] + after;
    let k = before.len() as int;
    let e = k + 1 + text.len();
    assert forall|j: int| k + 1 <= j < e implies s[j] != quote && s[j] != '\\' by {
        assert(s[j] == text[j - k - 1]);
    }
    assert(s[e] == quote && t[k + 1] == quote);
    lemma_string_end_at(s, quote, k + 1, e);
    lemma_string_end_at(t, quote, k + 1, k + 1);
    assert(s.skip(e + 1) =~= t.skip(k + 2));
    assert forall|x: int, b: Seq<int>, p: bool|
        awaits_from(s, k, x, b, p) == #[trigger] awaits_from(t, k, x, b, p) by {
        lemma_same_end(s, e + 1, t, k + 2, 0, x, b, p);
        assert(s[k] == quote && t[k] == quote);
    }
    assert forall|j: int| 0 <= j < k implies is_bare_code(#[trigger] s[j]) by {
        assert(s[j] == before[j]);
    }
    lemma_same_beginning(s, t, 0, k, 0, seq![], false);
}

/// The word `await` behind a comment up to the end of its line is seen.
pub proof fn law_await_behind_a_comment_is_seen(
    before: Seq<char>,
    comment: Seq<char>,
    between: Seq<char>,
    after: Seq<char>,
)
    requires
        forall|j: int| 0 <= j < before.len() ==> is_plain_code(#[trigger] before[j]),
        !comment.contains('\n'),
        !dot_before(before, before.len() as int),
        !dot_before("//"@ + comment, 2 + comment.len() as int),
        forall|j: int| 0 <= j < between.len() ==> is_plain_code(#[trigger] between[j]),
        between.len() > 0 ==> !is_ident(between.last()),
        !dot_before(between, between.len() as int),
        after.len() > 0 ==> !is_ident(after[0]),
    ensures
        awaits(before + "//"@ + comment + "\n"@ + (between + "await"@ + after)),
{
    reveal_strlit("\n");
    reveal_strlit("await");
    let rest = between + "await"@ + after;
    law_line_comment_changes_nothing(before, comment, rest);
    let lead = before + "\n"@ + between;
    assert(before + "\n"@ + rest =~= lead + "await"@ + after);
    assert forall|j: int| 0 <= j < lead.len() implies is_plain_code(#[trigger] lead[j]) by {
        if j < before.len() {
            assert(lead[j] == before[j]);
        } else if j > before.len() {
            assert(lead[j] == between[j - before.len() - 1]);
        }
    }
    let k = before.len() as int;
    assert(lead[k] == '\n');
    lemma_same_dot_before(lead, before, k);
    assert(!dot_before(lead, k + 1));
    assert(lead.skip(k + 1) =~= between);
    lemma_no_dot(lead, between, k + 1, between.len() as int);
    if between.len() > 0 {
        assert(lead.last() == between.last());
    }
    law_await_outside_blocks_is_seen(lead, after);
}

proof fn lemma_no_dot(s: Seq<char>, b: Seq<char>, k: int, i: int)
    requires
        0 <= k,
        s.len() == k + b.len(),
        s.skip(k) == b,
        0 <= i <= b.len(),
        !dot_before(s, k),
        !dot_before(b, i),
    ensures
        !dot_before(s, k + i),
    decreases i,
{
    if i > 0 {
        assert(s.skip(k)[i - 1] == s[k + i - 1]);
        if is_blank(b[i - 1]) {
            lemma_no_dot(s, b, k, i - 1);
        }
    }
}

proof fn lemma_string_closed(s: Seq<char>, q: char, i: int)
    requires
        0 <= i,
        string_end(s, q, i) < s.len(),
    ensures
        0 < string_end(s, q, i),
        s[string_end(s, q, i) - 1] == q,
    decreases s.len() + 1 - i,
{
    if i < s.len() {
        if s[i] == '\\' {
            lemma_string_closed(s, q, i + 2);
        } else if s[i] != q {
            lemma_string_closed(s, q, i + 1);
        }
    }
}

proof fn lemma_block_closes(s: Seq<char>, i: int)
    requires
        0 <= i,
        block_end(s, i) < s.len(),
    ensures
        0 < block_end(s, i),
        s[block_end(s, i) - 1] == '/',
    decreases s.len() - i,
{
    if i + 1 < s.len() && !pair_at(s, i, '*', '/') {
        lemma_block_closes(s, i + 1);
    }
}

proof fn lemma_line_stops(s: Seq<char>, i: int)
    requires
        0 <= i,
        line_end(s, i) < s.len(),
    ensures
        s[line_end(s, i)] == '\n',
        0 <= line_end(s, i),
    decreases s.len() - i,
{
    if i < s.len() && s[i] != '\n' {
        lemma_line_stops(s, i + 1);
    }
}

/// `await` stands in `s` only as part of a longer word or behind a dot.
pub open spec fn awaits_nowhere(s: Seq<char>) -> bool {
    forall|i: int| #[trigger]
        occurs_at(s, "await"@, i) ==> (i > 0 && is_ident(s[i - 1])) || (i + 5 < s.len() && is_ident(
            s[i + 5],
        )) || dot_before(s, i)
}

proof fn lemma_awaits_nowhere(s: Seq<char>, i: int, depth: int, bodies: Seq<int>, pending: bool)
    requires
        awaits_nowhere(s),
        0 <= i,
        i == 0 || i >= s.len() || !is_ident(s[i]) || !is_ident(s[i - 1]),
    ensures
        !awaits_from(s, i, depth, bodies, pending),
    decreases s.len() - i,
{
    if i < s.len() {
        if pair_at(s, i, '/', '/') {
            let e = line_end(s, i + 2);
            lemma_line_end(s, i + 2);
            if e < s.len() {
                lemma_line_stops(s, i + 2);
            }
            lemma_awaits_nowhere(s, e, depth, bodies, pending);
        } else if pair_at(s, i, '/', '*') {
            let e = block_end(s, i + 2);
            lemma_block_end(s, i + 2);
            if e < s.len() {
                lemma_block_closes(s, i + 2);
            }
            lemma_awaits_nowhere(s, e, depth, bodies, pending);
        } else if s[i] == '"' || s[i] == '\'' || s[i] == '`' {
            let e = string_end(s, s[i], i + 1);
            lemma_string_end(s, s[i], i + 1);
            if e < s.len() {
                lemma_string_closed(s, s[i], i + 1);
            }
            lemma_awaits_nowhere(s, e, depth, bodies, pending);
        } else if s[i] == '{' {
            lemma_awaits_nowhere(
                s,
                i + 1,
                depth + 1,
                if pending {
                    bodies.push(depth + 1)
                } else {
                    bodies
                },
                false,
            );
        } else if s[i] == '}' {
            lemma_awaits_nowhere(s, i + 1, depth - 1, bodies_closed(bodies, depth), pending);
        } else if pair_at(s, i, '=', '>') {
            lemma_awaits_nowhere(s, i + 2, depth, bodies, true);
        } else if is_ident(s[i]) {
            lemma_ident_end(s, i);
            let e = ident_end(s, i);
            let word = s.subrange(i, e);
            lemma_ident_stops(s, i);
            lemma_awaits_nowhere(s, e, depth, bodies, pending || word == "function"@);
            reveal_strlit("await");
            if word == "await"@ {
                assert(word.len() == e - i);
                assert(e == i + 5);
                assert(occurs_at(s, "await"@, i));
            }
        } else {
            lemma_awaits_nowhere(s, i + 1, depth, bodies, pending);
        }
    }
}

proof fn lemma_ident_stops(s: Seq<char>, i: int)
    requires
        0 <= i <= s.len(),
    ensures
        i <= ident_end(s, i) <= s.len(),
        ident_end(s, i) < s.len() ==> !is_ident(s[ident_end(s, i)]),
    decreases s.len() - i,
{
    if i < s.len() && is_ident(s[i]) {
        lemma_ident_stops(s, i + 1);
    }
}

/// A longer word that `await` is part of does not await, nor does a member of that name.
pub proof fn law_other_words_do_not_await(s: Seq<char>)
    requires
        awaits_nowhere(s),
    ensures
        !awaits(s),
{
    lemma_awaits_nowhere(s, 0, 0, seq![], false);
}

/// A dot makes a member of the word behind it, across blanks.
pub proof fn law_dots(before: Seq<char>, blank: Seq<char>, c: char)
    requires
        forall|i: int|
            0 <= i < blank.len() ==> #[trigger] blank[i] == ' ' || '\t' <= blank[i] <= '\r',
        c != ' ' && !('\t' <= c <= '\r'),
    ensures
        dot_before(before.push(c) + blank, (before.push(c) + blank).len() as int) == (c == '.'),
        !dot_before(blank, blank.len() as int),
    decreases blank.len(),
{
    let s = before.push(c) + blank;
    let n = s.len() as int;
    if blank.len() == 0 {
        assert(s[n - 1] == c);
    } else {
        let d = blank.drop_last();
        assert(blank[blank.len() - 1] == ' ' || '\t' <= blank[blank.len() - 1] <= '\r');
        assert(s[n - 1] == blank[blank.len() - 1]);
        assert(is_blank(s[n - 1]));
        assert forall|i: int| 0 <= i < d.len() implies #[trigger] d[i] == ' ' || '\t' <= d[i] <= '\r' by {
            assert(blank[i] == ' ' || '\t' <= blank[i] <= '\r');
        }
        law_dots(before, d, c);
        let t = before.push(c) + d;
        assert forall|k: int| 0 <= k < n - 1 implies s[k] == t[k] by {}
        lemma_same_dots(s, t, n - 1);
        assert forall|k: int| 0 <= k < blank.len() - 1 implies blank[k] == d[k] by {}
        lemma_same_dots(blank, d, blank.len() - 1);
    }
}

proof fn lemma_same_dots(s: Seq<char>, t: Seq<char>, j: int)
    requires
        0 <= j <= s.len(),
        j <= t.len(),
        forall|k: int| 0 <= k < j ==> s[k] == t[k],
    ensures
        dot_before(s, j) == dot_before(t, j),
    decreases j,
{
    if j > 0 && is_blank(s[j - 1]) {
        lemma_same_dots(s, t, j - 1);
    }
}

/// Braces are counted even where nothing opened them: behind one that closes too much a block is at the level
/// of the module again, unless it is the body of a function.
pub proof fn law_unmatched_braces(after: Seq<char>)
    requires
        after.len() > 0 ==> !is_ident(after[0]),
    ensures
        awaits("}{await"@ + after),
        awaits("}{}{await"@ + after),
{
    reveal_strlit("}{await");
    reveal_strlit("}{}{await");
    reveal_strlit("await");
    let none = Seq::<int>::empty();
    let s = "}{await"@ + after;
    assert(ident_end(s, 2) == 7) by {
        reveal_with_fuel(ident_end, 7);
    }
    assert(s.subrange(2, 7) =~= "await"@);
    assert(!dot_before(s, 2));
    assert(awaits_from(s, 2, 0, none, false));
    assert(awaits_from(s, 1, -1, none, false));
    assert(awaits_from(s, 0, 0, none, false));
    let t = "}{}{await"@ + after;
    assert(ident_end(t, 4) == 9) by {
        reveal_with_fuel(ident_end, 7);
    }
    assert(t.subrange(4, 9) =~= "await"@);
    assert(!dot_before(t, 4));
    assert(awaits_from(t, 4, 0, none, false));
    assert(awaits_from(t, 3, -1, none, false));
    assert(awaits_from(t, 2, 0, none, false));
    assert(awaits_from(t, 1, -1, none, false));
    assert(awaits_from(t, 0, 0, none, false));
}

proof fn lemma_in_a_body(s: Seq<char>, i: int, pending: bool)
    requires
        0 <= i,
        forall|k: int| i <= k < s.len() ==> s[k] != '{' && s[k] != '}',
    ensures
        !awaits_from(s, i, 0, seq![0], pending),
    decreases s.len() - i,
{
    if i < s.len() {
        if pair_at(s, i, '/', '/') {
            lemma_line_end(s, i + 2);
            lemma_in_a_body(s, line_end(s, i + 2), pending);
        } else if pair_at(s, i, '/', '*') {
            lemma_block_end(s, i + 2);
            lemma_in_a_body(s, block_end(s, i + 2), pending);
        } else if s[i] == '"' || s[i] == '\'' || s[i] == '`' {
            lemma_string_end(s, s[i], i + 1);
            lemma_in_a_body(s, string_end(s, s[i], i + 1), pending);
        } else if pair_at(s, i, '=', '>') {
            lemma_in_a_body(s, i + 2, true);
        } else if is_ident(s[i]) {
            lemma_ident_end(s, i);
            let e = ident_end(s, i);
            lemma_in_a_body(s, e, pending || s.subrange(i, e) == "function"@);
        } else {
            lemma_in_a_body(s, i + 1, pending);
        }
    }
}

/// The body of a function does not await, at whatever level it stands: not behind `=>`.
pub proof fn law_body_behind_an_arrow(inner: Seq<char>)
    requires
        !inner.contains('{') && !inner.contains('}'),
    ensures
        !awaits("}=>{"@ + inner),
{
    reveal_strlit("}=>{");
    let s = "}=>{"@ + inner;
    assert forall|k: int| 4 <= k < s.len() implies s[k] != '{' && s[k] != '}' by {
        assert(s[k] == inner[k - 4]);
    }
    lemma_in_a_body(s, 4, false);
    let none = Seq::<int>::empty();
    assert(none.push(0) =~= seq![0int]);
    assert(!awaits_from(s, 3, -1, none, true));
    assert(!awaits_from(s, 1, -1, none, false));
    assert(!awaits_from(s, 0, 0, none, false));
}

/// Nor behind the word `function`.
pub proof fn law_body_behind_the_word(inner: Seq<char>)
    requires
        !inner.contains('{') && !inner.contains('}'),
    ensures
        !awaits("}function{"@ + inner),
{
    reveal_strlit("}function{");
    reveal_strlit("function");
    reveal_strlit("await");
    let s = "}function{"@ + inner;
    assert forall|k: int| 10 <= k < s.len() implies s[k] != '{' && s[k] != '}' by {
        assert(s[k] == inner[k - 10]);
    }
    lemma_in_a_body(s, 10, false);
    let none = Seq::<int>::empty();
    assert(none.push(0) =~= seq![0int]);
    assert(!awaits_from(s, 9, -1, none, true));
    assert(ident_end(s, 1) == 9) by {
        reveal_with_fuel(ident_end, 10);
    }
    assert(s.subrange(1, 9) =~= "function"@);
    assert(!awaits_from(s, 1, -1, none, false));
    assert(!awaits_from(s, 0, 0, none, false));
}

/// From `i` on `a` is whole: no comment and no literal in it goes on behind it.
pub open spec fn is_whole(a: Seq<char>, i: int) -> bool
    decreases a.len() - i,
{
    if i < 0 || i >= a.len() {
        true
    } else if pair_at(a, i, '/', '/') {
        proof {
            lemma_line_end(a, i + 2);
        }
        line_end(a, i + 2) < a.len() && is_whole(a, line_end(a, i + 2))
    } else if pair_at(a, i, '/', '*') {
        proof {
            lemma_block_end(a, i + 2);
        }
        block_end(a, i + 2) < a.len() && is_whole(a, block_end(a, i + 2))
    } else if a[i] == '"' || a[i] == '\'' || a[i] == '`' {
        proof {
            lemma_string_end(a, a[i], i + 1);
        }
        string_end(a, a[i], i + 1) < a.len() && is_whole(a, string_end(a, a[i], i + 1))
    } else if a[i] == '/' && i + 1 == a.len() {
        false
    } else {
        is_whole(a, i + 1)
    }
}

proof fn lemma_ends_in_beginning(s: Seq<char>, a: Seq<char>, q: char, i: int)
    requires
        a.len() <= s.len(),
        forall|j: int| 0 <= j < a.len() ==> s[j] == a[j],
        0 <= i,
    ensures
        line_end(a, i) < a.len() ==> line_end(s, i) == line_end(a, i),
        block_end(a, i) < a.len() ==> block_end(s, i) == block_end(a, i),
        string_end(a, q, i) < a.len() ==> string_end(s, q, i) == string_end(a, q, i),
    decreases a.len() + 1 - i,
{
    if i < a.len() {
        lemma_ends_in_beginning(s, a, q, i + 1);
        lemma_ends_in_beginning(s, a, q, i + 2);
    }
}

proof fn lemma_whole_behind_words(a: Seq<char>, i: int, e: int)
    requires
        0 <= i <= e <= a.len(),
        is_whole(a, i),
        forall|j: int| i <= j < e ==> is_ident(#[trigger] a[j]),
    ensures
        is_whole(a, e),
    decreases e - i,
{
    if i < e {
        assert(is_ident(a[i]));
        lemma_whole_behind_words(a, i + 1, e);
    }
}

proof fn lemma_ident_all(a: Seq<char>, i: int)
    requires
        0 <= i <= a.len(),
    ensures
        i <= ident_end(a, i) <= a.len(),
        forall|j: int| i <= j < ident_end(a, i) ==> is_ident(#[trigger] a[j]),
    decreases a.len() - i,
{
    if i < a.len() && is_ident(a[i]) {
        lemma_ident_all(a, i + 1);
    }
}

/// Two texts that begin with the same whole code await alike, if they await alike behind it.
proof fn lemma_same_whole_beginning(
    s: Seq<char>,
    t: Seq<char>,
    a: Seq<char>,
    i: int,
    depth: int,
    bodies: Seq<int>,
    pending: bool,
)
    requires
        0 <= i <= a.len(),
        is_whole(a, i),
        a.len() < s.len(),
        a.len() < t.len(),
        forall|j: int| 0 <= j < a.len() ==> s[j] == a[j] && t[j] == a[j],
        !is_ident(s[a.len() as int]) && s[a.len() as int] != '>',
        !is_ident(t[a.len() as int]) && t[a.len() as int] != '>',
        forall|d: int, b: Seq<int>, p: bool|
            awaits_from(s, a.len() as int, d, b, p) == #[trigger] awaits_from(
                t,
                a.len() as int,
                d,
                b,
                p,
            ),
    ensures
        awaits_from(s, i, depth, bodies, pending) == awaits_from(t, i, depth, bodies, pending),
    decreases a.len() - i,
{
    let k = a.len() as int;
    if i < k {
        assert(s[i] == a[i] && t[i] == a[i]);
        if i + 1 < k {
            assert(s[i + 1] == a[i + 1] && t[i + 1] == a[i + 1]);
        }
        let c = a[i];
        lemma_ends_in_beginning(s, a, c, i + 2);
        lemma_ends_in_beginning(t, a, c, i + 2);
        lemma_ends_in_beginning(s, a, c, i + 1);
        lemma_ends_in_beginning(t, a, c, i + 1);
        if pair_at(a, i, '/', '/') {
            lemma_line_end(a, i + 2);
            let e = line_end(a, i + 2);
            lemma_same_whole_beginning(s, t, a, e, depth, bodies, pending);
        } else if pair_at(a, i, '/', '*') {
            lemma_block_end(a, i + 2);
            let e = block_end(a, i + 2);
            lemma_same_whole_beginning(s, t, a, e, depth, bodies, pending);
        } else if c == '"' || c == '\'' || c == '`' {
            lemma_string_end(a, c, i + 1);
            let e = string_end(a, c, i + 1);
            lemma_same_whole_beginning(s, t, a, e, depth, bodies, pending);
        } else if c == '{' {
            let opened = if pending {
                bodies.push(depth + 1)
            } else {
                bodies
            };
            lemma_same_whole_beginning(s, t, a, i + 1, depth + 1, opened, false);
        } else if c == '}' {
            let closed = bodies_closed(bodies, depth);
            lemma_same_whole_beginning(s, t, a, i + 1, depth - 1, closed, pending);
        } else if pair_at(s, i, '=', '>') {
            assert(i + 1 < k);
            assert(pair_at(t, i, '=', '>'));
            assert(is_whole(a, i + 1));
            lemma_same_whole_beginning(s, t, a, i + 2, depth, bodies, true);
        } else if is_ident(c) {
            assert forall|j: int| 0 <= j < k implies s[j] == t[j] by {
                assert(s[j] == a[j] && t[j] == a[j]);
            }
            lemma_ident_end(s, i);
            lemma_same_word(s, t, i, k);
            lemma_same_dot_before(s, t, i);
            let e = ident_end(s, i);
            assert(s.subrange(i, e) =~= t.subrange(i, e));
            lemma_ident_all(s, i);
            assert forall|j: int| i <= j < e implies is_ident(#[trigger] a[j]) by {
                assert(s[j] == a[j]);
                assert(is_ident(s[j]));
            }
            lemma_whole_behind_words(a, i, e);
            let function = s.subrange(i, e) == "function"@;
            lemma_same_whole_beginning(s, t, a, e, depth, bodies, pending || function);
        } else {
            assert(!pair_at(t, i, '=', '>'));
            lemma_same_whole_beginning(s, t, a, i + 1, depth, bodies, pending);
        }
    }
}

/// A comment up to the end of its line changes nothing behind any code, whatever comments, literals and
/// blocks stand in it.
pub proof fn law_line_comment_behind_code_changes_nothing(
    before: Seq<char>,
    comment: Seq<char>,
    after: Seq<char>,
)
    requires
        is_whole(before, 0),
        !comment.contains('\n'),
        !dot_before(before, before.len() as int),
        !dot_before("//"@ + comment, 2 + comment.len() as int),
    ensures
        awaits(before + "//"@ + comment + "\n"@ + after) == awaits(before + "\n"@ + after),
{
    reveal_strlit("//");
    reveal_strlit("\n");
    let s = before + "//"@ + comment + "\n"@ + after;
    let t = before + "\n"@ + after;
    let k = before.len() as int;
    let e = k + 2 + comment.len();
    assert forall|j: int| k + 2 <= j < e implies s[j] != '\n' by {
        assert(s[j] == comment[j - k - 2]);
    }
    assert(s[e] == '\n');
    lemma_line_end_at(s, k + 2, e);
    assert(s.skip(e) =~= t.skip(k));
    lemma_dot_of_end(before, "//"@ + comment, 2 + comment.len() as int);
    let head = before + ("//"@ + comment);
    lemma_same_dot_before(s, head, e);
    lemma_same_dot_before(t, before, k);
    assert forall|x: int, b: Seq<int>, p: bool|
        awaits_from(s, k, x, b, p) == #[trigger] awaits_from(t, k, x, b, p) by {
        lemma_same_end(s, e, t, k, 0, x, b, p);
        assert(pair_at(s, k, '/', '/'));
    }
    lemma_same_whole_beginning(s, t, before, 0, 0, seq![], false);
}

/// `has_top_level_await` answers for a module with a comment up to the end of a line what it answers for the
/// module without it.
pub proof fn law_answer_without_a_line_comment(
    with: &str,
    without: &str,
    before: Seq<char>,
    comment: Seq<char>,
    after: Seq<char>,
    r: bool,
    q: bool,
)
    requires
        call_ensures(has_top_level_await, (with,), r),
        call_ensures(has_top_level_await, (without,), q),
        with@ == before + "//"@ + comment + "\n"@ + after,
        without@ == before + "\n"@ + after,
        is_whole(before, 0),
        !comment.contains('\n'),
        !dot_before(before, before.len() as int),
        !dot_before("//"@ + comment, 2 + comment.len() as int),
    ensures
        r == q,
{
    law_line_comment_behind_code_changes_nothing(before, comment, after);
}

} // verus!

//! What removing comments leaves of a text.

use crate::jsc::comments::{code_from, regex_may_follow, significant, without_comments};
use crate::scan::{
    block_end, lemma_block_end, lemma_block_end_in_end, lemma_line_end, lemma_line_end_in_end,
    lemma_regex_end, lemma_string_end, line_end, pair_at, regex_end, string_end,
};
use crate::scan_laws::law_regex_end;
use vstd::prelude::*;

verus! {

/// `a` is `s` at the positions `at`, which ascend from `i` on.
pub open spec fn picked(a: Seq<char>, s: Seq<char>, at: Seq<int>, i: int) -> bool {
    &&& at.len() == a.len()
    &&& forall|j: int| 0 <= j < at.len() ==> i <= #[trigger] at[j] < s.len() && a[j] == s[at[j]]
    &&& forall|j: int, k: int| 0 <= j < k < at.len() ==> #[trigger] at[j] < #[trigger] at[k]
}

/// A stretch of a text and what is picked behind it are picked from it.
proof fn lemma_picked_behind(a: Seq<char>, s: Seq<char>, at: Seq<int>, i: int, e: int) -> (r: Seq<int>)
    requires
        0 <= i <= e <= s.len(),
        picked(a, s, at, e),
    ensures
        picked(s.subrange(i, e) + a, s, r, i),
{
    let r = Seq::new((e - i) as nat, |j: int| i + j) + at;
    let b = s.subrange(i, e) + a;
    assert forall|j: int| 0 <= j < r.len() implies i <= #[trigger] r[j] < s.len() && b[j]
        == s[r[j]] by {
        if j >= e - i {
            assert(r[j] == at[j - (e - i)]);
        }
    }
    assert forall|j: int, k: int| 0 <= j < k < r.len() implies #[trigger] r[j] < #[trigger] r[k] by {
        if k >= e - i {
            assert(r[k] == at[k - (e - i)]);
            if j >= e - i {
                assert(r[j] == at[j - (e - i)]);
            }
        }
    }
    r
}

proof fn lemma_picked_from(s: Seq<char>, prev: char, i: int) -> (at: Seq<int>)
    requires
        0 <= i <= s.len(),
    ensures
        picked(code_from(s, prev, i), s, at, i),
    decreases s.len() - i,
{
    if i >= s.len() {
        Seq::empty()
    } else if pair_at(s, i, '/', '/') {
        lemma_line_end(s, i + 2);
        lemma_picked_from(s, prev, line_end(s, i + 2))
    } else if pair_at(s, i, '/', '*') {
        lemma_block_end(s, i + 2);
        lemma_picked_from(s, prev, block_end(s, i + 2))
    } else if s[i] == '"' || s[i] == '\'' || s[i] == '`' {
        lemma_string_end(s, s[i], i + 1);
        let e = string_end(s, s[i], i + 1);
        let at = lemma_picked_from(s, s[i], e);
        lemma_picked_behind(code_from(s, s[i], e), s, at, i, e)
    } else if s[i] == '/' && regex_may_follow(prev) {
        lemma_regex_end(s, false, i + 1);
        let e = regex_end(s, false, i + 1);
        let at = lemma_picked_from(s, '/', e);
        lemma_picked_behind(code_from(s, '/', e), s, at, i, e)
    } else {
        let next = significant(prev, s[i]);
        let at = lemma_picked_from(s, next, i + 1);
        assert(s.subrange(i, i + 1) =~= seq![s[i]]);
        lemma_picked_behind(code_from(s, next, i + 1), s, at, i, i + 1)
    }
}

/// Removing comments only leaves characters out: what is left are characters of the text, in their order.
pub proof fn law_stripping_only_leaves_out(s: Seq<char>)
    ensures
        exists|at: Seq<int>| picked(without_comments(s), s, at, 0),
{
    let at = lemma_picked_from(s, '\0', 0);
    assert(picked(without_comments(s), s, at, 0));
}

/// Where a literal in the end of a text ends is where it ends in the text.
pub proof fn lemma_string_end_in_end(s: Seq<char>, k: int, q: char, i: int)
    requires
        0 <= k <= s.len(),
        0 <= i,
    ensures
        string_end(s, q, k + i) == k + string_end(s.skip(k), q, i),
    decreases s.len() + 1 - i,
{
    if k + i < s.len() {
        if s[k + i] == '\\' {
            lemma_string_end_in_end(s, k, q, i + 2);
        } else if s[k + i] != q {
            lemma_string_end_in_end(s, k, q, i + 1);
        }
    }
}

proof fn lemma_regex_end_in_end(s: Seq<char>, k: int, in_class: bool, i: int)
    requires
        0 <= k <= s.len(),
        0 <= i,
    ensures
        regex_end(s, in_class, k + i) == k + regex_end(s.skip(k), in_class, i),
    decreases s.len() + 1 - i,
{
    if k + i < s.len() {
        let c = s[k + i];
        assert(s.skip(k)[i] == c);
        if c == '\\' {
            lemma_regex_end_in_end(s, k, in_class, i + 2);
        } else if !(c == '/' && !in_class) {
            lemma_regex_end_in_end(s, k, c == '[' || (in_class && c != ']'), i + 1);
        }
    }
}

/// What is left of the end of a text is what is left of it by itself.
proof fn lemma_code_in_end(s: Seq<char>, k: int, prev: char, i: int)
    requires
        0 <= k <= s.len(),
        0 <= i,
    ensures
        code_from(s, prev, k + i) == code_from(s.skip(k), prev, i),
    decreases s.len() - i,
{
    let t = s.skip(k);
    if k + i < s.len() {
        let c = s[k + i];
        assert(t[i] == c);
        assert(pair_at(s, k + i, '/', '/') == pair_at(t, i, '/', '/'));
        assert(pair_at(s, k + i, '/', '*') == pair_at(t, i, '/', '*'));
        if pair_at(t, i, '/', '/') {
            lemma_line_end(t, i + 2);
            lemma_line_end_in_end(s, k, i + 2);
            lemma_code_in_end(s, k, prev, line_end(t, i + 2));
        } else if pair_at(t, i, '/', '*') {
            lemma_block_end(t, i + 2);
            lemma_block_end_in_end(s, k, i + 2);
            lemma_code_in_end(s, k, prev, block_end(t, i + 2));
        } else if c == '"' || c == '\'' || c == '`' {
            lemma_string_end(t, c, i + 1);
            lemma_string_end_in_end(s, k, c, i + 1);
            let e = string_end(t, c, i + 1);
            lemma_code_in_end(s, k, c, e);
            assert(s.subrange(k + i, k + e) =~= t.subrange(i, e));
        } else if c == '/' && regex_may_follow(prev) {
            lemma_regex_end(t, false, i + 1);
            lemma_regex_end_in_end(s, k, false, i + 1);
            let e = regex_end(t, false, i + 1);
            lemma_code_in_end(s, k, '/', e);
            assert(s.subrange(k + i, k + e) =~= t.subrange(i, e));
        } else {
            lemma_code_in_end(s, k, significant(prev, c), i + 1);
        }
    }
}

/// A literal ends where it ended, whatever follows it; one that is not closed goes on to the end.
proof fn lemma_string_kept(s: Seq<char>, q: char, i: int, e: int, rest: Seq<char>, j: int)
    requires
        0 <= i,
        0 <= j,
        i + j <= s.len() + 1,
        i <= s.len(),
        e == string_end(s, q, i + j),
        e == s.len() ==> rest.len() == 0,
    ensures
        string_end(s.subrange(i, e) + rest, q, j) == e - i,
    decreases s.len() + 1 - i - j,
{
    let o = s.subrange(i, e) + rest;
    if i + j < s.len() {
        lemma_string_end(s, q, i + j);
        lemma_string_end(s, q, i + j + 1);
        lemma_string_end(s, q, i + j + 2);
        assert(o[j] == s[i + j]);
        if s[i + j] == '\\' {
            lemma_string_kept(s, q, i, e, rest, j + 2);
        } else if s[i + j] != q {
            lemma_string_kept(s, q, i, e, rest, j + 1);
        }
    }
}

proof fn lemma_regex_kept(s: Seq<char>, in_class: bool, i: int, e: int, rest: Seq<char>, j: int)
    requires
        0 <= i,
        0 <= j,
        i + j <= s.len() + 1,
        i <= s.len(),
        e == regex_end(s, in_class, i + j),
        e == s.len() ==> rest.len() == 0,
    ensures
        regex_end(s.subrange(i, e) + rest, in_class, j) == e - i,
    decreases s.len() + 1 - i - j,
{
    let o = s.subrange(i, e) + rest;
    if i + j < s.len() {
        let c = s[i + j];
        let class = c == '[' || (in_class && c != ']');
        lemma_regex_end(s, in_class, i + j);
        lemma_regex_end(s, in_class, i + j + 2);
        lemma_regex_end(s, class, i + j + 1);
        assert(o[j] == c);
        if c == '\\' {
            lemma_regex_kept(s, in_class, i, e, rest, j + 2);
        } else if !(c == '/' && !in_class) {
            lemma_regex_kept(s, class, i, e, rest, j + 1);
        }
    }
}

/// What is left of a text holds no comments.
proof fn lemma_code_is_kept(s: Seq<char>, prev: char, i: int)
    requires
        0 <= i <= s.len(),
    ensures
        code_from(code_from(s, prev, i), prev, 0) == code_from(s, prev, i),
    decreases s.len() - i,
{
    let o = code_from(s, prev, i);
    if i < s.len() {
        let c = s[i];
        if pair_at(s, i, '/', '/') {
            lemma_line_end(s, i + 2);
            lemma_code_is_kept(s, prev, line_end(s, i + 2));
        } else if pair_at(s, i, '/', '*') {
            lemma_block_end(s, i + 2);
            lemma_code_is_kept(s, prev, block_end(s, i + 2));
        } else if c == '"' || c == '\'' || c == '`' {
            lemma_string_end(s, c, i + 1);
            let e = string_end(s, c, i + 1);
            let rest = code_from(s, c, e);
            lemma_code_is_kept(s, c, e);
            assert(e == s.len() ==> rest.len() == 0);
            lemma_string_kept(s, c, i, e, rest, 1);
            assert(o[0] == c);
            lemma_code_in_end(o, e - i, c, 0);
            assert(o.skip(e - i) =~= rest);
            assert(o.subrange(0, e - i) =~= s.subrange(i, e));
        } else if c == '/' && regex_may_follow(prev) {
            lemma_regex_end(s, false, i + 1);
            let e = regex_end(s, false, i + 1);
            let rest = code_from(s, '/', e);
            lemma_code_is_kept(s, '/', e);
            assert(e == s.len() ==> rest.len() == 0);
            lemma_regex_kept(s, false, i, e, rest, 1);
            assert(o[0] == c);
            if i + 1 < s.len() {
                lemma_regex_end(s, s[i + 1] == '[', i + 2);
                lemma_regex_end(s, false, i + 3);
                assert(o[1] == s[i + 1]);
            }
            lemma_code_in_end(o, e - i, '/', 0);
            assert(o.skip(e - i) =~= rest);
            assert(o.subrange(0, e - i) =~= s.subrange(i, e));
        } else {
            let next = significant(prev, c);
            let rest = code_from(s, next, i + 1);
            lemma_code_is_kept(s, next, i + 1);
            assert(o[0] == c);
            if c == '/' && i + 1 < s.len() {
                lemma_first_is_kept(s, next, i + 1);
                assert(o[1] == s[i + 1]);
            }
            lemma_code_in_end(o, 1, next, 0);
            assert(o.skip(1) =~= rest);
        }
    }
}

/// A character that begins no comment is left.
proof fn lemma_first_is_kept(s: Seq<char>, prev: char, i: int)
    requires
        0 <= i < s.len(),
        s[i] != '/',
    ensures
        code_from(s, prev, i).len() > 0,
        code_from(s, prev, i)[0] == s[i],
{
    if s[i] == '"' || s[i] == '\'' || s[i] == '`' {
        lemma_string_end(s, s[i], i + 1);
    }
}

/// Removing comments a second time changes nothing: none are left.
pub proof fn law_stripping_twice_is_stripping_once(s: Seq<char>)
    ensures
        without_comments(without_comments(s)) == without_comments(s),
{
    lemma_code_is_kept(s, '\0', 0);
}

/// Behind what ends an operand a slash divides; behind these characters, and at the beginning, it begins a
/// regular expression.
pub proof fn law_where_regexes_begin(c: char)
    ensures
        regex_may_follow('\0'),
        c != '\0' ==> regex_may_follow(c) == "(,=:[!&|?{};+-*%<>^~"@.contains(c),
        significant('(', ' ') == '(' && significant('(', '\n') == '(',
        significant('(', 'x') == 'a' && significant('(', '9') == 'a',
        significant('(', ')') == ')',
        !regex_may_follow('a') && !regex_may_follow(')') && !regex_may_follow(']'),
{
    reveal_strlit("(,=:[!&|?{};+-*%<>^~");
    let w = "(,=:[!&|?{};+-*%<>^~"@;
    assert(w[0] == '(' && w[1] == ',' && w[2] == '=' && w[3] == ':' && w[4] == '[' && w[5] == '!');
    assert(w[6] == '&' && w[7] == '|' && w[8] == '?' && w[9] == '{' && w[10] == '}' && w[11] == ';');
    assert(w[12] == '+' && w[13] == '-' && w[14] == '*' && w[15] == '%' && w[16] == '<');
    assert(w[17] == '>' && w[18] == '^' && w[19] == '~');
}

/// A regular expression is kept as it stands; what follows it is read as code behind an operand.
pub proof fn law_regex_is_kept(c: char, body: Seq<char>, rest: Seq<char>)
    requires
        c == '(' || c == '=' || c == ',' || c == ':',
        body.len() > 0,
        body[0] != '/' && body[0] != '*',
        !body.contains('/') && !body.contains('\\') && !body.contains('['),
    ensures
        without_comments(seq![c] + (seq!['/'] + body + seq!['/'] + rest)) == seq![c] + (seq!['/'] + body
            + seq!['/']) + code_from(
            seq![c] + (seq!['/'] + body + seq!['/'] + rest),
            '/',
            body.len() as int + 3,
        ),
{
    let s = seq![c] + (seq!['/'] + body + seq!['/'] + rest);
    let e = body.len() as int + 3;
    assert(s[0] == c);
    assert(s[1] == '/');
    assert(s[2] == body[0]);
    let head = seq![c, '/'];
    assert(s =~= head + body + seq!['/'] + rest);
    law_regex_end(head, body, rest);
    assert(regex_end(s, false, 2) == e);
    assert(significant('\0', c) == c);
    assert(code_from(s, c, 1) == s.subrange(1, e) + code_from(s, '/', e));
    assert(s.subrange(1, e) =~= seq!['/'] + body + seq!['/']);
    assert(without_comments(s) =~= seq![c] + (seq!['/'] + body + seq!['/']) + code_from(s, '/', e));
}

} // verus!

//! Where a line that begins with `await` is seen, and where it is passed over.

use crate::qjs::request::comment_at;
use crate::qjs::top_level_await::{
    awaits, awaits_from, awaits_here, beginning, behind_mark, behind_word, brace_kind, closed,
    code_start, control_word, fresh, holds_statements, lemma_next, line_awaits_at, line_start, next,
    opened, outermost, settled, statement_word, within, word_end, word_here, Kind, Level, Reading,
    Sign,
};
use crate::scan::{ident_end, is_ident, lemma_ident_end, pair_at};
use crate::specifier::is_quote;
use crate::text::{contains_text, is_white, occurs_at};
use vstd::prelude::*;

verus! {

/// What awaits has a line that begins to await.
pub proof fn law_awaiting_needs_a_line(s: Seq<char>)
    requires
        awaits(s),
    ensures
        exists|i: int| 0 <= i < s.len() && line_awaits_at(s, i),
{
    lemma_awaits_from(s, beginning(s));
}

proof fn lemma_awaits_from(s: Seq<char>, r: Reading)
    requires
        awaits_from(s, r),
    ensures
        exists|i: int| 0 <= i < s.len() && line_awaits_at(s, i),
    decreases s.len() - r.at,
{
    lemma_next(s, r);
    if word_here(s, r) && awaits_here(s, r) {
        assert(line_awaits_at(s, r.at));
    } else {
        lemma_awaits_from(s, next(s, r));
    }
}

/// `c` opens a bracket.
pub open spec fn is_open_bracket(c: char) -> bool {
    c == '(' || c == '[' || c == '{'
}

/// `c` closes a bracket.
pub open spec fn is_close_bracket(c: char) -> bool {
    c == ')' || c == ']' || c == '}'
}

/// From `i` up to `k`, where so many brackets are open at `i`, every bracket is closed and none that was not
/// opened there; comments, literals and divisions there are none.
pub open spec fn nests(s: Seq<char>, i: int, k: int, depth: int) -> bool
    decreases k - i,
{
    if i >= k {
        depth == 0
    } else if is_open_bracket(s[i]) {
        nests(s, i + 1, k, depth + 1)
    } else if is_close_bracket(s[i]) {
        depth > 0 && nests(s, i + 1, k, depth - 1)
    } else {
        s[i] != '/' && !is_quote(s[i]) && s[i] != '`' && nests(s, i + 1, k, depth)
    }
}

/// The brackets of the code are closed; comments, literals and divisions there are none.
pub open spec fn is_nested(s: Seq<char>) -> bool {
    nests(s, 0, s.len() as int, 0)
}

/// Code nests in a text as it does by itself.
proof fn lemma_nests_in(s: Seq<char>, t: Seq<char>, at: int, i: int, depth: int)
    requires
        0 <= at,
        at + t.len() <= s.len(),
        s.subrange(at, at + t.len()) == t,
        0 <= i <= t.len(),
    ensures
        nests(s, at + i, at + t.len(), depth) == nests(t, i, t.len() as int, depth),
    decreases t.len() - i,
{
    if i < t.len() {
        assert(s[at + i] == s.subrange(at, at + t.len())[i]);
        lemma_nests_in(s, t, at, i + 1, depth + 1);
        lemma_nests_in(s, t, at, i + 1, depth - 1);
        lemma_nests_in(s, t, at, i + 1, depth);
    }
}

/// No word and no mark reaches over `k`.
spec fn parts(s: Seq<char>, k: int) -> bool {
    ||| k == s.len()
    ||| is_open_bracket(s[k]) || is_close_bracket(s[k])
    ||| k > 0 && (s[k - 1] == ';' || s[k - 1] == '\n')
}

/// A word or a mark within nested code ends within it, and no bracket stands in it.
proof fn lemma_token_nests(s: Seq<char>, i: int, e: int, k: int, depth: int)
    requires
        0 <= i <= e <= k <= s.len(),
        nests(s, i, k, depth),
        forall|j: int| i <= j < e ==> !is_open_bracket(#[trigger] s[j]) && !is_close_bracket(s[j]),
    ensures
        nests(s, e, k, depth),
    decreases e - i,
{
    if i < e {
        assert(!is_open_bracket(s[i]) && !is_close_bracket(s[i]));
        lemma_token_nests(s, i + 1, e, k, depth);
    }
}

/// A word consists of letters.
proof fn lemma_letters(s: Seq<char>, i: int)
    requires
        0 <= i < s.len(),
        is_ident(s[i]),
    ensures
        i < ident_end(s, i) <= s.len(),
        forall|j: int| i <= j < ident_end(s, i) ==> is_ident(#[trigger] s[j]),
        ident_end(s, i) < s.len() ==> !is_ident(s[ident_end(s, i)]),
    decreases s.len() - i,
{
    lemma_ident_end(s, i);
    assert(ident_end(s, i) == ident_end(s, i + 1));
    if i + 1 < s.len() && is_ident(s[i + 1]) {
        lemma_letters(s, i + 1);
    } else {
        assert(ident_end(s, i + 1) == i + 1);
    }
}

/// The levels from `m - 1` on are all in a function.
spec fn all_hidden(levels: Seq<Level>, m: int) -> bool {
    forall|j: int| m - 1 <= j < levels.len() ==> (#[trigger] levels[j]).hidden
}

/// Nothing within nested code is seen: it stands in a function, or holds no `await`.
spec fn is_quiet(s: Seq<char>, r: Reading, k: int, m: int) -> bool {
    ||| all_hidden(r.levels, m)
    ||| forall|j: int| r.at <= j && j + 5 <= k ==> !occurs_at(s, "await"@, j)
}

/// No text of templates is open from `m - 1` on.
spec fn no_text(levels: Seq<Level>, m: int) -> bool {
    forall|j: int| m - 1 <= j < levels.len() ==> (#[trigger] levels[j]).kind != Kind::Text
}

/// The levels below the innermost of the first `m` are the same, and that is of the same kind.
spec fn alike(a: Seq<Level>, b: Seq<Level>, m: int) -> bool {
    &&& a.len() >= m && b.len() >= m
    &&& forall|j: int| 0 <= j < m - 1 ==> #[trigger] a[j] == b[j]
    &&& a[m - 1].kind == b[m - 1].kind
    &&& a[m - 1].hidden == b[m - 1].hidden
}

/// One step within nested code.
#[verifier::rlimit(60)]
proof fn lemma_step(s: Seq<char>, r: Reading, k: int, m: int)
    requires
        0 <= r.at < k <= s.len(),
        1 <= m <= r.levels.len(),
        no_text(r.levels, m),
        nests(s, r.at, k, r.levels.len() - m),
        parts(s, k),
    ensures
        ({
            let n = next(s, r);
            &&& r.at < n.at <= k
            &&& m <= n.levels.len()
            &&& no_text(n.levels, m)
            &&& nests(s, n.at, k, n.levels.len() - m)
            &&& alike(r.levels, n.levels, m)
            &&& all_hidden(r.levels, m) ==> all_hidden(n.levels, m)
            &&& n.at == k && s[k - 1] == ';' ==> n.sign == Sign::Start && !n.broken
                && n.levels.last() == fresh(r.levels.last())
        }),
{
    let i = r.at;
    let c = s[i];
    let n = next(s, r);
    let top = r.levels.last();
    assert(r.levels[r.levels.len() - 1] == top);
    lemma_next(s, r);
    assert(!comment_at(s, i));
    assert(!is_quote(c));
    if is_white(c) {
        assert(n.levels == r.levels);
    } else if is_open_bracket(c) {
        assert(n == opened(r, c));
    } else if is_close_bracket(c) {
        assert(n == closed(r, c));
    } else if is_ident(c) {
        assert(n == behind_word(s, r));
        lemma_letters(s, i);
        let e = ident_end(s, i);
        assert(e <= k) by {
            if e > k {
                assert(is_ident(s[k]));
                assert(is_ident(s[k - 1]));
            }
        }
        assert(word_end(s, i) <= k) by {
            if e == k {
                assert(is_ident(s[k - 1]));
            }
        }
        assert forall|j: int| i <= j < n.at implies !is_open_bracket(#[trigger] s[j])
            && !is_close_bracket(s[j]) by {
            if j < e {
                assert(is_ident(s[j]));
            }
        }
        lemma_token_nests(s, i, n.at, k, r.levels.len() - m);
        assert(s[n.at - 1] != ';') by {
            assert(is_ident(s[e - 1]));
        }
    } else {
        assert(n == behind_mark(s, r));
        assert forall|j: int| i <= j < n.at implies !is_open_bracket(#[trigger] s[j])
            && !is_close_bracket(s[j]) by {}
        assert(n.at <= k) by {
            if i + 1 == k || i + 2 == k {
                assert(s[k - 1] == s[i] || s[k - 1] == s[i + 1]);
            }
        }
        lemma_token_nests(s, i, n.at, k, r.levels.len() - m);
    }
}

/// A word in code that holds no `await` does not await.
proof fn lemma_no_line_awaits(s: Seq<char>, i: int, k: int)
    requires
        0 <= i < k <= s.len(),
        parts(s, k),
        forall|j: int| i <= j && j + 5 <= k ==> !occurs_at(s, "await"@, j),
    ensures
        !line_awaits_at(s, i),
{
    reveal_strlit("await");
    reveal_strlit("await ");
    reveal_strlit("for await");
    if occurs_at(s, "await "@, i) {
        let w = s.subrange(i, i + 6);
        let u = s.subrange(i, i + 5);
        assert(u =~= "await"@) by {
            assert forall|m: int| 0 <= m < 5 implies #[trigger] u[m] == "await"@[m] by {
                assert(w[m] == u[m]);
            }
        }
        if i + 5 > k {
            assert(w[k - i] == s[k] && w[k - i - 1] == s[k - 1]);
        }
        assert(occurs_at(s, "await"@, i));
    }
    if occurs_at(s, "for await"@, i) {
        let w = s.subrange(i, i + 9);
        let u = s.subrange(i + 4, i + 9);
        assert(u =~= "await"@) by {
            assert forall|m: int| 0 <= m < 5 implies #[trigger] u[m] == "await"@[m] by {
                assert(w[4 + m] == u[m]);
            }
        }
        if i + 9 > k {
            assert(w[k - i] == s[k] && w[k - i - 1] == s[k - 1]);
        }
        assert(occurs_at(s, "await"@, i + 4));
    }
}

/// Nested code is read to its end, and what is open there is what was open before it.
proof fn lemma_region(s: Seq<char>, r: Reading, k: int, m: int) -> (e: Reading)
    requires
        0 <= r.at <= k <= s.len(),
        1 <= m <= r.levels.len(),
        no_text(r.levels, m),
        nests(s, r.at, k, r.levels.len() - m),
        parts(s, k),
    ensures
        e.at == k,
        e.levels.len() == m,
        alike(r.levels, e.levels, m),
        awaits_from(s, e) ==> awaits_from(s, r),
        is_quiet(s, r, k, m) ==> awaits_from(s, e) == awaits_from(s, r),
        r.at == k ==> e == r,
        r.at < k && s[k - 1] == ';' ==> e.sign == Sign::Start && !e.broken && e.levels.last()
            == fresh(e.levels.last()),
    decreases k - r.at,
{
    if r.at == k {
        r
    } else {
        lemma_step(s, r, k, m);
        let n = next(s, r);
        let e = lemma_region(s, n, k, m);
        if is_quiet(s, r, k, m) {
            if !all_hidden(r.levels, m) {
                lemma_no_line_awaits(s, r.at, k);
            } else {
                assert(r.levels[r.levels.len() - 1].hidden);
                assert(r.levels.last().hidden);
            }
        }
        e
    }
}

/// White space is passed over.
proof fn lemma_blank(s: Seq<char>, r: Reading, k: int) -> (e: Reading)
    requires
        0 <= r.at <= k <= s.len(),
        r.levels.last().kind != Kind::Text,
        forall|j: int| r.at <= j < k ==> is_white(#[trigger] s[j]),
    ensures
        e.at == k && e.levels == r.levels && e.sign == r.sign,
        awaits_from(s, e) == awaits_from(s, r),
    decreases k - r.at,
{
    if r.at == k {
        r
    } else {
        assert(is_white(s[r.at]));
        lemma_blank(s, next(s, r), k)
    }
}

/// The word `w` is read.
proof fn lemma_word(s: Seq<char>, r: Reading, w: Seq<char>)
    requires
        0 <= r.at,
        r.levels.last().kind != Kind::Text,
        occurs_at(s, w, r.at),
        w.len() > 0,
        forall|j: int| 0 <= j < w.len() ==> is_ident(#[trigger] w[j]),
        !('0' <= w[0] <= '9'),
        r.at + w.len() < s.len(),
        !is_ident(s[r.at + w.len()]),
    ensures
        word_here(s, r),
        s.subrange(r.at, ident_end(s, r.at)) == w,
        next(s, r) == behind_word(s, r),
        next(s, r).at == r.at + w.len(),
        w != "await"@ && w != "for"@ ==> !line_awaits_at(s, r.at),
{
    let i = r.at;
    let e = i + w.len();
    assert forall|j: int| i <= j < e implies is_ident(#[trigger] s[j]) by {
        assert(s.subrange(i, e)[j - i] == w[j - i]);
    }
    assert(s.subrange(i, e)[0] == s[i]);
    lemma_ident_end_is(s, i, e);
    reveal_strlit("await");
    reveal_strlit("for");
    reveal_strlit("await ");
    reveal_strlit("for await");
    if occurs_at(s, "await "@, i) {
        let u = s.subrange(i, i + 6);
        assert forall|j: int| i <= j < i + 5 implies is_ident(#[trigger] s[j]) by {
            assert(u[j - i] == s[j]);
        }
        assert(u[5] == s[i + 5]);
        lemma_ident_end_is(s, i, i + 5);
        assert(w =~= "await"@) by {
            assert forall|j: int| 0 <= j < 5 implies #[trigger] w[j] == "await"@[j] by {
                assert(u[j] == s[i + j]);
                assert(s.subrange(i, e)[j] == s[i + j]);
            }
        }
    }
    if occurs_at(s, "for await"@, i) {
        let u = s.subrange(i, i + 9);
        assert forall|j: int| i <= j < i + 3 implies is_ident(#[trigger] s[j]) by {
            assert(u[j - i] == s[j]);
        }
        assert(u[3] == s[i + 3]);
        lemma_ident_end_is(s, i, i + 3);
        assert(w =~= "for"@) by {
            assert forall|j: int| 0 <= j < 3 implies #[trigger] w[j] == "for"@[j] by {
                assert(u[j] == s[i + j]);
                assert(s.subrange(i, e)[j] == s[i + j]);
            }
        }
    }
}

proof fn lemma_ident_end_is(s: Seq<char>, i: int, m: int)
    requires
        0 <= i <= m <= s.len(),
        forall|j: int| i <= j < m ==> is_ident(#[trigger] s[j]),
        m == s.len() || !is_ident(s[m]),
    ensures
        ident_end(s, i) == m,
    decreases m - i,
{
    if i < m {
        assert(is_ident(s[i]));
        lemma_ident_end_is(s, i + 1, m);
    }
}

/// Whole statements: nothing, or nested code that ends with a semicolon.
pub open spec fn is_whole(s: Seq<char>) -> bool {
    is_nested(s) && (s.len() > 0 ==> s.last() == ';')
}

/// All of the text is white space.
pub open spec fn all_white(s: Seq<char>) -> bool {
    forall|j: int| 0 <= j < s.len() ==> is_white(#[trigger] s[j])
}

/// Behind whole statements at the beginning of a module a statement begins.
pub proof fn lemma_before(s: Seq<char>, before: Seq<char>) -> (e: Reading)
    requires
        before.len() <= s.len(),
        s.take(before.len() as int) == before,
        is_whole(before),
        s.len() > 0 && s[0] != '#',
    ensures
        e.at == before.len(),
        e.levels == seq![outermost()],
        e.sign == Sign::Start,
        !e.broken,
        awaits_from(s, e) ==> awaits(s),
        !contains_text(before, "await"@) ==> awaits_from(s, e) == awaits(s),
{
    let k = before.len() as int;
    let r = beginning(s);
    assert(s.subrange(0, k) =~= before);
    lemma_nests_in(s, before, 0, 0, 0);
    assert(code_start(s) == 0);
    if k > 0 {
        assert(s[k - 1] == before[k - 1]);
        assert(parts(s, k));
        let e = lemma_region(s, r, k, 1);
        if !contains_text(before, "await"@) {
            assert forall|j: int| 0 <= j && j + 5 <= k implies !occurs_at(s, "await"@, j) by {
                reveal_strlit("await");
                assert(s.subrange(j, j + 5) =~= before.subrange(j, j + 5));
                assert(!occurs_at(before, "await"@, j));
            }
            assert(is_quiet(s, r, k, 1));
        }
        assert(e.levels =~= seq![outermost()]) by {
            assert(e.levels[0].kind == r.levels[0].kind);
            assert(e.levels.last() == e.levels[0]);
        }
        e
    } else {
        r
    }
}

/// A line that begins with `await` is seen where a statement begins, in no function.
pub proof fn lemma_await_is_seen(s: Seq<char>, r: Reading)
    requires
        0 <= r.at,
        r.levels.len() > 0,
        holds_statements(r.levels.last().kind),
        !r.levels.last().hidden,
        r.levels.last().arrow is None,
        r.sign == Sign::Start,
        occurs_at(s, "await "@, r.at),
        r.at == 0 || s[r.at - 1] == '\n',
    ensures
        awaits_from(s, r),
{
    reveal_strlit("await ");
    reveal_strlit("  ");
    let i = r.at;
    assert(s.subrange(i, i + 6)[0] == s[i]);
    assert(line_start(s, i) == i);
    if occurs_at(s, "  "@, i) {
        assert(s.subrange(i, i + 2)[0] == s[i]);
    }
    lemma_next(s, r);
}

/// A line that begins with `await` behind whole statements is seen.
pub proof fn law_leading_await_is_seen(before: Seq<char>, after: Seq<char>)
    requires
        is_whole(before),
        before.len() > 0 ==> before[0] != '#',
    ensures
        awaits(before + "\nawait "@ + after),
{
    reveal_strlit("\nawait ");
    reveal_strlit("await ");
    let s = before + "\nawait "@ + after;
    let k = before.len() as int;
    assert(s.take(k) =~= before);
    if k > 0 {
        assert(s[0] == before[0]);
    }
    let r = lemma_before(s, before);
    assert(s[k] == '\n');
    let n = next(s, r);
    assert(n.levels == r.levels && n.sign == r.sign && n.at == k + 1);
    assert(s.subrange(k + 1, k + 7) =~= "await "@);
    assert(awaits_from(s, n) ==> awaits_from(s, r));
    lemma_await_is_seen(s, n);
}

/// A line that begins with `await` in a block is seen, where the block stands in no function, behind whole
/// statements.
proof fn lemma_await_in_block(s: Seq<char>, r: Reading, inner: Seq<char>, after: Seq<char>)
    requires
        0 <= r.at < s.len(),
        r.levels == seq![outermost()],
        r.sign == Sign::Start,
        s.skip(r.at) == seq!['{'] + inner + "\nawait "@ + after,
        is_whole(inner),
    ensures
        awaits_from(s, r),
{
    reveal_strlit("\nawait ");
    reveal_strlit("await ");
    let i = r.at;
    let t = s.skip(i);
    let k = i + 1 + inner.len();
    assert(t.len() == s.len() - i);
    assert(t.len() == 1 + inner.len() + 7 + after.len());
    assert(s[i] == t[0]);
    let n = next(s, r);
    assert(n == opened(r, '{'));
    let l = outermost();
    assert(settled(r) == l);
    assert(brace_kind(l, Sign::Start) == Kind::Block);
    assert(n.levels =~= seq![l, within(l, Kind::Block)]);
    assert(s.subrange(i + 1, k) =~= inner) by {
        assert forall|j: int| 0 <= j < inner.len() implies #[trigger] s.subrange(i + 1, k)[j]
            == inner[j] by {
            assert(t[j + 1] == inner[j]);
        }
    }
    lemma_nests_in(s, inner, i + 1, 0, 0);
    assert(s[k] == '\n') by {
        assert(t[k - i] == '\n');
    }
    assert(s.subrange(k + 1, k + 7) =~= "await "@) by {
        assert forall|j: int| 0 <= j < 6 implies #[trigger] s.subrange(k + 1, k + 7)[j]
            == "await "@[j] by {
            assert(t[k - i + 1 + j] == "\nawait "@[j + 1]);
        }
    }
    let e = if inner.len() > 0 {
        assert(s[k - 1] == inner.last()) by {
            assert(t[k - 1 - i] == inner.last());
        }
        lemma_region(s, n, k, 2)
    } else {
        n
    };
    assert(awaits_from(s, e) ==> awaits_from(s, r));
    assert(e.levels.last() == e.levels[1]);
    assert(n.levels.last() == n.levels[1]);
    let f = next(s, e);
    assert(f.at == k + 1 && f.levels == e.levels && f.sign == e.sign);
    assert(awaits_from(s, f) ==> awaits_from(s, e));
    lemma_await_is_seen(s, f);
}

/// A line that begins with `await` in a block is seen: one that stands by itself.
pub proof fn law_await_in_a_block_is_seen(
    before: Seq<char>,
    blank: Seq<char>,
    inner: Seq<char>,
    after: Seq<char>,
)
    requires
        is_whole(before) && is_whole(inner),
        before.len() > 0 ==> before[0] != '#',
        all_white(blank),
    ensures
        awaits(before + blank + (seq!['{'] + inner + "\nawait "@ + after)),
{
    let block = seq!['{'] + inner + "\nawait "@ + after;
    let s = before + blank + block;
    let k = before.len() as int;
    let i = k + blank.len();
    assert(s.take(k) =~= before);
    lemma_first(before, blank, block);
    let r = lemma_before(s, before);
    assert forall|j: int| k <= j < i implies is_white(#[trigger] s[j]) by {
        assert(s[j] == blank[j - k]);
        assert(is_white(blank[j - k]));
    }
    let e = lemma_blank(s, r, i);
    assert(s.skip(i) =~= block);
    lemma_await_in_block(s, e, inner, after);
}

/// The first character of a text that does not begin with `#`.
proof fn lemma_first(before: Seq<char>, blank: Seq<char>, rest: Seq<char>)
    requires
        before.len() > 0 ==> before[0] != '#',
        all_white(blank),
        rest.len() > 0 && rest[0] != '#',
    ensures
        (before + blank + rest)[0] != '#',
{
    if before.len() > 0 {
        assert((before + blank + rest)[0] == before[0]);
    } else if blank.len() > 0 {
        assert((before + blank + rest)[0] == blank[0]);
        assert(is_white(blank[0]));
    } else {
        assert((before + blank + rest)[0] == rest[0]);
    }
}

/// Such a word is made of letters, and is none of the others.
proof fn lemma_words(w: Seq<char>)
    requires
        control_word(w) || statement_word(w),
    ensures
        w.len() > 0,
        forall|j: int| 0 <= j < w.len() ==> is_ident(#[trigger] w[j]),
        !('0' <= w[0] <= '9'),
        w[0] != '#',
        w != "function"@ && w != "class"@ && w != "await"@,
        w != "in"@ && w != "of"@ && w != "instanceof"@,
        statement_word(w) ==> !control_word(w),
{
    reveal_strlit("if");
    reveal_strlit("for");
    reveal_strlit("while");
    reveal_strlit("switch");
    reveal_strlit("catch");
    reveal_strlit("with");
    reveal_strlit("else");
    reveal_strlit("try");
    reveal_strlit("do");
    reveal_strlit("finally");
    reveal_strlit("function");
    reveal_strlit("class");
    reveal_strlit("await");
    reveal_strlit("in");
    reveal_strlit("of");
    reveal_strlit("instanceof");
    assert("if"@[1] == 'f' && "in"@[1] == 'n' && "if"@[0] == 'i' && "of"@[0] == 'o' && "do"@[0] == 'd');
    assert("if"@ != "in"@ && "if"@ != "of"@ && "do"@ != "in"@ && "do"@ != "of"@ && "do"@ != "if"@);
    assert("class"@[0] == 'c' && "class"@[1] == 'l' && "catch"@[1] == 'a' && "catch"@[0] == 'c');
    assert("while"@[0] == 'w' && "await"@[0] == 'a');
    assert("while"@ != "class"@ && "while"@ != "await"@ && "catch"@ != "class"@ && "catch"@ != "await"@);
    assert("else"@[0] == 'e' && "with"@[0] == 'w' && "for"@[0] == 'f' && "try"@[0] == 't');
    assert("else"@ != "with"@ && "try"@ != "for"@);
    assert("finally"@.len() == 7 && "switch"@.len() == 6 && "function"@.len() == 8);
    assert("class"@.len() == 5 && "await"@.len() == 5 && "with"@.len() == 4 && "else"@.len() == 4);
    assert("while"@.len() == 5 && "catch"@.len() == 5 && "try"@.len() == 3 && "for"@.len() == 3);
    assert("do"@.len() == 2 && "if"@.len() == 2);
}

/// The word `w` is read where a statement begins in the module itself.
proof fn lemma_first_word(s: Seq<char>, r: Reading, w: Seq<char>)
    requires
        0 <= r.at,
        r.levels == seq![outermost()],
        r.sign == Sign::Start,
        occurs_at(s, w, r.at),
        r.at + w.len() < s.len(),
        !is_ident(s[r.at + w.len()]),
        control_word(w) || statement_word(w),
    ensures
        ({
            let n = next(s, r);
            &&& n.at == r.at + w.len()
            &&& n.levels == seq![outermost()]
            &&& n.sign == if control_word(w) {
                Sign::Control
            } else {
                Sign::Start
            }
            &&& awaits_from(s, n) ==> awaits_from(s, r)
        }),
{
    lemma_words(w);
    lemma_word(s, r, w);
    lemma_next(s, r);
    let n = next(s, r);
    assert(n.levels =~= seq![outermost()]);
}

/// A line that begins with `await` in a block is seen: one behind `else`, `try`, `do` or `finally`.
pub proof fn law_await_behind_a_word_is_seen(
    before: Seq<char>,
    blank: Seq<char>,
    w: Seq<char>,
    gap: Seq<char>,
    inner: Seq<char>,
    after: Seq<char>,
)
    requires
        is_whole(before) && is_whole(inner),
        before.len() > 0 ==> before[0] != '#',
        all_white(blank) && all_white(gap),
        statement_word(w),
    ensures
        awaits(before + blank + (w + gap + (seq!['{'] + inner + "\nawait "@ + after))),
{
    lemma_words(w);
    let block = seq!['{'] + inner + "\nawait "@ + after;
    let rest = w + gap + block;
    let s = before + blank + rest;
    let k = before.len() as int;
    let i = k + blank.len();
    let p = i + w.len();
    let q = p + gap.len();
    assert(rest[0] == w[0]);
    assert(s.take(k) =~= before);
    lemma_first(before, blank, rest);
    let r = lemma_before(s, before);
    assert forall|j: int| k <= j < i implies is_white(#[trigger] s[j]) by {
        assert(s[j] == blank[j - k]);
        assert(is_white(blank[j - k]));
    }
    let e = lemma_blank(s, r, i);
    assert(s.subrange(i, p) =~= w);
    assert forall|j: int| p <= j < q implies is_white(#[trigger] s[j]) by {
        assert(s[j] == gap[j - p]);
        assert(is_white(gap[j - p]));
    }
    assert(s[q] == '{');
    assert(!is_ident(s[p])) by {
        if p < q {
            assert(is_white(s[p]));
        }
    }
    lemma_first_word(s, e, w);
    let n = next(s, e);
    let f = lemma_blank(s, n, q);
    assert(s.skip(q) =~= block);
    lemma_await_in_block(s, f, inner, after);
}

/// What stands in parentheses behind such a word is read, and a statement begins behind it.
proof fn lemma_condition(s: Seq<char>, r: Reading, cond: Seq<char>) -> (e: Reading)
    requires
        0 <= r.at,
        r.levels == seq![outermost()],
        r.sign == Sign::Control,
        r.at + cond.len() + 2 <= s.len(),
        s[r.at] == '(',
        s.subrange(r.at + 1, r.at + 1 + cond.len()) == cond,
        s[r.at + 1 + cond.len()] == ')',
        is_nested(cond),
    ensures
        e.at == r.at + cond.len() + 2,
        e.levels == seq![outermost()],
        e.sign == Sign::Start,
        awaits_from(s, e) ==> awaits_from(s, r),
{
    let i = r.at;
    let k = i + 1 + cond.len();
    let l = outermost();
    let n = next(s, r);
    assert(n == opened(r, '('));
    assert(n.levels =~= seq![l, within(l, Kind::Control)]);
    lemma_nests_in(s, cond, i + 1, 0, 0);
    let f = lemma_region(s, n, k, 2);
    assert(f.levels.last() == f.levels[1]);
    let e = next(s, f);
    assert(e == closed(f, ')'));
    assert(e.levels =~= seq![l]) by {
        assert(f.levels[0] == n.levels[0]);
    }
    assert(awaits_from(s, n) ==> awaits_from(s, r));
    assert(awaits_from(s, e) ==> awaits_from(s, f));
    e
}

/// A line that begins with `await` in a block is seen: one behind the parentheses of `if`, `for`, `while`,
/// `switch`, `catch` or `with`.
#[verifier::rlimit(60)]
pub proof fn law_await_behind_a_condition_is_seen(
    before: Seq<char>,
    blank: Seq<char>,
    w: Seq<char>,
    gaps: (Seq<char>, Seq<char>),
    cond: Seq<char>,
    inner: Seq<char>,
    after: Seq<char>,
)
    requires
        is_whole(before) && is_nested(cond) && is_whole(inner),
        before.len() > 0 ==> before[0] != '#',
        all_white(blank) && all_white(gaps.0) && all_white(gaps.1),
        control_word(w),
    ensures
        awaits(
            before + blank + (w + gaps.0 + seq!['('] + cond + seq![')'] + gaps.1 + (seq!['{'] + inner
                + "\nawait "@ + after)),
        ),
{
    lemma_words(w);
    let block = seq!['{'] + inner + "\nawait "@ + after;
    let rest = w + gaps.0 + seq!['('] + cond + seq![')'] + gaps.1 + block;
    let s = before + blank + rest;
    let k = before.len() as int;
    let i = k + blank.len();
    let p = i + w.len();
    let q = p + gaps.0.len();
    let c = q + 1 + cond.len();
    let o = c + 1 + gaps.1.len();
    assert(rest[0] == w[0]);
    assert(s.take(k) =~= before);
    lemma_first(before, blank, rest);
    let r = lemma_before(s, before);
    assert forall|j: int| k <= j < i implies is_white(#[trigger] s[j]) by {
        assert(s[j] == blank[j - k]);
        assert(is_white(blank[j - k]));
    }
    let e = lemma_blank(s, r, i);
    assert(s.subrange(i, p) =~= w);
    assert forall|j: int| p <= j < q implies is_white(#[trigger] s[j]) by {
        assert(s[j] == gaps.0[j - p]);
        assert(is_white(gaps.0[j - p]));
    }
    assert(s[q] == '(');
    assert(!is_ident(s[p])) by {
        if p < q {
            assert(is_white(s[p]));
        }
    }
    lemma_first_word(s, e, w);
    let n = next(s, e);
    let f = lemma_blank(s, n, q);
    assert(s.subrange(q + 1, c) =~= cond);
    assert(s[c] == ')');
    let g = lemma_condition(s, f, cond);
    assert forall|j: int| c + 1 <= j < o implies is_white(#[trigger] s[j]) by {
        assert(s[j] == gaps.1[j - c - 1]);
        assert(is_white(gaps.1[j - c - 1]));
    }
    let h = lemma_blank(s, g, o);
    assert(s.skip(o) =~= block);
    lemma_await_in_block(s, h, inner, after);
}

/// Nothing in the body of a function is seen, nor in code behind it that holds no `await`.
proof fn lemma_body(s: Seq<char>, r: Reading, inner: Seq<char>, after: Seq<char>)
    requires
        0 <= r.at < s.len(),
        r.levels.len() == 1,
        r.levels[0].kind == Kind::Block,
        !r.levels[0].class,
        r.sign == Sign::Params || r.sign == Sign::Arrow,
        s.skip(r.at) == seq!['{'] + inner + seq!['}'] + after,
        is_nested(inner) && is_nested(after),
        !contains_text(after, "await"@),
    ensures
        !awaits_from(s, r),
{
    reveal_strlit("await");
    let i = r.at;
    let t = s.skip(i);
    let k = i + 1 + inner.len();
    let n = next(s, r);
    assert(t.len() == s.len() - i);
    assert(t.len() == 2 + inner.len() + after.len());
    assert(s[i] == t[0]);
    assert(r.levels.last() == r.levels[0]);
    assert(n == opened(r, '{'));
    assert(n.levels.len() == 2 && n.levels[1] == within(r.levels[0], Kind::Body));
    assert(n.levels[0].kind == Kind::Block);
    assert(s.subrange(i + 1, k) =~= inner) by {
        assert forall|j: int| 0 <= j < inner.len() implies #[trigger] s.subrange(i + 1, k)[j]
            == inner[j] by {
            assert(t[j + 1] == inner[j]);
        }
    }
    assert(s[k] == t[k - i]);
    lemma_nests_in(s, inner, i + 1, 0, 0);
    let e = lemma_region(s, n, k, 2);
    assert(is_quiet(s, n, k, 2));
    assert(e.levels.last() == e.levels[1]);
    let f = next(s, e);
    assert(f == closed(e, '}'));
    assert(f.levels.len() == 1 && f.levels[0].kind == Kind::Block);
    assert(s.subrange(k + 1, s.len() as int) =~= after) by {
        assert forall|j: int| 0 <= j < after.len() implies #[trigger] s.subrange(
            k + 1,
            s.len() as int,
        )[j] == after[j] by {
            assert(t[k - i + 1 + j] == after[j]);
        }
    }
    lemma_nests_in(s, after, k + 1, 0, 0);
    let g = lemma_region(s, f, s.len() as int, 1);
    assert forall|j: int| k + 1 <= j && j + 5 <= s.len() implies !occurs_at(s, "await"@, j) by {
        let m = j - k - 1;
        assert(s.subrange(j, j + 5) =~= after.subrange(m, m + 5)) by {
            assert forall|x: int| 0 <= x < 5 implies #[trigger] s.subrange(j, j + 5)[x]
                == after.subrange(m, m + 5)[x] by {
                assert(s.subrange(k + 1, s.len() as int)[m + x] == s[j + x]);
            }
        }
        assert(!occurs_at(after, "await"@, m));
    }
    assert(is_quiet(s, f, s.len() as int, 1));
}

/// Parentheses are read, and what stands in them is passed over where it is in a function or holds no
/// `await`.
proof fn lemma_parens(s: Seq<char>, r: Reading, inner: Seq<char>) -> (e: Reading)
    requires
        0 <= r.at,
        r.levels == seq![outermost()],
        r.at + inner.len() + 2 <= s.len(),
        s[r.at] == '(',
        s.subrange(r.at + 1, r.at + 1 + inner.len()) == inner,
        s[r.at + 1 + inner.len()] == ')',
        is_nested(inner),
        r.sign != Sign::Control,
        r.sign == Sign::Function || !contains_text(inner, "await"@),
    ensures
        e.at == r.at + inner.len() + 2,
        e.levels == seq![outermost()],
        e.sign == if r.sign == Sign::Function {
            Sign::Params
        } else {
            Sign::Paren
        },
        awaits_from(s, e) == awaits_from(s, r),
{
    reveal_strlit("await");
    let i = r.at;
    let k = i + 1 + inner.len();
    let l = outermost();
    let n = next(s, r);
    let kind = if r.sign == Sign::Function {
        Kind::Params
    } else {
        Kind::Group
    };
    assert(n == opened(r, '('));
    assert(n.levels =~= seq![l, within(l, kind)]);
    lemma_nests_in(s, inner, i + 1, 0, 0);
    let f = lemma_region(s, n, k, 2);
    if r.sign != Sign::Function {
        assert forall|j: int| i + 1 <= j && j + 5 <= k implies !occurs_at(s, "await"@, j) by {
            let m = j - i - 1;
            assert(s.subrange(j, j + 5) =~= inner.subrange(m, m + 5)) by {
                assert forall|x: int| 0 <= x < 5 implies #[trigger] s.subrange(j, j + 5)[x]
                    == inner.subrange(m, m + 5)[x] by {
                    assert(s.subrange(i + 1, k)[m + x] == s[j + x]);
                }
            }
            assert(!occurs_at(inner, "await"@, m));
        }
    }
    assert(is_quiet(s, n, k, 2));
    assert(f.levels.last() == f.levels[1]);
    let e = next(s, f);
    assert(e == closed(f, ')'));
    assert(e.levels =~= seq![l]) by {
        assert(f.levels[0] == n.levels[0]);
    }
    e
}

/// The word `async` is read where a statement begins.
proof fn lemma_async(s: Seq<char>, r: Reading)
    requires
        0 <= r.at,
        r.levels == seq![outermost()],
        r.sign == Sign::Start,
        occurs_at(s, "async"@, r.at),
        r.at + 5 < s.len(),
        !is_ident(s[r.at + 5]),
    ensures
        ({
            let n = next(s, r);
            &&& n.at == r.at + 5
            &&& n.levels == seq![outermost()]
            &&& n.sign != Sign::Dot && n.sign != Sign::Control && n.sign != Sign::Function
            &&& awaits_from(s, n) == awaits_from(s, r)
        }),
{
    let w = "async"@;
    reveal_strlit("async");
    reveal_strlit("if");
    reveal_strlit("for");
    reveal_strlit("while");
    reveal_strlit("switch");
    reveal_strlit("catch");
    reveal_strlit("with");
    reveal_strlit("function");
    reveal_strlit("class");
    reveal_strlit("await");
    assert(w[0] == 'a' && w[1] == 's' && "await"@[1] == 'w' && "class"@[0] == 'c');
    assert("while"@[0] == 'w' && "catch"@[0] == 'c');
    assert(w != "while"@ && w != "catch"@ && w != "class"@ && w != "await"@);
    assert("if"@.len() == 2 && "for"@.len() == 3 && "switch"@.len() == 6 && "with"@.len() == 4);
    assert("function"@.len() == 8 && w.len() == 5);
    assert(!control_word(w));
    lemma_word(s, r, w);
    let n = next(s, r);
    assert(n.levels =~= seq![outermost()]);
}

/// An asynchronous function with a name.
pub open spec fn function_text(
    name: Seq<char>,
    params: Seq<char>,
    gap: Seq<char>,
    inner: Seq<char>,
) -> Seq<char> {
    "async function "@ + name + seq!['('] + params + seq![')'] + gap + seq!['{'] + inner + seq!['}']
}

/// `name` is a name that a function can have.
pub open spec fn is_function_name(name: Seq<char>) -> bool {
    &&& name.len() > 0
    &&& forall|j: int| 0 <= j < name.len() ==> is_ident(#[trigger] name[j])
    &&& !('0' <= name[0] <= '9')
    &&& name != "class"@ && name != "await"@ && name != "for"@
}

/// Where a function stands behind `async`: its name, its parameters and its body are read.
#[verifier::rlimit(60)]
proof fn lemma_function(
    s: Seq<char>,
    r: Reading,
    name: Seq<char>,
    params: Seq<char>,
    gap: Seq<char>,
    inner: Seq<char>,
    after: Seq<char>,
)
    requires
        0 <= r.at < s.len(),
        r.levels == seq![outermost()],
        r.sign == Sign::Start,
        s.skip(r.at) == function_text(name, params, gap, inner) + after,
        is_function_name(name),
        is_nested(params) && is_nested(inner) && is_nested(after),
        all_white(gap),
        !contains_text(after, "await"@),
    ensures
        !awaits_from(s, r),
{
    reveal_strlit("async function ");
    reveal_strlit("async");
    reveal_strlit("function");
    reveal_strlit("class");
    reveal_strlit("await");
    reveal_strlit("for");
    let i = r.at;
    let t = s.skip(i);
    let p = i + 15 + name.len();
    let c = p + 1 + params.len();
    let o = c + 1 + gap.len();
    assert(t.len() == s.len() - i);
    assert(t.len() == 15 + name.len() + 1 + params.len() + 1 + gap.len() + 2 + inner.len()
        + after.len());
    assert forall|j: int| 0 <= j < 15 implies s[i + j] == #[trigger] "async function "@[j] by {
        assert(t[j] == s[i + j]);
    }
    assert(s.subrange(i, i + 5) =~= "async"@) by {
        assert forall|j: int| 0 <= j < 5 implies #[trigger] s.subrange(i, i + 5)[j] == "async"@[j] by {
            assert("async function "@[j] == "async"@[j]);
        }
    }
    assert(s[i + 5] == "async function "@[5]);
    lemma_async(s, r);
    let n = next(s, r);
    let e = lemma_blank(s, n, i + 6);
    assert(s.subrange(i + 6, i + 14) =~= "function"@) by {
        assert forall|j: int| 0 <= j < 8 implies #[trigger] s.subrange(i + 6, i + 14)[j]
            == "function"@[j] by {
            assert("async function "@[j + 6] == "function"@[j]);
        }
    }
    assert(s[i + 14] == "async function "@[14]);
    lemma_word(s, e, "function"@);
    let f = next(s, e);
    assert(f.levels =~= seq![outermost()]);
    assert(f.sign == Sign::Function);
    let g = lemma_blank(s, f, i + 15);
    assert(s.subrange(i + 15, p) =~= name) by {
        assert forall|j: int| 0 <= j < name.len() implies #[trigger] s.subrange(i + 15, p)[j]
            == name[j] by {
            assert(t[15 + j] == name[j]);
        }
    }
    assert(s[p] == t[p - i]);
    lemma_word(s, g, name);
    let h = next(s, g);
    assert(h.levels =~= seq![outermost()]);
    assert(h.sign == Sign::Function);
    assert(s.subrange(p + 1, c) =~= params) by {
        assert forall|j: int| 0 <= j < params.len() implies #[trigger] s.subrange(p + 1, c)[j]
            == params[j] by {
            assert(t[p - i + 1 + j] == params[j]);
        }
    }
    assert(s[c] == t[c - i]);
    let u = lemma_parens(s, h, params);
    assert forall|j: int| c + 1 <= j < o implies is_white(#[trigger] s[j]) by {
        assert(t[j - i] == gap[j - c - 1]);
        assert(is_white(gap[j - c - 1]));
    }
    let v = lemma_blank(s, u, o);
    assert(s.skip(o) =~= seq!['{'] + inner + seq!['}'] + after) by {
        assert forall|j: int| 0 <= j < s.len() - o implies #[trigger] s.skip(o)[j] == (seq!['{']
            + inner + seq!['}'] + after)[j] by {
            assert(t[o - i + j] == s[o + j]);
        }
    }
    lemma_body(s, v, inner, after);
}

/// The word `await` in a function is passed over, where no other code holds it.
pub proof fn law_await_in_a_function_is_passed_over(
    before: Seq<char>,
    blank: Seq<char>,
    name: Seq<char>,
    params: Seq<char>,
    gap: Seq<char>,
    inner: Seq<char>,
    after: Seq<char>,
)
    requires
        is_whole(before),
        before.len() > 0 ==> before[0] != '#',
        all_white(blank) && all_white(gap),
        is_function_name(name),
        is_nested(params) && is_nested(inner) && is_nested(after),
        !contains_text(before, "await"@),
        !contains_text(after, "await"@),
    ensures
        !awaits(before + blank + (function_text(name, params, gap, inner) + after)),
{
    reveal_strlit("async function ");
    let rest = function_text(name, params, gap, inner) + after;
    let s = before + blank + rest;
    let k = before.len() as int;
    let i = k + blank.len();
    assert(rest[0] == "async function "@[0]);
    assert(s.take(k) =~= before);
    lemma_first(before, blank, rest);
    let r = lemma_before(s, before);
    assert forall|j: int| k <= j < i implies is_white(#[trigger] s[j]) by {
        assert(s[j] == blank[j - k]);
        assert(is_white(blank[j - k]));
    }
    let e = lemma_blank(s, r, i);
    assert(s.skip(i) =~= rest);
    lemma_function(s, e, name, params, gap, inner, after);
}

/// An asynchronous arrow function with a body in braces.
pub open spec fn arrow_text(params: Seq<char>, gap: Seq<char>, inner: Seq<char>) -> Seq<char> {
    "async("@ + params + ")=>"@ + gap + seq!['{'] + inner + seq!['}']
}

/// The word `await` in an arrow function is passed over, where no other code holds it.
#[verifier::rlimit(60)]
pub proof fn law_await_in_an_arrow_function_is_passed_over(
    before: Seq<char>,
    blank: Seq<char>,
    params: Seq<char>,
    gap: Seq<char>,
    inner: Seq<char>,
    after: Seq<char>,
)
    requires
        is_whole(before),
        before.len() > 0 ==> before[0] != '#',
        all_white(blank) && all_white(gap),
        is_nested(params) && is_nested(inner) && is_nested(after),
        !contains_text(before, "await"@),
        !contains_text(params, "await"@),
        !contains_text(after, "await"@),
    ensures
        !awaits(before + blank + (arrow_text(params, gap, inner) + after)),
{
    reveal_strlit("async(");
    reveal_strlit("async");
    reveal_strlit(")=>");
    let rest = arrow_text(params, gap, inner) + after;
    let s = before + blank + rest;
    let k = before.len() as int;
    let i = k + blank.len();
    let c = i + 6 + params.len();
    let o = c + 3 + gap.len();
    assert(rest[0] == "async("@[0]);
    assert(s.take(k) =~= before);
    lemma_first(before, blank, rest);
    let r = lemma_before(s, before);
    assert forall|j: int| k <= j < i implies is_white(#[trigger] s[j]) by {
        assert(s[j] == blank[j - k]);
        assert(is_white(blank[j - k]));
    }
    let e = lemma_blank(s, r, i);
    assert(s.subrange(i, i + 5) =~= "async"@) by {
        assert forall|j: int| 0 <= j < 5 implies #[trigger] s.subrange(i, i + 5)[j] == "async"@[j] by {
            assert("async("@[j] == "async"@[j]);
        }
    }
    assert(s[i + 5] == "async("@[5]);
    lemma_async(s, e);
    let n = next(s, e);
    assert(s.subrange(i + 6, c) =~= params);
    assert(s[c] == ")=>"@[0] && s[c + 1] == ")=>"@[1] && s[c + 2] == ")=>"@[2]);
    let f = lemma_parens(s, n, params);
    let g = next(s, f);
    assert(pair_at(s, c + 1, '=', '>'));
    assert(g == behind_mark(s, f));
    assert(awaits_from(s, g) == awaits_from(s, f));
    assert(g.levels.len() == 1 && g.levels[0].kind == Kind::Block && !g.levels[0].class);
    assert(g.levels.last() == g.levels[0]);
    assert forall|j: int| c + 3 <= j < o implies is_white(#[trigger] s[j]) by {
        assert(s[j] == gap[j - c - 3]);
        assert(is_white(gap[j - c - 3]));
    }
    let h = lemma_blank(s, g, o);
    assert(s.skip(o) =~= seq!['{'] + inner + seq!['}'] + after);
    lemma_body(s, h, inner, after);
}

} // verus!

//! Whether a module's source text awaits outside every function.

use crate::scan::{
    block_end, ident, ident_end, is_ident, is_pair, lemma_block_end, lemma_ident_end,
    lemma_line_end, lemma_string_end, line_end, pair_at, skip_block, skip_ident, skip_line,
    skip_quoted, string_end,
};
use crate::text::{chars_of, contains_text, is_text, occurs_at, span};
use vstd::prelude::*;

verus! {

/// Space, or one of tab, line feed, vertical tab, form feed and carriage return.
pub open spec fn is_blank(c: char) -> bool {
    c == ' ' || 0x9 <= c as u32 <= 0xd
}

/// The last character before `j` that is not blank is a dot.
pub open spec fn dot_before(s: Seq<char>, j: int) -> bool
    decreases j,
{
    if j <= 0 || j > s.len() {
        false
    } else if is_blank(s[j - 1]) {
        dot_before(s, j - 1)
    } else {
        s[j - 1] == '.'
    }
}

/// The open function bodies once a `}` has been read at brace depth `depth`.
pub open spec fn bodies_closed(bodies: Seq<int>, depth: int) -> Seq<int> {
    if bodies.len() > 0 && bodies.last() == depth {
        bodies.drop_last()
    } else {
        bodies
    }
}

/// From position `i` on, the word `await` stands at brace depth zero and outside every function
/// body, as no property name behind a dot. `depth` is the brace depth at `i`, `bodies` holds the
/// depths of the function bodies open there, and `pending` says that the next `{` opens one: a
/// `function` or `=>` was read before it.
pub open spec fn awaits_from(
    s: Seq<char>,
    i: int,
    depth: int,
    bodies: Seq<int>,
    pending: bool,
) -> bool
    decreases s.len() - i,
{
    if i < 0 || i >= s.len() {
        false
    } else if pair_at(s, i, '/', '/') {
        proof {
            lemma_line_end(s, i + 2);
        }
        awaits_from(s, line_end(s, i + 2), depth, bodies, pending)
    } else if pair_at(s, i, '/', '*') {
        proof {
            lemma_block_end(s, i + 2);
        }
        awaits_from(s, block_end(s, i + 2), depth, bodies, pending)
    } else if s[i] == '"' || s[i] == '\'' || s[i] == '`' {
        proof {
            lemma_string_end(s, s[i], i + 1);
        }
        awaits_from(s, string_end(s, s[i], i + 1), depth, bodies, pending)
    } else if s[i] == '{' {
        awaits_from(
            s,
            i + 1,
            depth + 1,
            if pending {
                bodies.push(depth + 1)
            } else {
                bodies
            },
            false,
        )
    } else if s[i] == '}' {
        awaits_from(s, i + 1, depth - 1, bodies_closed(bodies, depth), pending)
    } else if pair_at(s, i, '=', '>') {
        awaits_from(s, i + 2, depth, bodies, true)
    } else if is_ident(s[i]) {
        proof {
            lemma_ident_end(s, i);
        }
        let e = ident_end(s, i);
        let word = s.subrange(i, e);
        ||| word == "await"@ && !dot_before(s, i) && depth == 0 && bodies.len() == 0
        ||| awaits_from(s, e, depth, bodies, pending || word == "function"@)
    } else {
        awaits_from(s, i + 1, depth, bodies, pending)
    }
}

/// The module `s` awaits at its top level.
pub open spec fn awaits(s: Seq<char>) -> bool {
    awaits_from(s, 0, 0, seq![], false)
}

/// The depths held in `v`.
spec fn depths(v: Seq<i128>) -> Seq<int> {
    Seq::new(v.len(), |k: int| v[k] as int)
}

/// Whether the last character before `j` that is not blank is a dot.
fn is_dot_before(s: &[char], j: usize) -> (r: bool)
    requires
        j <= s@.len(),
    ensures
        r == dot_before(s@, j as int),
{
    let mut k: usize = j;
    while k > 0
        invariant
            k <= s@.len(),
            dot_before(s@, j as int) == dot_before(s@, k as int),
        decreases k,
    {
        let c = s[k - 1];
        if !(c == ' ' || (0x9 <= c as u32 && c as u32 <= 0xd)) {
            return c == '.';
        }
        k -= 1;
    }
    false
}

/// Whether a module's source text awaits at its top level: at brace depth zero and in no function
/// body. An `await` in a top-level block is not seen.
#[verifier::rlimit(30)]
pub fn has_top_level_await(src: &str) -> (r: bool)
    ensures
        r == awaits(src@),
{
    let s = chars_of(src);
    let mut i: usize = 0;
    let mut bodies: Vec<i128> = Vec::new();
    let mut depth: i128 = 0;
    let mut pending = false;
    assert(depths(bodies@) =~= seq![]);
    while i < s.len()
        invariant
            s@ == src@,
            i <= s.len(),
            -(i as int) <= depth <= i,
            awaits(s@) == awaits_from(s@, i as int, depth as int, depths(bodies@), pending),
        decreases s.len() - i,
    {
        let c = s[i];
        if is_pair(&s, i, '/', '/') {
            i = skip_line(&s, i + 2);
        } else if is_pair(&s, i, '/', '*') {
            i = skip_block(&s, i + 2);
        } else if c == '"' || c == '\'' || c == '`' {
            i = skip_quoted(&s, c, i + 1);
        } else if c == '{' {
            depth += 1;
            if pending {
                let ghost before = depths(bodies@);
                bodies.push(depth);
                assert(depths(bodies@) =~= before.push(depth as int));
                pending = false;
            }
            i += 1;
        } else if c == '}' {
            let ghost before = depths(bodies@);
            if bodies.len() > 0 && bodies[bodies.len() - 1] == depth {
                bodies.pop();
                assert(depths(bodies@) =~= before.drop_last());
            }
            assert(depths(bodies@) == bodies_closed(before, depth as int));
            depth -= 1;
            i += 1;
        } else if is_pair(&s, i, '=', '>') {
            pending = true;
            i += 2;
        } else if ident(c) {
            let start = i;
            i = skip_ident(&s, start);
            proof {
                lemma_ident_end(s@, start as int);
            }
            let word = span(&s, start, i);
            if is_text(word, "function") {
                pending = true;
                proof {
                    reveal_strlit("function");
                    reveal_strlit("await");
                    assert(word@.len() == 8);
                }
            } else if is_text(word, "await") && !is_dot_before(&s, start) {
                if depth == 0 && bodies.len() == 0 {
                    return true;
                }
            }
        } else {
            i += 1;
        }
    }
    false
}

/// Only text that holds the word `await` awaits.
pub proof fn law_awaiting_needs_the_word(s: Seq<char>)
    requires
        awaits(s),
    ensures
        contains_text(s, "await"@),
{
    lemma_awaits_from(s, 0, 0, seq![], false);
}

proof fn lemma_awaits_from(s: Seq<char>, i: int, depth: int, bodies: Seq<int>, pending: bool)
    requires
        0 <= i,
        awaits_from(s, i, depth, bodies, pending),
    ensures
        contains_text(s, "await"@),
    decreases s.len() - i,
{
    if i < s.len() {
        if pair_at(s, i, '/', '/') {
            lemma_line_end(s, i + 2);
            lemma_awaits_from(s, line_end(s, i + 2), depth, bodies, pending);
        } else if pair_at(s, i, '/', '*') {
            lemma_block_end(s, i + 2);
            lemma_awaits_from(s, block_end(s, i + 2), depth, bodies, pending);
        } else if s[i] == '"' || s[i] == '\'' || s[i] == '`' {
            lemma_string_end(s, s[i], i + 1);
            lemma_awaits_from(s, string_end(s, s[i], i + 1), depth, bodies, pending);
        } else if s[i] == '{' {
            let opened = if pending {
                bodies.push(depth + 1)
            } else {
                bodies
            };
            lemma_awaits_from(s, i + 1, depth + 1, opened, false);
        } else if s[i] == '}' {
            lemma_awaits_from(s, i + 1, depth - 1, bodies_closed(bodies, depth), pending);
        } else if pair_at(s, i, '=', '>') {
            lemma_awaits_from(s, i + 2, depth, bodies, true);
        } else if is_ident(s[i]) {
            lemma_ident_end(s, i);
            let e = ident_end(s, i);
            let word = s.subrange(i, e);
            if word == "await"@ {
                assert(occurs_at(s, "await"@, i));
            } else {
                lemma_awaits_from(s, e, depth, bodies, pending || word == "function"@);
            }
        } else {
            lemma_awaits_from(s, i + 1, depth, bodies, pending);
        }
    }
}

/// `c` begins neither a comment nor a literal and is no brace.
pub open spec fn is_plain_code(c: char) -> bool {
    c != '/' && c != '"' && c != '\'' && c != '`' && c != '{' && c != '}'
}

proof fn lemma_ident_end_upto(s: Seq<char>, i: int, m: int)
    requires
        0 <= i <= m <= s.len(),
        m == s.len() || !is_ident(s[m]),
    ensures
        ident_end(s, i) <= m,
    decreases m - i,
{
    if i < m && is_ident(s[i]) {
        lemma_ident_end_upto(s, i + 1, m);
    }
}

proof fn lemma_ident_end_is(s: Seq<char>, i: int, m: int)
    requires
        0 <= i <= m <= s.len(),
        forall|j: int| i <= j < m ==> is_ident(#[trigger] s[j]),
        m == s.len() || !is_ident(s[m]),
    ensures
        ident_end(s, i) == m,
    decreases m - i,
{
    if i < m {
        assert(is_ident(s[i]));
        lemma_ident_end_is(s, i + 1, m);
    }
}

proof fn lemma_dot_before(s: Seq<char>, t: Seq<char>, j: int)
    requires
        0 <= j <= s.len(),
        j <= t.len(),
        forall|k: int| 0 <= k < j ==> s[k] == t[k],
    ensures
        dot_before(s, j) == dot_before(t, j),
    decreases j,
{
    if j > 0 && is_blank(s[j - 1]) {
        lemma_dot_before(s, t, j - 1);
    }
}

proof fn lemma_await_ahead(s: Seq<char>, i: int, k: int, pending: bool)
    requires
        0 <= i <= k,
        k + 5 <= s.len(),
        forall|j: int| 0 <= j < k ==> is_plain_code(#[trigger] s[j]),
        k == 0 || !is_ident(s[k - 1]),
        s.subrange(k, k + 5) == "await"@,
        k + 5 == s.len() || !is_ident(s[k + 5]),
        !dot_before(s, k),
    ensures
        awaits_from(s, i, 0, seq![], pending),
    decreases k - i,
{
    reveal_strlit("await");
    assert forall|j: int| k <= j < k + 5 implies is_ident(#[trigger] s[j]) by {
        assert(s[j] == s.subrange(k, k + 5)[j - k]);
    }
    assert(is_ident(s[k]));
    if i == k {
        lemma_ident_end_is(s, k, k + 5);
        assert(s.subrange(k, ident_end(s, k)) == "await"@);
    } else {
        assert(is_plain_code(s[i]));
        if pair_at(s, i, '=', '>') {
            lemma_await_ahead(s, i + 2, k, true);
        } else if is_ident(s[i]) {
            lemma_ident_end(s, i);
            lemma_ident_end_upto(s, i, k - 1);
            let e = ident_end(s, i);
            let word = s.subrange(i, e);
            lemma_await_ahead(s, e, k, pending || word == "function"@);
        } else {
            lemma_await_ahead(s, i + 1, k, pending);
        }
    }
}

/// The word `await` outside every block is seen, unless it is the name of a property.
pub proof fn law_await_outside_blocks_is_seen(before: Seq<char>, after: Seq<char>)
    requires
        forall|j: int| 0 <= j < before.len() ==> is_plain_code(#[trigger] before[j]),
        before.len() > 0 ==> !is_ident(before.last()),
        !dot_before(before, before.len() as int),
        after.len() > 0 ==> !is_ident(after[0]),
    ensures
        awaits(before + "await"@ + after),
{
    reveal_strlit("await");
    let s = before + "await"@ + after;
    let k = before.len() as int;
    assert forall|j: int| 0 <= j < k implies is_plain_code(#[trigger] s[j]) by {
        assert(s[j] == before[j]);
    }
    assert(s.subrange(k, k + 5) =~= "await"@);
    lemma_dot_before(s, before, k);
    lemma_await_ahead(s, 0, k, false);
}

proof fn lemma_no_await_upto(
    s: Seq<char>,
    i: int,
    k: int,
    depth: int,
    bodies: Seq<int>,
    pending: bool,
)
    requires
        0 <= i <= k <= s.len(),
        k == s.len() || s[k] == '{' || s[k] == '}',
        forall|j: int| i <= j < k ==> is_plain_code(#[trigger] s[j]),
        depth != 0 || forall|j: int| i <= j && j + 5 <= k ==> !occurs_at(s, "await"@, j),
        forall|p: bool| !awaits_from(s, k, depth, bodies, p),
    ensures
        !awaits_from(s, i, depth, bodies, pending),
    decreases k - i,
{
    reveal_strlit("await");
    if i < k {
        assert(is_plain_code(s[i]));
        if pair_at(s, i, '=', '>') {
            lemma_no_await_upto(s, i + 2, k, depth, bodies, true);
        } else if is_ident(s[i]) {
            lemma_ident_end(s, i);
            lemma_ident_end_upto(s, i, k);
            let e = ident_end(s, i);
            let word = s.subrange(i, e);
            lemma_no_await_upto(s, e, k, depth, bodies, pending || word == "function"@);
            if word == "await"@ {
                assert(occurs_at(s, "await"@, i));
            }
        } else {
            lemma_no_await_upto(s, i + 1, k, depth, bodies, pending);
        }
    }
}

/// The word `await` in a block is passed over: the block may be the body of a function.
pub proof fn law_await_in_a_block_is_passed_over(
    before: Seq<char>,
    block: Seq<char>,
    after: Seq<char>,
)
    requires
        forall|j: int| 0 <= j < before.len() ==> is_plain_code(#[trigger] before[j]),
        forall|j: int| 0 <= j < block.len() ==> is_plain_code(#[trigger] block[j]),
        forall|j: int| 0 <= j < after.len() ==> is_plain_code(#[trigger] after[j]),
        !contains_text(before, "await"@),
        !contains_text(after, "await"@),
    ensures
        !awaits(before + seq!['{'] + block + seq!['}'] + after),
{
    reveal_strlit("await");
    let s = before + seq!['{'] + block + seq!['}'] + after;
    let a = before.len() as int;
    let b = a + 1 + block.len();
    let n = s.len() as int;
    assert forall|j: int| 0 <= j < a implies is_plain_code(#[trigger] s[j]) by {
        assert(s[j] == before[j]);
    }
    assert forall|j: int| a + 1 <= j < b implies is_plain_code(#[trigger] s[j]) by {
        assert(s[j] == block[j - a - 1]);
    }
    assert forall|j: int| b + 1 <= j < n implies is_plain_code(#[trigger] s[j]) by {
        assert(s[j] == after[j - b - 1]);
    }
    assert forall|j: int| 0 <= j && j + 5 <= a implies !occurs_at(s, "await"@, j) by {
        assert(s.subrange(j, j + 5) =~= before.subrange(j, j + 5));
        assert(!occurs_at(before, "await"@, j));
    }
    assert forall|j: int| b + 1 <= j && j + 5 <= n implies !occurs_at(s, "await"@, j) by {
        let m = j - b - 1;
        assert(s.subrange(j, j + 5) =~= after.subrange(m, m + 5));
        assert(!occurs_at(after, "await"@, m));
    }
    let c = b + 1;
    let none = Seq::<int>::empty();
    assert forall|p: bool| !awaits_from(s, c, 0, none, p) by {
        lemma_no_await_upto(s, c, n, 0, none, p);
    }
    assert forall|q: bool| !awaits_from(s, a, 0, none, q) by {
        let opened = if q {
            none.push(1)
        } else {
            none
        };
        assert(bodies_closed(opened, 1) =~= none);
        assert forall|p: bool| !awaits_from(s, b, 1, opened, p) by {
            assert(!awaits_from(s, c, 0, none, p));
            assert(s[b] == '}');
        }
        lemma_no_await_upto(s, a + 1, b, 1, opened, false);
        assert(s[a] == '{');
    }
    lemma_no_await_upto(s, 0, a, 0, none, false);
}

} // verus!

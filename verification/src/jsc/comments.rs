//! Removing comments from source text.

use crate::scan::{
    ascii_white, block_end, ident, is_ascii_white, is_ident, is_pair, lemma_block_end,
    lemma_line_end, lemma_regex_end, lemma_string_end, line_end, pair_at, regex_end, skip_block,
    skip_line, skip_quoted, skip_regex, string_end,
};
use crate::text::{chars_of, push_all, span, string_of};
use vstd::prelude::*;

verus! {

/// A `/` behind `prev` begins a regular expression: `prev` ends no operand. `'\0'` stands for the
/// beginning of the text.
pub open spec fn regex_may_follow(prev: char) -> bool {
    ||| prev == '\0'
    ||| prev == '('
    ||| prev == ','
    ||| prev == '='
    ||| prev == ':'
    ||| prev == '['
    ||| prev == '!'
    ||| prev == '&'
    ||| prev == '|'
    ||| prev == '?'
    ||| prev == '{'
    ||| prev == '}'
    ||| prev == ';'
    ||| prev == '+'
    ||| prev == '-'
    ||| prev == '*'
    ||| prev == '%'
    ||| prev == '<'
    ||| prev == '>'
    ||| prev == '^'
    ||| prev == '~'
}

/// The last significant character once `c` has been read behind `prev`; `'a'` stands for every
/// identifier character.
pub open spec fn significant(prev: char, c: char) -> char {
    if is_ascii_white(c) {
        prev
    } else if is_ident(c) {
        'a'
    } else {
        c
    }
}

/// What is left of `s` from position `i` on when its comments are dropped, `prev` being the last
/// significant character before `i`. String, template and regular expression literals are kept
/// whole.
pub open spec fn code_from(s: Seq<char>, prev: char, i: int) -> Seq<char>
    decreases s.len() - i,
{
    if i < 0 || i >= s.len() {
        seq![]
    } else if pair_at(s, i, '/', '/') {
        proof {
            lemma_line_end(s, i + 2);
        }
        code_from(s, prev, line_end(s, i + 2))
    } else if pair_at(s, i, '/', '*') {
        proof {
            lemma_block_end(s, i + 2);
        }
        code_from(s, prev, block_end(s, i + 2))
    } else if s[i] == '"' || s[i] == '\'' || s[i] == '`' {
        proof {
            lemma_string_end(s, s[i], i + 1);
        }
        let e = string_end(s, s[i], i + 1);
        s.subrange(i, e) + code_from(s, s[i], e)
    } else if s[i] == '/' && regex_may_follow(prev) {
        proof {
            lemma_regex_end(s, false, i + 1);
        }
        let e = regex_end(s, false, i + 1);
        s.subrange(i, e) + code_from(s, '/', e)
    } else {
        seq![s[i]] + code_from(s, significant(prev, s[i]), i + 1)
    }
}

/// `s` without its comments.
pub open spec fn without_comments(s: Seq<char>) -> Seq<char> {
    code_from(s, '\0', 0)
}

/// Whether a `/` behind `prev` begins a regular expression.
fn may_follow(prev: char) -> (r: bool)
    ensures
        r == regex_may_follow(prev),
{
    prev == '\0' || prev == '(' || prev == ',' || prev == '=' || prev == ':' || prev == '[' || prev
        == '!' || prev == '&' || prev == '|' || prev == '?' || prev == '{' || prev == '}' || prev
        == ';' || prev == '+' || prev == '-' || prev == '*' || prev == '%' || prev == '<' || prev
        == '>' || prev == '^' || prev == '~'
}

/// `s` without its comments.
pub fn strip_comments(s: &[char]) -> (r: Vec<char>)
    ensures
        r@ == without_comments(s@),
{
    let mut out: Vec<char> = Vec::new();
    let mut i: usize = 0;
    let mut prev = '\0';
    while i < s.len()
        invariant
            i <= s.len(),
            out@ + code_from(s@, prev, i as int) =~= without_comments(s@),
        decreases s.len() - i,
    {
        let c = s[i];
        if is_pair(s, i, '/', '/') {
            i = skip_line(s, i + 2);
        } else if is_pair(s, i, '/', '*') {
            i = skip_block(s, i + 2);
        } else if c == '"' || c == '\'' || c == '`' {
            let e = skip_quoted(s, c, i + 1);
            push_all(&mut out, span(s, i, e));
            prev = c;
            i = e;
        } else if c == '/' && may_follow(prev) {
            let e = skip_regex(s, i + 1);
            push_all(&mut out, span(s, i, e));
            prev = '/';
            i = e;
        } else {
            if !ascii_white(c) {
                prev = if ident(c) {
                    'a'
                } else {
                    c
                };
            }
            out.push(c);
            i += 1;
        }
    }
    out
}

/// The source text `src` without its comments. A `/` is taken for the beginning of a regular
/// expression where no operand stands before it.
pub fn strip_js_comments(src: &str) -> (r: String)
    ensures
        r@ == without_comments(src@),
{
    let s = chars_of(src);
    string_of(&strip_comments(&s))
}

/// Text without a `/` has no comments: nothing is taken from it.
pub proof fn law_no_slash_is_kept(s: Seq<char>)
    requires
        forall|k: int| 0 <= k < s.len() ==> s[k] != '/',
    ensures
        without_comments(s) == s,
{
    lemma_no_slash_from(s, '\0', 0);
    assert(s.skip(0) =~= s);
}

proof fn lemma_no_slash_from(s: Seq<char>, prev: char, i: int)
    requires
        0 <= i <= s.len(),
        forall|k: int| i <= k < s.len() ==> s[k] != '/',
    ensures
        code_from(s, prev, i) == s.skip(i),
    decreases s.len() - i,
{
    if i < s.len() {
        if s[i] == '"' || s[i] == '\'' || s[i] == '`' {
            lemma_string_end(s, s[i], i + 1);
            let e = string_end(s, s[i], i + 1);
            lemma_no_slash_from(s, s[i], e);
            assert(s.subrange(i, e) + s.skip(e) =~= s.skip(i));
        } else {
            lemma_no_slash_from(s, significant(prev, s[i]), i + 1);
            assert(seq![s[i]] + s.skip(i + 1) =~= s.skip(i));
        }
    }
}

/// Removing comments never makes the text longer.
pub proof fn law_stripping_shortens(s: Seq<char>)
    ensures
        without_comments(s).len() <= s.len(),
{
    lemma_shortens_from(s, '\0', 0);
}

proof fn lemma_shortens_from(s: Seq<char>, prev: char, i: int)
    requires
        0 <= i <= s.len(),
    ensures
        code_from(s, prev, i).len() <= s.len() - i,
    decreases s.len() - i,
{
    if i < s.len() {
        if pair_at(s, i, '/', '/') {
            lemma_line_end(s, i + 2);
            lemma_shortens_from(s, prev, line_end(s, i + 2));
        } else if pair_at(s, i, '/', '*') {
            lemma_block_end(s, i + 2);
            lemma_shortens_from(s, prev, block_end(s, i + 2));
        } else if s[i] == '"' || s[i] == '\'' || s[i] == '`' {
            lemma_string_end(s, s[i], i + 1);
            lemma_shortens_from(s, s[i], string_end(s, s[i], i + 1));
        } else if s[i] == '/' && regex_may_follow(prev) {
            lemma_regex_end(s, false, i + 1);
            lemma_shortens_from(s, '/', regex_end(s, false, i + 1));
        } else {
            lemma_shortens_from(s, significant(prev, s[i]), i + 1);
        }
    }
}

/// `c` begins neither a comment nor a literal.
pub open spec fn is_plain_code(c: char) -> bool {
    c != '/' && c != '"' && c != '\'' && c != '`'
}

/// The last significant character before `k` once the text was read from `i` on.
spec fn significant_at(s: Seq<char>, prev: char, i: int, k: int) -> char
    decreases k - i,
{
    if i >= k {
        prev
    } else {
        significant_at(s, significant(prev, s[i]), i + 1, k)
    }
}

proof fn lemma_plain_code(s: Seq<char>, prev: char, i: int, k: int)
    requires
        0 <= i <= k <= s.len(),
        forall|j: int| i <= j < k ==> is_plain_code(#[trigger] s[j]),
    ensures
        code_from(s, prev, i) == s.subrange(i, k) + code_from(
            s,
            significant_at(s, prev, i, k),
            k,
        ),
    decreases k - i,
{
    if i < k {
        assert(is_plain_code(s[i]));
        lemma_plain_code(s, significant(prev, s[i]), i + 1, k);
        assert(s.subrange(i, k) =~= seq![s[i]] + s.subrange(i + 1, k));
    } else {
        assert(s.subrange(i, k) =~= seq![]);
    }
}

proof fn lemma_line_end_is(s: Seq<char>, i: int, m: int)
    requires
        0 <= i <= m < s.len(),
        s[m] == '\n',
        forall|j: int| i <= j < m ==> s[j] != '\n',
    ensures
        line_end(s, i) == m,
    decreases m - i,
{
    if i < m {
        lemma_line_end_is(s, i + 1, m);
    }
}

proof fn lemma_block_end_is(s: Seq<char>, i: int, m: int)
    requires
        0 <= i <= m,
        pair_at(s, m, '*', '/'),
        forall|j: int| i <= j < m ==> !pair_at(s, j, '*', '/'),
    ensures
        block_end(s, i) == m + 2,
    decreases m - i,
{
    if i < m {
        assert(!pair_at(s, i, '*', '/'));
        lemma_block_end_is(s, i + 1, m);
    }
}

proof fn lemma_string_end_is(s: Seq<char>, q: char, i: int, m: int)
    requires
        0 <= i <= m < s.len(),
        q != '\\',
        s[m] == q,
        forall|j: int| i <= j < m ==> s[j] != q && s[j] != '\\',
    ensures
        string_end(s, q, i) == m + 1,
    decreases m - i,
{
    if i < m {
        assert(s[i] != q && s[i] != '\\');
        lemma_string_end_is(s, q, i + 1, m);
    }
}

/// A comment up to the end of the line is taken out; the line feed stays.
pub proof fn law_line_comment_is_taken_out(before: Seq<char>, comment: Seq<char>, after: Seq<char>)
    requires
        forall|k: int| 0 <= k < before.len() ==> is_plain_code(#[trigger] before[k]),
        !comment.contains('\n'),
        !after.contains('/'),
    ensures
        without_comments(before + "//"@ + comment + "\n"@ + after) == before + "\n"@ + after,
{
    reveal_strlit("//");
    reveal_strlit("\n");
    let s = before + "//"@ + comment + "\n"@ + after;
    let k = before.len() as int;
    let m = k + 2 + comment.len();
    assert forall|j: int| 0 <= j < k implies is_plain_code(#[trigger] s[j]) by {
        assert(s[j] == before[j]);
    }
    lemma_plain_code(s, '\0', 0, k);
    let prev = significant_at(s, '\0', 0, k);
    assert forall|j: int| k + 2 <= j < m implies s[j] != '\n' by {
        assert(s[j] == comment[j - k - 2]);
    }
    lemma_line_end_is(s, k + 2, m);
    assert(code_from(s, prev, k) == code_from(s, prev, m));
    assert forall|j: int| m <= j < s.len() implies s[j] != '/' by {
        if j > m {
            assert(s[j] == after[j - m - 1]);
        }
    }
    lemma_no_slash_from(s, prev, m);
    assert(s.subrange(0, k) + s.skip(m) =~= before + "\n"@ + after);
}

/// A comment between `/*` and the next `*/` is taken out.
pub proof fn law_block_comment_is_taken_out(
    before: Seq<char>,
    comment: Seq<char>,
    after: Seq<char>,
)
    requires
        forall|k: int| 0 <= k < before.len() ==> is_plain_code(#[trigger] before[k]),
        forall|k: int| 0 <= k < comment.len() ==> !pair_at(comment + "*/"@, k, '*', '/'),
        !after.contains('/'),
    ensures
        without_comments(before + "/*"@ + comment + "*/"@ + after) == before + after,
{
    reveal_strlit("/*");
    reveal_strlit("*/");
    let s = before + "/*"@ + comment + "*/"@ + after;
    let k = before.len() as int;
    let m = k + 2 + comment.len();
    assert forall|j: int| 0 <= j < k implies is_plain_code(#[trigger] s[j]) by {
        assert(s[j] == before[j]);
    }
    lemma_plain_code(s, '\0', 0, k);
    let prev = significant_at(s, '\0', 0, k);
    assert forall|j: int| k + 2 <= j < m implies !pair_at(s, j, '*', '/') by {
        let c = comment + "*/"@;
        assert(s[j] == c[j - k - 2] && s[j + 1] == c[j - k - 1]);
        assert(!pair_at(c, j - k - 2, '*', '/'));
    }
    lemma_block_end_is(s, k + 2, m);
    assert(code_from(s, prev, k) == code_from(s, prev, m + 2));
    assert forall|j: int| m + 2 <= j < s.len() implies s[j] != '/' by {
        assert(s[j] == after[j - m - 2]);
    }
    lemma_no_slash_from(s, prev, m + 2);
    assert(s.subrange(0, k) + s.skip(m + 2) =~= before + after);
}

/// What looks like a comment inside a literal is none: the literal is kept.
pub proof fn law_literal_is_kept(
    before: Seq<char>,
    quote: char,
    literal: Seq<char>,
    after: Seq<char>,
)
    requires
        forall|k: int| 0 <= k < before.len() ==> is_plain_code(#[trigger] before[k]),
        quote == '"' || quote == '\'' || quote == '`',
        !literal.contains(quote),
        !literal.contains('\\'),
        !after.contains('/'),
    ensures
        ({
            let s = before + seq![quote] + literal + seq![quote] + after;
            without_comments(s) == s
        }),
{
    let s = before + seq![quote] + literal + seq![quote] + after;
    let k = before.len() as int;
    let m = k + 1 + literal.len();
    assert forall|j: int| 0 <= j < k implies is_plain_code(#[trigger] s[j]) by {
        assert(s[j] == before[j]);
    }
    lemma_plain_code(s, '\0', 0, k);
    let prev = significant_at(s, '\0', 0, k);
    assert(s[k] == quote && s[m] == quote);
    assert forall|j: int| k + 1 <= j < m implies s[j] != quote && s[j] != '\\' by {
        assert(s[j] == literal[j - k - 1]);
    }
    lemma_string_end_is(s, quote, k + 1, m);
    assert forall|j: int| m + 1 <= j < s.len() implies s[j] != '/' by {
        assert(s[j] == after[j - m - 1]);
    }
    lemma_no_slash_from(s, quote, m + 1);
    assert(code_from(s, prev, k) == s.subrange(k, m + 1) + s.skip(m + 1));
    assert(s.subrange(0, k) + (s.subrange(k, m + 1) + s.skip(m + 1)) =~= s);
}

} // verus!

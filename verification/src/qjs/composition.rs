//! Import statements that stand one after another are found one after another.

use crate::qjs::imports::{
    asked, continues_export, continues_import, depth_behind, dynamic_import, export_at, import_at,
    own_list_close, requests, requests_from, statement_end, statement_may_begin, text_from, word_at,
};
use crate::qjs::lexer::{
    bytes_at, comment_stop, is_white_byte, lemma_comment_stop, lemma_line_stop, lemma_string_stop,
    lemma_template_stop, line_stop, string_stop, template_stop, white_before, BACKSLASH, BACKTICK,
    CLOSE_BRACE, DOLLAR, DOUBLE_QUOTE, LINE_FEED, OPEN_BRACE, SEMICOLON, SINGLE_QUOTE, SLASH, STAR,
};
use crate::qjs::request::{
    bare_import, clause_start, clause_type, closing_quote, comment_at, ends_import,
    first_type_value, from_at, gap_end, is_inner_white, keyword_at, last_from, lemma_closing_quote,
    lemma_token_end, past_blanks, requested, token_end,
};
use crate::scan::{
    block_end, is_ident, lemma_block_end, lemma_block_end_in_end, lemma_line_end_in_end, line_end,
    pair_at,
};
use crate::specifier::{is_quote, lemma_literal};
use crate::text::{begins, is_white, occurs_at, trimmed_start};
use crate::utf8::{byte_offset, lemma_ascii, lemma_bytes_before, lemma_character};
use vstd::prelude::*;
use vstd::utf8::{encode_utf8, encode_utf8_decode_utf8, is_continuation_byte};

verus! {

/// A stop in the end of a text is one in the text.
proof fn lemma_line_stop_in_end(b: Seq<u8>, k: int, i: int)
    requires
        0 <= k <= b.len(),
        0 <= i,
    ensures
        line_stop(b, k + i) == k + line_stop(b.skip(k), i),
    decreases b.len() - i,
{
    if k + i < b.len() && b[k + i] != LINE_FEED {
        lemma_line_stop_in_end(b, k, i + 1);
    }
}

proof fn lemma_comment_stop_in_end(b: Seq<u8>, k: int, i: int)
    requires
        0 <= k <= b.len(),
        0 <= i,
    ensures
        comment_stop(b, k + i) == k + comment_stop(b.skip(k), i),
    decreases b.len() - i,
{
    if k + i + 1 < b.len() && !bytes_at(b, k + i, STAR, SLASH) {
        lemma_comment_stop_in_end(b, k, i + 1);
    }
}

proof fn lemma_string_stop_in_end(b: Seq<u8>, k: int, quote: u8, j: int)
    requires
        0 <= k <= b.len(),
        0 <= j,
    ensures
        string_stop(b, quote, k + j) == k + string_stop(b.skip(k), quote, j),
    decreases b.len() + 1 - j,
{
    if k + j < b.len() {
        if b[k + j] == BACKSLASH {
            lemma_string_stop_in_end(b, k, quote, j + 2);
        } else if b[k + j] != quote && b[k + j] != LINE_FEED {
            lemma_string_stop_in_end(b, k, quote, j + 1);
        }
    }
}

proof fn lemma_template_stop_in_end(b: Seq<u8>, k: int, depths: Seq<int>, in_text: bool, j: int)
    requires
        0 <= k <= b.len(),
        0 <= j,
    ensures
        template_stop(b, depths, in_text, k + j) == k + template_stop(b.skip(k), depths, in_text, j),
    decreases b.len() + 1 - j,
{
    let t = b.skip(k);
    if k + j < b.len() {
        let c = b[k + j];
        assert(t[j] == c);
        assert(bytes_at(b, k + j, DOLLAR, OPEN_BRACE) == bytes_at(t, j, DOLLAR, OPEN_BRACE));
        if c == BACKSLASH {
            lemma_template_stop_in_end(b, k, depths, in_text, j + 2);
        } else if in_text {
            if c == BACKTICK {
                if depths.len() > 0 {
                    lemma_template_stop_in_end(b, k, depths, false, j + 1);
                }
            } else if bytes_at(b, k + j, DOLLAR, OPEN_BRACE) {
                lemma_template_stop_in_end(b, k, depths.push(1), false, j + 2);
            } else {
                lemma_template_stop_in_end(b, k, depths, true, j + 1);
            }
        } else if c == OPEN_BRACE {
            lemma_template_stop_in_end(
                b,
                k,
                depths.drop_last().push(depths.last() + 1),
                false,
                j + 1,
            );
        } else if c == CLOSE_BRACE {
            if depths.last() == 1 {
                lemma_template_stop_in_end(b, k, depths.drop_last(), true, j + 1);
            } else {
                lemma_template_stop_in_end(
                    b,
                    k,
                    depths.drop_last().push(depths.last() - 1),
                    false,
                    j + 1,
                );
            }
        } else if c == DOUBLE_QUOTE || c == SINGLE_QUOTE {
            lemma_string_stop(b, c, k + j + 1);
            lemma_string_stop_in_end(b, k, c, j + 1);
            lemma_template_stop_in_end(b, k, depths, false, string_stop(t, c, j + 1));
        } else if c == BACKTICK {
            lemma_template_stop_in_end(b, k, depths, true, j + 1);
        } else {
            lemma_template_stop_in_end(b, k, depths, false, j + 1);
        }
    }
}

proof fn lemma_word_in_end(b: Seq<u8>, k: int, w: Seq<char>, i: int)
    requires
        0 <= k <= b.len(),
        0 <= i,
    ensures
        word_at(b, w, k + i) == word_at(b.skip(k), w, i),
{
    let t = b.skip(k);
    if word_at(b, w, k + i) {
        assert forall|n: int| 0 <= n < w.len() implies t[i + n] as u32 == (#[trigger] w[n]) as u32 by {
            assert(b[k + i + n] as u32 == w[n] as u32);
        }
    }
    if word_at(t, w, i) {
        assert forall|n: int| 0 <= n < w.len() implies b[k + i + n] as u32
            == (#[trigger] w[n]) as u32 by {
            assert(t[i + n] as u32 == w[n] as u32);
        }
    }
}

/// White space ends in the end of a text where it ends in the text, if no character is cut.
proof fn lemma_white_before_in_end(b: Seq<u8>, k: int, i: int)
    requires
        0 <= k,
        0 < i,
        k + i <= b.len(),
        !is_continuation_byte(b[k]),
    ensures
        white_before(b, k + i) == white_before(b.skip(k), i),
{
    let t = b.skip(k);
    assert(t[i - 1] == b[k + i - 1]);
    assert(t[0] == b[k]);
    if i >= 2 {
        assert(t[i - 2] == b[k + i - 2]);
    }
    if i >= 3 {
        assert(t[i - 3] == b[k + i - 3]);
    }
}

/// The first byte of a text continues no character.
pub proof fn lemma_first_byte(s: Seq<char>)
    ensures
        encode_utf8(s).len() > 0 ==> !is_continuation_byte(encode_utf8(s)[0]),
{
    if s.len() > 0 {
        assert(s.take(0) =~= seq![]);
        lemma_character(s, 0);
    }
}

/// What the end of a text asks for is what it asks for by itself, if a statement can begin there.
#[verifier::rlimit(40)]
pub proof fn lemma_requests_in_end(b: Seq<u8>, k: int, i: int)
    requires
        0 <= k <= b.len(),
        0 <= i,
        statement_may_begin(b, k),
        k < b.len() ==> !is_continuation_byte(b[k]),
    ensures
        requests_from(b, k + i) == requests_from(b.skip(k), i),
    decreases
            if i <= b.len() {
                b.len() + 1 - i
            } else {
                0
            },
{
    let t = b.skip(k);
    if k + i < b.len() {
        let c = b[k + i];
        assert(t[i] == c);
        assert(bytes_at(b, k + i, SLASH, SLASH) == bytes_at(t, i, SLASH, SLASH));
        assert(bytes_at(b, k + i, SLASH, STAR) == bytes_at(t, i, SLASH, STAR));
        if is_white_byte(c) {
            lemma_requests_in_end(b, k, i + 1);
        } else if bytes_at(b, k + i, SLASH, SLASH) {
            lemma_line_stop(t, i + 2);
            lemma_line_stop_in_end(b, k, i + 2);
            lemma_requests_in_end(b, k, line_stop(t, i + 2));
        } else if bytes_at(b, k + i, SLASH, STAR) {
            lemma_comment_stop(t, i + 2);
            lemma_comment_stop_in_end(b, k, i + 2);
            lemma_requests_in_end(b, k, comment_stop(t, i + 2));
        } else if c == DOUBLE_QUOTE || c == SINGLE_QUOTE {
            lemma_string_stop(t, c, i + 1);
            lemma_string_stop_in_end(b, k, c, i + 1);
            lemma_requests_in_end(b, k, string_stop(t, c, i + 1));
        } else if c == BACKTICK {
            lemma_template_stop(t, seq![], true, i + 1);
            lemma_template_stop_in_end(b, k, seq![], true, i + 1);
            lemma_requests_in_end(b, k, template_stop(t, seq![], true, i + 1));
        } else {
            lemma_word_in_end(b, k, "import"@, i);
            lemma_word_in_end(b, k, "export"@, i);
            reveal_strlit("import");
            reveal_strlit("export");
            if i + 6 <= t.len() {
                assert(b.subrange(k + i + 6, b.len() as int) =~= t.subrange(i + 6, t.len() as int));
            }
            assert(b.subrange(k + i, b.len() as int) =~= t.subrange(i, t.len() as int));
            assert(import_at(b, k + i) == import_at(t, i));
            assert(export_at(b, k + i) == export_at(t, i));
            assert(bytes_at(b, k + i - 2, STAR, SLASH) == bytes_at(t, i - 2, STAR, SLASH) || i < 2);
            assert(statement_may_begin(b, k + i) == statement_may_begin(t, i)) by {
                if i > 0 {
                    lemma_white_before_in_end(b, k, i);
                }
            }
            if statement_may_begin(b, k + i) && (import_at(b, k + i) || export_at(b, k + i)) {
                let s = text_from(t, i);
                assert(text_from(b, k + i) == s);
                if dynamic_import(s) {
                    lemma_requests_in_end(b, k, i + 6);
                } else {
                    match own_list_close(s) {
                        Some(c) => {
                            lemma_requests_in_end(b, k, i + byte_offset(s, c) + 1);
                        },
                        None => {
                            let n = statement_end(s, 0, false, 0);
                            lemma_requests_in_end(b, k, i + byte_offset(s, n) + 1);
                        },
                    }
                }
            } else {
                lemma_requests_in_end(b, k, i + 1);
            }
        }
    }
}

/// Where a literal in the end of a text is closed is where it is closed in the text.
pub proof fn lemma_closing_quote_in_end(s: Seq<char>, k: int, q: char, j: int)
    requires
        0 <= k <= s.len(),
        0 <= j,
    ensures
        closing_quote(s, q, k + j) == match closing_quote(s.skip(k), q, j) {
            Some(e) => Some(k + e),
            None => None,
        },
    decreases s.len() + 1 - j,
{
    if k + j < s.len() {
        if s[k + j] == '\\' {
            lemma_closing_quote_in_end(s, k, q, j + 2);
        } else if s[k + j] != q && s[k + j] != '\n' {
            lemma_closing_quote_in_end(s, k, q, j + 1);
        }
    }
}

pub proof fn lemma_token_in_end(s: Seq<char>, k: int, i: int)
    requires
        0 <= k,
        0 <= i,
        k + i < s.len(),
    ensures
        token_end(s, k + i) == k + token_end(s.skip(k), i),
{
    let t = s.skip(k);
    assert(t[i] == s[k + i]);
    assert(pair_at(s, k + i, '/', '/') == pair_at(t, i, '/', '/'));
    assert(pair_at(s, k + i, '/', '*') == pair_at(t, i, '/', '*'));
    lemma_line_end_in_end(s, k, i + 2);
    lemma_block_end_in_end(s, k, i + 2);
    lemma_closing_quote_in_end(s, k, s[k + i], i + 1);
}

/// A statement ends in the end of a text where it ends in the text.
proof fn lemma_statement_in_end(s: Seq<char>, k: int, depth: int, closed: bool, j: int)
    requires
        0 <= k <= s.len(),
        0 <= j,
    ensures
        statement_end(s, depth, closed, k + j) == k + statement_end(s.skip(k), depth, closed, j),
    decreases s.len() - j,
{
    let t = s.skip(k);
    if k + j < s.len() {
        assert(t[j] == s[k + j]);
        if !(depth <= 0 && (t[j] == ';' || (t[j] == '\n' && closed))) {
            lemma_token_end(t, j);
            lemma_token_in_end(s, k, j);
            lemma_statement_in_end(
                s,
                k,
                depth_behind(depth, t[j]),
                closed || (depth <= 0 && is_quote(t[j]) && token_end(t, j) > j + 1),
                token_end(t, j),
            );
        }
    }
}

/// The keyword `from` stands in the end of a text where it stands in the text, unless it is the end of a
/// longer word there.
proof fn lemma_last_from_in_end(s: Seq<char>, k: int, i: int)
    requires
        0 < k <= s.len(),
        0 <= i,
        !is_ident(s[k - 1]),
    ensures
        last_from(s, k + i) == match last_from(s.skip(k), i) {
            Some(p) => Some(k + p),
            None => None,
        },
    decreases s.len() - i,
{
    let t = s.skip(k);
    if k + i < s.len() {
        assert(t[i] == s[k + i]);
        lemma_token_end(t, i);
        lemma_token_in_end(s, k, i);
        lemma_last_from_in_end(s, k, token_end(t, i));
        reveal_strlit("from");
        if k + i + 4 <= s.len() {
            assert(t.subrange(i, i + 4) =~= s.subrange(k + i, k + i + 4));
            assert(t.skip(i + 4) =~= s.skip(k + i + 4));
        }
        assert(from_at(s, k + i) == from_at(t, i));
    }
}

/// What stands at `i` stands there whatever follows `s`: a comment that is ended, a literal that is closed
/// on its line, or a character that cannot begin a comment there.
pub open spec fn whole_token(s: Seq<char>, i: int) -> bool {
    if pair_at(s, i, '/', '/') {
        line_end(s, i + 2) < s.len()
    } else if pair_at(s, i, '/', '*') {
        let e = block_end(s, i + 2);
        i + 4 <= e && pair_at(s, e - 2, '*', '/')
    } else if is_quote(s[i]) {
        closing_quote(s, s[i], i + 1) is Some
    } else {
        s[i] != '/' || i + 1 < s.len()
    }
}

/// A statement that `s` begins with, read from `i` on, runs on behind `s`: how many braces are open there,
/// and whether a literal has been closed outside braces. None where it ends within `s`, or where `s` ends
/// within a comment or a literal.
pub open spec fn runs_on(s: Seq<char>, depth: int, closed: bool, i: int) -> Option<(int, bool)>
    decreases s.len() - i,
{
    if i < 0 || i >= s.len() {
        Some((depth, closed))
    } else if !whole_token(s, i) || (depth <= 0 && (s[i] == ';' || (s[i] == '\n' && closed))) {
        None
    } else {
        proof {
            lemma_token_end(s, i);
        }
        runs_on(
            s,
            depth_behind(depth, s[i]),
            closed || (depth <= 0 && is_quote(s[i])),
            token_end(s, i),
        )
    }
}

/// A comment or a literal that ends in the beginning `a` of a text ends there in the text.
pub proof fn lemma_line_end_in_head(a: Seq<char>, s: Seq<char>, i: int)
    requires
        a.len() <= s.len(),
        a == s.take(a.len() as int),
        0 <= i,
        line_end(a, i) < a.len(),
    ensures
        line_end(s, i) == line_end(a, i),
    decreases a.len() - i,
{
    if i < a.len() {
        assert(a[i] == s[i]);
        if a[i] != '\n' {
            lemma_line_end_in_head(a, s, i + 1);
        }
    }
}

pub proof fn lemma_block_end_in_head(a: Seq<char>, s: Seq<char>, i: int)
    requires
        a.len() <= s.len(),
        a == s.take(a.len() as int),
        0 <= i,
        i + 2 <= block_end(a, i),
        pair_at(a, block_end(a, i) - 2, '*', '/'),
    ensures
        block_end(s, i) == block_end(a, i),
    decreases a.len() - i,
{
    if i + 1 < a.len() {
        assert(a[i] == s[i] && a[i + 1] == s[i + 1]);
        if !pair_at(a, i, '*', '/') {
            lemma_block_end(a, i + 1);
            lemma_block_end_in_head(a, s, i + 1);
        }
    }
}

pub proof fn lemma_closing_quote_in_head(a: Seq<char>, s: Seq<char>, q: char, j: int)
    requires
        a.len() <= s.len(),
        a == s.take(a.len() as int),
        0 <= j,
        closing_quote(a, q, j) is Some,
    ensures
        closing_quote(s, q, j) == closing_quote(a, q, j),
    decreases a.len() + 1 - j,
{
    if j < a.len() {
        assert(a[j] == s[j]);
        if a[j] == '\\' {
            lemma_closing_quote_in_head(a, s, q, j + 2);
        } else if a[j] != q && a[j] != '\n' {
            lemma_closing_quote_in_head(a, s, q, j + 1);
        }
    }
}

pub proof fn lemma_token_in_head(a: Seq<char>, s: Seq<char>, i: int)
    requires
        a.len() <= s.len(),
        a == s.take(a.len() as int),
        0 <= i < a.len(),
        whole_token(a, i),
    ensures
        token_end(s, i) == token_end(a, i),
        is_quote(a[i]) ==> token_end(a, i) > i + 1,
{
    assert(a[i] == s[i]);
    if i + 1 < a.len() {
        assert(a[i + 1] == s[i + 1]);
    }
    assert(pair_at(a, i, '/', '/') == pair_at(s, i, '/', '/'));
    assert(pair_at(a, i, '/', '*') == pair_at(s, i, '/', '*'));
    if pair_at(a, i, '/', '/') {
        lemma_line_end_in_head(a, s, i + 2);
    } else if pair_at(a, i, '/', '*') {
        lemma_block_end_in_head(a, s, i + 2);
    } else if is_quote(a[i]) {
        lemma_closing_quote(a, a[i], i + 1);
        lemma_closing_quote_in_head(a, s, a[i], i + 1);
    }
}

/// A statement that runs on behind `a` ends behind it, and a `from` behind it is behind all in it.
proof fn lemma_runs_on(a: Seq<char>, s: Seq<char>, depth: int, closed: bool, i: int)
    requires
        a.len() <= s.len(),
        a == s.take(a.len() as int),
        0 <= i <= a.len(),
        runs_on(a, depth, closed, i) is Some,
    ensures
        runs_on(a, depth, closed, i) matches Some((d, c)) && statement_end(s, depth, closed, i)
            == statement_end(s, d, c, a.len() as int),
        last_from(s, a.len() as int) is Some ==> last_from(s, i) == last_from(s, a.len() as int),
    decreases a.len() - i,
{
    if i < a.len() {
        assert(a[i] == s[i]);
        lemma_token_end(a, i);
        lemma_token_in_head(a, s, i);
        lemma_runs_on(
            a,
            s,
            depth_behind(depth, a[i]),
            closed || (depth <= 0 && is_quote(a[i])),
            token_end(a, i),
        );
    }
}

/// A statement does not end at characters of no meaning.
pub proof fn lemma_plain_statement(s: Seq<char>, closed: bool, i: int, j: int)
    requires
        0 <= i <= j <= s.len(),
        forall|k: int|
            i <= k < j ==> !is_quote(#[trigger] s[k]) && s[k] != '/' && s[k] != ';' && s[k] != '{'
                && s[k] != '}' && (closed ==> s[k] != '\n'),
    ensures
        statement_end(s, 0, closed, i) == statement_end(s, 0, closed, j),
    decreases j - i,
{
    if i < j {
        lemma_plain_statement(s, closed, i + 1, j);
    }
}

/// No `from` begins with another letter.
pub proof fn lemma_plain_from(s: Seq<char>, i: int, j: int)
    requires
        0 <= i <= j <= s.len(),
        forall|k: int| i <= k < j ==> !is_quote(#[trigger] s[k]) && s[k] != '/' && s[k] != 'f',
    ensures
        last_from(s, i) == last_from(s, j),
    decreases j - i,
{
    if i < j {
        lemma_plain_from(s, i + 1, j);
        lemma_other_letter(s, i);
    }
}

proof fn lemma_other_letter(s: Seq<char>, i: int)
    requires
        0 <= i < s.len(),
        s[i] != 'f',
    ensures
        !from_at(s, i),
{
    reveal_strlit("from");
    if occurs_at(s, "from"@, i) {
        assert(s.subrange(i, i + 4)[0] == s[i]);
    }
}

/// A quote that nothing escapes closes a literal.
pub proof fn lemma_closing_quote_is(s: Seq<char>, q: char, j: int, e: int)
    requires
        0 <= j <= e < s.len(),
        s[e] == q,
        q != '\\',
        forall|k: int| j <= k < e ==> s[k] != q && s[k] != '\\' && s[k] != '\n',
    ensures
        closing_quote(s, q, j) == Some(e),
    decreases e - j,
{
    if j < e {
        lemma_closing_quote_is(s, q, j + 1, e);
    }
}

/// A literal is passed over whole.
proof fn lemma_literal_token(s: Seq<char>, m: int, spec: Seq<char>)
    requires
        0 <= m,
        m + 1 + spec.len() < s.len(),
        is_quote(s[m]),
        s[m + 1 + spec.len()] == s[m],
        s.subrange(m + 1, m + 1 + spec.len()) == spec,
        !spec.contains(s[m]),
        !spec.contains('\\'),
        !spec.contains('\n'),
    ensures
        closing_quote(s, s[m], m + 1) == Some(m + 1 + spec.len()),
        token_end(s, m) == m + 2 + spec.len(),
        last_from(s, m) == last_from(s, m + 2 + spec.len()),
        statement_end(s, 0, false, m) == statement_end(s, 0, true, m + 2 + spec.len()),
        statement_end(s, 0, true, m) == statement_end(s, 0, true, m + 2 + spec.len()),
{
    let e = m + 1 + spec.len();
    assert forall|k: int| m + 1 <= k < e implies s[k] != s[m] && s[k] != '\\' && s[k] != '\n' by {
        assert(s[k] == spec[k - m - 1]);
    }
    lemma_closing_quote_is(s, s[m], m + 1, e);
    lemma_other_letter(s, m);
}

/// A static import or a re-export begins the text: behind `import`, white space and comments aside, there
/// is something other than a parenthesis.
pub open spec fn begins_request(s: Seq<char>) -> bool {
    ||| {
        let g = gap_end(s, 6);
        &&& begins(s, "import"@)
        &&& continues_import(s.skip(6))
        &&& g < s.len()
        &&& s[g] != '(' && s[g] != '/'
    }
    ||| begins(s, "export"@) && continues_export(s.skip(6))
}

/// The first characters of a text are its first bytes, if they are ASCII.
proof fn lemma_ascii_prefix(s: Seq<char>, m: int)
    requires
        0 <= m <= s.len(),
        forall|k: int| 0 <= k < m ==> (#[trigger] s[k]) as u32 <= 0x7f,
    ensures
        byte_offset(s, m) == m,
        m <= encode_utf8(s).len(),
        forall|k: int|
            0 <= k < m ==> #[trigger] encode_utf8(s)[k] as u32 == s[k] as u32,
    decreases m,
{
    lemma_bytes_before(s, m);
    if m == 0 {
        assert(s.take(0) =~= seq![]);
    } else {
        lemma_ascii_prefix(s, m - 1);
        lemma_character(s, m - 1);
        lemma_ascii(s, m - 1);
        assert(s[m - 1] as u32 <= 0x7f);
    }
}

/// A comment that ends before the text does is ended by its mark.
pub proof fn lemma_block_closed(s: Seq<char>, i: int)
    requires
        0 <= i,
        block_end(s, i) < s.len(),
    ensures
        i + 2 <= block_end(s, i),
        pair_at(s, block_end(s, i) - 2, '*', '/'),
    decreases s.len() - i,
{
    if i + 1 < s.len() && !pair_at(s, i, '*', '/') {
        lemma_block_closed(s, i + 1);
    }
}

pub proof fn lemma_gap_end(s: Seq<char>, i: int)
    requires
        0 <= i <= s.len(),
    ensures
        i <= gap_end(s, i) <= s.len(),
    decreases s.len() - i,
{
    if i < s.len() && (is_white(s[i]) || comment_at(s, i)) {
        lemma_token_end(s, i);
        lemma_gap_end(s, token_end(s, i));
    }
}

/// White space and comments in the end of a text end where they end in the text.
pub proof fn lemma_gap_in_end(s: Seq<char>, k: int, i: int)
    requires
        0 <= k <= s.len(),
        0 <= i,
    ensures
        gap_end(s, k + i) == k + gap_end(s.skip(k), i),
    decreases s.len() - i,
{
    let t = s.skip(k);
    if k + i < s.len() {
        assert(t[i] == s[k + i]);
        assert(comment_at(s, k + i) == comment_at(t, i));
        if is_white(t[i]) || comment_at(t, i) {
            lemma_token_end(t, i);
            lemma_token_in_end(s, k, i);
            lemma_gap_in_end(s, k, token_end(t, i));
        }
    }
}

/// White space and comments end alike, whatever follows, unless there is nothing else.
pub proof fn lemma_gap_in_head(a: Seq<char>, s: Seq<char>, i: int)
    requires
        a.len() <= s.len(),
        a == s.take(a.len() as int),
        0 <= i,
        gap_end(a, i) < a.len(),
        a[gap_end(a, i)] != '/',
    ensures
        gap_end(s, i) == gap_end(a, i),
    decreases a.len() - i,
{
    if i < a.len() {
        assert(a[i] == s[i]);
        if i + 1 < a.len() {
            assert(a[i + 1] == s[i + 1]);
        }
        if is_white(a[i]) || comment_at(a, i) {
            lemma_token_end(a, i);
            lemma_gap_end(a, token_end(a, i));
            if pair_at(a, i, '/', '*') {
                lemma_block_closed(a, i + 2);
            }
            assert(whole_token(a, i));
            lemma_token_in_head(a, s, i);
            lemma_gap_in_head(a, s, token_end(a, i));
        }
    }
}

/// White space ends where something else stands that begins no comment.
proof fn lemma_gap_is(s: Seq<char>, i: int, m: int)
    requires
        0 <= i <= m < s.len(),
        forall|k: int| i <= k < m ==> is_white(#[trigger] s[k]),
        !is_white(s[m]),
        s[m] != '/',
    ensures
        gap_end(s, i) == m,
    decreases m - i,
{
    if i < m {
        assert(is_white(s[i]));
        lemma_gap_is(s, i + 1, m);
    }
}

/// The keyword at the beginning of a text stands at the beginning of its bytes.
pub proof fn lemma_keyword(src: Seq<char>, w: Seq<char>)
    requires
        begins(src, w),
        w == "import"@ || w == "export"@,
    ensures
        word_at(encode_utf8(src), w, 0),
        byte_offset(src, 6) == 6,
        forall|k: int| 0 <= k < 6 ==> #[trigger] encode_utf8(src)[k] as u32 == w[k] as u32,
{
    reveal_strlit("import");
    reveal_strlit("export");
    assert forall|k: int| 0 <= k < 6 implies #[trigger] src[k] == w[k] by {
        assert(src.subrange(0, 6)[k] == w[k]);
    }
    assert forall|k: int| 0 <= k < 6 implies (#[trigger] src[k]) as u32 <= 0x7f by {
        assert(src[k] == w[k]);
    }
    lemma_ascii_prefix(src, 6);
    let b = encode_utf8(src);
    assert forall|k: int| 0 <= k < 6 implies #[trigger] b[k] as u32 == w[k] as u32 by {
        assert(b[k] as u32 == src[k] as u32);
    }
    assert forall|k: int| 0 <= k < w.len() implies b[0 + k] as u32 == (#[trigger] w[k]) as u32 by {
        assert(b[k] as u32 == w[k] as u32);
    }
}

/// A statement at the beginning of a text is seen as one.
proof fn lemma_statement_is_seen(src: Seq<char>, n: int)
    requires
        0 <= n <= src.len(),
        begins_request(src.take(n)),
    ensures
        ({
            let b = encode_utf8(src);
            &&& b.len() > 0
            &&& b[0] == 0x69 || b[0] == 0x65
            &&& import_at(b, 0) || export_at(b, 0)
            &&& import_at(b, 0) == begins(src.take(n), "import"@)
            &&& !dynamic_import(src)
        }),
{
    reveal_strlit("import");
    reveal_strlit("export");
    let s = src.take(n);
    let b = encode_utf8(src);
    assert(src.subrange(0, 6) =~= s.subrange(0, 6));
    let w = if begins(s, "import"@) {
        "import"@
    } else {
        "export"@
    };
    lemma_keyword(src, w);
    assert(b[0] as u32 == w[0] as u32);
    assert(s.subrange(0, 6)[0] == w[0]);
    lemma_bytes_before(src, 6);
    assert(b.subrange(6, b.len() as int) =~= b.skip(6));
    encode_utf8_decode_utf8(src.skip(6));
    assert(text_from(b, 6) == src.skip(6));
    assert(src.skip(6) =~= s.skip(6) + src.skip(n));
    if begins(s, "import"@) {
        assert(src.skip(6)[0] == s.skip(6)[0]);
        if s.skip(6).len() > 1 {
            assert(src.skip(6)[1] == s.skip(6)[1]);
        }
        assert(continues_import(src.skip(6)));
        lemma_gap_in_head(s, src, 6);
        lemma_gap_end(s, 6);
        assert(src[gap_end(s, 6)] == s[gap_end(s, 6)]);
    } else {
        assert(src.skip(6).take(s.skip(6).len() as int) =~= s.skip(6));
        lemma_gap_in_head(s.skip(6), src.skip(6), 0);
        let g = gap_end(s.skip(6), 0);
        lemma_gap_end(s.skip(6), 0);
        assert(src.skip(6)[g] == s.skip(6)[g]);
        if word_at(b, "import"@, 0) {
            assert(b[0] as u32 == "import"@[0] as u32);
        }
    }
}

/// A static import or re-export at the beginning of a text is found, and then what follows it, where the
/// statement ends at a semicolon, at the end of a line or at the end of the text. A list of names that it
/// exports is not the module's own.
#[verifier::rlimit(40)]
pub proof fn law_statements_are_found_in_order(s: Seq<char>, rest: Seq<char>)
    requires
        begins_request(s),
        own_list_close(s + rest) is None,
        statement_end(s + rest, 0, false, 0) == s.len(),
        rest.len() == 0 || rest[0] == ';' || rest[0] == '\n',
    ensures
        requests(s + rest) == asked(s, begins(s, "import"@)) + (if rest.len() == 0 {
            seq![]
        } else {
            requests(rest.skip(1))
        }),
{
    let src = s + rest;
    let n = s.len() as int;
    let b = encode_utf8(src);
    let e = byte_offset(src, n);
    assert(src.take(n) =~= s);
    lemma_statement_is_seen(src, n);
    assert(b.subrange(0, b.len() as int) =~= b);
    encode_utf8_decode_utf8(src);
    assert(text_from(b, 0) == src);
    assert(requests_from(b, 0) == asked(s, begins(s, "import"@)) + requests_from(b, e + 1));
    lemma_bytes_before(src, n);
    if rest.len() == 0 {
        assert(src =~= s);
        assert(requests_from(b, e + 1) =~= seq![]);
    } else {
        lemma_ascii(src, n);
        lemma_character(src, n);
        assert(src[n] == rest[0]);
        lemma_bytes_before(src, n + 1);
        assert(src.skip(n + 1) =~= rest.skip(1));
        assert(b[e] == SEMICOLON || b[e] == LINE_FEED);
        lemma_first_byte(src.skip(n + 1));
        lemma_requests_in_end(b, e + 1, 0);
    }
}

/// All of the text is white space.
pub open spec fn all_white(s: Seq<char>) -> bool {
    forall|i: int| 0 <= i < s.len() ==> is_white(#[trigger] s[i])
}

/// A statement that names a module: what comes before the keyword `from`, white space behind it, the
/// specifier in quotes, and what comes last.
pub open spec fn from_statement(
    head: Seq<char>,
    blank: Seq<char>,
    quote: char,
    spec: Seq<char>,
    clause: Seq<char>,
) -> Seq<char> {
    head + "from"@ + blank + seq![quote] + spec + seq![quote] + clause
}

/// White space comes off the front of a text.
proof fn lemma_blank_comes_off(blank: Seq<char>, rest: Seq<char>)
    requires
        all_white(blank),
        rest.len() > 0,
        !is_white(rest[0]),
    ensures
        trimmed_start(blank + rest) == rest,
    decreases blank.len(),
{
    if blank.len() == 0 {
        assert(blank + rest =~= rest);
    } else {
        assert((blank + rest).skip(1) =~= blank.skip(1) + rest);
        assert forall|i: int| 0 <= i < blank.skip(1).len() implies is_white(
            #[trigger] blank.skip(1)[i],
        ) by {
            assert(is_white(blank[i + 1]));
        }
        assert(is_white(blank[0]));
        lemma_blank_comes_off(blank.skip(1), rest);
    }
}

/// Where the parts of such a statement stand.
proof fn lemma_parts(
    head: Seq<char>,
    blank: Seq<char>,
    quote: char,
    spec: Seq<char>,
    clause: Seq<char>,
)
    ensures
        ({
            let s = from_statement(head, blank, quote, spec, clause);
            let p = head.len() as int;
            let m = p + 4 + blank.len();
            let e = m + 1 + spec.len();
            &&& s.len() == e + 1 + clause.len()
            &&& s.take(p) == head
            &&& s.subrange(p, p + 4) == "from"@
            &&& s.subrange(p + 4, m) == blank
            &&& s[m] == quote
            &&& s.subrange(m + 1, e) == spec
            &&& s[e] == quote
            &&& s.skip(e + 1) == clause
        }),
{
    reveal_strlit("from");
    let s = from_statement(head, blank, quote, spec, clause);
    let p = head.len() as int;
    let m = p + 4 + blank.len();
    let e = m + 1 + spec.len();
    assert(s.take(p) =~= head);
    assert(s.subrange(p, p + 4) =~= "from"@);
    assert(s.subrange(p + 4, m) =~= blank);
    assert(s.subrange(m + 1, e) =~= spec);
    assert(s.skip(e + 1) =~= clause);
}

/// The keyword `from`, white space and a quote introduce a specifier.
pub proof fn lemma_from_at(s: Seq<char>, p: int, m: int)
    requires
        0 <= p,
        p + 4 <= m < s.len(),
        p == 0 || !is_ident(s[p - 1]),
        s.subrange(p, p + 4) == "from"@,
        all_white(s.subrange(p + 4, m)),
        is_quote(s[m]),
    ensures
        from_at(s, p),
        forall|k: int| p + 4 <= k < m ==> !is_quote(#[trigger] s[k]),
        last_from(s, m) is None ==> last_from(s, p) == Some(p),
{
    reveal_strlit("from");
    let blank = s.subrange(p + 4, m);
    assert(s.skip(p + 4) =~= blank + s.skip(m));
    assert(s.skip(m)[0] == s[m]);
    lemma_blank_comes_off(blank, s.skip(m));
    if p + 4 < m {
        assert(s[p + 4] == blank[0]);
        assert(is_white(blank[0]));
    }
    assert(s[p] == s.subrange(p, p + 4)[0]);
    assert(token_end(s, p) == p + 1);
    assert forall|k: int| p + 1 <= k < m implies !is_quote(#[trigger] s[k]) && s[k] != '/' && s[k]
        != 'f' by {
        if k < p + 4 {
            assert(s[k] == s.subrange(p, p + 4)[k - p]);
        } else {
            assert(s[k] == blank[k - p - 4]);
            assert(is_white(blank[k - p - 4]));
        }
    }
    lemma_plain_from(s, p + 1, m);
}

/// A statement asks for the module that it names behind `from`, with the type that the clause behind the
/// specifier gives it. The specifier stands on one line without escapes, and may hold anything else, the
/// word `from` among it; in the clause no `from` may introduce another.
pub proof fn law_from_names_the_module(
    head: Seq<char>,
    blank: Seq<char>,
    quote: char,
    spec: Seq<char>,
    clause: Seq<char>,
    is_import: bool,
)
    requires
        head.len() > 0,
        !is_ident(head.last()),
        runs_on(head, 0, false, 0) is Some,
        all_white(blank),
        is_quote(quote),
        spec.len() > 0,
        !spec.contains(quote),
        !spec.contains('\\'),
        !spec.contains('\n'),
        last_from(clause, 0) is None,
    ensures
        requested(from_statement(head, blank, quote, spec, clause), is_import) == Some(
            (spec, clause_type(clause)),
        ),
{
    let s = from_statement(head, blank, quote, spec, clause);
    let p = head.len() as int;
    let m = p + 4 + blank.len();
    let e = m + 1 + spec.len();
    lemma_parts(head, blank, quote, spec, clause);
    assert(s[p - 1] == s.take(p)[p - 1]);
    lemma_literal_token(s, m, spec);
    lemma_last_from_in_end(s, e + 1, 0);
    lemma_from_at(s, p, m);
    lemma_runs_on(head, s, 0, false, 0);
    lemma_literal(s, p + 4, m, spec);
}

/// An import without names.
pub open spec fn bare_statement(
    blank: Seq<char>,
    quote: char,
    spec: Seq<char>,
    clause: Seq<char>,
) -> Seq<char> {
    "import"@ + blank + seq![quote] + spec + seq![quote] + clause
}

proof fn lemma_past_blanks_in_end(s: Seq<char>, k: int, i: int)
    requires
        0 <= k <= s.len(),
        0 <= i,
    ensures
        past_blanks(s, true, k + i) == k + past_blanks(s.skip(k), true, i),
    decreases s.len() - i,
{
    let t = s.skip(k);
    if k + i < s.len() {
        assert(t[i] == s[k + i]);
        assert(comment_at(s, k + i) == comment_at(t, i));
        if is_inner_white(t[i]) {
            lemma_past_blanks_in_end(s, k, i + 1);
        } else if comment_at(t, i) {
            lemma_token_end(t, i);
            lemma_token_in_end(s, k, i);
            lemma_past_blanks_in_end(s, k, token_end(t, i));
        }
    }
}

proof fn lemma_keyword_in_end(s: Seq<char>, k: int, w: Seq<char>, i: int)
    requires
        0 <= k <= s.len(),
        0 <= i,
    ensures
        keyword_at(s, w, k + i) == keyword_at(s.skip(k), w, i),
{
    if k + i + w.len() <= s.len() {
        assert(s.skip(k).subrange(i, i + w.len()) =~= s.subrange(k + i, k + i + w.len()));
    }
}

/// Where the parts of an import without names stand.
proof fn lemma_bare_parts(blank: Seq<char>, quote: char, spec: Seq<char>, clause: Seq<char>)
    requires
        all_white(blank),
        is_quote(quote),
    ensures
        ({
            let s = bare_statement(blank, quote, spec, clause);
            let m = 6 + blank.len() as int;
            let e = m + 1 + spec.len();
            &&& s.len() == e + 1 + clause.len()
            &&& begins(s, "import"@)
            &&& gap_end(s, 6) == m
            &&& s[m] == quote
            &&& s.subrange(m + 1, e) == spec
            &&& s[e] == quote
            &&& s.skip(e + 1) == clause
            &&& forall|k: int|
                0 <= k < m ==> !is_quote(#[trigger] s[k]) && s[k] != '/' && s[k] != 'f' && s[k]
                    != ';' && s[k] != '{' && s[k] != '}' && (k == 6 ==> is_white(s[k]))
        }),
{
    reveal_strlit("import");
    let s = bare_statement(blank, quote, spec, clause);
    let m = 6 + blank.len() as int;
    let e = m + 1 + spec.len();
    assert(s.subrange(0, 6) =~= "import"@);
    assert(s.subrange(m + 1, e) =~= spec);
    assert(s.skip(e + 1) =~= clause);
    assert forall|k: int| 6 <= k < m implies is_white(#[trigger] s[k]) by {
        assert(s[k] == blank[k - 6]);
        assert(is_white(blank[k - 6]));
    }
    lemma_gap_is(s, 6, m);
    assert forall|k: int| 0 <= k < m implies !is_quote(#[trigger] s[k]) && s[k] != '/' && s[k]
        != 'f' && s[k] != ';' && s[k] != '{' && s[k] != '}' && (k == 6 ==> is_white(s[k])) by {
        if k < 6 {
            assert(s[k] == "import"@[k]);
        } else {
            assert(s[k] == blank[k - 6]);
            assert(is_white(blank[k - 6]));
        }
    }
}

/// An import without names asks for the module that it names, with the type that the clause behind the
/// specifier gives it, where that clause can end an import. The specifier stands on one line without
/// escapes, and may hold anything else.
#[verifier::rlimit(40)]
pub proof fn law_bare_import_names_the_module(
    blank: Seq<char>,
    quote: char,
    spec: Seq<char>,
    clause: Seq<char>,
)
    requires
        all_white(blank),
        is_quote(quote),
        spec.len() > 0,
        !spec.contains(quote),
        !spec.contains('\\'),
        !spec.contains('\n'),
        ends_import(clause, past_blanks(clause, true, 0)),
        last_from(clause, 0) is None,
    ensures
        requested(bare_statement(blank, quote, spec, clause), true) == Some(
            (spec, clause_type(clause)),
        ),
{
    let s = bare_statement(blank, quote, spec, clause);
    let m = 6 + blank.len() as int;
    let e = m + 1 + spec.len();
    lemma_bare_parts(blank, quote, spec, clause);
    lemma_plain_from(s, 0, m);
    lemma_literal_token(s, m, spec);
    lemma_last_from_in_end(s, e + 1, 0);
    lemma_past_blanks_in_end(s, e + 1, 0);
    let k = past_blanks(clause, true, 0);
    lemma_past_blanks(clause, 0);
    lemma_keyword_in_end(s, e + 1, "with"@, k);
    lemma_keyword_in_end(s, e + 1, "assert"@, k);
    if k < clause.len() {
        assert(s[e + 1 + k] == clause[k]);
    }
    assert(bare_import(s, true));
    lemma_literal(s, 0, m, spec);
}

proof fn lemma_past_blanks(s: Seq<char>, i: int)
    requires
        0 <= i <= s.len(),
    ensures
        i <= past_blanks(s, true, i) <= s.len(),
    decreases s.len() - i,
{
    if i < s.len() {
        if is_inner_white(s[i]) {
            lemma_past_blanks(s, i + 1);
        } else if comment_at(s, i) {
            lemma_token_end(s, i);
            lemma_past_blanks(s, token_end(s, i));
        }
    }
}

/// A statement that names its module behind `from` ends where it ends behind its specifier.
proof fn lemma_from_statement_end(
    head: Seq<char>,
    blank: Seq<char>,
    quote: char,
    spec: Seq<char>,
    behind: Seq<char>,
)
    requires
        runs_on(head, 0, false, 0) matches Some((open, closed)) && open == 0 && (closed
            ==> !blank.contains('\n')),
        all_white(blank),
        is_quote(quote),
        !spec.contains(quote),
        !spec.contains('\\'),
        !spec.contains('\n'),
    ensures
        statement_end(from_statement(head, blank, quote, spec, behind), 0, false, 0) == head.len() + 4
            + blank.len() + 2 + spec.len() + statement_end(behind, 0, true, 0),
{
    let t = from_statement(head, blank, quote, spec, behind);
    let p = head.len() as int;
    let m = p + 4 + blank.len();
    let e = m + 1 + spec.len();
    lemma_parts(head, blank, quote, spec, behind);
    lemma_runs_on(head, t, 0, false, 0);
    let closed = runs_on(head, 0, false, 0)->Some_0.1;
    reveal_strlit("from");
    assert forall|k: int| p <= k < m implies !is_quote(#[trigger] t[k]) && t[k] != '/' && t[k] != ';'
        && t[k] != '{' && t[k] != '}' && (closed ==> t[k] != '\n') by {
        if k < p + 4 {
            assert(t[k] == t.subrange(p, p + 4)[k - p]);
        } else {
            assert(t[k] == t.subrange(p + 4, m)[k - p - 4]);
            assert(is_white(blank[k - p - 4]));
        }
    }
    lemma_plain_statement(t, closed, p, m);
    lemma_literal_token(t, m, spec);
    lemma_statement_in_end(t, e + 1, 0, true, 0);
}

/// An import without names ends where it ends behind its specifier.
proof fn lemma_bare_statement_end(blank: Seq<char>, quote: char, spec: Seq<char>, behind: Seq<char>)
    requires
        all_white(blank),
        is_quote(quote),
        !spec.contains(quote),
        !spec.contains('\\'),
        !spec.contains('\n'),
    ensures
        statement_end(bare_statement(blank, quote, spec, behind), 0, false, 0) == 6 + blank.len() + 2
            + spec.len() + statement_end(behind, 0, true, 0),
{
    let t = bare_statement(blank, quote, spec, behind);
    let m = 6 + blank.len() as int;
    let e = m + 1 + spec.len();
    lemma_bare_parts(blank, quote, spec, behind);
    lemma_plain_statement(t, false, 0, m);
    lemma_literal_token(t, m, spec);
    lemma_statement_in_end(t, e + 1, 0, true, 0);
}

/// A static import or re-export that names its module behind `from`, at the beginning of a text is
/// found, with its specifier and the type that the clause behind it gives, and then what follows its
/// semicolon or its line. A list of names that it exports is one that `from` follows. So are all of them
/// found, where such statements stand one after another, with white space, comments and other code
/// between them that asks for nothing.
pub proof fn law_imports_are_found(
    head: Seq<char>,
    blank: Seq<char>,
    quote: char,
    spec: Seq<char>,
    clause: Seq<char>,
    rest: Seq<char>,
)
    requires
        begins_request(from_statement(head, blank, quote, spec, clause)),
        head.len() > 0,
        !is_ident(head.last()),
        runs_on(head, 0, false, 0) matches Some((open, closed)) && open == 0 && (closed
            ==> !blank.contains('\n')),
        all_white(blank),
        is_quote(quote),
        spec.len() > 0,
        !spec.contains(quote),
        !spec.contains('\\'),
        !spec.contains('\n'),
        last_from(clause, 0) is None,
        own_list_close(from_statement(head, blank, quote, spec, clause + rest)) is None,
        statement_end(clause + rest, 0, true, 0) == clause.len(),
        rest.len() == 0 || rest[0] == ';' || rest[0] == '\n',
    ensures
        requests(from_statement(head, blank, quote, spec, clause) + rest) == seq![
            (spec, clause_type(clause)),
        ] + (if rest.len() == 0 {
            seq![]
        } else {
            requests(rest.skip(1))
        }),
{
    let s = from_statement(head, blank, quote, spec, clause);
    reveal_strlit("from");
    assert(s + rest =~= from_statement(head, blank, quote, spec, clause + rest));
    lemma_from_statement_end(head, blank, quote, spec, clause + rest);
    law_from_names_the_module(head, blank, quote, spec, clause, begins(s, "import"@));
    law_statements_are_found_in_order(s, rest);
}

/// What begins with `import` exports no list.
pub proof fn lemma_import_is_no_export(s: Seq<char>)
    requires
        begins(s, "import"@),
    ensures
        own_list_close(s) is None,
{
    reveal_strlit("import");
    reveal_strlit("export");
    if begins(s, "export"@) {
        assert(s.subrange(0, 6)[0] == 'i');
        assert(s.subrange(0, 6)[0] == 'e');
    }
}

/// An import without names at the beginning of a text is found, with the type that the clause behind its
/// specifier gives, and then what follows it.
pub proof fn law_bare_imports_are_found(
    blank: Seq<char>,
    quote: char,
    spec: Seq<char>,
    clause: Seq<char>,
    rest: Seq<char>,
)
    requires
        all_white(blank),
        is_quote(quote),
        spec.len() > 0,
        !spec.contains(quote),
        !spec.contains('\\'),
        !spec.contains('\n'),
        ends_import(clause, past_blanks(clause, true, 0)),
        last_from(clause, 0) is None,
        statement_end(clause + rest, 0, true, 0) == clause.len(),
        rest.len() == 0 || rest[0] == ';' || rest[0] == '\n',
    ensures
        requests(bare_statement(blank, quote, spec, clause) + rest) == seq![
            (spec, clause_type(clause)),
        ] + (if rest.len() == 0 {
            seq![]
        } else {
            requests(rest.skip(1))
        }),
{
    let s = bare_statement(blank, quote, spec, clause);
    let m = 6 + blank.len() as int;
    reveal_strlit("import");
    assert(s + rest =~= bare_statement(blank, quote, spec, clause + rest));
    lemma_bare_statement_end(blank, quote, spec, clause + rest);
    lemma_bare_parts(blank, quote, spec, clause);
    assert(s.skip(6)[0] == s[6]);
    assert(begins_request(s));
    law_bare_import_names_the_module(blank, quote, spec, clause);
    assert((s + rest).subrange(0, 6) =~= s.subrange(0, 6));
    lemma_import_is_no_export(s + rest);
    law_statements_are_found_in_order(s, rest);
}

/// An attributes clause that gives a type first: white space may stand between its parts.
pub open spec fn type_clause(
    keyword: Seq<char>,
    blanks: (Seq<char>, Seq<char>, Seq<char>, Seq<char>, Seq<char>),
    quote: char,
    ty: Seq<char>,
    rest: Seq<char>,
) -> Seq<char> {
    blanks.0 + keyword + blanks.1 + seq!['{'] + blanks.2 + "type"@ + blanks.3 + seq![':'] + blanks.4
        + seq![quote] + ty + seq![quote] + rest
}

pub proof fn lemma_white_gap(s: Seq<char>, i: int, j: int)
    requires
        0 <= i <= j < s.len(),
        all_white(s.subrange(i, j)),
        !is_white(s[j]),
        s[j] != '/',
    ensures
        gap_end(s, i) == j,
{
    assert forall|k: int| i <= k < j implies is_white(#[trigger] s[k]) by {
        assert(s.subrange(i, j)[k - i] == s[k]);
    }
    lemma_gap_is(s, i, j);
}

proof fn lemma_plain_type(s: Seq<char>, i: int, j: int)
    requires
        0 <= i <= j <= s.len(),
        forall|k: int| i <= k < j ==> !is_quote(#[trigger] s[k]) && s[k] != '/' && s[k] != 't',
    ensures
        first_type_value(s, i) == first_type_value(s, j),
    decreases j - i,
{
    if i < j {
        reveal_strlit("type");
        if occurs_at(s, "type"@, i) {
            assert(s.subrange(i, i + 4)[0] == s[i]);
        }
        lemma_plain_type(s, i + 1, j);
    }
}

/// The value of the attribute `type` is found behind its name and a colon.
proof fn lemma_type_value(s: Seq<char>, i: int, c: int, v: int)
    requires
        0 < i,
        i + 4 <= c < v < s.len(),
        !is_ident(s[i - 1]),
        s.subrange(i, i + 4) == "type"@,
        all_white(s.subrange(i + 4, c)),
        s[c] == ':',
        all_white(s.subrange(c + 1, v)),
        is_quote(s[v]),
    ensures
        first_type_value(s, i) == Some(v),
{
    reveal_strlit("type");
    assert(s[i] == s.subrange(i, i + 4)[0]);
    if i + 4 < c {
        assert(s[i + 4] == s.subrange(i + 4, c)[0]);
    }
    lemma_white_gap(s, i + 4, c);
    lemma_white_gap(s, c + 1, v);
}

/// Where the parts of such a clause stand.
proof fn lemma_clause_parts(
    keyword: Seq<char>,
    blanks: (Seq<char>, Seq<char>, Seq<char>, Seq<char>, Seq<char>),
    quote: char,
    ty: Seq<char>,
    rest: Seq<char>,
)
    ensures
        ({
            let s = type_clause(keyword, blanks, quote, ty, rest);
            let w = blanks.0.len() as int;
            let k = w + keyword.len();
            let o = k + blanks.1.len();
            let n = o + 1 + blanks.2.len();
            let c = n + 4 + blanks.3.len();
            let v = c + 1 + blanks.4.len();
            &&& s.len() == v + 2 + ty.len() + rest.len()
            &&& s.subrange(0, w) == blanks.0
            &&& s.subrange(w, k) == keyword
            &&& s.subrange(k, o) == blanks.1
            &&& s[o] == '{'
            &&& s.subrange(o + 1, n) == blanks.2
            &&& s.subrange(n, n + 4) == "type"@
            &&& s.subrange(n + 4, c) == blanks.3
            &&& s[c] == ':'
            &&& s.subrange(c + 1, v) == blanks.4
            &&& s[v] == quote
            &&& s.subrange(v + 1, v + 1 + ty.len()) == ty
            &&& s[v + 1 + ty.len()] == quote
        }),
{
    reveal_strlit("type");
    let s = type_clause(keyword, blanks, quote, ty, rest);
    let w = blanks.0.len() as int;
    let k = w + keyword.len();
    let o = k + blanks.1.len();
    let n = o + 1 + blanks.2.len();
    let c = n + 4 + blanks.3.len();
    let v = c + 1 + blanks.4.len();
    assert(s.subrange(0, w) =~= blanks.0);
    assert(s.subrange(w, k) =~= keyword);
    assert(s.subrange(k, o) =~= blanks.1);
    assert(s.subrange(o + 1, n) =~= blanks.2);
    assert(s.subrange(n, n + 4) =~= "type"@);
    assert(s.subrange(n + 4, c) =~= blanks.3);
    assert(s.subrange(c + 1, v) =~= blanks.4);
    assert(s.subrange(v + 1, v + 1 + ty.len()) =~= ty);
}

/// The keyword of a clause is found behind white space.
proof fn lemma_clause_start(s: Seq<char>, keyword: Seq<char>, w: int)
    requires
        keyword == "with"@ || keyword == "assert"@,
        0 <= w,
        w + keyword.len() < s.len(),
        all_white(s.subrange(0, w)),
        s.subrange(w, w + keyword.len()) == keyword,
        !is_ident(s[w + keyword.len()]),
    ensures
        clause_start(s) == Some(w + keyword.len()),
{
    reveal_strlit("with");
    reveal_strlit("assert");
    assert(s[w] == s.subrange(w, w + keyword.len())[0]);
    lemma_white_gap(s, 0, w);
    assert(occurs_at(s, keyword, w));
    if keyword == "assert"@ && occurs_at(s, "with"@, w) {
        assert(s.subrange(w, w + 4)[0] == 'w');
    }
}

/// A clause that begins with `with` or `assert` and gives a type first gives that type.
pub proof fn law_clause_gives_the_type(
    keyword: Seq<char>,
    blanks: (Seq<char>, Seq<char>, Seq<char>, Seq<char>, Seq<char>),
    quote: char,
    ty: Seq<char>,
    rest: Seq<char>,
)
    requires
        keyword == "with"@ || keyword == "assert"@,
        all_white(blanks.0) && all_white(blanks.1) && all_white(blanks.2),
        all_white(blanks.3) && all_white(blanks.4),
        is_quote(quote),
        !ty.contains(quote),
    ensures
        clause_type(type_clause(keyword, blanks, quote, ty, rest)) == Some(ty),
{
    reveal_strlit("with");
    reveal_strlit("assert");
    reveal_strlit("type");
    let s = type_clause(keyword, blanks, quote, ty, rest);
    let w = blanks.0.len() as int;
    let k = w + keyword.len();
    let o = k + blanks.1.len();
    let n = o + 1 + blanks.2.len();
    let c = n + 4 + blanks.3.len();
    let v = c + 1 + blanks.4.len();
    lemma_clause_parts(keyword, blanks, quote, ty, rest);
    assert forall|j: int| k <= j < n implies !is_quote(#[trigger] s[j]) && s[j] != '/' && s[j] != 't'
        && !is_ident(s[j]) by {
        if j < o {
            assert(s[j] == s.subrange(k, o)[j - k]);
        } else if j > o {
            assert(s[j] == s.subrange(o + 1, n)[j - o - 1]);
        }
    }
    assert(!is_ident(s[k]));
    lemma_clause_start(s, keyword, w);
    lemma_plain_type(s, k, n);
    assert(!is_ident(s[n - 1]));
    lemma_type_value(s, n, c, v);
    lemma_literal(s, v, v, ty);
}

} // verus!

//! The modules that a module's source text imports.

use crate::qjs::lexer::{
    are_at, bytes_at, comment_stop, is_white_before, is_white_byte, lemma_comment_stop,
    lemma_line_stop, lemma_string_stop, lemma_template_stop, line_stop, skip_comment_bytes,
    skip_line_bytes, skip_string, skip_template, string_stop, template_stop, white_before,
    white_byte, BACKTICK, CLOSE_BRACE, DOUBLE_QUOTE, OPEN_BRACE, SEMICOLON, SINGLE_QUOTE, SLASH,
    STAR,
};
use crate::qjs::request::{
    comment_at, find_request, from_at, gap_end, is_comment, is_from_at, lemma_token_end,
    request_view, requested, skip_gap, skip_token, token_end,
};
use crate::specifier::is_quote;
use crate::text::{begins, chars_of, is_white, span, starts_with, white};
use crate::utf8::{byte_offset, lemma_boundary, lemma_bytes_before, offset_of, str_slice};
use vstd::prelude::*;
use vstd::utf8::{decode_utf8, encode_utf8, encode_utf8_valid_utf8};

verus! {

/// The ASCII word `w` stands at `i`.
pub open spec fn word_at(b: Seq<u8>, w: Seq<char>, i: int) -> bool {
    &&& 0 <= i
    &&& i + w.len() <= b.len()
    &&& forall|k: int| 0 <= k < w.len() ==> b[i + k] as u32 == (#[trigger] w[k]) as u32
}

/// Whether the ASCII word `w` stands at `i`.
pub fn is_word_at(b: &[u8], w: &str, i: usize) -> (r: bool)
    ensures
        r == word_at(b@, w@, i as int),
{
    let c = chars_of(w);
    if i > b.len() || c.len() > b.len() - i {
        return false;
    }
    let mut k: usize = 0;
    while k < c.len()
        invariant
            c@ == w@,
            k <= c.len(),
            i + c.len() <= b.len(),
            forall|j: int| 0 <= j < k ==> b@[i + j] as u32 == (#[trigger] w@[j]) as u32,
        decreases c.len() - k,
    {
        if b[i + k] as u32 != c[k] as u32 {
            assert(w@[k as int] == c@[k as int]);
            return false;
        }
        k += 1;
    }
    true
}

/// A statement can begin at `i`: at the beginning of the text, behind white space, `;`, a brace or a
/// comment.
pub open spec fn statement_may_begin(b: Seq<u8>, i: int) -> bool {
    i == 0 || ({
        let c = b[i - 1];
        white_before(b, i) || c == SEMICOLON || c == OPEN_BRACE || c == CLOSE_BRACE || bytes_at(
            b,
            i - 2,
            STAR,
            SLASH,
        )
    })
}

/// The text of the bytes from `i` up to `j`.
pub open spec fn text_between(b: Seq<u8>, i: int, j: int) -> Seq<char> {
    decode_utf8(b.subrange(i, j))
}

/// The text of the bytes from `i` on.
pub open spec fn text_from(b: Seq<u8>, i: int) -> Seq<char> {
    text_between(b, i, b.len() as int)
}

/// The text behind the keyword `import` can go on with an import: with white space or a comment, a name
/// list, a specifier, or the parenthesis of a dynamic import.
pub open spec fn continues_import(s: Seq<char>) -> bool {
    s.len() > 0 && (is_white(s[0]) || comment_at(s, 0) || s[0] == '{' || s[0] == '*' || is_quote(s[0])
        || s[0] == '(')
}

/// The text behind the keyword `export` can go on with a re-export: white space and comments aside, with `*`
/// or `{`. Exported declarations name no module.
pub open spec fn continues_export(s: Seq<char>) -> bool {
    let g = gap_end(s, 0);
    g < s.len() && (s[g] == '*' || s[g] == '{')
}

/// An import begins at `i`.
pub open spec fn import_at(b: Seq<u8>, i: int) -> bool {
    word_at(b, "import"@, i) && continues_import(text_from(b, i + 6))
}

/// A re-export can begin at `i`.
pub open spec fn export_at(b: Seq<u8>, i: int) -> bool {
    word_at(b, "export"@, i) && continues_export(text_from(b, i + 6))
}

/// The text is a dynamic import: a parenthesis follows the keyword, white space and comments aside.
pub open spec fn dynamic_import(s: Seq<char>) -> bool {
    let g = gap_end(s, 6);
    begins(s, "import"@) && g < s.len() && s[g] == '('
}

/// How many braces are open behind the character `c`.
pub open spec fn depth_behind(depth: int, c: char) -> int {
    if c == '{' {
        depth + 1
    } else if c == '}' {
        depth - 1
    } else {
        depth
    }
}

/// Where the statement that `s` begins with ends, read from `j` on with so many braces open: outside
/// braces, at a semicolon or, once a literal has been `closed` there, at the end of a line; or else at the
/// end of the text. Literals and comments are passed over whole.
pub open spec fn statement_end(s: Seq<char>, depth: int, closed: bool, j: int) -> int
    decreases s.len() - j,
{
    if j < 0 || j >= s.len() {
        s.len() as int
    } else if depth <= 0 && (s[j] == ';' || (s[j] == '\n' && closed)) {
        j
    } else {
        proof {
            lemma_token_end(s, j);
        }
        statement_end(
            s,
            depth_behind(depth, s[j]),
            closed || (depth <= 0 && is_quote(s[j]) && token_end(s, j) > j + 1),
            token_end(s, j),
        )
    }
}

/// The position of the brace that closes a list of names, read from `j` on.
pub open spec fn list_close(s: Seq<char>, j: int) -> Option<int>
    decreases s.len() - j,
{
    if j < 0 || j >= s.len() {
        None
    } else if s[j] == '}' {
        Some(j)
    } else {
        proof {
            lemma_token_end(s, j);
        }
        list_close(s, token_end(s, j))
    }
}

/// The position of the brace that closes the list of names that `s` exports, if it is no re-export: no
/// `from` follows, white space and comments aside.
pub open spec fn own_list_close(s: Seq<char>) -> Option<int> {
    let g = gap_end(s, 6);
    if begins(s, "export"@) && g < s.len() && s[g] == '{' {
        match list_close(s, g + 1) {
            Some(c) => if from_at(s, gap_end(s, c + 1)) {
                None
            } else {
                Some(c)
            },
            None => None,
        }
    } else {
        None
    }
}

/// What the statement `s` asks for.
pub open spec fn asked(s: Seq<char>, is_import: bool) -> Seq<(Seq<char>, Option<Seq<char>>)> {
    match requested(s, is_import) {
        Some(r) => seq![r],
        None => seq![],
    }
}

/// What the text asks for from position `i` on. Comments and literals are passed over whole; so is a list of
/// the module's own names that it exports. Of a dynamic import only the keyword is.
pub open spec fn requests_from(b: Seq<u8>, i: int) -> Seq<(Seq<char>, Option<Seq<char>>)>
    decreases
            if i <= b.len() {
                b.len() + 1 - i
            } else {
                0
            },
{
    if i < 0 || i >= b.len() {
        seq![]
    } else if is_white_byte(b[i]) {
        requests_from(b, i + 1)
    } else if bytes_at(b, i, SLASH, SLASH) {
        proof {
            lemma_line_stop(b, i + 2);
        }
        requests_from(b, line_stop(b, i + 2))
    } else if bytes_at(b, i, SLASH, STAR) {
        proof {
            lemma_comment_stop(b, i + 2);
        }
        requests_from(b, comment_stop(b, i + 2))
    } else if b[i] == DOUBLE_QUOTE || b[i] == SINGLE_QUOTE {
        proof {
            lemma_string_stop(b, b[i], i + 1);
        }
        requests_from(b, string_stop(b, b[i], i + 1))
    } else if b[i] == BACKTICK {
        proof {
            lemma_template_stop(b, seq![], true, i + 1);
        }
        requests_from(b, template_stop(b, seq![], true, i + 1))
    } else if statement_may_begin(b, i) && (import_at(b, i) || export_at(b, i)) {
        let s = text_from(b, i);
        if dynamic_import(s) {
            requests_from(b, i + 6)
        } else {
            match own_list_close(s) {
                Some(c) => requests_from(b, i + byte_offset(s, c) + 1),
                None => {
                    let n = statement_end(s, 0, false, 0);
                    asked(s.take(n), import_at(b, i)) + requests_from(b, i + byte_offset(s, n) + 1)
                },
            }
        }
    } else {
        requests_from(b, i + 1)
    }
}

/// What the module `src` asks for: the specifier of every static import and re-export, in order, each
/// with its `type` attribute.
pub open spec fn requests(src: Seq<char>) -> Seq<(Seq<char>, Option<Seq<char>>)> {
    requests_from(encode_utf8(src), 0)
}

/// The views of a list of requests.
pub open spec fn request_views(v: Seq<(String, Option<String>)>) -> Seq<
    (Seq<char>, Option<Seq<char>>),
> {
    Seq::new(v.len(), |i: int| request_view(v[i]))
}

/// Whether the text `t` can go on with an import.
fn goes_on_with_import(t: &[char]) -> (r: bool)
    ensures
        r == continues_import(t@),
{
    t.len() > 0 && (white(t[0]) || is_comment(t, 0) || t[0] == '{' || t[0] == '*' || t[0] == '"'
        || t[0] == '\'' || t[0] == '(')
}

/// Whether the text `t` can go on with a re-export.
fn goes_on_with_export(t: &[char]) -> (r: bool)
    ensures
        r == continues_export(t@),
{
    let g = skip_gap(t, 0);
    g < t.len() && (t[g] == '*' || t[g] == '{')
}

/// Whether the text `t` is a dynamic import.
fn is_dynamic_import(t: &[char]) -> (r: bool)
    ensures
        r == dynamic_import(t@),
{
    if !starts_with(t, "import") {
        return false;
    }
    proof {
        reveal_strlit("import");
    }
    let g = skip_gap(t, 6);
    g < t.len() && t[g] == '('
}

/// Where the statement that `s` begins with ends.
fn find_statement_end(s: &[char]) -> (r: usize)
    ensures
        r == statement_end(s@, 0, false, 0),
        r <= s@.len(),
{
    let n = s.len();
    let mut j: usize = 0;
    let mut depth: i128 = 0;
    let mut closed = false;
    while j < n
        invariant
            n == s@.len(),
            j <= n,
            -(j as int) <= depth <= j,
            statement_end(s@, 0, false, 0) == statement_end(s@, depth as int, closed, j as int),
        decreases n - j,
    {
        let c = s[j];
        if depth <= 0 && (c == ';' || (c == '\n' && closed)) {
            return j;
        }
        let e = skip_token(s, j);
        closed = closed || (depth <= 0 && (c == '"' || c == '\'') && e > j + 1);
        if c == '{' {
            depth += 1;
        } else if c == '}' {
            depth -= 1;
        }
        j = e;
    }
    n
}

/// The text of `src` behind its first `i` bytes.
fn text_behind<'a>(src: &'a str, b: &[u8], i: usize) -> (r: &'a str)
    requires
        b@ == encode_utf8(src@),
        i <= b@.len(),
        i == b@.len() || b@[i as int] < 0x80 || (i > 0 && b@[i - 1] < 0x80),
    ensures
        r@ == text_from(b@, i as int),
        encode_utf8(r@) == b@.skip(i as int),
{
    proof {
        encode_utf8_valid_utf8(src@);
        lemma_boundary(b@, i as int);
        lemma_boundary(b@, b@.len() as int);
        assert(b@.subrange(i as int, b@.len() as int) =~= b@.skip(i as int));
    }
    str_slice(src, i, b.len())
}

/// The position of the brace that closes the list of names that `s` exports, if it is no re-export.
fn find_own_list_close(s: &[char]) -> (r: Option<usize>)
    ensures
        match r {
            Some(c) => own_list_close(s@) == Some(c as int) && c < s@.len(),
            None => own_list_close(s@) is None,
        },
{
    if !starts_with(s, "export") {
        return None;
    }
    proof {
        reveal_strlit("export");
    }
    let n = s.len();
    let g = skip_gap(s, 6);
    if g >= n || s[g] != '{' {
        return None;
    }
    let mut j: usize = g + 1;
    while j < n && s[j] != '}'
        invariant
            n == s@.len(),
            g < j <= n,
            list_close(s@, g + 1) == list_close(s@, j as int),
        decreases n - j,
    {
        j = skip_token(s, j);
    }
    if j >= n {
        return None;
    }
    let f = skip_gap(s, j + 1);
    if is_from_at(s, f) {
        None
    } else {
        Some(j)
    }
}

/// No comment, literal or white space begins at `i`, and a statement can.
spec fn is_code_at(b: Seq<u8>, i: int) -> bool {
    &&& !is_white_byte(b[i])
    &&& !bytes_at(b, i, SLASH, SLASH)
    &&& !bytes_at(b, i, SLASH, STAR)
    &&& b[i] != DOUBLE_QUOTE && b[i] != SINGLE_QUOTE && b[i] != BACKTICK
    &&& statement_may_begin(b, i)
}

/// What asks for something or is passed over at `i`: the position to go on from, and what it asks for.
#[verifier::rlimit(30)]
fn statement_at(src: &str, b: &[u8], i: usize) -> (r: Option<
    (usize, Option<(String, Option<String>)>),
>)
    requires
        b@ == encode_utf8(src@),
        i < b@.len(),
        is_code_at(b@, i as int),
    ensures
        match r {
            None => !import_at(b@, i as int) && !export_at(b@, i as int),
            Some((next, q)) => {
                &&& i < next <= b@.len()
                &&& requests_from(b@, i as int) == (match q {
                    Some(q) => seq![request_view(q)],
                    None => seq![],
                }) + requests_from(b@, next as int)
            },
        },
{
    let size = b.len();
    let is_import = is_word_at(b, "import", i);
    if !is_import && !is_word_at(b, "export", i) {
        return None;
    }
    proof {
        reveal_strlit("import");
        reveal_strlit("export");
        assert("import"@[0] == 'i' && "import"@[5] == 't');
        assert("export"@[0] == 'e' && "export"@[5] == 't');
        assert(b@[i + 0] < 0x80 && b@[i + 5] < 0x80);
    }
    assert(i + 6 <= size);
    let rest = chars_of(text_behind(src, b, i + 6));
    let goes_on = if is_import {
        goes_on_with_import(&rest)
    } else {
        goes_on_with_export(&rest)
    };
    if !goes_on {
        return None;
    }
    let text = text_behind(src, b, i);
    let s = chars_of(text);
    let ghost none = Seq::<(Seq<char>, Option<Seq<char>>)>::empty();
    if is_dynamic_import(&s) {
        assert(none + requests_from(b@, i + 6) =~= requests_from(b@, i + 6));
        return Some((i + 6, None));
    }
    let own = find_own_list_close(&s);
    let (n, q): (usize, Option<(String, Option<String>)>) = match own {
        Some(c) => (c, None),
        None => {
            let n = find_statement_end(&s);
            let statement = span(&s, 0, n);
            assert(statement@ =~= text@.take(n as int));
            (n, find_request(statement, is_import))
        },
    };
    proof {
        lemma_bytes_before(text@, n as int);
    }
    let e = i + offset_of(text, &s, n);
    assert(e <= size);
    assert(none + requests_from(b@, e + 1) =~= requests_from(b@, e + 1));
    let next: usize = if e < size {
        e + 1
    } else {
        assert(requests_from(b@, e + 1) =~= requests_from(b@, size as int));
        size
    };
    Some((next, q))
}

/// The static imports and re-exports of a module's source text, over several lines or not: the
/// specifier of each, in order, with its `type` attribute where it has one.
#[verifier::rlimit(40)]
pub fn parse_import_specifiers(src: &str) -> (r: Vec<(String, Option<String>)>)
    ensures
        request_views(r@) == requests(src@),
{
    let b = src.as_bytes();
    let n = b.len();
    let mut out: Vec<(String, Option<String>)> = Vec::new();
    let mut i: usize = 0;
    assert(request_views(out@) + requests_from(b@, 0) =~= requests_from(b@, 0));
    while i < n
        invariant
            n == b@.len(),
            b@ == encode_utf8(src@),
            i <= n,
            request_views(out@) + requests_from(b@, i as int) =~= requests(src@),
        decreases n - i,
    {
        let c = b[i];
        if white_byte(c) {
            i += 1;
        } else if are_at(b, i, SLASH, SLASH) {
            i = skip_line_bytes(b, i + 2);
        } else if are_at(b, i, SLASH, STAR) {
            i = skip_comment_bytes(b, i + 2);
        } else if c == DOUBLE_QUOTE || c == SINGLE_QUOTE {
            i = skip_string(b, i, c);
        } else if c == BACKTICK {
            i = skip_template(b, i);
        } else {
            let may_begin = i == 0 || ({
                let p = b[i - 1];
                is_white_before(b, i) || p == SEMICOLON || p == OPEN_BRACE || p == CLOSE_BRACE || (i
                    >= 2 && are_at(b, i - 2, STAR, SLASH))
            });
            let statement = if may_begin {
                statement_at(src, b, i)
            } else {
                None
            };
            match statement {
                Some((next, q)) => {
                    let ghost done = request_views(out@);
                    match q {
                        Some(q) => {
                            out.push(q);
                            assert(request_views(out@) =~= done + seq![request_view(q)]);
                        },
                        None => {},
                    }
                    i = next;
                },
                None => {
                    i += 1;
                },
            }
        }
    }
    out
}

proof fn lemma_requests_named(b: Seq<u8>, i: int, k: int)
    requires
        0 <= k < requests_from(b, i).len(),
    ensures
        requests_from(b, i)[k].0.len() > 0,
    decreases
            if i <= b.len() {
                b.len() + 1 - i
            } else {
                0
            },
{
    if 0 <= i < b.len() {
        if is_white_byte(b[i]) {
            lemma_requests_named(b, i + 1, k);
        } else if bytes_at(b, i, SLASH, SLASH) {
            lemma_line_stop(b, i + 2);
            lemma_requests_named(b, line_stop(b, i + 2), k);
        } else if bytes_at(b, i, SLASH, STAR) {
            lemma_comment_stop(b, i + 2);
            lemma_requests_named(b, comment_stop(b, i + 2), k);
        } else if b[i] == DOUBLE_QUOTE || b[i] == SINGLE_QUOTE {
            lemma_string_stop(b, b[i], i + 1);
            lemma_requests_named(b, string_stop(b, b[i], i + 1), k);
        } else if b[i] == BACKTICK {
            lemma_template_stop(b, seq![], true, i + 1);
            lemma_requests_named(b, template_stop(b, seq![], true, i + 1), k);
        } else if statement_may_begin(b, i) && (import_at(b, i) || export_at(b, i)) {
            let s = text_from(b, i);
            if dynamic_import(s) {
                lemma_requests_named(b, i + 6, k);
            } else {
                match own_list_close(s) {
                    Some(c) => {
                        lemma_requests_named(b, i + byte_offset(s, c) + 1, k);
                    },
                    None => {
                        let n = statement_end(s, 0, false, 0);
                        let own = asked(s.take(n), import_at(b, i)).len();
                        if k >= own {
                            lemma_requests_named(b, i + byte_offset(s, n) + 1, k - own);
                        }
                    },
                }
            }
        } else {
            lemma_requests_named(b, i + 1, k);
        }
    }
}

/// No specifier that a module asks for is empty.
pub proof fn law_requests_are_named(src: Seq<char>, k: int)
    requires
        0 <= k < requests(src).len(),
    ensures
        requests(src)[k].0.len() > 0,
{
    lemma_requests_named(encode_utf8(src), 0, k);
}

proof fn lemma_no_keyword(b: Seq<u8>, i: int)
    requires
        forall|j: int| !word_at(b, "import"@, j) && !word_at(b, "export"@, j),
    ensures
        requests_from(b, i) == Seq::<(Seq<char>, Option<Seq<char>>)>::empty(),
    decreases
            if i <= b.len() {
                b.len() + 1 - i
            } else {
                0
            },
{
    if 0 <= i < b.len() {
        assert(!word_at(b, "import"@, i) && !word_at(b, "export"@, i));
        if is_white_byte(b[i]) {
            lemma_no_keyword(b, i + 1);
        } else if bytes_at(b, i, SLASH, SLASH) {
            lemma_line_stop(b, i + 2);
            lemma_no_keyword(b, line_stop(b, i + 2));
        } else if bytes_at(b, i, SLASH, STAR) {
            lemma_comment_stop(b, i + 2);
            lemma_no_keyword(b, comment_stop(b, i + 2));
        } else if b[i] == DOUBLE_QUOTE || b[i] == SINGLE_QUOTE {
            lemma_string_stop(b, b[i], i + 1);
            lemma_no_keyword(b, string_stop(b, b[i], i + 1));
        } else if b[i] == BACKTICK {
            lemma_template_stop(b, seq![], true, i + 1);
            lemma_no_keyword(b, template_stop(b, seq![], true, i + 1));
        } else {
            lemma_no_keyword(b, i + 1);
        }
    }
}

/// Text that holds neither `import` nor `export` asks for nothing.
pub proof fn law_no_keyword_no_requests(src: Seq<char>)
    requires
        forall|j: int|
            !word_at(encode_utf8(src), "import"@, j) && !word_at(encode_utf8(src), "export"@, j),
    ensures
        requests(src).len() == 0,
{
    lemma_no_keyword(encode_utf8(src), 0);
}

} // verus!

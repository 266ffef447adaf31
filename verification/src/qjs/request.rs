//! What a single import or export statement asks for.

use crate::scan::{
    block_end, ident, is_ident, is_pair, lemma_block_end, lemma_line_end, line_end, pair_at,
    skip_block, skip_line,
};
use crate::specifier::{find_literal, first_literal, is_quote, literal_from, literal_quotes};
use crate::text::{
    begins, chars_of, is_at, is_white, occurs_at, span, starts_with, string_of,
    tail, trim_start, trimmed_start, white,
};
use crate::utf8::{byte_offset, offset_of};
use vstd::prelude::*;

verus! {

/// `s` begins with a double or single quote.
pub open spec fn opens_quote(s: Seq<char>) -> bool {
    s.len() > 0 && is_quote(s[0])
}

/// Whether `s` begins with a double or single quote.
fn starts_with_quote(s: &[char]) -> (r: bool)
    ensures
        r == opens_quote(s@),
{
    s.len() > 0 && (s[0] == '"' || s[0] == '\'')
}

/// The position of the quote `q` that closes a literal whose text goes on at `j`, and that no backslash
/// escapes; none where the line or the text ends first.
pub open spec fn closing_quote(s: Seq<char>, q: char, j: int) -> Option<int>
    decreases s.len() + 1 - j,
{
    if j < 0 || j >= s.len() {
        None
    } else if s[j] == '\\' {
        closing_quote(s, q, j + 2)
    } else if s[j] == q {
        Some(j)
    } else if s[j] == '\n' {
        None
    } else {
        closing_quote(s, q, j + 1)
    }
}

/// A closing quote stands at or behind the position it was sought from.
pub proof fn lemma_closing_quote(s: Seq<char>, q: char, j: int)
    requires
        0 <= j,
    ensures
        closing_quote(s, q, j) matches Some(e) ==> j <= e < s.len() && s[e] == q,
    decreases s.len() + 1 - j,
{
    if j < s.len() {
        if s[j] == '\\' {
            lemma_closing_quote(s, q, j + 2);
        } else if s[j] != q && s[j] != '\n' {
            lemma_closing_quote(s, q, j + 1);
        }
    }
}

/// The position of the quote that closes a literal.
fn find_closing_quote(s: &[char], q: char, from: usize) -> (r: Option<usize>)
    requires
        from <= s@.len(),
    ensures
        match r {
            Some(e) => closing_quote(s@, q, from as int) == Some(e as int) && from <= e < s@.len(),
            None => closing_quote(s@, q, from as int) is None,
        },
{
    let n = s.len();
    let mut j: usize = from;
    while j < n
        invariant
            n == s@.len(),
            from <= j <= n,
            closing_quote(s@, q, from as int) == closing_quote(s@, q, j as int),
        decreases n - j,
    {
        if s[j] == '\\' {
            if n - j < 2 {
                assert(closing_quote(s@, q, j + 2) is None);
                return None;
            }
            j += 2;
        } else if s[j] == q {
            return Some(j);
        } else if s[j] == '\n' {
            return None;
        } else {
            j += 1;
        }
    }
    None
}

/// The position behind what begins at `i`: a comment, a literal that is closed on its line, or one
/// character.
pub open spec fn token_end(s: Seq<char>, i: int) -> int {
    if pair_at(s, i, '/', '/') {
        line_end(s, i + 2)
    } else if pair_at(s, i, '/', '*') {
        block_end(s, i + 2)
    } else if is_quote(s[i]) {
        match closing_quote(s, s[i], i + 1) {
            Some(e) => e + 1,
            None => i + 1,
        }
    } else {
        i + 1
    }
}

/// A token ends behind its beginning, within the text.
pub proof fn lemma_token_end(s: Seq<char>, i: int)
    requires
        0 <= i < s.len(),
    ensures
        i < token_end(s, i) <= s.len(),
{
    lemma_closing_quote(s, s[i], i + 1);
    if pair_at(s, i, '/', '/') {
        lemma_line_end(s, i + 2);
    } else if pair_at(s, i, '/', '*') {
        lemma_block_end(s, i + 2);
    }
}

/// The position behind what begins at `i`.
pub fn skip_token(s: &[char], i: usize) -> (r: usize)
    requires
        i < s@.len(),
    ensures
        r == token_end(s@, i as int),
        i < r <= s@.len(),
{
    let n = s.len();
    assert(i < n);
    proof {
        lemma_token_end(s@, i as int);
    }
    if is_pair(s, i, '/', '/') {
        skip_line(s, i + 2)
    } else if is_pair(s, i, '/', '*') {
        skip_block(s, i + 2)
    } else if s[i] == '"' || s[i] == '\'' {
        match find_closing_quote(s, s[i], i + 1) {
            Some(e) => e + 1,
            None => i + 1,
        }
    } else {
        i + 1
    }
}

/// A comment begins at `i`.
pub open spec fn comment_at(s: Seq<char>, i: int) -> bool {
    pair_at(s, i, '/', '/') || pair_at(s, i, '/', '*')
}

/// Whether a comment begins at `i`.
pub fn is_comment(s: &[char], i: usize) -> (r: bool)
    ensures
        r == comment_at(s@, i as int),
{
    is_pair(s, i, '/', '/') || is_pair(s, i, '/', '*')
}

/// The position behind the white space and the comments that stand from `i` on.
pub open spec fn gap_end(s: Seq<char>, i: int) -> int
    decreases s.len() - i,
{
    if i < 0 || i >= s.len() {
        s.len() as int
    } else if is_white(s[i]) || comment_at(s, i) {
        proof {
            lemma_token_end(s, i);
        }
        gap_end(s, token_end(s, i))
    } else {
        i
    }
}

/// The position behind the white space and the comments that stand from `from` on.
pub fn skip_gap(s: &[char], from: usize) -> (r: usize)
    requires
        from <= s@.len(),
    ensures
        r == gap_end(s@, from as int),
        from <= r <= s@.len(),
{
    let mut i: usize = from;
    while i < s.len() && (white(s[i]) || is_comment(s, i))
        invariant
            from <= i <= s.len(),
            gap_end(s@, from as int) == gap_end(s@, i as int),
        decreases s.len() - i,
    {
        i = skip_token(s, i);
    }
    i
}

/// The keyword `from` stands at `i` and introduces a specifier: it is a word of its own, and a quote
/// follows it, white space aside.
pub open spec fn from_at(s: Seq<char>, i: int) -> bool {
    &&& occurs_at(s, "from"@, i)
    &&& i == 0 || !is_ident(s[i - 1])
    &&& i + 4 == s.len() || !is_ident(s[i + 4])
    &&& opens_quote(trimmed_start(s.skip(i + 4)))
}

/// The last position from `i` on where such a `from` stands in the code. Literals and comments are passed
/// over whole: what they hold is no keyword.
pub open spec fn last_from(s: Seq<char>, i: int) -> Option<int>
    decreases s.len() - i,
{
    if i < 0 || i >= s.len() {
        None
    } else {
        proof {
            lemma_token_end(s, i);
        }
        match last_from(s, token_end(s, i)) {
            Some(k) => Some(k),
            None => if from_at(s, i) {
                Some(i)
            } else {
                None
            },
        }
    }
}

/// The position behind the `from` that introduces the specifier of the statement `s`: the last one in its
/// code that a quote follows.
pub open spec fn specifier_start(s: Seq<char>) -> Option<int> {
    match last_from(s, 0) {
        Some(i) => Some(i + 4),
        None => None,
    }
}

/// Whether the keyword `from` stands at `i` and introduces a specifier.
pub fn is_from_at(s: &[char], i: usize) -> (r: bool)
    ensures
        r == from_at(s@, i as int),
        r ==> i + 4 <= s@.len(),
{
    let word = chars_of("from");
    proof {
        reveal_strlit("from");
    }
    if !is_at(s, &word, i) {
        return false;
    }
    assert(i + 4 <= s.len());
    (i == 0 || !ident(s[i - 1])) && (i + 4 == s.len() || !ident(s[i + 4])) && starts_with_quote(
        trim_start(tail(s, i + 4)),
    )
}

/// The position behind the `from` that introduces the specifier of the statement `s`.
pub fn find_specifier_start(s: &[char]) -> (r: Option<usize>)
    ensures
        match r {
            Some(k) => specifier_start(s@) == Some(k as int) && k <= s@.len(),
            None => specifier_start(s@) is None,
        },
{
    let mut found: Option<usize> = None;
    let mut i: usize = 0;
    while i < s.len()
        invariant
            i <= s.len(),
            found matches Some(k) ==> k + 4 <= s@.len(),
            last_from(s@, 0) == match last_from(s@, i as int) {
                Some(k) => Some(k),
                None => match found {
                    Some(k) => Some(k as int),
                    None => None,
                },
            },
        decreases s.len() - i,
    {
        if is_from_at(s, i) {
            found = Some(i);
        }
        i = skip_token(s, i);
    }
    match found {
        Some(k) => Some(k + 4),
        None => None,
    }
}

/// The number of bytes up to the end of the keyword `from` that introduces the module specifier: a word
/// of its own that a quote follows, white space aside, and the last such. Neither the `from` in
/// `import { from } from "x"` that names a binding nor one in a literal is.
pub fn find_from_specifier_start(stmt: &str) -> (r: Option<usize>)
    ensures
        match r {
            Some(n) => specifier_start(stmt@) matches Some(k) && n == byte_offset(stmt@, k),
            None => specifier_start(stmt@) is None,
        },
{
    let s = chars_of(stmt);
    match find_specifier_start(&s) {
        Some(k) => Some(offset_of(stmt, &s, k)),
        None => None,
    }
}

/// Where the quotes of the module specifier that the statement `s` names stand: those of the first string
/// literal behind its `from`, or in the whole statement where it has none.
pub open spec fn specifier_quotes(s: Seq<char>) -> Option<(int, int)> {
    match specifier_start(s) {
        Some(k) => literal_quotes(s, k),
        None => literal_quotes(s, 0),
    }
}

/// The module specifier that the statement `s` names.
pub open spec fn specifier(s: Seq<char>) -> Option<Seq<char>> {
    match specifier_quotes(s) {
        Some((o, c)) => Some(s.subrange(o + 1, c)),
        None => None,
    }
}

/// Where the quotes of the module specifier that the statement `s` names stand.
fn find_specifier_quotes(s: &[char]) -> (r: Option<(usize, usize)>)
    ensures
        match r {
            Some((o, c)) => specifier_quotes(s@) == Some((o as int, c as int)) && o < c < s@.len(),
            None => specifier_quotes(s@) is None,
        },
{
    match find_specifier_start(s) {
        Some(k) => find_literal(s, k),
        None => find_literal(s, 0),
    }
}

/// The module specifier that the statement `s` names.
pub fn find_specifier(s: &[char]) -> (r: Option<&[char]>)
    ensures
        match r {
            Some(t) => specifier(s@) == Some(t@),
            None => specifier(s@) is None,
        },
{
    match find_specifier_quotes(s) {
        Some((o, c)) => Some(span(s, o + 1, c)),
        None => None,
    }
}

/// The module specifier that the statement `line` names. A string in an attributes clause behind it is
/// not taken for it.
pub fn extract_specifier(line: &str) -> (r: Option<String>)
    ensures
        match r {
            Some(t) => specifier(line@) == Some(t@),
            None => specifier(line@) is None,
        },
{
    let s = chars_of(line);
    match find_specifier(&s) {
        Some(t) => Some(string_of(t)),
        None => None,
    }
}

/// The keyword `w` stands at `i`: no identifier character follows it.
pub open spec fn keyword_at(s: Seq<char>, w: Seq<char>, i: int) -> bool {
    occurs_at(s, w, i) && (i + w.len() == s.len() || !is_ident(s[i + w.len()]))
}

/// Whether the keyword `w` stands at `i`.
fn is_keyword_at(s: &[char], w: &str, i: usize) -> (r: bool)
    ensures
        r == keyword_at(s@, w@, i as int),
        r ==> i + w@.len() <= s@.len(),
{
    let c = chars_of(w);
    is_at(s, &c, i) && (c.len() == s.len() - i || !ident(s[i + c.len()]))
}

/// The position behind the keyword of the attributes clause `s`, in front of which white space and comments
/// may stand.
pub open spec fn clause_start(s: Seq<char>) -> Option<int> {
    let w = gap_end(s, 0);
    if keyword_at(s, "with"@, w) {
        Some(w + 4)
    } else if keyword_at(s, "assert"@, w) {
        Some(w + 6)
    } else {
        None
    }
}

/// The position behind the name `type`, in quotes or not, that stands at `i`.
pub open spec fn type_name_end(s: Seq<char>, i: int) -> Option<int> {
    if is_quote(s[i]) {
        if occurs_at(s, "type"@, i + 1) && i + 5 < s.len() && s[i + 5] == s[i] {
            Some(i + 6)
        } else {
            None
        }
    } else if keyword_at(s, "type"@, i) && (i == 0 || !is_ident(s[i - 1])) {
        Some(i + 4)
    } else {
        None
    }
}

/// The position of the quote that opens the value of the attribute `type`, whose name stands at `i`: a
/// colon is between them, and white space and comments may be.
pub open spec fn type_value(s: Seq<char>, i: int) -> Option<int> {
    match type_name_end(s, i) {
        None => None,
        Some(e) => {
            let c = gap_end(s, e);
            let v = gap_end(s, c + 1);
            if c < s.len() && s[c] == ':' && v < s.len() && is_quote(s[v]) {
                Some(v)
            } else {
                None
            }
        },
    }
}

/// The value of the first attribute `type` from `i` on.
pub open spec fn first_type_value(s: Seq<char>, i: int) -> Option<int>
    decreases s.len() - i,
{
    if i < 0 || i >= s.len() {
        None
    } else if type_value(s, i) is Some {
        type_value(s, i)
    } else {
        proof {
            lemma_token_end(s, i);
        }
        first_type_value(s, token_end(s, i))
    }
}

/// The `type` attribute that the clause `s` holds.
pub open spec fn clause_type(s: Seq<char>) -> Option<Seq<char>> {
    match clause_start(s) {
        None => None,
        Some(k) => match first_type_value(s, k) {
            None => None,
            Some(v) => literal_from(s, v),
        },
    }
}

/// The position of the quote that closes the literal whose quotes stand at `o` and `c`: the first that no
/// backslash escapes, if it stands on the same line.
pub open spec fn literal_end(s: Seq<char>, o: int, c: int) -> int {
    match closing_quote(s, s[o], o + 1) {
        Some(e) => e,
        None => c,
    }
}

/// The `type` attribute of the statement `s`, in the `with` or `assert` clause that follows its specifier.
pub open spec fn attribute_type(s: Seq<char>) -> Option<Seq<char>> {
    match specifier_quotes(s) {
        None => None,
        Some((o, c)) => clause_type(s.skip(literal_end(s, o, c) + 1)),
    }
}

/// The position of the quote that opens the value of the attribute `type`, whose name stands at `i`.
fn find_type_value(s: &[char], i: usize) -> (r: Option<usize>)
    requires
        i < s@.len(),
    ensures
        match r {
            Some(v) => type_value(s@, i as int) == Some(v as int) && v < s@.len(),
            None => type_value(s@, i as int) is None,
        },
{
    let word = chars_of("type");
    proof {
        reveal_strlit("type");
    }
    let n = s.len();
    let e: usize = if s[i] == '"' || s[i] == '\'' {
        if !(is_at(s, &word, i + 1) && n - i > 5 && s[i + 5] == s[i]) {
            return None;
        }
        i + 6
    } else {
        if !(is_keyword_at(s, "type", i) && (i == 0 || !ident(s[i - 1]))) {
            return None;
        }
        i + 4
    };
    let c = skip_gap(s, e);
    if c >= n || s[c] != ':' {
        return None;
    }
    let v = skip_gap(s, c + 1);
    if v < n && (s[v] == '"' || s[v] == '\'') {
        Some(v)
    } else {
        None
    }
}

/// The `type` attribute that the clause `s` holds.
fn find_clause_type(s: &[char]) -> (r: Option<&[char]>)
    ensures
        match r {
            Some(t) => clause_type(s@) == Some(t@),
            None => clause_type(s@) is None,
        },
{
    proof {
        reveal_strlit("with");
        reveal_strlit("assert");
    }
    let n = s.len();
    let w = skip_gap(s, 0);
    let mut i: usize = if is_keyword_at(s, "with", w) {
        assert(w + 4 <= n);
        w + 4
    } else if is_keyword_at(s, "assert", w) {
        assert(w + 6 <= n);
        w + 6
    } else {
        return None;
    };
    let ghost k = i as int;
    while i < n
        invariant
            n == s@.len(),
            i <= n,
            first_type_value(s@, k) == first_type_value(s@, i as int),
            clause_start(s@) == Some(k),
        decreases n - i,
    {
        match find_type_value(s, i) {
            Some(v) => {
                return first_literal(s, v);
            },
            None => {},
        }
        i = skip_token(s, i);
    }
    None
}

/// The `type` attribute of the statement `s`.
fn find_attribute_type(s: &[char]) -> (r: Option<&[char]>)
    ensures
        match r {
            Some(t) => attribute_type(s@) == Some(t@),
            None => attribute_type(s@) is None,
        },
{
    let n = s.len();
    match find_specifier_quotes(s) {
        Some((o, c)) => {
            assert(c < n);
            let e = match find_closing_quote(s, s[o], o + 1) {
                Some(e) => e,
                None => c,
            };
            find_clause_type(tail(s, e + 1))
        },
        None => None,
    }
}

/// The `type` attribute of the import statement `stmt`, in a `with` or `assert` clause behind its
/// specifier.
pub fn extract_attr_type(stmt: &str) -> (r: Option<String>)
    ensures
        match r {
            Some(t) => attribute_type(stmt@) == Some(t@),
            None => attribute_type(stmt@) is None,
        },
{
    let s = chars_of(stmt);
    match find_attribute_type(&s) {
        Some(t) => Some(string_of(t)),
        None => None,
    }
}

/// How often `c` stands in `s` from `i` on where no backslash escapes it.
pub open spec fn unescaped(s: Seq<char>, c: char, i: int) -> nat
    decreases s.len() + 1 - i,
{
    if i < 0 || i >= s.len() {
        0
    } else if s[i] == '\\' {
        unescaped(s, c, i + 2)
    } else {
        unescaped(s, c, i + 1) + if s[i] == c {
            1nat
        } else {
            0nat
        }
    }
}

/// Quotes of both kinds come in even numbers, those that a backslash escapes aside, and there are some.
pub open spec fn balanced(s: Seq<char>) -> bool {
    let dq = unescaped(s, '"', 0);
    let sq = unescaped(s, '\'', 0);
    dq % 2 == 0 && sq % 2 == 0 && dq + sq >= 2
}

/// Whether quotes of both kinds come in even numbers, those that a backslash escapes aside, and there are
/// some: the specifier of an import statement is then closed.
pub fn has_balanced_quotes(s: &str) -> (r: bool)
    ensures
        r == balanced(s@),
{
    let c = chars_of(s);
    let mut dq: usize = 0;
    let mut sq: usize = 0;
    let mut i: usize = 0;
    while i < c.len()
        invariant
            c@ == s@,
            i <= c.len(),
            dq + unescaped(s@, '"', i as int) == unescaped(s@, '"', 0),
            sq + unescaped(s@, '\'', i as int) == unescaped(s@, '\'', 0),
            dq + sq <= i,
        decreases c.len() - i,
    {
        if c[i] == '\\' {
            if c.len() - i < 2 {
                assert(unescaped(s@, '"', i + 2) == 0 && unescaped(s@, '\'', i + 2) == 0);
                i = c.len();
            } else {
                i += 2;
            }
        } else {
            if c[i] == '"' {
                dq += 1;
            }
            if c[i] == '\'' {
                sq += 1;
            }
            i += 1;
        }
    }
    dq % 2 == 0 && sq % 2 == 0 && dq + sq >= 2
}

/// White space that ends no line.
pub open spec fn is_inner_white(c: char) -> bool {
    is_white(c) && c != '\n' && c != '\r'
}

/// The first position at or after `k` that holds no white space, or the end of a line. Comments are passed
/// over too where they count as white space.
pub open spec fn past_blanks(s: Seq<char>, comments: bool, k: int) -> int
    decreases s.len() - k,
{
    if k < 0 || k >= s.len() {
        s.len() as int
    } else if is_inner_white(s[k]) {
        past_blanks(s, comments, k + 1)
    } else if comments && comment_at(s, k) {
        proof {
            lemma_token_end(s, k);
        }
        past_blanks(s, comments, token_end(s, k))
    } else {
        k
    }
}

/// What follows the specifier at `k` can end an import statement: nothing, a semicolon, the end of a line,
/// or an attributes clause.
pub open spec fn ends_import(s: Seq<char>, k: int) -> bool {
    ||| k >= s.len()
    ||| s[k] == ';'
    ||| s[k] == '\n'
    ||| s[k] == '\r'
    ||| keyword_at(s, "with"@, k)
    ||| keyword_at(s, "assert"@, k)
}

/// `s` is an import statement without names: `import`, a specifier that is closed on its line, and
/// nothing that could not end the statement, `comments` behind the specifier aside or not.
pub open spec fn bare_import(s: Seq<char>, comments: bool) -> bool {
    let p = gap_end(s, 6);
    &&& begins(s, "import"@)
    &&& p < s.len()
    &&& is_quote(s[p])
    &&& match closing_quote(s, s[p], p + 1) {
        Some(j) => ends_import(s, past_blanks(s, comments, j + 1)),
        None => false,
    }
}

/// Whether `s` is an import statement without names.
pub fn is_bare_import(s: &[char], comments: bool) -> (r: bool)
    ensures
        r == bare_import(s@, comments),
{
    if !starts_with(s, "import") {
        return false;
    }
    proof {
        reveal_strlit("import");
    }
    let n = s.len();
    let p = skip_gap(s, 6);
    if p >= n || !(s[p] == '"' || s[p] == '\'') {
        return false;
    }
    let j = match find_closing_quote(s, s[p], p + 1) {
        Some(j) => j,
        None => {
            return false;
        },
    };
    let mut k: usize = j + 1;
    while k < n && ((white(s[k]) && s[k] != '\n' && s[k] != '\r') || (comments && is_comment(s, k)))
        invariant
            n == s@.len(),
            j < k <= n,
            past_blanks(s@, comments, j + 1) == past_blanks(s@, comments, k as int),
        decreases n - k,
    {
        if white(s[k]) {
            k += 1;
        } else {
            k = skip_token(s, k);
        }
    }
    if k >= n || s[k] == ';' || s[k] == '\n' || s[k] == '\r' {
        return true;
    }
    is_keyword_at(s, "with", k) || is_keyword_at(s, "assert", k)
}

/// Whether the candidate `stmt` is an import statement without names: the quote that closes its
/// specifier ends the statement or is followed by an attributes clause. Anything else stands inside a
/// literal that happens to look like an import.
pub fn bare_import_well_formed(stmt: &str) -> (r: bool)
    ensures
        r == bare_import(stmt@, false),
{
    let s = chars_of(stmt);
    is_bare_import(&s, false)
}

/// What the statement `s` asks for: a specifier and, where it has one, its `type` attribute. A statement
/// without `from` asks for something only if it is an import without names, comments aside.
pub open spec fn requested(s: Seq<char>, is_import: bool) -> Option<(Seq<char>, Option<Seq<char>>)> {
    if specifier_start(s) is Some || (is_import && bare_import(s, true)) {
        match specifier(s) {
            Some(spec) => if spec.len() == 0 {
                None
            } else {
                Some((spec, attribute_type(s)))
            },
            None => None,
        }
    } else {
        None
    }
}

/// The views of a request.
pub open spec fn request_view(r: (String, Option<String>)) -> (Seq<char>, Option<Seq<char>>) {
    (
        r.0@,
        match r.1 {
            Some(t) => Some(t@),
            None => None,
        },
    )
}

/// What the statement `s` asks for.
pub fn find_request(s: &[char], is_import: bool) -> (r: Option<(String, Option<String>)>)
    ensures
        match r {
            Some(q) => requested(s@, is_import) == Some(request_view(q)),
            None => requested(s@, is_import) is None,
        },
{
    if find_specifier_start(s).is_none() && !(is_import && is_bare_import(s, true)) {
        return None;
    }
    match find_specifier(s) {
        None => None,
        Some(spec) => {
            if spec.len() == 0 {
                return None;
            }
            let ty = match find_attribute_type(s) {
                Some(t) => Some(string_of(t)),
                None => None,
            };
            Some((string_of(spec), ty))
        },
    }
}

/// What the statement `stmt` asks for.
pub fn request_of(stmt: &str, is_import: bool) -> (r: Option<(String, Option<String>)>)
    ensures
        match r {
            Some(q) => requested(stmt@, is_import) == Some(request_view(q)),
            None => requested(stmt@, is_import) is None,
        },
{
    let s = chars_of(stmt);
    find_request(&s, is_import)
}

} // verus!

//! Where the tokens of JavaScript source text end.

use vstd::prelude::*;

verus! {

/// An ASCII letter or digit, `_` or `$`.
pub open spec fn is_ident(c: char) -> bool {
    let u = c as u32;
    ||| 0x30 <= u <= 0x39
    ||| 0x41 <= u <= 0x5a
    ||| 0x61 <= u <= 0x7a
    ||| c == '_'
    ||| c == '$'
}

/// Whether `c` can stand in an ASCII identifier.
pub fn ident(c: char) -> (r: bool)
    ensures
        r == is_ident(c),
{
    let u: u32 = c as u32;
    (0x30 <= u && u <= 0x39) || (0x41 <= u && u <= 0x5a) || (0x61 <= u && u <= 0x7a) || c == '_'
        || c == '$'
}

/// ASCII white space: space, tab, line feed, form feed, carriage return.
pub open spec fn is_ascii_white(c: char) -> bool {
    let u = c as u32;
    u == 0x20 || u == 0x9 || u == 0xa || u == 0xc || u == 0xd
}

/// Whether `c` is ASCII white space.
pub fn ascii_white(c: char) -> (r: bool)
    ensures
        r == is_ascii_white(c),
{
    let u: u32 = c as u32;
    u == 0x20 || u == 0x9 || u == 0xa || u == 0xc || u == 0xd
}

/// `a` and `b` stand next to each other at `i`.
pub open spec fn pair_at(s: Seq<char>, i: int, a: char, b: char) -> bool {
    0 <= i && i + 1 < s.len() && s[i] == a && s[i + 1] == b
}

/// Whether `a` and `b` stand next to each other at `i`.
pub fn is_pair(s: &[char], i: usize, a: char, b: char) -> (r: bool)
    ensures
        r == pair_at(s@, i as int, a, b),
{
    i < s.len() && s.len() - i > 1 && s[i] == a && s[i + 1] == b
}

/// The position of the first line feed at or after `i`, or the end of the text.
pub open spec fn line_end(s: Seq<char>, i: int) -> int
    decreases s.len() - i,
{
    if i < 0 || i >= s.len() {
        s.len() as int
    } else if s[i] == '\n' {
        i
    } else {
        line_end(s, i + 1)
    }
}

/// The position behind the first `*/` at or after `i`, or the end of the text.
pub open spec fn block_end(s: Seq<char>, i: int) -> int
    decreases s.len() - i,
{
    if i < 0 || i + 1 >= s.len() {
        s.len() as int
    } else if pair_at(s, i, '*', '/') {
        i + 2
    } else {
        block_end(s, i + 1)
    }
}

/// The position behind the first `q` at or after `i` that no backslash escapes, or the end of the
/// text.
pub open spec fn string_end(s: Seq<char>, q: char, i: int) -> int
    decreases s.len() + 1 - i,
{
    if i < 0 || i >= s.len() {
        s.len() as int
    } else if s[i] == '\\' {
        string_end(s, q, i + 2)
    } else if s[i] == q {
        i + 1
    } else {
        string_end(s, q, i + 1)
    }
}

/// The position behind the `/` that closes a regular expression whose body goes on at `i`, inside a
/// character class or not, or the end of the text.
pub open spec fn regex_end(s: Seq<char>, in_class: bool, i: int) -> int
    decreases s.len() + 1 - i,
{
    if i < 0 || i >= s.len() {
        s.len() as int
    } else if s[i] == '\\' {
        regex_end(s, in_class, i + 2)
    } else if s[i] == '/' && !in_class {
        i + 1
    } else {
        regex_end(s, s[i] == '[' || (in_class && s[i] != ']'), i + 1)
    }
}

/// The position of the first character at or after `i` that is no identifier character, or the end
/// of the text.
pub open spec fn ident_end(s: Seq<char>, i: int) -> int
    decreases s.len() - i,
{
    if i < 0 || i >= s.len() {
        s.len() as int
    } else if is_ident(s[i]) {
        ident_end(s, i + 1)
    } else {
        i
    }
}

/// A line end lies at or after the position it was sought from, within the text.
pub proof fn lemma_line_end(s: Seq<char>, i: int)
    requires
        0 <= i,
    ensures
        i <= s.len() ==> i <= line_end(s, i) <= s.len(),
        i >= s.len() ==> line_end(s, i) == s.len(),
    decreases s.len() - i,
{
    if i < s.len() && s[i] != '\n' {
        lemma_line_end(s, i + 1);
    }
}

/// A comment's end lies at or after the position it was sought from, within the text.
pub proof fn lemma_block_end(s: Seq<char>, i: int)
    requires
        0 <= i,
    ensures
        i <= s.len() ==> i <= block_end(s, i) <= s.len(),
        i >= s.len() ==> block_end(s, i) == s.len(),
    decreases s.len() - i,
{
    if i + 1 < s.len() && !pair_at(s, i, '*', '/') {
        lemma_block_end(s, i + 1);
    }
}

/// A string's end lies behind the position it was sought from, within the text.
pub proof fn lemma_string_end(s: Seq<char>, q: char, i: int)
    requires
        0 <= i,
    ensures
        i < s.len() ==> i < string_end(s, q, i) <= s.len(),
        i >= s.len() ==> string_end(s, q, i) == s.len(),
    decreases s.len() + 1 - i,
{
    if i < s.len() {
        if s[i] == '\\' {
            lemma_string_end(s, q, i + 2);
        } else if s[i] != q {
            lemma_string_end(s, q, i + 1);
        }
    }
}

/// A regular expression's end lies behind the position it was sought from, within the text.
pub proof fn lemma_regex_end(s: Seq<char>, in_class: bool, i: int)
    requires
        0 <= i,
    ensures
        i < s.len() ==> i < regex_end(s, in_class, i) <= s.len(),
        i >= s.len() ==> regex_end(s, in_class, i) == s.len(),
    decreases s.len() + 1 - i,
{
    if i < s.len() {
        if s[i] == '\\' {
            lemma_regex_end(s, in_class, i + 2);
        } else if !(s[i] == '/' && !in_class) {
            lemma_regex_end(s, s[i] == '[' || (in_class && s[i] != ']'), i + 1);
        }
    }
}

/// An identifier's end lies at or after the position it was sought from, within the text, and
/// behind it where an identifier character stands there.
pub proof fn lemma_ident_end(s: Seq<char>, i: int)
    requires
        0 <= i <= s.len(),
    ensures
        i <= ident_end(s, i) <= s.len(),
        i < s.len() && is_ident(s[i]) ==> i < ident_end(s, i),
    decreases s.len() - i,
{
    if i < s.len() && is_ident(s[i]) {
        lemma_ident_end(s, i + 1);
    }
}

/// The position of the first line feed at or after `from`, or the end of the text.
pub fn skip_line(s: &[char], from: usize) -> (r: usize)
    requires
        from <= s@.len(),
    ensures
        r == line_end(s@, from as int),
        from <= r <= s@.len(),
{
    let mut i: usize = from;
    while i < s.len() && s[i] != '\n'
        invariant
            from <= i <= s.len(),
            line_end(s@, from as int) == line_end(s@, i as int),
        decreases s.len() - i,
    {
        i += 1;
    }
    i
}

/// The position behind the first `*/` at or after `from`, or the end of the text.
pub fn skip_block(s: &[char], from: usize) -> (r: usize)
    requires
        from <= s@.len(),
    ensures
        r == block_end(s@, from as int),
        from <= r <= s@.len(),
{
    let mut i: usize = from;
    while i < s.len() && s.len() - i > 1
        invariant
            from <= i <= s.len(),
            block_end(s@, from as int) == block_end(s@, i as int),
        decreases s.len() - i,
    {
        if s[i] == '*' && s[i + 1] == '/' {
            return i + 2;
        }
        i += 1;
    }
    s.len()
}

/// The position behind the closing `q`, or the end of the text.
pub fn skip_quoted(s: &[char], q: char, from: usize) -> (r: usize)
    requires
        from <= s@.len(),
    ensures
        r == string_end(s@, q, from as int),
        from <= r <= s@.len(),
{
    let mut i: usize = from;
    while i < s.len()
        invariant
            from <= i <= s.len(),
            string_end(s@, q, from as int) == string_end(s@, q, i as int),
        decreases s.len() - i,
    {
        if s[i] == '\\' {
            if s.len() - i < 2 {
                assert(string_end(s@, q, i + 2) == s@.len());
                return s.len();
            }
            i += 2;
        } else if s[i] == q {
            return i + 1;
        } else {
            i += 1;
        }
    }
    s.len()
}

/// The position behind the `/` that closes a regular expression, or the end of the text.
pub fn skip_regex(s: &[char], from: usize) -> (r: usize)
    requires
        from <= s@.len(),
    ensures
        r == regex_end(s@, false, from as int),
        from <= r <= s@.len(),
{
    let mut i: usize = from;
    let mut in_class = false;
    while i < s.len()
        invariant
            from <= i <= s.len(),
            regex_end(s@, false, from as int) == regex_end(s@, in_class, i as int),
        decreases s.len() - i,
    {
        let c = s[i];
        if c == '\\' {
            if s.len() - i < 2 {
                assert(regex_end(s@, in_class, i + 2) == s@.len());
                return s.len();
            }
            i += 2;
        } else if c == '/' && !in_class {
            return i + 1;
        } else {
            in_class = c == '[' || (in_class && c != ']');
            i += 1;
        }
    }
    s.len()
}

/// The position of the first character at or after `from` that is no identifier character.
pub fn skip_ident(s: &[char], from: usize) -> (r: usize)
    requires
        from <= s@.len(),
    ensures
        r == ident_end(s@, from as int),
        from <= r <= s@.len(),
{
    let mut i: usize = from;
    while i < s.len() && ident(s[i])
        invariant
            from <= i <= s.len(),
            ident_end(s@, from as int) == ident_end(s@, i as int),
        decreases s.len() - i,
    {
        i += 1;
    }
    i
}

/// Where a comment in the end of a text ends is where it ends in the text.
pub proof fn lemma_line_end_in_end(s: Seq<char>, k: int, i: int)
    requires
        0 <= k <= s.len(),
        0 <= i,
    ensures
        line_end(s, k + i) == k + line_end(s.skip(k), i),
    decreases s.len() - i,
{
    if k + i < s.len() && s[k + i] != '\n' {
        lemma_line_end_in_end(s, k, i + 1);
    }
}

/// Where a comment in the end of a text ends is where it ends in the text.
pub proof fn lemma_block_end_in_end(s: Seq<char>, k: int, i: int)
    requires
        0 <= k <= s.len(),
        0 <= i,
    ensures
        block_end(s, k + i) == k + block_end(s.skip(k), i),
    decreases s.len() - i,
{
    if k + i + 1 < s.len() && !pair_at(s, k + i, '*', '/') {
        lemma_block_end_in_end(s, k, i + 1);
    }
}

} // verus!

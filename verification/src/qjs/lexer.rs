//! Where the tokens of JavaScript source text end, byte by byte.

use vstd::prelude::*;

verus! {

/// `\t`
pub const TAB: u8 = 0x09;

/// `\n`
pub const LINE_FEED: u8 = 0x0a;

/// `\r`
pub const CARRIAGE_RETURN: u8 = 0x0d;

/// ` `
pub const SPACE: u8 = 0x20;

/// `"`
pub const DOUBLE_QUOTE: u8 = 0x22;

/// `$`
pub const DOLLAR: u8 = 0x24;

/// `'`
pub const SINGLE_QUOTE: u8 = 0x27;

/// `*`
pub const STAR: u8 = 0x2a;

/// `/`
pub const SLASH: u8 = 0x2f;

/// `;`
pub const SEMICOLON: u8 = 0x3b;

/// `\`
pub const BACKSLASH: u8 = 0x5c;

/// `_`
pub const UNDERSCORE: u8 = 0x5f;

/// A backtick.
pub const BACKTICK: u8 = 0x60;

/// `{`
pub const OPEN_BRACE: u8 = 0x7b;

/// `}`
pub const CLOSE_BRACE: u8 = 0x7d;

/// ASCII white space: space, tab, line feed, form feed, carriage return.
pub open spec fn is_white_byte(c: u8) -> bool {
    c == 0x20 || c == 0x9 || c == 0xa || c == 0xc || c == 0xd
}

/// Whether `c` is ASCII white space.
pub fn white_byte(c: u8) -> (r: bool)
    ensures
        r == is_white_byte(c),
{
    c == 0x20 || c == 0x9 || c == 0xa || c == 0xc || c == 0xd
}

/// White space ends at `i`, whether it is ASCII or not.
pub open spec fn white_before(b: Seq<u8>, i: int) -> bool {
    ||| 1 <= i <= b.len() && (0x9 <= b[i - 1] <= 0xd || b[i - 1] == 0x20)
    ||| 2 <= i <= b.len() && b[i - 2] == 0xc2 && (b[i - 1] == 0x85 || b[i - 1] == 0xa0)
    ||| 3 <= i <= b.len() && ({
        let (x, y, z) = (b[i - 3], b[i - 2], b[i - 1]);
        ||| x == 0xe1 && y == 0x9a && z == 0x80
        ||| x == 0xe2 && y == 0x80 && (0x80 <= z <= 0x8a || z == 0xa8 || z == 0xa9 || z == 0xaf)
        ||| x == 0xe2 && y == 0x81 && z == 0x9f
        ||| x == 0xe3 && y == 0x80 && z == 0x80
    })
}

/// Whether white space ends at `i`.
pub fn is_white_before(b: &[u8], i: usize) -> (r: bool)
    requires
        i <= b@.len(),
    ensures
        r == white_before(b@, i as int),
{
    if i < 1 {
        return false;
    }
    let z = b[i - 1];
    if (0x9 <= z && z <= 0xd) || z == 0x20 {
        return true;
    }
    if i < 2 {
        return false;
    }
    let y = b[i - 2];
    if y == 0xc2 && (z == 0x85 || z == 0xa0) {
        return true;
    }
    if i < 3 {
        return false;
    }
    let x = b[i - 3];
    (x == 0xe1 && y == 0x9a && z == 0x80) || (x == 0xe2 && y == 0x80 && ((0x80 <= z && z <= 0x8a) || z
        == 0xa8 || z == 0xa9 || z == 0xaf)) || (x == 0xe2 && y == 0x81 && z == 0x9f) || (x == 0xe3 && y
        == 0x80 && z == 0x80)
}

/// An ASCII letter or digit, `_` or `$`.
pub open spec fn is_ident_byte(c: u8) -> bool {
    ||| 0x30 <= c <= 0x39
    ||| 0x41 <= c <= 0x5a
    ||| 0x61 <= c <= 0x7a
    ||| c == UNDERSCORE
    ||| c == DOLLAR
}

/// Whether `c` can stand in an ASCII identifier.
pub fn ident_byte(c: u8) -> (r: bool)
    ensures
        r == is_ident_byte(c),
{
    (0x30 <= c && c <= 0x39) || (0x41 <= c && c <= 0x5a) || (0x61 <= c && c <= 0x7a) || c == UNDERSCORE
        || c == DOLLAR
}

/// `x` and `y` stand next to each other at `i`.
pub open spec fn bytes_at(b: Seq<u8>, i: int, x: u8, y: u8) -> bool {
    0 <= i && i + 1 < b.len() && b[i] == x && b[i + 1] == y
}

/// Whether `x` and `y` stand next to each other at `i`.
pub fn are_at(b: &[u8], i: usize, x: u8, y: u8) -> (r: bool)
    ensures
        r == bytes_at(b@, i as int, x, y),
{
    i < b.len() && b.len() - i > 1 && b[i] == x && b[i + 1] == y
}

/// The position of the first line feed at or after `i`, or the end of the text.
pub open spec fn line_stop(b: Seq<u8>, i: int) -> int
    decreases b.len() - i,
{
    if i < 0 || i >= b.len() {
        b.len() as int
    } else if b[i] == LINE_FEED {
        i
    } else {
        line_stop(b, i + 1)
    }
}

/// The position behind the first `*/` at or after `i`, or the end of the text.
pub open spec fn comment_stop(b: Seq<u8>, i: int) -> int
    decreases b.len() - i,
{
    if i < 0 || i + 1 >= b.len() {
        b.len() as int
    } else if bytes_at(b, i, STAR, SLASH) {
        i + 2
    } else {
        comment_stop(b, i + 1)
    }
}

/// Where a string literal whose text goes on at `j` stops: behind the next `quote` that no backslash
/// escapes, or, if the line ends first, at its line feed, or at the end of the text.
pub open spec fn string_stop(b: Seq<u8>, quote: u8, j: int) -> int
    decreases b.len() + 1 - j,
{
    if j < 0 || j >= b.len() {
        b.len() as int
    } else if b[j] == BACKSLASH {
        string_stop(b, quote, j + 2)
    } else if b[j] == quote {
        j + 1
    } else if b[j] == LINE_FEED {
        j
    } else {
        string_stop(b, quote, j + 1)
    }
}

/// Stops lie at or after the position they were sought from, within the text.
pub proof fn lemma_line_stop(b: Seq<u8>, i: int)
    requires
        0 <= i,
    ensures
        i <= b.len() ==> i <= line_stop(b, i) <= b.len(),
        i >= b.len() ==> line_stop(b, i) == b.len(),
    decreases b.len() - i,
{
    if i < b.len() && b[i] != LINE_FEED {
        lemma_line_stop(b, i + 1);
    }
}

/// Stops lie at or after the position they were sought from, within the text.
pub proof fn lemma_comment_stop(b: Seq<u8>, i: int)
    requires
        0 <= i,
    ensures
        i <= b.len() ==> i <= comment_stop(b, i) <= b.len(),
        i >= b.len() ==> comment_stop(b, i) == b.len(),
    decreases b.len() - i,
{
    if i + 1 < b.len() && !bytes_at(b, i, STAR, SLASH) {
        lemma_comment_stop(b, i + 1);
    }
}

/// Stops lie at or after the position they were sought from, within the text.
pub proof fn lemma_string_stop(b: Seq<u8>, quote: u8, j: int)
    requires
        0 <= j,
    ensures
        j <= b.len() ==> j <= string_stop(b, quote, j) <= b.len(),
        j >= b.len() ==> string_stop(b, quote, j) == b.len(),
    decreases b.len() + 1 - j,
{
    if j < b.len() {
        if b[j] == BACKSLASH {
            lemma_string_stop(b, quote, j + 2);
        } else if b[j] != quote && b[j] != LINE_FEED {
            lemma_string_stop(b, quote, j + 1);
        }
    }
}

/// Where a template literal stops: behind its closing backtick, or at the end of the text.
///
/// `depths` holds, for each interpolation `${` that is open at `j`, how many braces are open in it;
/// `in_text` says whether `j` lies in the text of a template or in the code of the innermost
/// interpolation. The code may hold braces, strings and templates of its own.
pub open spec fn template_stop(b: Seq<u8>, depths: Seq<int>, in_text: bool, j: int) -> int
    decreases b.len() + 1 - j,
{
    if j < 0 || j >= b.len() {
        b.len() as int
    } else if b[j] == BACKSLASH {
        template_stop(b, depths, in_text, j + 2)
    } else if in_text {
        if b[j] == BACKTICK {
            if depths.len() == 0 {
                j + 1
            } else {
                template_stop(b, depths, false, j + 1)
            }
        } else if bytes_at(b, j, DOLLAR, OPEN_BRACE) {
            template_stop(b, depths.push(1), false, j + 2)
        } else {
            template_stop(b, depths, true, j + 1)
        }
    } else if b[j] == OPEN_BRACE {
        template_stop(b, depths.drop_last().push(depths.last() + 1), false, j + 1)
    } else if b[j] == CLOSE_BRACE {
        if depths.last() == 1 {
            template_stop(b, depths.drop_last(), true, j + 1)
        } else {
            template_stop(b, depths.drop_last().push(depths.last() - 1), false, j + 1)
        }
    } else if b[j] == DOUBLE_QUOTE || b[j] == SINGLE_QUOTE {
        proof {
            lemma_string_stop(b, b[j], j + 1);
        }
        template_stop(b, depths, false, string_stop(b, b[j], j + 1))
    } else if b[j] == BACKTICK {
        template_stop(b, depths, true, j + 1)
    } else {
        template_stop(b, depths, false, j + 1)
    }
}

/// Stops lie behind the position they were sought from, within the text.
pub proof fn lemma_template_stop(b: Seq<u8>, depths: Seq<int>, in_text: bool, j: int)
    requires
        0 <= j,
    ensures
        j <= b.len() ==> j <= template_stop(b, depths, in_text, j) <= b.len(),
        j >= b.len() ==> template_stop(b, depths, in_text, j) == b.len(),
    decreases b.len() + 1 - j,
{
    if j < b.len() {
        if b[j] == BACKSLASH {
            lemma_template_stop(b, depths, in_text, j + 2);
        } else if in_text {
            if b[j] == BACKTICK {
                if depths.len() > 0 {
                    lemma_template_stop(b, depths, false, j + 1);
                }
            } else if bytes_at(b, j, DOLLAR, OPEN_BRACE) {
                lemma_template_stop(b, depths.push(1), false, j + 2);
            } else {
                lemma_template_stop(b, depths, true, j + 1);
            }
        } else if b[j] == OPEN_BRACE {
            lemma_template_stop(b, depths.drop_last().push(depths.last() + 1), false, j + 1);
        } else if b[j] == CLOSE_BRACE {
            if depths.last() == 1 {
                lemma_template_stop(b, depths.drop_last(), true, j + 1);
            } else {
                lemma_template_stop(b, depths.drop_last().push(depths.last() - 1), false, j + 1);
            }
        } else if b[j] == DOUBLE_QUOTE || b[j] == SINGLE_QUOTE {
            lemma_string_stop(b, b[j], j + 1);
            lemma_template_stop(b, depths, false, string_stop(b, b[j], j + 1));
        } else if b[j] == BACKTICK {
            lemma_template_stop(b, depths, true, j + 1);
        } else {
            lemma_template_stop(b, depths, false, j + 1);
        }
    }
}

/// The position of the first line feed at or after `from`, or the end of the text.
pub fn skip_line_bytes(b: &[u8], from: usize) -> (r: usize)
    requires
        from <= b@.len(),
    ensures
        r == line_stop(b@, from as int),
        from <= r <= b@.len(),
{
    let mut i: usize = from;
    while i < b.len() && b[i] != LINE_FEED
        invariant
            from <= i <= b.len(),
            line_stop(b@, from as int) == line_stop(b@, i as int),
        decreases b.len() - i,
    {
        i += 1;
    }
    i
}

/// The position behind the first `*/` at or after `from`, or the end of the text.
pub fn skip_comment_bytes(b: &[u8], from: usize) -> (r: usize)
    requires
        from <= b@.len(),
    ensures
        r == comment_stop(b@, from as int),
        from <= r <= b@.len(),
{
    let mut i: usize = from;
    while i < b.len() && b.len() - i > 1
        invariant
            from <= i <= b.len(),
            comment_stop(b@, from as int) == comment_stop(b@, i as int),
        decreases b.len() - i,
    {
        if b[i] == STAR && b[i + 1] == SLASH {
            return i + 2;
        }
        i += 1;
    }
    b.len()
}

/// Skips a string literal. `i` is the position of its opening quote; the result is the position behind
/// its closing quote, that of the line feed where the line ends first, or the end of the text.
pub fn skip_string(bytes: &[u8], i: usize, quote: u8) -> (r: usize)
    ensures
        r == string_stop(bytes@, quote, i + 1),
        r <= bytes@.len(),
        i < bytes@.len() ==> i < r,
{
    let n = bytes.len();
    if i >= n {
        return n;
    }
    let mut j: usize = i + 1;
    while j < n
        invariant
            n == bytes@.len(),
            i < j <= n,
            string_stop(bytes@, quote, i + 1) == string_stop(bytes@, quote, j as int),
        decreases n - j,
    {
        let c = bytes[j];
        if c == BACKSLASH {
            if n - j < 2 {
                assert(string_stop(bytes@, quote, j + 2) == n);
                return n;
            }
            j += 2;
        } else if c == quote {
            return j + 1;
        } else if c == LINE_FEED {
            return j;
        } else {
            j += 1;
        }
    }
    n
}

/// The numbers of open braces held in `v`.
spec fn counts(v: Seq<usize>) -> Seq<int> {
    Seq::new(v.len(), |k: int| v[k] as int)
}

/// Skips a template literal with its interpolations. `i` is the position of its opening backtick; the
/// result is the position behind its closing backtick, or the end of the text.
#[verifier::rlimit(40)]
pub fn skip_template(bytes: &[u8], i: usize) -> (r: usize)
    ensures
        r == template_stop(bytes@, seq![], true, i + 1),
        r <= bytes@.len(),
        i < bytes@.len() ==> i < r,
{
    let n = bytes.len();
    if i >= n {
        return n;
    }
    let mut j: usize = i + 1;
    let mut depths: Vec<usize> = Vec::new();
    let mut in_text = true;
    assert(counts(depths@) =~= seq![]);
    while j < n
        invariant
            n == bytes@.len(),
            i < j <= n,
            !in_text ==> depths@.len() > 0,
            forall|k: int| 0 <= k < depths@.len() ==> 1 <= #[trigger] depths@[k] <= j,
            template_stop(bytes@, seq![], true, i + 1) == template_stop(
                bytes@,
                counts(depths@),
                in_text,
                j as int,
            ),
        decreases n - j,
    {
        let c = bytes[j];
        let ghost open = counts(depths@);
        proof {
            lemma_template_stop(bytes@, open, in_text, j as int);
        }
        if c == BACKSLASH {
            if n - j < 2 {
                assert(template_stop(bytes@, open, in_text, j + 2) == n);
                return n;
            }
            j += 2;
        } else if in_text {
            if c == BACKTICK {
                if depths.len() == 0 {
                    return j + 1;
                }
                in_text = false;
                j += 1;
            } else if are_at(bytes, j, DOLLAR, OPEN_BRACE) {
                depths.push(1);
                assert(counts(depths@) =~= open.push(1));
                in_text = false;
                j += 2;
            } else {
                j += 1;
            }
        } else if c == OPEN_BRACE {
            let k = depths.len() - 1;
            let d = depths[k];
            depths.set(k, d + 1);
            assert(counts(depths@) =~= open.drop_last().push(open.last() + 1));
            j += 1;
        } else if c == CLOSE_BRACE {
            let k = depths.len() - 1;
            let d = depths[k];
            if d == 1 {
                depths.pop();
                assert(counts(depths@) =~= open.drop_last());
                in_text = true;
            } else {
                depths.set(k, d - 1);
                assert(counts(depths@) =~= open.drop_last().push(open.last() - 1));
            }
            j += 1;
        } else if c == DOUBLE_QUOTE || c == SINGLE_QUOTE {
            j = skip_string(bytes, j, c);
        } else if c == BACKTICK {
            in_text = true;
            j += 1;
        } else {
            j += 1;
        }
    }
    n
}

} // verus!

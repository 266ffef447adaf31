//! Code, white space and comments that ask for no module are passed over, so that the imports behind them are
//! found.

use crate::qjs::composition::{
    all_white, lemma_first_byte, lemma_gap_end, lemma_gap_in_head, lemma_requests_in_end,
};
use crate::qjs::imports::{
    continues_import, dynamic_import, export_at, import_at, requests, requests_from,
    statement_may_begin, text_from, word_at,
};
use crate::qjs::lexer::{
    bytes_at, comment_stop, is_white_byte, lemma_comment_stop, lemma_line_stop, lemma_string_stop,
    lemma_template_stop, line_stop, string_stop, template_stop, white_before, BACKSLASH, BACKTICK,
    CLOSE_BRACE, DOLLAR, DOUBLE_QUOTE, LINE_FEED, OPEN_BRACE, SINGLE_QUOTE, SLASH, STAR,
};
use crate::qjs::request::gap_end;
use crate::scan::{block_end, line_end, pair_at};
use crate::text::{begins, is_white};
use crate::utf8::{
    byte_offset, lemma_ascii, lemma_boundary, lemma_bytes_before, lemma_character,
    lemma_encode_concat,
};
use vstd::prelude::*;
use vstd::utf8::{
    char_is_scalar, char_u32_cast, decode_utf8_encode_utf8, encode_scalar, encode_utf8,
    encode_utf8_decode_utf8, encode_utf8_valid_utf8, is_char_boundary, valid_utf8_split,
};

verus! {

/// From `i` on, the bytes are code that asks for no module, and whole: comments and literals are ended, and
/// the keywords `import` and `export` begin dynamic imports, declarations or nothing.
pub open spec fn asks_nothing(a: Seq<u8>, i: int) -> bool
    decreases a.len() - i,
{
    if i < 0 || i >= a.len() {
        true
    } else if is_white_byte(a[i]) {
        asks_nothing(a, i + 1)
    } else if bytes_at(a, i, SLASH, SLASH) {
        proof {
            lemma_line_stop(a, i + 2);
        }
        line_stop(a, i + 2) < a.len() && asks_nothing(a, line_stop(a, i + 2))
    } else if bytes_at(a, i, SLASH, STAR) {
        proof {
            lemma_comment_stop(a, i + 2);
        }
        let e = comment_stop(a, i + 2);
        i + 4 <= e && bytes_at(a, e - 2, STAR, SLASH) && asks_nothing(a, e)
    } else if a[i] == DOUBLE_QUOTE || a[i] == SINGLE_QUOTE {
        proof {
            lemma_string_stop(a, a[i], i + 1);
        }
        let e = string_stop(a, a[i], i + 1);
        e < a.len() && asks_nothing(a, e)
    } else if a[i] == BACKTICK {
        proof {
            lemma_template_stop(a, seq![], true, i + 1);
        }
        let e = template_stop(a, seq![], true, i + 1);
        e < a.len() && asks_nothing(a, e)
    } else if a[i] == SLASH && i + 1 == a.len() {
        false
    } else if statement_may_begin(a, i) && word_at(a, "import"@, i) {
        let t = text_from(a, i + 6);
        if dynamic_import(text_from(a, i)) && continues_import(t) {
            proof {
                reveal_strlit("import");
            }
            asks_nothing(a, i + 6)
        } else {
            t.len() > 0 && t[0] != '/' && !continues_import(t) && asks_nothing(a, i + 1)
        }
    } else if statement_may_begin(a, i) && word_at(a, "export"@, i) {
        let t = text_from(a, i + 6);
        let g = gap_end(t, 0);
        g < t.len() && t[g] != '/' && t[g] != '*' && t[g] != '{' && asks_nothing(a, i + 1)
    } else {
        asks_nothing(a, i + 1)
    }
}

/// What stops in the beginning `a` of a text stops there in the text.
proof fn lemma_line_stop_in_head(a: Seq<u8>, b: Seq<u8>, i: int)
    requires
        a.len() <= b.len(),
        a == b.take(a.len() as int),
        0 <= i,
        line_stop(a, i) < a.len(),
    ensures
        line_stop(b, i) == line_stop(a, i),
    decreases a.len() - i,
{
    if i < a.len() {
        assert(a[i] == b[i]);
        if a[i] != LINE_FEED {
            lemma_line_stop_in_head(a, b, i + 1);
        }
    }
}

proof fn lemma_comment_stop_in_head(a: Seq<u8>, b: Seq<u8>, i: int)
    requires
        a.len() <= b.len(),
        a == b.take(a.len() as int),
        0 <= i,
        i + 2 <= comment_stop(a, i),
        bytes_at(a, comment_stop(a, i) - 2, STAR, SLASH),
    ensures
        comment_stop(b, i) == comment_stop(a, i),
    decreases a.len() - i,
{
    if i + 1 < a.len() {
        assert(a[i] == b[i] && a[i + 1] == b[i + 1]);
        if !bytes_at(a, i, STAR, SLASH) {
            lemma_comment_stop(a, i + 1);
            lemma_comment_stop_in_head(a, b, i + 1);
        }
    }
}

proof fn lemma_string_stop_in_head(a: Seq<u8>, b: Seq<u8>, quote: u8, j: int)
    requires
        a.len() <= b.len(),
        a == b.take(a.len() as int),
        0 <= j,
        string_stop(a, quote, j) < a.len(),
    ensures
        string_stop(b, quote, j) == string_stop(a, quote, j),
    decreases a.len() + 1 - j,
{
    if j < a.len() {
        assert(a[j] == b[j]);
        if a[j] == BACKSLASH {
            lemma_string_stop_in_head(a, b, quote, j + 2);
        } else if a[j] != quote && a[j] != LINE_FEED {
            lemma_string_stop_in_head(a, b, quote, j + 1);
        }
    }
}

proof fn lemma_template_stop_in_head(
    a: Seq<u8>,
    b: Seq<u8>,
    depths: Seq<int>,
    in_text: bool,
    j: int,
)
    requires
        a.len() <= b.len(),
        a == b.take(a.len() as int),
        0 <= j,
        template_stop(a, depths, in_text, j) < a.len(),
    ensures
        template_stop(b, depths, in_text, j) == template_stop(a, depths, in_text, j),
    decreases a.len() + 1 - j,
{
    if j < a.len() {
        let c = a[j];
        assert(c == b[j]);
        if j + 1 < a.len() {
            assert(a[j + 1] == b[j + 1]);
        }
        if c == BACKSLASH {
            lemma_template_stop_in_head(a, b, depths, in_text, j + 2);
        } else if in_text {
            if c == BACKTICK {
                if depths.len() > 0 {
                    lemma_template_stop_in_head(a, b, depths, false, j + 1);
                }
            } else if bytes_at(a, j, DOLLAR, OPEN_BRACE) {
                lemma_template_stop_in_head(a, b, depths.push(1), false, j + 2);
            } else {
                lemma_template_stop_in_head(a, b, depths, true, j + 1);
            }
        } else if c == OPEN_BRACE {
            let d = depths.drop_last().push(depths.last() + 1);
            lemma_template_stop_in_head(a, b, d, false, j + 1);
        } else if c == CLOSE_BRACE {
            if depths.last() == 1 {
                lemma_template_stop_in_head(a, b, depths.drop_last(), true, j + 1);
            } else {
                let d = depths.drop_last().push(depths.last() - 1);
                lemma_template_stop_in_head(a, b, d, false, j + 1);
            }
        } else if c == DOUBLE_QUOTE || c == SINGLE_QUOTE {
            lemma_string_stop(a, c, j + 1);
            let e = string_stop(a, c, j + 1);
            if e < a.len() {
                lemma_string_stop_in_head(a, b, c, j + 1);
            } else {
                assert(template_stop(a, depths, false, e) == a.len());
            }
            lemma_template_stop_in_head(a, b, depths, false, e);
        } else if c == BACKTICK {
            lemma_template_stop_in_head(a, b, depths, true, j + 1);
        } else {
            lemma_template_stop_in_head(a, b, depths, false, j + 1);
        }
    }
}

/// The text from a position on goes on with what follows.
proof fn lemma_text_extends(code: Seq<char>, rest: Seq<char>, i: int)
    requires
        0 <= i <= encode_utf8(code).len(),
        is_char_boundary(encode_utf8(code), i),
    ensures
        text_from(encode_utf8(code + rest), i) == text_from(encode_utf8(code), i) + rest,
{
    let a = encode_utf8(code);
    let b = encode_utf8(code + rest);
    lemma_encode_concat(code, rest);
    encode_utf8_valid_utf8(code);
    valid_utf8_split(a, i);
    let end = a.subrange(i, a.len() as int);
    let t = text_from(a, i);
    decode_utf8_encode_utf8(end);
    lemma_encode_concat(t, rest);
    assert(b.subrange(i, b.len() as int) =~= end + encode_utf8(rest));
    encode_utf8_decode_utf8(t + rest);
}

/// Code that asks for nothing is passed over.
#[verifier::rlimit(60)]
proof fn lemma_asks_nothing(code: Seq<char>, rest: Seq<char>, i: int)
    requires
        0 <= i <= encode_utf8(code).len(),
        asks_nothing(encode_utf8(code), i),
        statement_may_begin(encode_utf8(code), encode_utf8(code).len() as int),
    ensures
        requests_from(encode_utf8(code + rest), i) == requests_from(
            encode_utf8(code + rest),
            encode_utf8(code).len() as int,
        ),
    decreases encode_utf8(code).len() - i,
{
    let a = encode_utf8(code);
    let b = encode_utf8(code + rest);
    lemma_encode_concat(code, rest);
    assert(b.take(a.len() as int) =~= a);
    if i < a.len() {
        assert(a[i] == b[i]);
        if i + 1 < a.len() {
            assert(a[i + 1] == b[i + 1]);
        }
        if is_white_byte(a[i]) {
            lemma_asks_nothing(code, rest, i + 1);
        } else if bytes_at(a, i, SLASH, SLASH) {
            lemma_line_stop(a, i + 2);
            lemma_line_stop_in_head(a, b, i + 2);
            lemma_asks_nothing(code, rest, line_stop(a, i + 2));
        } else if bytes_at(a, i, SLASH, STAR) {
            lemma_comment_stop(a, i + 2);
            lemma_comment_stop_in_head(a, b, i + 2);
            lemma_asks_nothing(code, rest, comment_stop(a, i + 2));
        } else if a[i] == DOUBLE_QUOTE || a[i] == SINGLE_QUOTE {
            lemma_string_stop(a, a[i], i + 1);
            lemma_string_stop_in_head(a, b, a[i], i + 1);
            lemma_asks_nothing(code, rest, string_stop(a, a[i], i + 1));
        } else if a[i] == BACKTICK {
            lemma_template_stop(a, seq![], true, i + 1);
            lemma_template_stop_in_head(a, b, seq![], true, i + 1);
            lemma_asks_nothing(code, rest, template_stop(a, seq![], true, i + 1));
        } else {
            reveal_strlit("import");
            reveal_strlit("export");
            if word_at(a, "import"@, i) && word_at(a, "export"@, i) {
                assert(a[i + 0] as u32 == "import"@[0] as u32);
                assert(a[i + 0] as u32 == "export"@[0] as u32);
            }
            lemma_keyword_asks_nothing(code, rest, i);
            if statement_may_begin(a, i) && word_at(a, "import"@, i) && dynamic_import(
                text_from(a, i),
            ) && continues_import(text_from(a, i + 6)) {
                lemma_asks_nothing(code, rest, i + 6);
            } else {
                lemma_asks_nothing(code, rest, i + 1);
            }
        }
    }
}

/// A word in the text is a word in the code that it begins with, where the code ends with something else.
proof fn lemma_word_in_head(a: Seq<u8>, b: Seq<u8>, w: Seq<char>, i: int)
    requires
        a.len() <= b.len(),
        a == b.take(a.len() as int),
        0 <= i < a.len(),
        w == "import"@ || w == "export"@,
        statement_may_begin(a, a.len() as int),
    ensures
        word_at(a, w, i) == word_at(b, w, i),
{
    reveal_strlit("import");
    reveal_strlit("export");
    if word_at(b, w, i) {
        if i + 6 > a.len() {
            let k = a.len() - 1 - i;
            assert(b[i + k] as u32 == w[k] as u32);
            assert(a[a.len() - 1] == b[i + k]);
            assert(w[k] == 'i' || w[k] == 'm' || w[k] == 'p' || w[k] == 'o' || w[k] == 'r' || w[k]
                == 't' || w[k] == 'e' || w[k] == 'x');
        } else {
            assert forall|k: int| 0 <= k < w.len() implies a[i + k] as u32 == (#[trigger] w[k]) as u32 by {
                assert(b[i + k] as u32 == w[k] as u32);
            }
        }
    }
    if word_at(a, w, i) {
        assert forall|k: int| 0 <= k < w.len() implies b[i + k] as u32 == (#[trigger] w[k]) as u32 by {
            assert(a[i + k] as u32 == w[k] as u32);
        }
    }
}

/// A keyword in such code begins no statement that asks for something, whatever follows.
proof fn lemma_keyword_asks_nothing(code: Seq<char>, rest: Seq<char>, i: int)
    requires
        0 <= i < encode_utf8(code).len(),
        statement_may_begin(encode_utf8(code), encode_utf8(code).len() as int),
        ({
            let a = encode_utf8(code);
            let t = text_from(a, i + 6);
            let g = gap_end(t, 0);
            &&& statement_may_begin(a, i) && word_at(a, "import"@, i) ==> {
                ||| dynamic_import(text_from(a, i)) && continues_import(t)
                ||| t.len() > 0 && t[0] != '/' && !continues_import(t)
            }
            &&& statement_may_begin(a, i) && word_at(a, "export"@, i) ==> g < t.len() && t[g] != '/'
                && t[g] != '*' && t[g] != '{'
        }),
    ensures
        ({
            let a = encode_utf8(code);
            let b = encode_utf8(code + rest);
            let t = text_from(a, i + 6);
            &&& statement_may_begin(b, i) == statement_may_begin(a, i)
            &&& statement_may_begin(a, i) ==> !export_at(b, i)
            &&& statement_may_begin(a, i) && import_at(b, i) ==> word_at(a, "import"@, i)
                && dynamic_import(text_from(a, i)) && continues_import(t) && dynamic_import(
                text_from(b, i),
            )
            &&& statement_may_begin(a, i) && word_at(a, "import"@, i) && dynamic_import(
                text_from(a, i),
            ) && continues_import(t) ==> import_at(b, i)
        }),
{
    reveal_strlit("import");
    reveal_strlit("export");
    let a = encode_utf8(code);
    let b = encode_utf8(code + rest);
    lemma_encode_concat(code, rest);
    assert(b.take(a.len() as int) =~= a);
    assert forall|k: int| 0 <= k < a.len() implies a[k] == b[k] by {}
    assert(statement_may_begin(b, i) == statement_may_begin(a, i));
    lemma_word_in_head(a, b, "import"@, i);
    lemma_word_in_head(a, b, "export"@, i);
    if word_at(a, "import"@, i) || word_at(a, "export"@, i) {
        assert("import"@[0] == 'i' && "import"@[5] == 't');
        assert("export"@[0] == 'e' && "export"@[5] == 't');
        assert(a[i + 0] < 0x80 && a[i + 5] < 0x80);
        encode_utf8_valid_utf8(code);
        lemma_boundary(a, i);
        lemma_boundary(a, i + 6);
        lemma_text_extends(code, rest, i);
        lemma_text_extends(code, rest, i + 6);
        let t = text_from(a, i + 6);
        let u = text_from(a, i);
        assert((t + rest).take(t.len() as int) =~= t);
        assert((u + rest).take(u.len() as int) =~= u);
        if t.len() > 0 {
            assert((t + rest)[0] == t[0]);
        }
        if t.len() > 1 {
            assert((t + rest)[1] == t[1]);
        }
        if word_at(a, "export"@, i) && statement_may_begin(a, i) {
            lemma_gap_end(t, 0);
            lemma_gap_in_head(t, t + rest, 0);
            assert((t + rest)[gap_end(t, 0)] == t[gap_end(t, 0)]);
        }
        if dynamic_import(u) {
            lemma_gap_end(u, 6);
            lemma_gap_in_head(u, u + rest, 6);
            assert((u + rest)[gap_end(u, 6)] == u[gap_end(u, 6)]);
            assert((u + rest).subrange(0, 6) =~= u.subrange(0, 6));
        }
    }
}

/// Whole code that asks for no module, at the beginning of a text, is passed over: what follows it is asked
/// for. So an import is found behind other statements, where it stands behind white space, `;`, a brace
/// or a comment.
pub proof fn law_code_asks_for_nothing(code: Seq<char>, rest: Seq<char>)
    requires
        asks_nothing(encode_utf8(code), 0),
        statement_may_begin(encode_utf8(code), encode_utf8(code).len() as int),
    ensures
        requests(code + rest) == requests(rest),
{
    let a = encode_utf8(code);
    let b = encode_utf8(code + rest);
    lemma_encode_concat(code, rest);
    lemma_asks_nothing(code, rest, 0);
    assert(b.skip(a.len() as int) =~= encode_utf8(rest));
    assert forall|k: int| 0 <= k < a.len() implies a[k] == b[k] by {}
    assert(statement_may_begin(b, a.len() as int));
    lemma_first_byte(rest);
    lemma_requests_in_end(b, a.len() as int, 0);
}

/// Bytes that are none of ASCII are passed over.
proof fn lemma_high_bytes(a: Seq<u8>, i: int, e: int)
    requires
        0 <= i <= e <= a.len(),
        forall|k: int| i <= k < e ==> #[trigger] a[k] >= 0x80,
    ensures
        asks_nothing(a, i) == asks_nothing(a, e),
        comment_stop(a, i) == comment_stop(a, e),
        line_stop(a, i) == line_stop(a, e),
    decreases e - i,
{
    reveal_strlit("import");
    reveal_strlit("export");
    if i < e {
        assert(a[i] >= 0x80);
        lemma_other_byte(a, i);
        lemma_high_bytes(a, i + 1, e);
    }
}

/// No keyword begins with another byte.
proof fn lemma_other_byte(a: Seq<u8>, i: int)
    requires
        0 <= i < a.len(),
        a[i] != 0x69 && a[i] != 0x65,
    ensures
        !word_at(a, "import"@, i),
        !word_at(a, "export"@, i),
{
    reveal_strlit("import");
    reveal_strlit("export");
    if word_at(a, "import"@, i) {
        assert(a[i + 0] as u32 == "import"@[0] as u32);
    }
    if word_at(a, "export"@, i) {
        assert(a[i + 0] as u32 == "export"@[0] as u32);
    }
}

proof fn lemma_blank_asks_nothing(s: Seq<char>, k: int)
    requires
        0 <= k <= s.len(),
        all_white(s),
    ensures
        asks_nothing(encode_utf8(s), byte_offset(s, k)),
    decreases s.len() - k,
{
    let a = encode_utf8(s);
    if k < s.len() {
        let i = byte_offset(s, k);
        lemma_blank_asks_nothing(s, k + 1);
        lemma_character(s, k);
        lemma_ascii(s, k);
        lemma_bytes_before(s, k);
        assert(is_white(s[k]));
        if (s[k] as u32) < 0x80 {
            assert(a[i] as u32 == s[k] as u32);
            lemma_other_byte(a, i);
        } else {
            lemma_high_bytes(a, i, byte_offset(s, k + 1));
        }
    } else {
        assert(s.take(k) =~= s);
    }
}

/// White space at the beginning of a text is passed over.
pub proof fn law_blank_asks_for_nothing(blank: Seq<char>, rest: Seq<char>)
    requires
        all_white(blank),
    ensures
        requests(blank + rest) == requests(rest),
{
    let a = encode_utf8(blank);
    assert(blank.take(0) =~= seq![]);
    lemma_blank_asks_nothing(blank, 0);
    if blank.len() > 0 {
        assert(is_white(blank[blank.len() - 1]));
        lemma_last_white(blank);
    }
    law_code_asks_for_nothing(blank, rest);
}

/// White space ends where a text ends whose last character is white space.
proof fn lemma_last_white(s: Seq<char>)
    requires
        s.len() > 0,
        is_white(s.last()),
    ensures
        encode_utf8(s).len() > 0,
        white_before(encode_utf8(s), encode_utf8(s).len() as int),
{
    let k = s.len() - 1;
    let c = s.last();
    let u = c as u32;
    let last = seq![c];
    let e = encode_utf8(last);
    assert(s =~= s.take(k) + last);
    lemma_encode_concat(s.take(k), last);
    char_is_scalar(c);
    assert(last.drop_first() =~= seq![]);
    assert(encode_utf8(last.drop_first()) =~= seq![]);
    assert(e =~= encode_scalar(u));
    let b = encode_utf8(s);
    let n = b.len() as int;
    assert forall|j: int| 0 <= j < e.len() implies b[n - e.len() + j] == #[trigger] e[j] by {}
    if u < 0x80 {
        lemma_last_byte(s);
    } else if u < 0x800 {
        assert((0xC0u8 | ((u >> 6) & 0x1F) as u8) == 0xc2 && ((0x80u8 | (u & 0x3F) as u8) == 0x85 || (
        0x80u8 | (u & 0x3F) as u8) == 0xa0)) by (bit_vector)
            requires
                u == 0x85 || u == 0xa0,
        ;
        assert(b[n - 2] == e[0] && b[n - 1] == e[1]);
    } else {
        let x = 0xE0u8 | ((u >> 12) & 0x0F) as u8;
        let y = 0x80u8 | ((u >> 6) & 0x3F) as u8;
        let z = 0x80u8 | (u & 0x3F) as u8;
        assert(b[n - 3] == e[0] && b[n - 2] == e[1] && b[n - 1] == e[2]);
        assert((x == 0xe1 && y == 0x9a && z == 0x80) || (x == 0xe2 && y == 0x80 && ((0x80 <= z && z
            <= 0x8a) || z == 0xa8 || z == 0xa9 || z == 0xaf)) || (x == 0xe2 && y == 0x81 && z == 0x9f)
            || (x == 0xe3 && y == 0x80 && z == 0x80)) by (bit_vector)
            requires
                u == 0x1680 || (0x2000 <= u && u <= 0x200a) || u == 0x2028 || u == 0x2029 || u
                    == 0x202f || u == 0x205f || u == 0x3000,
                x == 0xE0u8 | ((u >> 12) & 0x0F) as u8,
                y == 0x80u8 | ((u >> 6) & 0x3F) as u8,
                z == 0x80u8 | (u & 0x3F) as u8,
        ;
    }
}

/// The last byte of a text that ends with a character of ASCII is that character.
proof fn lemma_last_byte(s: Seq<char>)
    requires
        s.len() > 0,
        (s.last() as u32) < 0x80,
    ensures
        encode_utf8(s).len() > 0,
        encode_utf8(s)[encode_utf8(s).len() - 1] as u32 == s.last() as u32,
        byte_offset(s, s.len() - 1) == encode_utf8(s).len() - 1,
{
    let k = s.len() - 1;
    lemma_character(s, k);
    lemma_ascii(s, k);
    assert(s.take(k + 1) =~= s);
}

/// A comment ends in the bytes where it ends in the text.
proof fn lemma_stops_by_character(s: Seq<char>, k: int)
    requires
        0 <= k <= s.len(),
    ensures
        comment_stop(encode_utf8(s), byte_offset(s, k)) == byte_offset(s, block_end(s, k)),
        line_stop(encode_utf8(s), byte_offset(s, k)) == byte_offset(s, line_end(s, k)),
    decreases s.len() - k,
{
    let a = encode_utf8(s);
    let i = byte_offset(s, k);
    assert(s.take(s.len() as int) =~= s);
    lemma_bytes_before(s, k);
    if k < s.len() {
        lemma_stops_by_character(s, k + 1);
        lemma_character(s, k);
        lemma_ascii(s, k);
        if (s[k] as u32) < 0x80 {
            assert(a[i] as u32 == s[k] as u32);
            char_u32_cast(s[k], a[i] as u32);
            assert(s[k] == '*' <==> a[i] == STAR);
            assert(s[k] == '\n' <==> a[i] == LINE_FEED);
            if k + 1 < s.len() {
                lemma_character(s, k + 1);
                lemma_ascii(s, k + 1);
                lemma_bytes_before(s, k + 1);
                if (s[k + 1] as u32) < 0x80 {
                    assert(a[i + 1] as u32 == s[k + 1] as u32);
                    char_u32_cast(s[k + 1], a[i + 1] as u32);
                    assert(s[k + 1] == '/' <==> a[i + 1] == SLASH);
                } else {
                    assert(a[i + 1] >= 0x80);
                }
                assert(pair_at(s, k, '*', '/') == bytes_at(a, i, STAR, SLASH));
            }
        } else {
            lemma_high_bytes(a, i, byte_offset(s, k + 1));
        }
    }
}

/// A comment between its marks, at the beginning of a text, is passed over.
pub proof fn law_comment_asks_for_nothing(text: Seq<char>, rest: Seq<char>)
    requires
        forall|j: int| !pair_at(text, j, '*', '/'),
    ensures
        requests("/*"@ + text + "*/"@ + rest) == requests(rest),
{
    reveal_strlit("/*");
    reveal_strlit("*/");
    let s = "/*"@ + text + "*/"@;
    let a = encode_utf8(s);
    let n = s.len() as int;
    lemma_two_bytes(s);
    assert forall|j: int| 2 <= j < n - 2 implies !pair_at(s, j, '*', '/') by {
        assert(s[j] == text[j - 2]);
        assert(!pair_at(text, j - 2, '*', '/'));
        if j + 1 < n - 2 {
            assert(s[j + 1] == text[j - 1]);
        }
    }
    lemma_block_end_at(s, 2, n - 2);
    lemma_stops_by_character(s, 2);
    lemma_last_byte(s);
    assert(s.take(n - 1).last() == '*');
    lemma_character(s, n - 2);
    lemma_ascii(s, n - 2);
    assert(s.take(n) =~= s);
    let e = a.len() as int;
    assert(a[e - 1] == SLASH && a[e - 2] == STAR);
    assert(bytes_at(a, 0, SLASH, STAR));
    assert(e >= 4) by {
        lemma_offset_grows(s, 2, n - 2);
    }
    assert(asks_nothing(a, e));
    law_code_asks_for_nothing(s, rest);
}

proof fn lemma_offset_grows(s: Seq<char>, i: int, j: int)
    requires
        0 <= i <= j <= s.len(),
    ensures
        byte_offset(s, i) <= byte_offset(s, j),
    decreases j - i,
{
    if i < j {
        lemma_character(s, j - 1);
        lemma_offset_grows(s, i, j - 1);
    }
}

/// The first two characters of a text are its first two bytes, if they are ASCII.
proof fn lemma_two_bytes(s: Seq<char>)
    requires
        s.len() >= 2,
        (s[0] as u32) < 0x80,
        (s[1] as u32) < 0x80,
    ensures
        byte_offset(s, 2) == 2,
        encode_utf8(s).len() >= 2,
        encode_utf8(s)[0] as u32 == s[0] as u32,
        encode_utf8(s)[1] as u32 == s[1] as u32,
{
    assert(s.take(0) =~= seq![]);
    lemma_character(s, 0);
    lemma_ascii(s, 0);
    lemma_character(s, 1);
    lemma_ascii(s, 1);
}

proof fn lemma_block_end_at(s: Seq<char>, i: int, m: int)
    requires
        0 <= i <= m,
        pair_at(s, m, '*', '/'),
        forall|j: int| i <= j < m ==> !pair_at(s, j, '*', '/'),
    ensures
        block_end(s, i) == m + 2,
    decreases m - i,
{
    if i < m {
        assert(!pair_at(s, i, '*', '/'));
        lemma_block_end_at(s, i + 1, m);
    }
}

proof fn lemma_line_end_at(s: Seq<char>, i: int, m: int)
    requires
        0 <= i <= m < s.len(),
        s[m] == '\n',
        forall|j: int| i <= j < m ==> s[j] != '\n',
    ensures
        line_end(s, i) == m,
    decreases m - i,
{
    if i < m {
        lemma_line_end_at(s, i + 1, m);
    }
}

/// A comment up to the end of its line, at the beginning of a text, is passed over.
pub proof fn law_line_comment_asks_for_nothing(text: Seq<char>, rest: Seq<char>)
    requires
        !text.contains('\n'),
    ensures
        requests("//"@ + text + "\n"@ + rest) == requests(rest),
{
    reveal_strlit("//");
    reveal_strlit("\n");
    let s = "//"@ + text + "\n"@;
    let a = encode_utf8(s);
    let n = s.len() as int;
    lemma_two_bytes(s);
    assert forall|j: int| 2 <= j < n - 1 implies s[j] != '\n' by {
        assert(s[j] == text[j - 2]);
    }
    lemma_line_end_at(s, 2, n - 1);
    lemma_stops_by_character(s, 2);
    lemma_last_byte(s);
    let e = a.len() - 1;
    assert(a[e] == LINE_FEED);
    assert(asks_nothing(a, e + 1));
    assert(asks_nothing(a, e));
    law_code_asks_for_nothing(s, rest);
}

} // verus!

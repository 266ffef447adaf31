//! Where comments, literals and templates end in bytes put together from parts, and where statements begin.

use crate::qjs::imports::{statement_may_begin, word_at};
use crate::qjs::lexer::{
    bytes_at, comment_stop, is_ident_byte, is_white_byte, line_stop, string_stop, template_stop,
    white_before,
};
use vstd::prelude::*;

verus! {

/// The bytes of identifiers, and the white space of ASCII.
pub proof fn law_classes_of_bytes(c: u8)
    ensures
        is_ident_byte(c) == ('a' as int <= c <= 'z' as int || 'A' as int <= c <= 'Z' as int || '0' as int
            <= c <= '9' as int || c == '_' as int || c == '$' as int),
        is_white_byte(c) == (c == ' ' as int || c == '\t' as int || c == '\n' as int || c == 12 || c
            == '\r' as int),
{
}

/// A statement begins at the beginning of the text, or behind white space, a semicolon, a brace or a comment;
/// nowhere else.
pub proof fn law_where_statements_begin(before: Seq<u8>, c: u8, rest: Seq<u8>)
    requires
        c < 0x80,
    ensures
        statement_may_begin(before.push(c) + rest, before.len() + 1int) == (9 <= c <= 13 || c == ' ' as int
            || c == ';' as int || c == '{' as int || c == '}' as int || (c == '/' as int && before.len()
            > 0 && before.last() == '*' as int)),
        statement_may_begin(rest, 0),
{
    let b = before.push(c) + rest;
    let i = before.len() as int + 1;
    assert(b[i - 1] == c);
    if before.len() > 0 {
        assert(b[i - 2] == before.last());
    }
}

/// Behind a byte that is not ASCII a statement begins only where that byte ends white space.
pub proof fn law_statements_behind_wide_characters(before: Seq<u8>, rest: Seq<u8>)
    requires
        before.len() > 0,
        before.last() >= 0x80,
    ensures
        statement_may_begin(before + rest, before.len() as int) == white_before(before, before.len() as int),
{
    let b = before + rest;
    let n = before.len() as int;
    assert(b[n - 1] == before[n - 1]);
    if n >= 2 {
        assert(b[n - 2] == before[n - 2]);
    }
    if n >= 3 {
        assert(b[n - 3] == before[n - 3]);
    }
}

/// The white space that is not ASCII, by its bytes: U+85 and U+A0, U+1680, U+2000 to U+200A, U+2028, U+2029,
/// U+202F, U+205F and U+3000.
pub proof fn law_wide_white_space(before: Seq<u8>, x: u8, y: u8, z: u8)
    requires
        z >= 0x80,
    ensures
        white_before(before + seq![x, y, z], before.len() + 3int) == ((y == 0xc2 && (z == 0x85 || z
            == 0xa0)) || (x == 0xe1 && y == 0x9a && z == 0x80) || (x == 0xe2 && y == 0x80 && (z <= 0x8a
            || z == 0xa8 || z == 0xa9 || z == 0xaf)) || (x == 0xe2 && y == 0x81 && z == 0x9f) || (x
            == 0xe3 && y == 0x80 && z == 0x80)),
{
    let b = before + seq![x, y, z];
    let i = before.len() as int + 3;
    assert(b[i - 3] == x && b[i - 2] == y && b[i - 1] == z);
}

proof fn lemma_rest_without(text: Seq<u8>, c: u8)
    requires
        text.len() > 0,
        !text.contains(c),
    ensures
        text[0] != c,
        !text.skip(1).contains(c),
{
    let more = text.skip(1);
    if more.contains(c) {
        let i = choose|i: int| 0 <= i < more.len() && more[i] == c;
        assert(text[i + 1] == c);
    }
}

/// A line goes on to the next line feed, which is not part of it, or to the end.
pub proof fn law_line_stop(before: Seq<u8>, line: Seq<u8>, rest: Seq<u8>)
    requires
        !line.contains(10),
        rest.len() > 0 ==> rest[0] == 10,
    ensures
        line_stop(before + line + rest, before.len() as int) == before.len() + line.len(),
    decreases line.len(),
{
    let b = before + line + rest;
    let n = before.len() as int;
    if line.len() == 0 {
        if rest.len() > 0 {
            assert(b[n] == rest[0]);
        }
    } else {
        assert(b[n] == line[0]);
        let next = before.push(line[0]);
        let more = line.skip(1);
        lemma_rest_without(line, 10);
        assert(next + more + rest =~= b);
        law_line_stop(next, more, rest);
    }
}

/// A block comment goes on to the first `*/`, which is part of it.
pub proof fn law_comment_stop(before: Seq<u8>, text: Seq<u8>, rest: Seq<u8>)
    requires
        forall|i: int| #![auto] 0 <= i < text.len() ==> !bytes_at(text + seq![0x2au8], i, 0x2a, 0x2f),
    ensures
        comment_stop(before + text + seq![0x2au8, 0x2f] + rest, before.len() as int) == before.len()
            + text.len() + 2,
    decreases text.len(),
{
    let b = before + text + seq![0x2au8, 0x2f] + rest;
    let n = before.len() as int;
    if text.len() == 0 {
        assert(bytes_at(b, n, 0x2a, 0x2f));
    } else {
        let w = text + seq![0x2au8];
        assert(!bytes_at(w, 0, 0x2a, 0x2f));
        assert(b[n] == w[0] && b[n + 1] == w[1]);
        let next = before.push(text[0]);
        let more = text.skip(1);
        assert(next + more + seq![0x2au8, 0x2f] + rest =~= b);
        assert forall|i: int| #![auto] 0 <= i < more.len() implies !bytes_at(
            more + seq![0x2au8],
            i,
            0x2a,
            0x2f,
        ) by {
            assert(!bytes_at(w, i + 1, 0x2a, 0x2f));
            assert((more + seq![0x2au8])[i] == w[i + 1]);
            if i + 1 < (more + seq![0x2au8]).len() {
                assert((more + seq![0x2au8])[i + 1] == w[i + 2]);
            }
        }
        law_comment_stop(next, more, rest);
    }
}

/// A string goes on to the next quote of its kind; a line feed ends it too, but is not part of it.
pub proof fn law_string_stop(before: Seq<u8>, quote: u8, text: Seq<u8>, end: u8, rest: Seq<u8>)
    requires
        quote == 0x22 || quote == 0x27,
        end == quote || end == 10,
        !text.contains(quote),
        !text.contains(10),
        !text.contains(0x5c),
    ensures
        string_stop(before + text + seq![end] + rest, quote, before.len() as int) == before.len()
            + text.len() + (if end == quote {
            1int
        } else {
            0
        }),
    decreases text.len(),
{
    let b = before + text + seq![end] + rest;
    let n = before.len() as int;
    if text.len() == 0 {
        assert(b[n] == end);
    } else {
        assert(b[n] == text[0]);
        let next = before.push(text[0]);
        let more = text.skip(1);
        lemma_rest_without(text, quote);
        lemma_rest_without(text, 10);
        lemma_rest_without(text, 0x5c);
        assert(next + more + seq![end] + rest =~= b);
        law_string_stop(next, quote, more, end, rest);
    }
}

/// A backslash takes the byte behind it, in strings and in templates.
pub proof fn law_escaped_bytes(b: Seq<u8>, quote: u8, depths: Seq<int>, in_text: bool, i: int)
    requires
        0 <= i < b.len(),
        b[i] == 0x5c,
    ensures
        string_stop(b, quote, i) == string_stop(b, quote, i + 2),
        template_stop(b, depths, in_text, i) == template_stop(b, depths, in_text, i + 2),
{
}

/// A template goes on to the next backtick, whatever its text holds but `${`.
pub proof fn law_template_text(before: Seq<u8>, text: Seq<u8>, rest: Seq<u8>)
    requires
        !text.contains(0x60),
        !text.contains(0x5c),
        !text.contains(0x24),
    ensures
        template_stop(before + text + seq![0x60u8] + rest, seq![], true, before.len() as int)
            == before.len() + text.len() + 1,
    decreases text.len(),
{
    let b = before + text + seq![0x60u8] + rest;
    let n = before.len() as int;
    if text.len() == 0 {
        assert(b[n] == 0x60);
    } else {
        assert(b[n] == text[0]);
        let next = before.push(text[0]);
        let more = text.skip(1);
        lemma_rest_without(text, 0x60);
        lemma_rest_without(text, 0x5c);
        lemma_rest_without(text, 0x24);
        assert(next + more + seq![0x60u8] + rest =~= b);
        law_template_text(next, more, rest);
    }
}

/// `${` in a template opens code, which goes on to the brace that closes it; then the text goes on.
pub proof fn law_code_in_a_template(b: Seq<u8>, depths: Seq<int>, i: int)
    requires
        0 <= i,
        i + 1 < b.len(),
        b[i] == 0x24,
        b[i + 1] == 0x7b,
    ensures
        template_stop(b, depths, true, i) == template_stop(b, depths.push(1), false, i + 2),
{
}

/// In the code of a template braces are counted, strings are passed over, and a backtick opens a template in
/// it.
pub proof fn law_braces_in_a_template(b: Seq<u8>, depths: Seq<int>, n: int, i: int)
    requires
        0 <= i < b.len(),
        n >= 1,
    ensures
        b[i] == 0x7b ==> template_stop(b, depths.push(n), false, i) == template_stop(
            b,
            depths.push(n + 1),
            false,
            i + 1,
        ),
        b[i] == 0x7d && n > 1 ==> template_stop(b, depths.push(n), false, i) == template_stop(
            b,
            depths.push(n - 1),
            false,
            i + 1,
        ),
        b[i] == 0x7d && n == 1 ==> template_stop(b, depths.push(n), false, i) == template_stop(
            b,
            depths,
            true,
            i + 1,
        ),
        b[i] == 0x22 || b[i] == 0x27 ==> template_stop(b, depths.push(n), false, i) == template_stop(
            b,
            depths.push(n),
            false,
            string_stop(b, b[i], i + 1),
        ),
        b[i] == 0x60 ==> template_stop(b, depths.push(n), false, i) == template_stop(
            b,
            depths.push(n),
            true,
            i + 1,
        ),
        b[i] == 0x60 ==> template_stop(b, depths.push(n), true, i) == template_stop(
            b,
            depths.push(n),
            false,
            i + 1,
        ),
{
    assert(depths.push(n).drop_last() =~= depths);
    assert(depths.push(n).last() == n);
}

/// A word stands where its letters do.
pub proof fn law_words_by_letters(before: Seq<u8>, w: Seq<char>, bytes: Seq<u8>, rest: Seq<u8>)
    requires
        bytes.len() == w.len(),
    ensures
        word_at(before + bytes + rest, w, before.len() as int) <==> forall|k: int|
            0 <= k < w.len() ==> bytes[k] as u32 == (#[trigger] w[k]) as u32,
{
    let b = before + bytes + rest;
    assert forall|k: int| 0 <= k < w.len() implies b[before.len() + k] == bytes[k] by {}
    if word_at(b, w, before.len() as int) {
        assert forall|k: int| 0 <= k < w.len() implies bytes[k] as u32 == (#[trigger] w[k]) as u32 by {
            assert(b[before.len() + k] as u32 == w[k] as u32);
        }
    }
}

/// A string, a comment or a template that is not closed goes on to the end of the text.
pub proof fn law_open_ends(b: Seq<u8>, quote: u8, i: int)
    requires
        0 <= i <= b.len(),
        forall|k: int| i <= k < b.len() ==> b[k] != 0x5c && b[k] != quote && b[k] != 10,
    ensures
        string_stop(b, quote, i) == b.len(),
        (forall|k: int| i <= k < b.len() ==> b[k] != 0x2a) ==> comment_stop(b, i) == b.len(),
        line_stop(b, i) == b.len(),
        (forall|k: int| i <= k < b.len() ==> b[k] != 0x60 && b[k] != 0x24) ==> template_stop(
            b,
            seq![],
            true,
            i,
        ) == b.len(),
    decreases b.len() - i,
{
    if i < b.len() {
        law_open_ends(b, quote, i + 1);
    }
}

} // verus!

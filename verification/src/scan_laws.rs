//! Where comments, literals and words end in texts put together from parts.

use crate::scan::{
    block_end, ident_end, is_ascii_white, is_ident, line_end, pair_at, regex_end, string_end,
};
use vstd::prelude::*;

verus! {

/// The characters of identifiers.
pub proof fn law_identifier_characters(c: char)
    ensures
        is_ident(c) == ('a' <= c <= 'z' || 'A' <= c <= 'Z' || '0' <= c <= '9' || c == '_' || c == '$'),
{
}

/// The white space of ASCII.
pub proof fn law_ascii_white_space(c: char)
    ensures
        is_ascii_white(c) == (c == ' ' || c == '\t' || c == '\n' || c == '\u{c}' || c == '\r'),
{
}

/// A line goes on to the next line feed, which is not part of it, or to the end of the text.
pub proof fn law_line_end(before: Seq<char>, line: Seq<char>, rest: Seq<char>)
    requires
        !line.contains('\n'),
        rest.len() > 0 ==> rest[0] == '\n',
    ensures
        line_end(before + line + rest, before.len() as int) == before.len() + line.len(),
    decreases line.len(),
{
    let s = before + line + rest;
    let n = before.len() as int;
    if line.len() == 0 {
        if rest.len() > 0 {
            assert(s[n] == rest[0]);
        }
    } else {
        assert(s[n] == line[0]);
        let next = before.push(line[0]);
        let more = line.skip(1);
        assert(!more.contains('\n')) by {
            if more.contains('\n') {
                let i = choose|i: int| 0 <= i < more.len() && more[i] == '\n';
                assert(line[i + 1] == '\n');
            }
        }
        assert(next + more + rest =~= s);
        law_line_end(next, more, rest);
    }
}

/// A block comment goes on to the first `*/`, which is part of it.
pub proof fn law_block_end(before: Seq<char>, text: Seq<char>, rest: Seq<char>)
    requires
        forall|i: int| #![auto] 0 <= i < text.len() ==> !pair_at(text + seq!['*'], i, '*', '/'),
    ensures
        block_end(before + text + seq!['*', '/'] + rest, before.len() as int) == before.len()
            + text.len() + 2,
    decreases text.len(),
{
    let s = before + text + seq!['*', '/'] + rest;
    let n = before.len() as int;
    if text.len() == 0 {
        assert(pair_at(s, n, '*', '/'));
    } else {
        let w = text + seq!['*'];
        assert(!pair_at(w, 0, '*', '/'));
        assert(s[n] == w[0] && s[n + 1] == w[1]);
        let next = before.push(text[0]);
        let more = text.skip(1);
        assert(next + more + seq!['*', '/'] + rest =~= s);
        assert forall|i: int| #![auto] 0 <= i < more.len() implies !pair_at(
            more + seq!['*'],
            i,
            '*',
            '/',
        ) by {
            assert(!pair_at(w, i + 1, '*', '/'));
            assert((more + seq!['*'])[i] == w[i + 1]);
            if i + 1 < (more + seq!['*']).len() {
                assert((more + seq!['*'])[i + 1] == w[i + 2]);
            }
        }
        law_block_end(next, more, rest);
    }
}

/// A block comment that is not closed goes on to the end of the text.
pub proof fn law_open_block_end(s: Seq<char>, i: int)
    requires
        0 <= i,
        forall|k: int| #![auto] i <= k < s.len() ==> !pair_at(s, k, '*', '/'),
    ensures
        block_end(s, i) == s.len(),
    decreases s.len() - i,
{
    if i + 1 < s.len() {
        assert(!pair_at(s, i, '*', '/'));
        law_open_block_end(s, i + 1);
    }
}

/// A literal goes on to the next quote of its kind; what it holds, other than that quote and backslashes,
/// does not end it.
pub proof fn law_string_end(before: Seq<char>, q: char, text: Seq<char>, rest: Seq<char>)
    requires
        q != '\\',
        !text.contains(q),
        !text.contains('\\'),
    ensures
        string_end(before + text + seq![q] + rest, q, before.len() as int) == before.len()
            + text.len() + 1,
    decreases text.len(),
{
    let s = before + text + seq![q] + rest;
    let n = before.len() as int;
    if text.len() == 0 {
        assert(s[n] == q);
    } else {
        assert(s[n] == text[0]);
        let next = before.push(text[0]);
        let more = text.skip(1);
        lemma_without(text, q);
        lemma_without(text, '\\');
        assert(next + more + seq![q] + rest =~= s);
        law_string_end(next, q, more, rest);
    }
}

proof fn lemma_without(text: Seq<char>, c: char)
    requires
        text.len() > 0,
        !text.contains(c),
    ensures
        text[0] != c,
        !text.skip(1).contains(c),
{
    let more = text.skip(1);
    if more.contains(c) {
        let i = choose|i: int| 0 <= i < more.len() && more[i] == c;
        assert(text[i + 1] == c);
    }
}

/// A backslash takes the character behind it, so that an escaped quote does not end a literal.
pub proof fn law_escape_goes_on(s: Seq<char>, q: char, i: int)
    requires
        0 <= i,
        i + 1 < s.len(),
        s[i] == '\\',
    ensures
        string_end(s, q, i) == string_end(s, q, i + 2),
        regex_end(s, true, i) == regex_end(s, true, i + 2),
        regex_end(s, false, i) == regex_end(s, false, i + 2),
{
}

/// A regular expression goes on to the next slash outside brackets.
pub proof fn law_regex_end(before: Seq<char>, text: Seq<char>, rest: Seq<char>)
    requires
        !text.contains('/'),
        !text.contains('\\'),
        !text.contains('['),
    ensures
        regex_end(before + text + seq!['/'] + rest, false, before.len() as int) == before.len()
            + text.len() + 1,
    decreases text.len(),
{
    let s = before + text + seq!['/'] + rest;
    let n = before.len() as int;
    if text.len() == 0 {
        assert(s[n] == '/');
    } else {
        assert(s[n] == text[0]);
        let next = before.push(text[0]);
        let more = text.skip(1);
        lemma_without(text, '/');
        lemma_without(text, '\\');
        lemma_without(text, '[');
        assert(next + more + seq!['/'] + rest =~= s);
        law_regex_end(next, more, rest);
    }
}

/// A slash between brackets does not end a regular expression: behind the closing bracket it goes on.
pub proof fn law_class_in_a_regex(before: Seq<char>, class: Seq<char>, rest: Seq<char>)
    requires
        !class.contains(']'),
        !class.contains('\\'),
    ensures
        ({
            let s = before + class + seq![']'] + rest;
            let n = before.len() as int;
            regex_end(s, true, n) == regex_end(s, false, n + class.len() + 1)
        }),
    decreases class.len(),
{
    let s = before + class + seq![']'] + rest;
    let n = before.len() as int;
    if class.len() == 0 {
        assert(s[n] == ']');
    } else {
        assert(s[n] == class[0]);
        let next = before.push(class[0]);
        let more = class.skip(1);
        lemma_without(class, ']');
        lemma_without(class, '\\');
        assert(next + more + seq![']'] + rest =~= s);
        law_class_in_a_regex(next, more, rest);
        assert(regex_end(s, true, n) == regex_end(s, true, n + 1));
    }
}

/// A bracket opens a class in a regular expression.
pub proof fn law_bracket_opens_a_class(s: Seq<char>, i: int)
    requires
        0 <= i < s.len(),
        s[i] == '[',
    ensures
        regex_end(s, false, i) == regex_end(s, true, i + 1),
{
}

/// A word goes on as far as characters of identifiers do.
pub proof fn law_word_end(before: Seq<char>, word: Seq<char>, rest: Seq<char>)
    requires
        forall|i: int| 0 <= i < word.len() ==> is_ident(#[trigger] word[i]),
        rest.len() > 0 ==> !is_ident(rest[0]),
    ensures
        ident_end(before + word + rest, before.len() as int) == before.len() + word.len(),
    decreases word.len(),
{
    let s = before + word + rest;
    let n = before.len() as int;
    if word.len() == 0 {
        if rest.len() > 0 {
            assert(s[n] == rest[0]);
        }
    } else {
        assert(is_ident(word[0]));
        assert(s[n] == word[0]);
        let next = before.push(word[0]);
        let more = word.skip(1);
        assert forall|i: int| 0 <= i < more.len() implies is_ident(#[trigger] more[i]) by {
            assert(is_ident(word[i + 1]));
        }
        assert(next + more + rest =~= s);
        law_word_end(next, more, rest);
    }
}

/// A literal or a regular expression that is not closed goes on to the end of the text.
pub proof fn law_open_literals(s: Seq<char>, q: char, i: int)
    requires
        0 <= i <= s.len(),
        forall|k: int| i <= k < s.len() ==> s[k] != '\\',
    ensures
        (forall|k: int| i <= k < s.len() ==> s[k] != q) ==> string_end(s, q, i) == s.len(),
        (forall|k: int| i <= k < s.len() ==> s[k] != '/') ==> regex_end(s, false, i) == s.len()
            && regex_end(s, true, i) == s.len(),
    decreases s.len() - i,
{
    if i < s.len() {
        law_open_literals(s, q, i + 1);
    }
}

} // verus!

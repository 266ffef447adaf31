//! How the text of import and export statements is read, character by character.

use crate::qjs::composition::{
    all_white, bare_statement, begins_request, from_statement, law_bare_imports_are_found,
    law_clause_gives_the_type, law_imports_are_found, lemma_closing_quote_is,
    lemma_import_is_no_export, lemma_plain_from, lemma_plain_statement, runs_on,
};
use crate::qjs::imports::{
    continues_export, continues_import, depth_behind, dynamic_import, requests, statement_end,
};
use crate::qjs::lexer_laws::{law_string_stop, law_template_text, law_where_statements_begin};
use crate::qjs::passing::{asks_nothing, law_code_asks_for_nothing};
use crate::qjs::request::{
    balanced, bare_import, clause_type, closing_quote, ends_import, from_at, gap_end,
    is_inner_white, last_from, lemma_token_end, past_blanks, requested, specifier, token_end,
    type_name_end, type_value, unescaped,
};
use crate::qjs::source_phase::lemma_no_byte;
use crate::scan::{block_end, is_ident, line_end};
use crate::scan_laws::law_block_end;
use crate::specifier::is_quote;
use crate::text::{begins, is_white, occurs_at};
use crate::text_laws::law_trimmed_start;
use crate::utf8::lemma_encode_concat;
use vstd::prelude::*;
use vstd::utf8::{encode_utf8, is_ascii_chars_encode_utf8};

verus! {

/// A literal goes to the next quote of its kind on its line.
pub proof fn law_closing_quote(before: Seq<char>, q: char, text: Seq<char>, rest: Seq<char>)
    requires
        q == '"' || q == '\'',
        !text.contains(q),
        !text.contains('\\'),
        !text.contains('\n'),
    ensures
        closing_quote(before + text + seq![q] + rest, q, before.len() as int) == Some(
            before.len() as int + text.len(),
        ),
        closing_quote(before + text + seq!['\n'] + rest, q, before.len() as int) is None,
        closing_quote(before + text, q, before.len() as int) is None,
{
    let s = before + text + seq![q] + rest;
    let n = before.len() as int;
    let e = n + text.len();
    assert forall|k: int| n <= k < e implies s[k] != q && s[k] != '\\' && s[k] != '\n' by {
        assert(s[k] == text[k - n]);
    }
    lemma_closing_quote_is(s, q, n, e);
    let t = before + text + seq!['\n'] + rest;
    assert forall|k: int| n <= k < e implies t[k] != q && t[k] != '\\' && t[k] != '\n' by {
        assert(t[k] == text[k - n]);
    }
    assert(t[e] == '\n');
    lemma_no_closing_quote(t, q, n, e);
    let u = before + text;
    assert forall|k: int| n <= k < e implies u[k] != q && u[k] != '\\' && u[k] != '\n' by {
        assert(u[k] == text[k - n]);
    }
    lemma_no_closing_quote(u, q, n, e);
}

proof fn lemma_no_closing_quote(s: Seq<char>, q: char, j: int, e: int)
    requires
        0 <= j <= e <= s.len(),
        q != '\n',
        e < s.len() ==> s[e] == '\n',
        forall|k: int| j <= k < e ==> s[k] != q && s[k] != '\\' && s[k] != '\n',
    ensures
        closing_quote(s, q, j) is None,
    decreases e - j,
{
    if j < e {
        lemma_no_closing_quote(s, q, j + 1, e);
    }
}

/// A backslash takes the character behind it.
pub proof fn law_escaped_characters(s: Seq<char>, q: char, i: int)
    requires
        0 <= i < s.len(),
        s[i] == '\\',
    ensures
        closing_quote(s, q, i) == closing_quote(s, q, i + 2),
        unescaped(s, q, i) == unescaped(s, q, i + 2),
{
}

/// A comment is one token, and so is a literal; a quote that nothing closes, and any other character, stands
/// for itself.
pub proof fn law_tokens(s: Seq<char>, i: int)
    requires
        0 <= i < s.len(),
    ensures
        i + 1 < s.len() && s[i] == '/' && s[i + 1] == '/' ==> token_end(s, i) == line_end(s, i + 2),
        i + 1 < s.len() && s[i] == '/' && s[i + 1] == '*' ==> token_end(s, i) == block_end(s, i + 2),
        (s[i] == '"' || s[i] == '\'') && closing_quote(s, s[i], i + 1) is Some ==> token_end(s, i)
            == closing_quote(s, s[i], i + 1)->0 + 1,
        (s[i] == '"' || s[i] == '\'') && closing_quote(s, s[i], i + 1) is None ==> token_end(s, i)
            == i + 1,
        s[i] != '/' && s[i] != '"' && s[i] != '\'' ==> token_end(s, i) == i + 1,
{
}

proof fn lemma_gap_over_white(s: Seq<char>, i: int, m: int)
    requires
        0 <= i <= m <= s.len(),
        forall|k: int| i <= k < m ==> is_white(#[trigger] s[k]),
    ensures
        gap_end(s, i) == gap_end(s, m),
    decreases m - i,
{
    if i < m {
        assert(is_white(s[i]));
        lemma_gap_over_white(s, i + 1, m);
    }
}

/// White space and comments are passed over; nothing else is.
pub proof fn law_gaps(before: Seq<char>, blank: Seq<char>, text: Seq<char>, rest: Seq<char>)
    requires
        all_white(blank),
    ensures
        gap_end(before + blank + rest, before.len() as int) == gap_end(
            before + blank + rest,
            before.len() as int + blank.len(),
        ),
        rest.len() > 0 && !is_white(rest[0]) && rest[0] != '/' ==> gap_end(
            before + blank + rest,
            before.len() as int,
        ) == before.len() + blank.len(),
        !text.contains('*') ==> gap_end(
            before + (seq!['/', '*'] + text + seq!['*', '/'] + rest),
            before.len() as int,
        ) == gap_end(
            before + (seq!['/', '*'] + text + seq!['*', '/'] + rest),
            before.len() as int + text.len() + 4,
        ),
{
    let s = before + blank + rest;
    let n = before.len() as int;
    let m = n + blank.len();
    assert forall|k: int| n <= k < m implies is_white(#[trigger] s[k]) by {
        assert(s[k] == blank[k - n]);
        assert(is_white(blank[k - n]));
    }
    lemma_gap_over_white(s, n, m);
    if rest.len() > 0 {
        assert(s[m] == rest[0]);
    }
    if !text.contains('*') {
        let t = before + (seq!['/', '*'] + text + seq!['*', '/'] + rest);
        let p = before + seq!['/', '*'];
        assert(t =~= p + text + seq!['*', '/'] + rest);
        assert forall|i: int| #![auto] 0 <= i < text.len() implies !crate::scan::pair_at(
            text + seq!['*'],
            i,
            '*',
            '/',
        ) by {
            assert((text + seq!['*'])[i] == text[i]);
        }
        law_block_end(p, text, rest);
        assert(t[n] == '/' && t[n + 1] == '*');
        assert(token_end(t, n) == n + 4 + text.len());
    }
}

/// The word `from`, not part of a longer one, with a quote behind it and only white space between, names the
/// module.
pub proof fn law_from(before: Seq<char>, blank: Seq<char>, c: char, rest: Seq<char>)
    requires
        all_white(blank),
        !is_white(c),
    ensures
        from_at(before + ("from"@ + (blank + (seq![c] + rest))), before.len() as int) == ((c == '"' || c
            == '\'') && (before.len() == 0 || !is_ident(before.last()))),
{
    reveal_strlit("from");
    let v = seq![c] + rest;
    let u = blank + v;
    let s = before + ("from"@ + u);
    let n = before.len() as int;
    assert(s.subrange(n, n + 4) =~= "from"@);
    assert(s.skip(n + 4) =~= u);
    law_trimmed_start(blank, v);
    if n > 0 {
        assert(s[n - 1] == before.last());
    }
    if blank.len() > 0 {
        assert(s[n + 4] == blank[0]);
        assert(is_white(blank[0]));
    } else {
        assert(s[n + 4] == c);
    }
}

/// A clause of attributes begins with `with` or `assert`; without one of them there is no type.
pub proof fn law_clauses_need_a_keyword(blank: Seq<char>, c: char, rest: Seq<char>)
    requires
        all_white(blank),
        !is_white(c),
        c != '/' && c != 'w' && c != 'a',
    ensures
        clause_type(blank + (seq![c] + rest)) is None,
        clause_type(seq![]) is None,
{
    reveal_strlit("with");
    reveal_strlit("assert");
    let s = blank + (seq![c] + rest);
    law_gaps(seq![], blank, seq![], seq![c] + rest);
    assert(seq![] + blank + (seq![c] + rest) =~= s);
    let n = blank.len() as int;
    assert(s[n] == c);
    if occurs_at(s, "with"@, n) {
        assert(s.subrange(n, n + 4)[0] == s[n]);
    }
    if occurs_at(s, "assert"@, n) {
        assert(s.subrange(n, n + 6)[0] == s[n]);
    }
}

/// The name of the attribute may stand in quotes.
pub proof fn law_quoted_attribute_name(before: Seq<char>, q: char, rest: Seq<char>)
    requires
        q == '"' || q == '\'',
    ensures
        type_name_end(before + (seq![q] + "type"@ + seq![q] + rest), before.len() as int) == Some(
            before.len() as int + 6,
        ),
{
    reveal_strlit("type");
    let s = before + (seq![q] + "type"@ + seq![q] + rest);
    let n = before.len() as int;
    assert(s.subrange(n + 1, n + 5) =~= "type"@);
    assert(s[n] == q && s[n + 5] == q);
}

/// A name that only begins or ends with `type` is another name.
pub proof fn law_other_attribute_names(before: Seq<char>, c: char, rest: Seq<char>)
    requires
        is_ident(c),
    ensures
        type_name_end(before + ("type"@ + seq![c] + rest), before.len() as int) is None,
        type_name_end(before.push(c) + ("type"@ + rest), before.len() as int + 1) is None,
{
    reveal_strlit("type");
    let s = before + ("type"@ + seq![c] + rest);
    let n = before.len() as int;
    assert(s[n] == 't');
    assert(s[n + 4] == c);
    let t = before.push(c) + ("type"@ + rest);
    assert(t[n + 1] == 't');
    assert(t[n] == c);
}

/// Quotes are counted one by one; those behind a backslash do not count.
pub proof fn law_counting_quotes(x: char, rest: Seq<char>, c: char)
    requires
        x != '\\',
    ensures
        unescaped(seq![x] + rest, c, 0) == unescaped(rest, c, 0) + (if x == c {
            1int
        } else {
            0
        }),
        unescaped(seq![], c, 0) == 0,
{
    let s = seq![x] + rest;
    assert(s.skip(1) =~= rest);
    lemma_counting_behind(s, c, 1, 0);
}

proof fn lemma_counting_behind(s: Seq<char>, c: char, k: int, i: int)
    requires
        0 <= k <= s.len(),
        0 <= i,
    ensures
        unescaped(s, c, k + i) == unescaped(s.skip(k), c, i),
    decreases s.len() - k - i + 1,
{
    if k + i < s.len() {
        assert(s.skip(k)[i] == s[k + i]);
        lemma_counting_behind(s, c, k, i + 1);
        lemma_counting_behind(s, c, k, i + 2);
    }
}

/// The quotes of a text are balanced where there are some and as many of each kind as make pairs.
pub proof fn law_balanced(s: Seq<char>)
    ensures
        balanced(s) <==> unescaped(s, '"', 0) % 2 == 0 && unescaped(s, '\'', 0) % 2 == 0 && (unescaped(
            s,
            '"',
            0,
        ) > 0 || unescaped(s, '\'', 0) > 0),
{
}

/// The white space within a line.
pub proof fn law_inner_white_space(c: char)
    ensures
        is_inner_white(c) <==> is_white(c) && c != '\n' && c != '\r',
{
}

/// An import ends at the end of the text, at a semicolon, at the end of the line or before its attributes.
pub proof fn law_ends_of_imports(before: Seq<char>, c: char, rest: Seq<char>)
    ensures
        ends_import(before, before.len() as int),
        c == ';' || c == '\n' || c == '\r' ==> ends_import(
            before + (seq![c] + rest),
            before.len() as int,
        ),
        c != ';' && c != '\n' && c != '\r' && c != 'w' && c != 'a' ==> !ends_import(
            before + (seq![c] + rest),
            before.len() as int,
        ),
        !is_ident(c) ==> ends_import(before + ("with"@ + seq![c] + rest), before.len() as int),
        !is_ident(c) ==> ends_import(before + ("assert"@ + seq![c] + rest), before.len() as int),
{
    reveal_strlit("with");
    reveal_strlit("assert");
    let n = before.len() as int;
    let s = before + (seq![c] + rest);
    assert(s[n] == c);
    if occurs_at(s, "with"@, n) {
        assert(s.subrange(n, n + 4)[0] == s[n]);
    }
    if occurs_at(s, "assert"@, n) {
        assert(s.subrange(n, n + 6)[0] == s[n]);
    }
    let w = before + ("with"@ + seq![c] + rest);
    assert(w.subrange(n, n + 4) =~= "with"@);
    assert(w[n + 4] == c);
    let a = before + ("assert"@ + seq![c] + rest);
    assert(a.subrange(n, n + 6) =~= "assert"@);
    assert(a[n + 6] == c);
}

/// `import`, a bracket and only white space between make a dynamic import.
pub proof fn law_dynamic_imports(blank: Seq<char>, c: char, rest: Seq<char>)
    requires
        all_white(blank),
        !is_white(c),
        c != '/',
    ensures
        dynamic_import("import"@ + blank + (seq![c] + rest)) == (c == '('),
{
    reveal_strlit("import");
    let s = "import"@ + blank + (seq![c] + rest);
    assert(s.subrange(0, 6) =~= "import"@);
    law_gaps("import"@, blank, seq![], seq![c] + rest);
    assert(s[6 + blank.len() as int] == c);
}

/// Braces are counted.
pub proof fn law_braces(depth: int, c: char)
    ensures
        depth_behind(depth, '{') == depth + 1,
        depth_behind(depth, '}') == depth - 1,
        c != '{' && c != '}' ==> depth_behind(depth, c) == depth,
{
}

/// A statement ends at a semicolon outside braces, and once its literal was read at the end of the line.
pub proof fn law_ends_of_statements(before: Seq<char>, rest: Seq<char>, closed: bool, depth: int)
    requires
        depth > 0,
    ensures
        statement_end(before + (seq![';'] + rest), 0, closed, before.len() as int) == before.len(),
        statement_end(before + (seq!['\n'] + rest), 0, true, before.len() as int) == before.len(),
        statement_end(before + (seq!['\n'] + rest), 0, false, before.len() as int) == statement_end(
            before + (seq!['\n'] + rest),
            0,
            false,
            before.len() as int + 1,
        ),
        statement_end(before + (seq![';'] + rest), depth, closed, before.len() as int) == statement_end(
            before + (seq![';'] + rest),
            depth,
            closed,
            before.len() as int + 1,
        ),
{
    let n = before.len() as int;
    assert((before + (seq![';'] + rest))[n] == ';');
    assert((before + (seq!['\n'] + rest))[n] == '\n');
}

/// A statement that names an empty specifier asks for nothing.
pub proof fn law_empty_specifiers(s: Seq<char>, is_import: bool)
    requires
        specifier(s) == Some(Seq::<char>::empty()),
    ensures
        requested(s, is_import) is None,
{
}

/// A name made of letters, digits, `_` and `$`.
pub open spec fn is_name(s: Seq<char>) -> bool {
    s.len() > 0 && forall|i: int| 0 <= i < s.len() ==> is_ident(#[trigger] s[i])
}

/// A specifier that can stand between quotes as it is.
pub open spec fn is_plain_specifier(spec: Seq<char>, quote: char) -> bool {
    spec.len() > 0 && !spec.contains(quote) && !spec.contains('\\') && !spec.contains('\n')
}

proof fn lemma_runs_on_plain(s: Seq<char>, i: int)
    requires
        0 <= i <= s.len(),
        forall|k: int|
            0 <= k < s.len() ==> !is_quote(#[trigger] s[k]) && s[k] != '/' && s[k] != ';' && s[k] != '{'
                && s[k] != '}',
    ensures
        runs_on(s, 0, false, i) == Some((0int, false)),
    decreases s.len() - i,
{
    if i < s.len() {
        assert(!is_quote(s[i]));
        lemma_token_end(s, i);
        lemma_runs_on_plain(s, i + 1);
    }
}

/// `import name from "spec";` asks for the module `spec`, without a type; what follows is read on its own.
#[verifier::rlimit(40)]
pub proof fn law_default_import_asks(name: Seq<char>, quote: char, spec: Seq<char>, rest: Seq<char>)
    requires
        is_name(name),
        quote == '"' || quote == '\'',
        is_plain_specifier(spec, quote),
    ensures
        requests("import "@ + name + " from "@ + seq![quote] + spec + seq![quote, ';'] + rest) == seq![
            (spec, None::<Seq<char>>),
        ] + requests(rest),
{
    reveal_strlit("import ");
    reveal_strlit("import");
    reveal_strlit(" from ");
    reveal_strlit("from");
    let head = "import "@ + name + seq![' '];
    let blank = seq![' '];
    let clause = Seq::<char>::empty();
    let tail = seq![';'] + rest;
    let s = from_statement(head, blank, quote, spec, clause);
    assert("import "@ + name + " from "@ + seq![quote] + spec + seq![quote, ';'] + rest =~= s + tail);
    assert(tail.skip(1) =~= rest);
    assert forall|k: int| 0 <= k < head.len() implies !is_quote(#[trigger] head[k]) && head[k] != '/'
        && head[k] != ';' && head[k] != '{' && head[k] != '}' by {
        if 7 <= k < 7 + name.len() {
            assert(head[k] == name[k - 7]);
            assert(is_ident(name[k - 7]));
        }
    }
    lemma_runs_on_plain(head, 0);
    assert(s.subrange(0, 6) =~= "import"@);
    assert(s[6] == ' ');
    assert(s.skip(6)[0] == ' ');
    assert(is_ident(name[0]));
    assert(s =~= "import"@ + seq![' '] + (name + s.skip(7 + name.len() as int)));
    law_gaps("import"@, seq![' '], seq![], name + s.skip(7 + name.len() as int));
    assert(s[7] == name[0]);
    assert(begins_request(s));
    assert(clause + tail =~= tail);
    assert(tail =~= seq![] + (seq![';'] + rest));
    law_ends_of_statements(seq![], rest, true, 1);
    let t = from_statement(head, blank, quote, spec, clause + tail);
    assert(t.subrange(0, 6) =~= "import"@);
    lemma_import_is_no_export(t);
    law_clauses_need_a_keyword(seq![], ';', rest);
    law_imports_are_found(head, blank, quote, spec, clause, tail);
}

/// `import "spec";` asks for the module `spec`, without a type; what follows is read on its own.
pub proof fn law_plain_import_asks(quote: char, spec: Seq<char>, rest: Seq<char>)
    requires
        quote == '"' || quote == '\'',
        is_plain_specifier(spec, quote),
    ensures
        requests("import "@ + seq![quote] + spec + seq![quote, ';'] + rest) == seq![
            (spec, None::<Seq<char>>),
        ] + requests(rest),
{
    reveal_strlit("import ");
    reveal_strlit("import");
    let blank = seq![' '];
    let clause = Seq::<char>::empty();
    let tail = seq![';'] + rest;
    let s = bare_statement(blank, quote, spec, clause);
    assert("import "@ + seq![quote] + spec + seq![quote, ';'] + rest =~= s + tail);
    assert(tail.skip(1) =~= rest);
    assert(past_blanks(clause, true, 0) == 0);
    assert(clause + tail =~= tail);
    assert(tail =~= seq![] + (seq![';'] + rest));
    law_ends_of_statements(seq![], rest, true, 1);
    law_clauses_need_a_keyword(seq![], ';', rest);
    law_bare_imports_are_found(blank, quote, spec, clause, tail);
}

proof fn lemma_plain_in_braces(s: Seq<char>, closed: bool, i: int, j: int)
    requires
        0 <= i <= j <= s.len(),
        forall|k: int|
            i <= k < j ==> !is_quote(#[trigger] s[k]) && s[k] != '/' && s[k] != '{' && s[k] != '}',
    ensures
        statement_end(s, 1, closed, i) == statement_end(s, 1, closed, j),
    decreases j - i,
{
    if i < j {
        assert(!is_quote(s[i]));
        lemma_token_end(s, i);
        lemma_plain_in_braces(s, closed, i + 1, j);
    }
}

/// The clause ` with { type: "ty" }`.
pub open spec fn with_type(quote: char, ty: Seq<char>) -> Seq<char> {
    " with { type: "@ + seq![quote] + ty + seq![quote, ' ', '}']
}

proof fn lemma_with_type(quote: char, ty: Seq<char>)
    requires
        quote == '"' || quote == '\'',
        is_plain_specifier(ty, quote),
    ensures
        clause_type(with_type(quote, ty)) == Some(ty),
{
    let c = with_type(quote, ty);
    let blanks = (seq![' '], seq![' '], seq![' '], Seq::<char>::empty(), seq![' ']);
    let head = blanks.0 + "with"@ + blanks.1 + seq!['{'] + blanks.2 + "type"@ + blanks.3 + seq![':']
        + blanks.4;
    assert(head =~= " with { type: "@) by {
        reveal_strlit(" with { type: ");
        reveal_strlit("with");
        reveal_strlit("type");
    }
    assert(" with { type: "@ + seq![quote] + ty + seq![quote] + seq![' ', '}'] =~= c);
    law_clause_gives_the_type("with"@, blanks, quote, ty, seq![' ', '}']);
}

proof fn lemma_with_type_letters(quote: char, ty: Seq<char>, tail: Seq<char>)
    requires
        quote == '"' || quote == '\'',
        is_plain_specifier(ty, quote),
    ensures
        ({
            let s = with_type(quote, ty) + tail;
            let m = 15 + ty.len() as int;
            &&& forall|k: int|
                0 <= k < 14 && k != 6 ==> !is_quote(#[trigger] s[k]) && s[k] != '/' && s[k] != ';'
                    && s[k] != '{' && s[k] != '}' && s[k] != '\n' && s[k] != 'f'
            &&& s[6] == '{'
            &&& s[14] == quote
            &&& s[m + 1] == ' ' && s[m + 2] == '}'
            &&& s.len() == m + 3 + tail.len()
            &&& s.skip(m + 3) == tail
            &&& token_end(s, 14) == m + 1
        }),
{
    reveal_strlit(" with { type: ");
    let before = " with { type: "@ + seq![quote];
    let s = with_type(quote, ty) + tail;
    assert(s =~= before + ty + seq![quote] + (seq![' ', '}'] + tail));
    law_closing_quote(before, quote, ty, seq![' ', '}'] + tail);
    assert(s.skip(18 + ty.len() as int) =~= tail);
}

proof fn lemma_with_type_names_nothing(quote: char, ty: Seq<char>)
    requires
        quote == '"' || quote == '\'',
        is_plain_specifier(ty, quote),
    ensures
        last_from(with_type(quote, ty), 0) is None,
{
    let c = with_type(quote, ty);
    let m = 15 + ty.len() as int;
    lemma_with_type_letters(quote, ty, seq![]);
    assert(c + seq![] =~= c);
    lemma_plain_from(c, 0, 14);
    assert(!from_at(c, 14)) by {
        reveal_strlit("from");
        if occurs_at(c, "from"@, 14) {
            assert(c.subrange(14, 18)[0] == c[14]);
        }
    }
    lemma_token_end(c, 14);
    lemma_plain_from(c, m + 1, m + 3);
    assert(last_from(c, m + 3) is None);
}

proof fn lemma_with_type_ends(quote: char, ty: Seq<char>, tail: Seq<char>)
    requires
        quote == '"' || quote == '\'',
        is_plain_specifier(ty, quote),
        tail.len() > 0 && tail[0] == ';',
    ensures
        statement_end(with_type(quote, ty) + tail, 0, true, 0) == with_type(quote, ty).len(),
{
    let s = with_type(quote, ty) + tail;
    let m = 15 + ty.len() as int;
    lemma_with_type_letters(quote, ty, tail);
    lemma_plain_statement(s, true, 0, 6);
    lemma_token_end(s, 6);
    assert(statement_end(s, 0, true, 6) == statement_end(s, 1, true, 7));
    lemma_plain_in_braces(s, true, 7, 14);
    lemma_token_end(s, 14);
    assert(statement_end(s, 1, true, 14) == statement_end(s, 1, true, m + 1));
    lemma_plain_in_braces(s, true, m + 1, m + 2);
    lemma_token_end(s, m + 2);
    assert(statement_end(s, 1, true, m + 2) == statement_end(s, 0, true, m + 3));
    assert(s[m + 3] == s.skip(m + 3)[0]);
}

/// `import name from "spec" with { type: "ty" };` asks for the module `spec` with the type `ty`.
#[verifier::rlimit(40)]
pub proof fn law_typed_import_asks(
    name: Seq<char>,
    quote: char,
    spec: Seq<char>,
    ty: Seq<char>,
    rest: Seq<char>,
)
    requires
        is_name(name),
        quote == '"' || quote == '\'',
        is_plain_specifier(spec, quote),
        is_plain_specifier(ty, quote),
    ensures
        requests(
            "import "@ + name + " from "@ + seq![quote] + spec + seq![quote] + with_type(quote, ty)
                + seq![';'] + rest,
        ) == seq![(spec, Some(ty))] + requests(rest),
{
    reveal_strlit("import ");
    reveal_strlit("import");
    reveal_strlit(" from ");
    reveal_strlit("from");
    let head = "import "@ + name + seq![' '];
    let blank = seq![' '];
    let clause = with_type(quote, ty);
    let tail = seq![';'] + rest;
    let s = from_statement(head, blank, quote, spec, clause);
    assert("import "@ + name + " from "@ + seq![quote] + spec + seq![quote] + clause + seq![';'] + rest
        =~= s + tail);
    assert(tail.skip(1) =~= rest);
    assert forall|k: int| 0 <= k < head.len() implies !is_quote(#[trigger] head[k]) && head[k] != '/'
        && head[k] != ';' && head[k] != '{' && head[k] != '}' by {
        if 7 <= k < 7 + name.len() {
            assert(head[k] == name[k - 7]);
            assert(is_ident(name[k - 7]));
        }
    }
    lemma_runs_on_plain(head, 0);
    assert(s.subrange(0, 6) =~= "import"@);
    assert(s[6] == ' ');
    assert(s.skip(6)[0] == ' ');
    assert(is_ident(name[0]));
    assert(s =~= "import"@ + seq![' '] + (name + s.skip(7 + name.len() as int)));
    law_gaps("import"@, seq![' '], seq![], name + s.skip(7 + name.len() as int));
    assert(s[7] == name[0]);
    assert(begins_request(s));
    lemma_with_type(quote, ty);
    lemma_with_type_names_nothing(quote, ty);
    lemma_with_type_ends(quote, ty, tail);
    let t = from_statement(head, blank, quote, spec, clause + tail);
    assert(t.subrange(0, 6) =~= "import"@);
    lemma_import_is_no_export(t);
    law_imports_are_found(head, blank, quote, spec, clause, tail);
}

/// What a literal holds asks for nothing, whatever it looks like.
pub proof fn law_literal_asks_for_nothing(quote: char, text: Seq<char>, rest: Seq<char>)
    requires
        quote == '"' || quote == '\'',
        !text.contains(quote),
        !text.contains('\\'),
        !text.contains('\n'),
    ensures
        requests(seq![quote] + text + seq![quote, ';'] + rest) == requests(rest),
{
    let code = seq![quote] + text + seq![quote, ';'];
    lemma_quoted_bytes(quote, text);
    let a = encode_utf8(code);
    let t = encode_utf8(text);
    let q = quote as u8;
    lemma_no_byte(text, quote);
    lemma_no_byte(text, '\\');
    lemma_no_byte(text, '\n');
    assert(!t.contains(q) && !t.contains(10) && !t.contains(0x5c));
    assert(a =~= seq![q] + t + seq![q] + seq![0x3bu8]);
    law_string_stop(seq![q], q, t, q, seq![0x3bu8]);
    let n = a.len() as int;
    assert(a[n - 1] == 0x3b);
    assert(asks_nothing(a, n));
    lemma_semicolon_asks_nothing(a, n - 1);
    assert(a[0] == q);
    assert(asks_nothing(a, 0));
    law_where_statements_begin(a.take(n - 1), 0x3b, seq![]);
    assert(a.take(n - 1).push(0x3b) + seq![] =~= a);
    law_code_asks_for_nothing(code, rest);
}

proof fn lemma_semicolon_asks_nothing(a: Seq<u8>, i: int)
    requires
        0 <= i,
        i + 1 == a.len(),
        a[i] == 0x3b,
    ensures
        asks_nothing(a, i),
{
    reveal_strlit("import");
    reveal_strlit("export");
    assert(asks_nothing(a, i + 1));
}

/// What a template without code holds asks for nothing.
pub proof fn law_template_asks_for_nothing(text: Seq<char>, rest: Seq<char>)
    requires
        !text.contains('`'),
        !text.contains('\\'),
        !text.contains('$'),
    ensures
        requests(seq!['`'] + text + seq!['`', ';'] + rest) == requests(rest),
{
    let code = seq!['`'] + text + seq!['`', ';'];
    lemma_quoted_bytes('`', text);
    let a = encode_utf8(code);
    let t = encode_utf8(text);
    lemma_no_byte(text, '`');
    lemma_no_byte(text, '\\');
    lemma_no_byte(text, '$');
    assert(!t.contains(0x60) && !t.contains(0x24) && !t.contains(0x5c));
    assert(a =~= seq![0x60u8] + t + seq![0x60u8] + seq![0x3bu8]);
    law_template_text(seq![0x60u8], t, seq![0x3bu8]);
    let n = a.len() as int;
    assert(a[n - 1] == 0x3b);
    lemma_semicolon_asks_nothing(a, n - 1);
    assert(a[0] == 0x60);
    assert(asks_nothing(a, 0));
    law_where_statements_begin(a.take(n - 1), 0x3b, seq![]);
    assert(a.take(n - 1).push(0x3b) + seq![] =~= a);
    law_code_asks_for_nothing(code, rest);
}

proof fn lemma_quoted_bytes(quote: char, text: Seq<char>)
    requires
        quote == '"' || quote == '\'' || quote == '`',
    ensures
        encode_utf8(seq![quote] + text + seq![quote, ';']) == seq![quote as u8] + encode_utf8(text) + seq![
            quote as u8,
            0x3bu8,
        ],
{
    let first = seq![quote];
    let last = seq![quote, ';'];
    assert(first + text + last =~= first + (text + last));
    lemma_encode_concat(first, text + last);
    lemma_encode_concat(text, last);
    is_ascii_chars_encode_utf8(first);
    is_ascii_chars_encode_utf8(last);
    assert(encode_utf8(first) =~= seq![quote as u8]);
    assert(encode_utf8(last) =~= seq![quote as u8, 0x3bu8]);
    assert(encode_utf8(first) + (encode_utf8(text) + encode_utf8(last)) =~= seq![quote as u8]
        + encode_utf8(text) + seq![quote as u8, 0x3bu8]);
}

/// What can stand behind the keywords of statements that name modules.
pub proof fn law_what_keywords_are_followed_by(c: char, d: char, rest: Seq<char>, blank: Seq<char>)
    requires
        all_white(blank),
        !is_white(d) && d != '/',
    ensures
        continues_import(seq![c] + rest) == (is_white(c) || c == '{' || c == '*' || c == '"' || c == '\''
            || c == '(' || (c == '/' && rest.len() > 0 && (rest[0] == '/' || rest[0] == '*'))),
        !continues_import(seq![]),
        continues_export(blank + (seq![d] + rest)) == (d == '*' || d == '{'),
{
    let s = seq![c] + rest;
    assert(s[0] == c);
    if rest.len() > 0 {
        assert(s[1] == rest[0]);
    }
    let t = blank + (seq![d] + rest);
    law_gaps(seq![], blank, seq![], seq![d] + rest);
    assert(seq![] + blank + (seq![d] + rest) =~= t);
    assert(t[blank.len() as int] == d);
}

/// An import without names ends behind its specifier, blanks aside.
pub proof fn law_imports_without_names(quote: char, spec: Seq<char>, blank: Seq<char>, c: char, rest: Seq<char>)
    requires
        quote == '"' || quote == '\'',
        !spec.contains(quote) && !spec.contains('\\') && !spec.contains('\n'),
        forall|i: int| 0 <= i < blank.len() ==> #[trigger] blank[i] == ' ' || blank[i] == '\t',
        c != ' ' && c != '\t' && c != 'w' && c != 'a' && !is_white(c) && c != '/',
    ensures
        bare_import("import "@ + seq![quote] + spec + seq![quote] + (blank + (seq![c] + rest)), false) == (
        c == ';'),
        bare_import("import "@ + seq![quote] + spec + seq![quote] + blank, false),
{
    lemma_bare(quote, spec, blank, seq![c] + rest);
    let s = "import "@ + seq![quote] + spec + seq![quote] + (blank + (seq![c] + rest));
    let before = "import "@ + seq![quote] + spec + seq![quote] + blank;
    assert(s =~= before + (seq![c] + rest));
    law_ends_of_imports(before, c, rest);
    lemma_bare(quote, spec, blank, seq![]);
    assert("import "@ + seq![quote] + spec + seq![quote] + (blank + seq![]) =~= before);
    law_ends_of_imports(before, c, rest);
}

proof fn lemma_bare(quote: char, spec: Seq<char>, blank: Seq<char>, rest: Seq<char>)
    requires
        quote == '"' || quote == '\'',
        !spec.contains(quote) && !spec.contains('\\') && !spec.contains('\n'),
        forall|i: int| 0 <= i < blank.len() ==> #[trigger] blank[i] == ' ' || blank[i] == '\t',
        rest.len() > 0 ==> !is_white(rest[0]),
    ensures
        ({
            let before = "import "@ + seq![quote] + spec + seq![quote];
            let s = before + (blank + rest);
            bare_import(s, false) == ends_import(s, before.len() as int + blank.len())
        }),
{
    reveal_strlit("import ");
    reveal_strlit("import");
    let before = "import "@ + seq![quote] + spec + seq![quote];
    let s = before + (blank + rest);
    assert(s.subrange(0, 6) =~= "import"@);
    let behind = seq![quote] + spec + seq![quote] + (blank + rest);
    assert(s =~= "import"@ + seq![' '] + behind);
    law_gaps("import"@, seq![' '], seq![], behind);
    assert(behind[0] == quote);
    assert(gap_end(s, 6) == 7);
    assert(s[7] == quote);
    let head = "import "@ + seq![quote];
    assert(s =~= head + spec + seq![quote] + (blank + rest));
    law_closing_quote(head, quote, spec, blank + rest);
    let n = before.len() as int;
    assert forall|k: int| n <= k < n + blank.len() implies is_inner_white(#[trigger] s[k]) by {
        assert(s[k] == blank[k - n]);
        assert(blank[k - n] == ' ' || blank[k - n] == '\t');
    }
    if rest.len() > 0 {
        assert(s[n + blank.len()] == rest[0]);
    }
    lemma_past_inner_white(s, n, n + blank.len());
}

proof fn lemma_past_inner_white(s: Seq<char>, i: int, m: int)
    requires
        0 <= i <= m <= s.len(),
        forall|k: int| i <= k < m ==> is_inner_white(#[trigger] s[k]),
        m < s.len() ==> !is_inner_white(s[m]),
    ensures
        past_blanks(s, false, i) == m,
    decreases m - i,
{
    if i < m {
        assert(is_inner_white(s[i]));
        lemma_past_inner_white(s, i + 1, m);
    }
}

/// The value of the attribute stands in quotes behind a colon.
pub proof fn law_value_of_the_attribute(
    before: Seq<char>,
    first: Seq<char>,
    c: char,
    second: Seq<char>,
    q: char,
    rest: Seq<char>,
)
    requires
        before.len() == 0 || !is_ident(before.last()),
        all_white(first) && all_white(second),
        !is_ident(c) && !is_white(c) && c != '/',
        !is_white(q) && q != '/',
    ensures
        type_value(before + ("type"@ + first + seq![c] + second + seq![q] + rest), before.len() as int)
            == if c == ':' && (q == '"' || q == '\'') {
            Some(before.len() as int + 5 + first.len() + second.len())
        } else {
            None
        },
{
    reveal_strlit("type");
    let s = before + ("type"@ + first + seq![c] + second + seq![q] + rest);
    let n = before.len() as int;
    let e = n + 4;
    let p = e + first.len();
    let v = p + 1 + second.len();
    assert(s.subrange(n, n + 4) =~= "type"@);
    assert(s[n] == 't');
    if n > 0 {
        assert(s[n - 1] == before.last());
    }
    if first.len() > 0 {
        assert(s[e] == first[0]);
        assert(is_white(first[0]));
    } else {
        assert(s[e] == c);
    }
    assert(type_name_end(s, n) == Some(e));
    let head = before + "type"@;
    assert(s =~= head + first + (seq![c] + second + seq![q] + rest));
    law_gaps(head, first, seq![], seq![c] + second + seq![q] + rest);
    assert(s[p] == c);
    assert(gap_end(s, e) == p);
    let colon = head + first + seq![c];
    assert(s =~= colon + second + (seq![q] + rest));
    law_gaps(colon, second, seq![], seq![q] + rest);
    assert(gap_end(s, p + 1) == v);
    assert(s[v] == q);
}

} // verus!

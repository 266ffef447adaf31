//! Lists of names that a module exports: with `from` they ask for a module, without it for nothing.

use crate::qjs::composition::{
    all_white, from_statement, law_imports_are_found, lemma_closing_quote_in_end, lemma_first_byte,
    lemma_from_at, lemma_gap_end, lemma_gap_in_end, lemma_keyword, lemma_requests_in_end,
    lemma_token_in_end, lemma_token_in_head, lemma_white_gap, runs_on, whole_token,
};
use crate::qjs::imports::{
    export_at, list_close, own_list_close, requests, requests_from, statement_end, text_from,
    word_at,
};
use crate::qjs::lexer::CLOSE_BRACE;
use crate::qjs::request::{
    clause_type, from_at, gap_end, last_from, lemma_closing_quote, lemma_token_end, token_end,
};
use crate::scan::{block_end, is_ident, line_end, pair_at};
use crate::specifier::is_quote;
use crate::text::{begins, is_white};
use crate::utf8::{byte_offset, lemma_ascii, lemma_bytes_before, lemma_character};
use vstd::prelude::*;
use vstd::utf8::{encode_utf8, encode_utf8_decode_utf8};

verus! {

/// `s` holds names, read from `i` on: no braces, and no comment or literal that is not ended.
pub open spec fn is_name_list(s: Seq<char>, i: int) -> bool
    decreases s.len() - i,
{
    if i < 0 || i >= s.len() {
        true
    } else {
        proof {
            lemma_token_end(s, i);
        }
        s[i] != '{' && s[i] != '}' && whole_token(s, i) && is_name_list(s, token_end(s, i))
    }
}

/// An exported list of names, with white space before its brace.
pub open spec fn export_list(blank: Seq<char>, names: Seq<char>) -> Seq<char> {
    "export"@ + blank + seq!['{'] + names + seq!['}']
}

/// What is whole in a part of a text is whole in the text, and ends there.
proof fn lemma_whole_in(s: Seq<char>, t: Seq<char>, at: int, i: int)
    requires
        0 <= at,
        at + t.len() <= s.len(),
        s.subrange(at, at + t.len()) == t,
        0 <= i < t.len(),
        whole_token(t, i),
    ensures
        whole_token(s, at + i),
        token_end(s, at + i) == at + token_end(t, i),
{
    let u = s.skip(at);
    assert(u.take(t.len() as int) =~= t);
    lemma_token_in_head(t, u, i);
    lemma_token_in_end(s, at, i);
    lemma_token_end(t, i);
    assert(s[at + i] == t[i]) by {
        assert(s.subrange(at, at + t.len())[i] == s[at + i]);
    }
    if i + 1 < t.len() {
        assert(s[at + i + 1] == t[i + 1]) by {
            assert(s.subrange(at, at + t.len())[i + 1] == s[at + i + 1]);
        }
    }
    let e = token_end(t, i);
    if pair_at(t, i, '/', '*') {
        assert(s.subrange(at, at + t.len())[e - 2] == s[at + e - 2]);
        assert(s.subrange(at, at + t.len())[e - 1] == s[at + e - 1]);
        assert(pair_at(s, at + i, '/', '*'));
        assert(block_end(s, at + i + 2) == at + e);
    } else if pair_at(t, i, '/', '/') {
        assert(pair_at(s, at + i, '/', '/'));
        assert(line_end(s, at + i + 2) == at + e);
    } else if is_quote(t[i]) {
        lemma_closing_quote(t, t[i], i + 1);
        crate::qjs::composition::lemma_closing_quote_in_head(t, u, t[i], i + 1);
        lemma_closing_quote_in_end(s, at, t[i], i + 1);
    }
}

/// A list of names is read through to its end, by the search for the end of the statement and by the
/// search for the brace.
proof fn lemma_names_are_read(s: Seq<char>, names: Seq<char>, at: int, i: int)
    requires
        0 <= at,
        at + names.len() <= s.len(),
        s.subrange(at, at + names.len()) == names,
        0 <= i <= names.len(),
        is_name_list(names, i),
    ensures
        runs_on(s, 1, false, at + i) == runs_on(s, 1, false, at + names.len()),
        list_close(s, at + i) == list_close(s, at + names.len()),
    decreases names.len() - i,
{
    if i < names.len() {
        assert(s.subrange(at, at + names.len())[i] == s[at + i]);
        lemma_token_end(names, i);
        lemma_whole_in(s, names, at, i);
        lemma_names_are_read(s, names, at, token_end(names, i));
    }
}

/// Characters of no meaning are read through.
proof fn lemma_plain_runs_on(s: Seq<char>, i: int, j: int)
    requires
        0 <= i <= j <= s.len(),
        forall|k: int|
            i <= k < j ==> !is_quote(#[trigger] s[k]) && s[k] != '/' && s[k] != ';' && s[k] != '{'
                && s[k] != '}',
    ensures
        runs_on(s, 0, false, i) == runs_on(s, 0, false, j),
    decreases j - i,
{
    if i < j {
        lemma_plain_runs_on(s, i + 1, j);
    }
}

/// Where the parts of a text stand that begins with an exported list.
proof fn lemma_list_parts(blank: Seq<char>, names: Seq<char>, rest: Seq<char>)
    requires
        all_white(blank),
        is_name_list(names, 0),
    ensures
        ({
            let s = export_list(blank, names) + rest;
            let o = 6 + blank.len() as int;
            let c = o + 1 + names.len();
            &&& s.len() == c + 1 + rest.len()
            &&& begins(s, "export"@)
            &&& forall|k: int|
                0 <= k < o ==> !is_quote(#[trigger] s[k]) && s[k] != '/' && s[k] != ';' && s[k] != '{'
                    && s[k] != '}'
            &&& gap_end(s, 6) == o
            &&& gap_end(s.skip(6), 0) == o - 6
            &&& s[o] == '{'
            &&& s.subrange(o + 1, c) == names
            &&& s[c] == '}'
            &&& s.skip(c + 1) == rest
            &&& list_close(s, o + 1) == Some(c)
        }),
{
    reveal_strlit("export");
    let s = export_list(blank, names) + rest;
    let o = 6 + blank.len() as int;
    let c = o + 1 + names.len();
    assert(s.subrange(0, 6) =~= "export"@);
    assert(s.subrange(6, o) =~= blank);
    assert(s.subrange(o + 1, c) =~= names);
    assert(s.skip(c + 1) =~= rest);
    lemma_white_gap(s, 6, o);
    lemma_gap_in_end(s, 6, 0);
    lemma_names_are_read(s, names, o + 1, 0);
    assert forall|k: int| 0 <= k < o implies !is_quote(#[trigger] s[k]) && s[k] != '/' && s[k] != ';'
        && s[k] != '{' && s[k] != '}' by {
        if k < 6 {
            assert(s[k] == "export"@[k]);
        } else {
            assert(s[k] == blank[k - 6]);
            assert(is_white(blank[k - 6]));
        }
    }
}

/// An exported list behind which no `from` introduces a module asks for nothing: what follows is asked for.
pub proof fn law_export_list_asks_for_nothing(blank: Seq<char>, names: Seq<char>, rest: Seq<char>)
    requires
        all_white(blank),
        is_name_list(names, 0),
        !from_at(rest, gap_end(rest, 0)),
    ensures
        requests(export_list(blank, names) + rest) == requests(rest),
{
    reveal_strlit("export");
    reveal_strlit("import");
    let s = export_list(blank, names) + rest;
    let o = 6 + blank.len() as int;
    let c = o + 1 + names.len();
    let b = encode_utf8(s);
    lemma_list_parts(blank, names, rest);
    lemma_gap_in_end(s, c + 1, 0);
    lemma_gap_end(rest, 0);
    lemma_from_in_end(s, c + 1, gap_end(rest, 0));
    assert(own_list_close(s) == Some(c));
    assert(b.subrange(0, b.len() as int) =~= b);
    encode_utf8_decode_utf8(s);
    assert(text_from(b, 0) == s);
    lemma_keyword(s, "export"@);
    assert(b[0] as u32 == "export"@[0] as u32);
    if word_at(b, "import"@, 0) {
        assert(b[0] as u32 == "import"@[0] as u32);
    }
    if begins(s, "import"@) {
        assert(s.subrange(0, 6)[0] == 'i');
    }
    lemma_bytes_before(s, 6);
    assert(b.subrange(6, b.len() as int) =~= b.skip(6));
    encode_utf8_decode_utf8(s.skip(6));
    assert(text_from(b, 6) == s.skip(6));
    assert(s.skip(6)[o - 6] == '{');
    assert(export_at(b, 0));
    let e = byte_offset(s, c);
    lemma_ascii(s, c);
    lemma_character(s, c);
    lemma_bytes_before(s, c + 1);
    assert(requests_from(b, 0) == requests_from(b, e + 1));
    assert(b[e] == CLOSE_BRACE);
    lemma_first_byte(s.skip(c + 1));
    lemma_requests_in_end(b, e + 1, 0);
}

/// The keyword `from` stands in the end of a text where it stands in the text, unless it is the end of a
/// longer word there.
proof fn lemma_from_in_end(s: Seq<char>, k: int, i: int)
    requires
        0 < k <= s.len(),
        0 <= i,
        !is_ident(s[k - 1]),
    ensures
        from_at(s, k + i) == from_at(s.skip(k), i),
{
    let t = s.skip(k);
    reveal_strlit("from");
    if k + i + 4 <= s.len() {
        assert(t.subrange(i, i + 4) =~= s.subrange(k + i, k + i + 4));
        assert(t.skip(i + 4) =~= s.skip(k + i + 4));
    }
}

/// A statement runs on behind a list and white space.
proof fn lemma_list_runs_on(blank: Seq<char>, names: Seq<char>, behind: Seq<char>)
    requires
        all_white(blank) && all_white(behind),
        is_name_list(names, 0),
    ensures
        ({
            let head = export_list(blank, names) + behind;
            &&& head.len() > 0
            &&& !is_ident(head.last())
            &&& runs_on(head, 0, false, 0) == Some((0int, false))
        }),
{
    let head = export_list(blank, names) + behind;
    let o = 6 + blank.len() as int;
    let c = o + 1 + names.len();
    let p = head.len() as int;
    lemma_list_parts(blank, names, behind);
    assert forall|k: int| c + 1 <= k < p implies !is_quote(#[trigger] head[k]) && head[k] != '/'
        && head[k] != ';' && head[k] != '{' && head[k] != '}' && !is_ident(head[k]) by {
        assert(head[k] == behind[k - c - 1]);
        assert(is_white(behind[k - c - 1]));
    }
    assert(!is_ident(head[p - 1]));
    lemma_plain_runs_on(head, 0, o);
    lemma_names_are_read(head, names, o + 1, 0);
    lemma_plain_runs_on(head, c + 1, p);
}

/// A list of names that is exported from another module, at the beginning of a text, is found with the
/// specifier of that module and the type that the clause behind it gives, and then what follows its
/// semicolon or its line.
#[verifier::rlimit(60)]
pub proof fn law_reexports_are_found(
    blank: Seq<char>,
    names: Seq<char>,
    behind: Seq<char>,
    gap: Seq<char>,
    quote: char,
    spec: Seq<char>,
    clause: Seq<char>,
    rest: Seq<char>,
)
    requires
        all_white(blank) && all_white(behind) && all_white(gap),
        is_name_list(names, 0),
        is_quote(quote),
        spec.len() > 0,
        !spec.contains(quote),
        !spec.contains('\\'),
        !spec.contains('\n'),
        last_from(clause, 0) is None,
        statement_end(clause + rest, 0, true, 0) == clause.len(),
        rest.len() == 0 || rest[0] == ';' || rest[0] == '\n',
    ensures
        requests(
            from_statement(export_list(blank, names) + behind, gap, quote, spec, clause) + rest,
        ) == seq![(spec, clause_type(clause))] + (if rest.len() == 0 {
            seq![]
        } else {
            requests(rest.skip(1))
        }),
{
    reveal_strlit("from");
    let list = export_list(blank, names);
    let head = list + behind;
    let o = 6 + blank.len() as int;
    lemma_list_runs_on(blank, names, behind);
    let last = spec + seq![quote] + clause + rest;
    lemma_from_follows(behind, gap, quote, last);
    lemma_list_is_followed(blank, names, behind + "from"@ + gap + seq![quote] + last);
    let whole = from_statement(head, gap, quote, spec, clause + rest);
    assert(whole =~= list + (behind + "from"@ + gap + seq![quote] + last));
    let s = from_statement(head, gap, quote, spec, clause);
    let tail = behind + "from"@ + gap + seq![quote] + spec + seq![quote] + clause;
    assert(s =~= list + tail);
    lemma_list_parts(blank, names, tail);
    assert(s.skip(6)[o - 6] == s[o]);
    law_imports_are_found(head, gap, quote, spec, clause, rest);
}

/// White space, `from`, white space and a quote introduce a module.
proof fn lemma_from_follows(behind: Seq<char>, gap: Seq<char>, quote: char, last: Seq<char>)
    requires
        all_white(behind) && all_white(gap),
        is_quote(quote),
    ensures
        ({
            let rest = behind + "from"@ + gap + seq![quote] + last;
            from_at(rest, gap_end(rest, 0))
        }),
{
    reveal_strlit("from");
    let rest = behind + "from"@ + gap + seq![quote] + last;
    let p = behind.len() as int;
    let m = p + 4 + gap.len();
    assert(rest.subrange(0, p) =~= behind);
    assert(rest[p] == 'f');
    lemma_white_gap(rest, 0, p);
    assert(rest.subrange(p, p + 4) =~= "from"@);
    assert(rest.subrange(p + 4, m) =~= gap);
    if p > 0 {
        assert(rest[p - 1] == behind[p - 1]);
        assert(is_white(behind[p - 1]));
    }
    lemma_from_at(rest, p, m);
}

/// A list that `from` follows is no list of the module's own.
proof fn lemma_list_is_followed(blank: Seq<char>, names: Seq<char>, rest: Seq<char>)
    requires
        all_white(blank),
        is_name_list(names, 0),
        from_at(rest, gap_end(rest, 0)),
    ensures
        own_list_close(export_list(blank, names) + rest) is None,
{
    let s = export_list(blank, names) + rest;
    let c = 7 + blank.len() + names.len() as int;
    lemma_list_parts(blank, names, rest);
    lemma_gap_end(rest, 0);
    lemma_gap_in_end(s, c + 1, 0);
    lemma_from_in_end(s, c + 1, gap_end(rest, 0));
}

} // verus!

//! How the lines of a module are put together to statements.

use crate::jsc::statements::{
    closing_line, gathered, list_end, list_text, opens_list, source_follows, statements,
    statements_from,
};
use crate::text::{
    begins, contains_text, is_white, joined, lines_of, trimmed, trimmed_end, trimmed_start,
    words_of,
};
use crate::text_laws::{all_white, law_search_character, law_trimmed_start};
use vstd::prelude::*;

verus! {

proof fn lemma_first_letter(s: Seq<char>, p: Seq<char>)
    requires
        p.len() > 0,
        begins(s, p),
    ensures
        s.len() >= p.len(),
        forall|i: int| 0 <= i < p.len() ==> s[i] == #[trigger] p[i],
{
    assert forall|i: int| 0 <= i < p.len() implies s[i] == #[trigger] p[i] by {
        assert(s.subrange(0, p.len() as int)[i] == p[i]);
    }
}

/// A line opens a list of names where `import` or `export` stands before a brace that is not closed.
pub proof fn law_open_list(blank: Seq<char>, rest: Seq<char>)
    requires
        all_white(blank),
        !rest.contains('}'),
    ensures
        opens_list("import"@ + (blank + (seq!['{'] + rest))),
        opens_list("export"@ + (blank + (seq!['{'] + rest))),
{
    reveal_strlit("import");
    reveal_strlit("export");
    let v = seq!['{'] + rest;
    let u = blank + v;
    law_trimmed_start(blank, v);
    let s = "import"@ + u;
    let t = "export"@ + u;
    assert(s.subrange(0, 6) =~= "import"@);
    assert(t.subrange(0, 6) =~= "export"@);
    assert(s.skip(6) =~= u);
    assert(t.skip(6) =~= u);
    let n = 6 + blank.len() as int;
    assert(s[n] == '{' && t[n] == '{');
    assert(!u.contains('}')) by {
        if u.contains('}') {
            let i = choose|i: int| 0 <= i < u.len() && u[i] == '}';
            if i < blank.len() {
                assert(is_white(blank[i]));
            } else if i > blank.len() {
                assert(rest[i - blank.len() - 1] == '}');
            }
        }
    }
    assert forall|w: Seq<char>| (w == s || w == t) implies !w.contains('}') by {
        if w.contains('}') {
            let i = choose|i: int| 0 <= i < w.len() && w[i] == '}';
            if i >= 6 {
                assert(u[i - 6] == '}');
            }
        }
    }
}

/// A line opens a list of names too where a default import stands before the brace.
pub proof fn law_open_list_behind_a_name(name: Seq<char>, blank: Seq<char>, rest: Seq<char>)
    requires
        all_white(blank),
        name.len() > 0 && !is_white(name[0]),
        !name.contains(',') && !name.contains('}'),
        !rest.contains('}'),
    ensures
        opens_list("import "@ + (name + seq![','] + (blank + (seq!['{'] + rest)))),
{
    reveal_strlit("import ");
    reveal_strlit("import");
    let w = seq!['{'] + rest;
    let v = blank + w;
    let u = name + seq![','] + v;
    let s = "import "@ + u;
    assert(s.subrange(0, 6) =~= "import"@);
    assert(s.skip(6) =~= seq![' '] + u);
    assert(u[0] == name[0]);
    law_trimmed_start(seq![' '], u);
    law_search_character(name, ',', v);
    assert(u.skip(name.len() as int + 1) =~= v);
    law_trimmed_start(blank, w);
    let n = 7 + name.len() as int + 1 + blank.len();
    assert(s[n] == '{');
    if s.contains('}') {
        let i = choose|i: int| 0 <= i < s.len() && s[i] == '}';
        if i >= 7 {
            if i < 7 + name.len() {
                assert(name[i - 7] == '}');
            } else if i > 7 + name.len() && i < n {
                assert(s[i] == blank[i - 8 - name.len()]);
                assert(is_white(blank[i - 8 - name.len()]));
            } else if i > n {
                assert(rest[i - n - 1] == '}');
            }
        }
    }
}

/// A line in which the braces are closed opens no list, nor does one that begins with another word or has no
/// brace.
pub proof fn law_other_lines_open_no_list(line: Seq<char>)
    ensures
        line.contains('}') ==> !opens_list(line),
        !line.contains('{') ==> !opens_list(line),
        !begins(line, "import"@) && !begins(line, "export"@) ==> !opens_list(line),
{
}

/// An exported declaration or expression opens no list, whatever braces it has.
pub proof fn law_exported_code_opens_no_list(blank: Seq<char>, word: Seq<char>)
    requires
        all_white(blank),
        word.len() > 0 && !is_white(word[0]),
        word[0] != '{',
    ensures
        !opens_list("export"@ + (blank + word)),
{
    reveal_strlit("export");
    reveal_strlit("import");
    let t = "export"@ + (blank + word);
    assert(t.skip(6) =~= blank + word);
    assert(t.subrange(0, 6) =~= "export"@);
    law_trimmed_start(blank, word);
    if begins(t, "import"@) {
        lemma_first_letter(t, "import"@);
        assert("import"@[0] == 'i');
    }
}

/// A list that the next line closes becomes one statement with one space between words; the lines behind it
/// follow.
pub proof fn law_list_on_two_lines(open: Seq<char>, close: Seq<char>, rest: Seq<Seq<char>>)
    requires
        opens_list(trimmed(open)),
        close.contains('}'),
        rest.len() > 0 ==> !begins(trimmed_start(rest[0]), "from "@),
    ensures
        statements_from(seq![open, close] + rest, 0) == seq![
            joined(words_of(trimmed_end(open) + " "@ + trimmed(close) + " "@), " "@),
        ] + statements_from(rest, 0),
{
    let ls = seq![open, close] + rest;
    reveal_strlit(" ");
    assert(ls[0] == open && ls[1] == close);
    assert(closing_line(ls, 1) == 1);
    if rest.len() > 0 {
        assert(ls[2] == rest[0]);
    }
    assert(list_end(ls, 0) == 2);
    reveal_with_fuel(gathered, 2);
    assert(gathered(ls, 1, 1) =~= seq![]);
    assert(list_text(ls, 0, 2) =~= trimmed_end(open) + " "@ + trimmed(close) + " "@);
    lemma_lines_behind(ls, rest, 2, 0);
}

/// A list that the line behind the next one closes, or that goes on with `from` there, takes in all of it.
pub proof fn law_list_on_three_lines(open: Seq<char>, middle: Seq<char>, close: Seq<char>, rest: Seq<Seq<char>>)
    requires
        opens_list(trimmed(open)),
        !middle.contains('}'),
        close.contains('}'),
        rest.len() > 0 ==> !begins(trimmed_start(rest[0]), "from "@),
    ensures
        statements_from(seq![open, middle, close] + rest, 0) == seq![
            joined(
                words_of(trimmed_end(open) + " "@ + trimmed(middle) + " "@ + trimmed(close) + " "@),
                " "@,
            ),
        ] + statements_from(rest, 0),
{
    let ls = seq![open, middle, close] + rest;
    reveal_strlit(" ");
    assert(ls[0] == open && ls[1] == middle && ls[2] == close);
    assert(closing_line(ls, 2) == 2);
    assert(closing_line(ls, 1) == 2);
    if rest.len() > 0 {
        assert(ls[3] == rest[0]);
    }
    assert(list_end(ls, 0) == 3);
    reveal_with_fuel(gathered, 3);
    assert(gathered(ls, 1, 1) =~= seq![]);
    assert(list_text(ls, 0, 3) =~= trimmed_end(open) + " "@ + trimmed(middle) + " "@ + trimmed(close)
        + " "@);
    lemma_lines_behind(ls, rest, 3, 0);
}

/// The source of a list may stand on a line of its own behind it.
pub proof fn law_source_on_its_own_line(open: Seq<char>, close: Seq<char>, source: Seq<char>, rest: Seq<Seq<char>>)
    requires
        opens_list(trimmed(open)),
        close.contains('}'),
        !contains_text(trimmed_end(open) + " "@ + trimmed(close) + " "@, " from "@),
        ({
            let end = trimmed_end(trimmed_end(open) + " "@ + trimmed(close) + " "@);
            end.len() == 0 || end.last() != ';'
        }),
        begins(trimmed_start(source), "from "@),
    ensures
        statements_from(seq![open, close, source] + rest, 0) == seq![
            joined(
                words_of(trimmed_end(open) + " "@ + trimmed(close) + " "@ + trimmed(source) + " "@),
                " "@,
            ),
        ] + statements_from(rest, 0),
{
    let ls = seq![open, close, source] + rest;
    reveal_strlit(" ");
    assert(ls[0] == open && ls[1] == close && ls[2] == source);
    assert(closing_line(ls, 1) == 1);
    reveal_with_fuel(gathered, 3);
    assert(gathered(ls, 1, 1) =~= seq![]);
    assert(list_text(ls, 0, 2) =~= trimmed_end(open) + " "@ + trimmed(close) + " "@);
    assert(source_follows(ls, 0, 1));
    assert(list_end(ls, 0) == 3);
    assert(list_text(ls, 0, 3) =~= trimmed_end(open) + " "@ + trimmed(close) + " "@ + trimmed(source)
        + " "@);
    lemma_lines_behind(ls, rest, 3, 0);
}

/// Any other line is a statement as it stands.
pub proof fn law_line_is_a_statement(line: Seq<char>, rest: Seq<Seq<char>>)
    requires
        !opens_list(trimmed(line)),
    ensures
        statements_from(seq![line] + rest, 0) == seq![line] + statements_from(rest, 0),
        statements_from(seq![], 0) == Seq::<Seq<char>>::empty(),
{
    let ls = seq![line] + rest;
    assert(ls[0] == line);
    lemma_lines_behind(ls, rest, 1, 0);
}

/// The statements of a module are made of its lines from the first on.
pub proof fn law_statements_start_at_the_first_line(s: Seq<char>)
    ensures
        statements(s) == statements_from(lines_of(s), 0),
{
}

proof fn lemma_closing_behind(ls: Seq<Seq<char>>, rest: Seq<Seq<char>>, k: int, j: int)
    requires
        0 <= k <= ls.len(),
        rest == ls.skip(k),
        0 <= j,
    ensures
        closing_line(ls, k + j) == k + closing_line(rest, j),
    decreases rest.len() - j,
{
    if j < rest.len() {
        assert(rest[j] == ls[k + j]);
        if !rest[j].contains('}') {
            lemma_closing_behind(ls, rest, k, j + 1);
        }
    }
}

proof fn lemma_gathered_behind(ls: Seq<Seq<char>>, rest: Seq<Seq<char>>, k: int, a: int, b: int)
    requires
        0 <= k <= ls.len(),
        rest == ls.skip(k),
        0 <= a,
        b <= rest.len(),
    ensures
        gathered(ls, k + a, k + b) == gathered(rest, a, b),
    decreases b - a,
{
    if a < b {
        lemma_gathered_behind(ls, rest, k, a, b - 1);
        assert(rest[b - 1] == ls[k + b - 1]);
    }
}

proof fn lemma_lines_behind(ls: Seq<Seq<char>>, rest: Seq<Seq<char>>, k: int, i: int)
    requires
        0 <= k <= ls.len(),
        rest =~= ls.skip(k),
        0 <= i,
    ensures
        statements_from(ls, k + i) == statements_from(rest, i),
    decreases rest.len() - i,
{
    if i < rest.len() {
        assert(rest[i] == ls[k + i]);
        if opens_list(trimmed(rest[i])) {
            let c = closing_line(rest, i + 1);
            crate::jsc::statements::lemma_closing_line(rest, i + 1);
            lemma_closing_behind(ls, rest, k, i + 1);
            if c < rest.len() {
                lemma_gathered_behind(ls, rest, k, i + 1, c + 1);
                assert(list_text(ls, k + i, k + c + 1) == list_text(rest, i, c + 1));
                if c + 1 < rest.len() {
                    assert(rest[c + 1] == ls[k + c + 1]);
                }
                assert(source_follows(ls, k + i, k + c) == source_follows(rest, i, c));
            }
            let e = list_end(rest, i);
            assert(list_end(ls, k + i) == k + e);
            lemma_gathered_behind(ls, rest, k, i + 1, e);
            lemma_lines_behind(ls, rest, k, e);
        } else {
            lemma_lines_behind(ls, rest, k, i + 1);
        }
    }
}

/// A list that nothing closes takes in all lines.
pub proof fn law_unclosed_list(open: Seq<char>, line: Seq<char>)
    requires
        opens_list(trimmed(open)),
        !line.contains('}'),
    ensures
        statements_from(seq![open, line], 0) == seq![
            joined(words_of(trimmed_end(open) + " "@ + trimmed(line) + " "@), " "@),
        ],
        statements_from(seq![open], 0) == seq![joined(words_of(trimmed_end(open) + " "@), " "@)],
{
    reveal_strlit(" ");
    let ls = seq![open, line];
    assert(ls[0] == open && ls[1] == line);
    assert(closing_line(ls, 2) == 2);
    assert(closing_line(ls, 1) == 2);
    assert(list_end(ls, 0) == 2);
    reveal_with_fuel(gathered, 2);
    assert(gathered(ls, 1, 1) =~= seq![]);
    assert(list_text(ls, 0, 2) =~= trimmed_end(open) + " "@ + trimmed(line) + " "@);
    assert(statements_from(ls, 2) =~= seq![]);
    assert(statements_from(ls, 0) =~= seq![joined(words_of(list_text(ls, 0, 2)), " "@)]);
    let one = seq![open];
    assert(one[0] == open);
    assert(closing_line(one, 1) == 1);
    assert(list_end(one, 0) == 1);
    assert(gathered(one, 1, 1) =~= seq![]);
    assert(list_text(one, 0, 1) =~= trimmed_end(open) + " "@);
    assert(statements_from(one, 1) =~= seq![]);
    assert(statements_from(one, 0) =~= seq![joined(words_of(list_text(one, 0, 1)), " "@)]);
}

/// A list that names its source already, or that a semicolon ends, does not go on with the next line.
pub proof fn law_list_with_a_source_is_over(open: Seq<char>, close: Seq<char>, rest: Seq<Seq<char>>)
    requires
        opens_list(trimmed(open)),
        close.contains('}'),
        contains_text(trimmed_end(open) + " "@ + trimmed(close) + " "@, " from "@) || ({
            let end = trimmed_end(trimmed_end(open) + " "@ + trimmed(close) + " "@);
            end.len() > 0 && end.last() == ';'
        }),
    ensures
        statements_from(seq![open, close] + rest, 0) == seq![
            joined(words_of(trimmed_end(open) + " "@ + trimmed(close) + " "@), " "@),
        ] + statements_from(rest, 0),
{
    let ls = seq![open, close] + rest;
    reveal_strlit(" ");
    assert(ls[0] == open && ls[1] == close);
    assert(closing_line(ls, 1) == 1);
    reveal_with_fuel(gathered, 2);
    assert(gathered(ls, 1, 1) =~= seq![]);
    assert(list_text(ls, 0, 2) =~= trimmed_end(open) + " "@ + trimmed(close) + " "@);
    assert(!source_follows(ls, 0, 1));
    assert(list_end(ls, 0) == 2);
    lemma_lines_behind(ls, rest, 2, 0);
}

} // verus!

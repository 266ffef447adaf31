//! The statements of a module, one to a line.

use crate::text::{
    begins, char_from, chars_of, contains, contains_char, contains_text, copied, find_char,
    find_from, first_from, join, joined, lemma_char_from, lemma_first_from, lemma_trimmed_start,
    lines, lines_of, push_all, starts_with, string_of, strings, tail, texts, trim, trim_end,
    trim_start, trimmed, trimmed_end, trimmed_start, words, words_of,
};
use vstd::prelude::*;

verus! {

/// `s` without white space and block comments at its beginning. A comment that is not closed stays.
pub open spec fn bare(s: Seq<char>) -> Seq<char>
    decreases s.len(),
{
    let t = trimmed_start(s);
    if begins(t, "/*"@) {
        proof {
            lemma_trimmed_start(s);
            lemma_first_from(t, "*/"@, 2);
            reveal_strlit("*/");
        }
        match first_from(t, "*/"@, 2) {
            Some(k) => bare(t.skip(k + 2)),
            None => t,
        }
    } else {
        t
    }
}

/// What `bare` leaves is the end of the text.
pub proof fn lemma_bare(s: Seq<char>)
    ensures
        bare(s).len() <= s.len(),
        bare(s) == s.skip(s.len() - bare(s).len()),
    decreases s.len(),
{
    let t = trimmed_start(s);
    lemma_trimmed_start(s);
    if begins(t, "/*"@) {
        lemma_first_from(t, "*/"@, 2);
        reveal_strlit("*/");
        match first_from(t, "*/"@, 2) {
            Some(k) => {
                let u = t.skip(k + 2);
                lemma_bare(u);
                let d = s.len() - t.len();
                assert(u =~= s.skip(d + k + 2));
                assert(u.skip(u.len() - bare(u).len()) =~= s.skip(s.len() - bare(s).len()));
            },
            None => {},
        }
    }
}

/// `s` without white space and block comments at its beginning.
pub fn strip_leading(s: &[char]) -> (r: &[char])
    ensures
        r@ == bare(s@),
{
    let open = chars_of("/*");
    let close = chars_of("*/");
    proof {
        reveal_strlit("*/");
    }
    let mut rest: &[char] = s;
    loop
        invariant
            bare(rest@) == bare(s@),
            close@ == "*/"@,
            close@.len() == 2,
        decreases rest@.len(),
    {
        let t = trim_start(rest);
        proof {
            lemma_trimmed_start(rest@);
            lemma_first_from(t@, close@, 2);
        }
        let n = t.len();
        assert(t@.len() == n);
        if !starts_with(t, "/*") {
            return t;
        }
        match find_from(t, &close, 2) {
            Some(k) => {
                rest = tail(t, k + 2);
            },
            None => {
                return t;
            },
        }
    }
}

/// `s` without white space and block comments at its beginning. A comment that is not closed stays.
pub fn strip_leading_block_comments(s: &str) -> (r: &str)
    ensures
        r@ == bare(s@),
{
    let c = chars_of(s);
    let rest = strip_leading(&c);
    proof {
        lemma_bare(s@);
    }
    let n = s.unicode_len();
    let r = s.substring_char(n - rest.len(), n);
    assert(r@ =~= bare(s@));
    r
}

/// What follows the keyword of a line that begins with `import` or `export`.
pub open spec fn after_keyword(t: Seq<char>) -> Seq<char> {
    if begins(t, "import"@) || begins(t, "export"@) {
        trimmed_start(t.skip(6))
    } else {
        seq![]
    }
}

/// `s` begins with `{`.
pub open spec fn opens_brace(s: Seq<char>) -> bool {
    s.len() > 0 && s[0] == '{'
}

/// The line `t`, stripped of white space at both ends, begins a list of names in braces that it does
/// not end: `import {`, `import a, {` or `export {`. A declaration's brace is none.
pub open spec fn opens_list(t: Seq<char>) -> bool {
    let after = after_keyword(t);
    let import_binding = begins(t, "import"@) && (opens_brace(after) || match char_from(
        after,
        ',',
        0,
    ) {
        Some(k) => opens_brace(trimmed_start(after.skip(k + 1))),
        None => false,
    });
    let export_binding = begins(t, "export"@) && opens_brace(after);
    (import_binding || export_binding) && t.contains('{') && !t.contains('}')
}

/// The first line at or after `j` that holds a `}`, or the number of lines.
pub open spec fn closing_line(ls: Seq<Seq<char>>, j: int) -> int
    decreases ls.len() - j,
{
    if j < 0 || j >= ls.len() {
        ls.len() as int
    } else if ls[j].contains('}') {
        j
    } else {
        closing_line(ls, j + 1)
    }
}

/// The closing line lies at or after `j`.
pub proof fn lemma_closing_line(ls: Seq<Seq<char>>, j: int)
    requires
        0 <= j <= ls.len(),
    ensures
        j <= closing_line(ls, j) <= ls.len(),
    decreases ls.len() - j,
{
    if j < ls.len() && !ls[j].contains('}') {
        lemma_closing_line(ls, j + 1);
    }
}

/// The lines from `a` up to `b`, stripped, each with a space behind it.
pub open spec fn gathered(ls: Seq<Seq<char>>, a: int, b: int) -> Seq<char>
    decreases b - a,
{
    if a >= b {
        seq![]
    } else {
        gathered(ls, a, b - 1) + trimmed(ls[b - 1]) + seq![' ']
    }
}

/// The opening line `i` and the lines behind it up to `b`.
pub open spec fn list_text(ls: Seq<Seq<char>>, i: int, b: int) -> Seq<char> {
    trimmed_end(ls[i]) + seq![' '] + gathered(ls, i + 1, b)
}

/// The list that line `i` opens and line `c` closes goes on in the line behind it: it names no
/// source yet, no semicolon ends it, and that line begins with `from `.
pub open spec fn source_follows(ls: Seq<Seq<char>>, i: int, c: int) -> bool {
    let text = list_text(ls, i, c + 1);
    let end = trimmed_end(text);
    &&& !contains_text(text, " from "@)
    &&& !(end.len() > 0 && end.last() == ';')
    &&& c + 1 < ls.len()
    &&& begins(trimmed_start(ls[c + 1]), "from "@)
}

/// The line behind the list that line `i` opens.
pub open spec fn list_end(ls: Seq<Seq<char>>, i: int) -> int {
    let c = closing_line(ls, i + 1);
    if c >= ls.len() {
        ls.len() as int
    } else if source_follows(ls, i, c) {
        c + 2
    } else {
        c + 1
    }
}

/// The lines from `i` on, those of an open list of names joined into one.
pub open spec fn statements_from(ls: Seq<Seq<char>>, i: int) -> Seq<Seq<char>>
    decreases ls.len() - i,
{
    if i < 0 || i >= ls.len() {
        seq![]
    } else if opens_list(trimmed(ls[i])) {
        proof {
            lemma_closing_line(ls, i + 1);
        }
        seq![joined(words_of(list_text(ls, i, list_end(ls, i))), " "@)] + statements_from(
            ls,
            list_end(ls, i),
        )
    } else {
        seq![ls[i]] + statements_from(ls, i + 1)
    }
}

/// The statements of the module `s`: its lines, a list of names that spans lines joined into one
/// line of words.
pub open spec fn statements(s: Seq<char>) -> Seq<Seq<char>> {
    statements_from(lines_of(s), 0)
}

/// Whether the stripped line `t` begins a list of names that it does not end.
fn opens_name_list(t: &[char]) -> (r: bool)
    ensures
        r == opens_list(t@),
{
    let import = starts_with(t, "import");
    let export = starts_with(t, "export");
    proof {
        reveal_strlit("import");
        reveal_strlit("export");
    }
    if !import && !export {
        return false;
    }
    let after = trim_start(tail(t, 6));
    let direct = after.len() > 0 && after[0] == '{';
    let mut second = false;
    proof {
        lemma_char_from(after@, ',', 0);
    }
    if let Some(k) = find_char(after, ',', 0) {
        let rest = trim_start(tail(after, k + 1));
        second = rest.len() > 0 && rest[0] == '{';
    }
    ((import && (direct || second)) || (export && direct)) && contains_char(t, '{')
        && !contains_char(t, '}')
}

/// The statements of the module `s`.
#[verifier::rlimit(40)]
pub fn join_statements(s: &[char]) -> (r: Vec<Vec<char>>)
    ensures
        texts(r@) == statements(s@),
{
    let ls = lines(s);
    let ghost all = texts(ls@);
    let mut result: Vec<Vec<char>> = Vec::new();
    let mut i: usize = 0;
    assert(texts(result@) + statements_from(all, 0) =~= statements_from(all, 0));
    while i < ls.len()
        invariant
            i <= ls.len(),
            all == texts(ls@),
            all == lines_of(s@),
            texts(result@) + statements_from(all, i as int) =~= statements(s@),
        decreases ls.len() - i,
    {
        let ghost done = texts(result@);
        let start = i;
        let line = ls[i].as_slice();
        assert(line@ == all[i as int]);
        if opens_name_list(trim(line)) {
            let mut buf = copied(trim_end(line));
            buf.push(' ');
            i += 1;
            proof {
                lemma_closing_line(all, start + 1);
            }
            let mut closed = false;
            while i < ls.len() && !closed
                invariant
                    start < i <= ls.len(),
                    all == texts(ls@),
                    !closed ==> closing_line(all, start + 1) == closing_line(all, i as int),
                    closed ==> closing_line(all, start + 1) == i - 1,
                    buf@ == list_text(all, start as int, i as int),
                decreases ls.len() - i,
            {
                let l = ls[i].as_slice();
                assert(l@ == all[i as int]);
                push_all(&mut buf, trim(l));
                buf.push(' ');
                assert(buf@ =~= list_text(all, start as int, i + 1));
                if contains_char(l, '}') {
                    closed = true;
                }
                i += 1;
            }
            if closed {
                let end = trim_end(&buf);
                if !contains(&buf, " from ") && !(end.len() > 0 && end[end.len() - 1] == ';') && i
                    < ls.len() {
                    let l = ls[i].as_slice();
                    assert(l@ == all[i as int]);
                    if starts_with(trim_start(l), "from ") {
                        push_all(&mut buf, trim(l));
                        buf.push(' ');
                        assert(buf@ =~= list_text(all, start as int, i + 1));
                        i += 1;
                    }
                }
            }
            assert(i == list_end(all, start as int));
            result.push(join(&words(&buf), " "));
            assert(texts(result@) =~= done.push(
                joined(words_of(list_text(all, start as int, i as int)), " "@),
            ));
        } else {
            result.push(copied(line));
            assert(texts(result@) =~= done.push(all[i as int]));
            i += 1;
        }
    }
    result
}

/// The statements of the module `src`, one to a line: a list of imported or exported names that
/// spans lines is joined into one, with single spaces.
pub fn join_module_statements(src: &str) -> (r: Vec<String>)
    ensures
        strings(r@) == statements(src@),
{
    let s = chars_of(src);
    let parts = join_statements(&s);
    let mut out: Vec<String> = Vec::new();
    let mut i: usize = 0;
    while i < parts.len()
        invariant
            i <= parts.len(),
            strings(out@) =~= texts(parts@).take(i as int),
        decreases parts.len() - i,
    {
        let ghost before = strings(out@);
        out.push(string_of(&parts[i]));
        assert(strings(out@) =~= before.push(texts(parts@)[i as int]));
        i += 1;
    }
    assert(texts(parts@).take(parts@.len() as int) =~= texts(parts@));
    out
}

/// A module in which no line opens a list of names keeps its lines.
pub proof fn law_other_lines_are_kept(s: Seq<char>)
    requires
        forall|i: int|
            0 <= i < lines_of(s).len() ==> !opens_list(trimmed(#[trigger] lines_of(s)[i])),
    ensures
        statements(s) == lines_of(s),
{
    lemma_other_lines(lines_of(s), 0);
    assert(lines_of(s).skip(0) =~= lines_of(s));
}

proof fn lemma_other_lines(ls: Seq<Seq<char>>, i: int)
    requires
        0 <= i <= ls.len(),
        forall|k: int| 0 <= k < ls.len() ==> !opens_list(trimmed(#[trigger] ls[k])),
    ensures
        statements_from(ls, i) == ls.skip(i),
    decreases ls.len() - i,
{
    if i < ls.len() {
        lemma_other_lines(ls, i + 1);
        assert(seq![ls[i]] + ls.skip(i + 1) =~= ls.skip(i));
    }
}

} // verus!

//! What comments and literals mean for a line that begins with `await`.

use crate::qjs::composition::lemma_closing_quote_is;
use crate::qjs::top_level_await::{
    awaits, awaits_from, next, outermost, within, word_here, Kind, Reading, Sign,
};
use crate::qjs::top_level_await_laws::{is_whole, lemma_await_is_seen, lemma_before};
use crate::scan::pair_at;
use crate::scan_laws::{law_block_end, law_line_end};
use crate::text::contains_text;
use vstd::prelude::*;

verus! {

/// Behind whole statements and a comment up to the end of its line, the reading stands at that end as it
/// stood before the comment.
proof fn lemma_before_line_comment(before: Seq<char>, comment: Seq<char>, rest: Seq<char>) -> (e: Reading)
    requires
        is_whole(before),
        before.len() > 0 ==> before[0] != '#',
        !comment.contains('\n'),
        rest.len() > 0 ==> rest[0] == '\n',
    ensures
        e.at == before.len() + 2 + comment.len(),
        e.levels == seq![outermost()],
        e.sign == Sign::Start,
        awaits_from(before + "//"@ + comment + rest, e) ==> awaits(before + "//"@ + comment + rest),
        !contains_text(before, "await"@) ==> awaits_from(before + "//"@ + comment + rest, e) == awaits(
            before + "//"@ + comment + rest,
        ),
{
    reveal_strlit("//");
    let s = before + "//"@ + comment + rest;
    let k = before.len() as int;
    assert(s.take(k) =~= before);
    if k > 0 {
        assert(s[0] == before[0]);
    }
    let r = lemma_before(s, before);
    assert(s[k] == '/' && s[k + 1] == '/');
    law_line_end(before + "//"@, comment, rest);
    let e = next(s, r);
    assert(r.levels.last() == outermost());
    assert(pair_at(s, k, '/', '/'));
    assert(!word_here(s, r));
    e
}

/// A line that begins with `await` behind a comment is seen, whatever the comment says.
pub proof fn law_await_behind_a_comment_is_seen(before: Seq<char>, comment: Seq<char>, after: Seq<char>)
    requires
        is_whole(before),
        before.len() > 0 ==> before[0] != '#',
        !comment.contains('\n'),
    ensures
        awaits(before + "//"@ + comment + ("\nawait "@ + after)),
{
    reveal_strlit("//");
    reveal_strlit("\nawait ");
    reveal_strlit("await ");
    let rest = "\nawait "@ + after;
    let s = before + "//"@ + comment + rest;
    let e = lemma_before_line_comment(before, comment, rest);
    let k = e.at;
    assert(s[k] == '\n');
    let n = next(s, e);
    assert(n.levels == e.levels && n.sign == e.sign && n.at == k + 1);
    assert(s.subrange(k + 1, k + 7) =~= "await "@);
    assert(awaits_from(s, n) ==> awaits_from(s, e));
    lemma_await_is_seen(s, n);
}

/// What a comment says is not seen, whatever it says: neither one up to the end of its line nor one that is
/// closed.
pub proof fn law_comments_do_not_await(before: Seq<char>, comment: Seq<char>, text: Seq<char>)
    requires
        is_whole(before),
        before.len() > 0 ==> before[0] != '#',
        !contains_text(before, "await"@),
        !comment.contains('\n'),
        forall|i: int| #![auto] 0 <= i < text.len() ==> !pair_at(text + seq!['*'], i, '*', '/'),
    ensures
        !awaits(before + "//"@ + comment),
        !awaits(before + "/*"@ + text + "*/"@),
{
    reveal_strlit("/*");
    reveal_strlit("*/");
    let none = Seq::<char>::empty();
    let e = lemma_before_line_comment(before, comment, none);
    assert(before + "//"@ + comment + none =~= before + "//"@ + comment);
    reveal_strlit("//");
    assert(e.at == (before + "//"@ + comment).len());
    let s = before + "/*"@ + text + "*/"@;
    let k = before.len() as int;
    assert(s.take(k) =~= before);
    if k > 0 {
        assert(s[0] == before[0]);
    }
    let r = lemma_before(s, before);
    assert(s[k] == '/' && s[k + 1] == '*');
    law_block_end(before + "/*"@, text, none);
    assert(before + "/*"@ + text + seq!['*', '/'] + none =~= s);
    assert(r.levels.last() == outermost());
    assert(!pair_at(s, k, '/', '/'));
    assert(pair_at(s, k, '/', '*'));
    assert(next(s, r).at == s.len());
    assert(!word_here(s, r));
    assert(!awaits_from(s, next(s, r)));
    assert(!awaits_from(s, r));
}

/// A line that begins with `await` behind a semicolon and a line feed is seen, where the reading stands at the
/// outermost level.
proof fn lemma_statement_end(s: Seq<char>, r: Reading, after: Seq<char>)
    requires
        0 <= r.at <= s.len(),
        r.levels == seq![outermost()],
        s.skip(r.at) == ";\nawait "@ + after,
    ensures
        awaits_from(s, r),
{
    reveal_strlit(";\nawait ");
    reveal_strlit("await ");
    let k = r.at;
    let t = s.skip(k);
    assert(t.len() == 8 + after.len());
    assert(t[0] == ';' && t[1] == '\n');
    assert(s[k] == t[0] && s[k + 1] == t[1]);
    let n = next(s, r);
    assert(r.levels.last() == outermost());
    assert(n.at == k + 1 && n.sign == Sign::Start);
    assert(n.levels =~= seq![outermost()]);
    let m = next(s, n);
    assert(m.at == k + 2 && m.sign == Sign::Start && m.levels == n.levels);
    assert(s.subrange(k + 2, k + 8) =~= "await "@) by {
        assert forall|j: int| 0 <= j < 6 implies #[trigger] s.subrange(k + 2, k + 8)[j]
            == "await "@[j] by {
            assert(t[j + 2] == ";\nawait "@[j + 2]);
        }
    }
    lemma_await_is_seen(s, m);
    assert(awaits_from(s, n));
}

/// A line that begins with `await` behind a statement that is a literal is seen: whatever brackets the literal
/// holds, none of them is open behind it.
pub proof fn law_await_behind_a_literal_is_seen(
    before: Seq<char>,
    q: char,
    text: Seq<char>,
    after: Seq<char>,
)
    requires
        is_whole(before),
        before.len() > 0 ==> before[0] != '#',
        q == '"' || q == '\'',
        forall|i: int|
            0 <= i < text.len() ==> (#[trigger] text[i]) != q && text[i] != '\\' && text[i] != '\n',
    ensures
        awaits(before + seq![q] + text + seq![q] + (";\nawait "@ + after)),
{
    let rest = ";\nawait "@ + after;
    let s = before + seq![q] + text + seq![q] + rest;
    let k = before.len() as int;
    let e = k + 1 + text.len();
    assert(s.take(k) =~= before);
    assert(s[k] == q);
    if k > 0 {
        assert(s[0] == before[0]);
    }
    let r = lemma_before(s, before);
    assert forall|j: int| k + 1 <= j < e implies s[j] != q && s[j] != '\\' && s[j] != '\n' by {
        assert(s[j] == text[j - k - 1]);
    }
    assert(s[e] == q);
    lemma_closing_quote_is(s, q, k + 1, e);
    assert(r.levels.last() == outermost());
    let n = next(s, r);
    assert(n.at == e + 1 && n.levels == r.levels);
    assert(s.skip(e + 1) =~= rest);
    lemma_statement_end(s, n, after);
    assert(awaits_from(s, r));
}

/// The text of a template is passed over.
proof fn lemma_template(s: Seq<char>, r: Reading, e: int)
    requires
        0 <= r.at <= e < s.len(),
        r.levels.len() > 0,
        r.levels.last().kind == Kind::Text,
        forall|j: int| r.at <= j < e ==> s[j] != '`' && s[j] != '\\' && s[j] != '$',
    ensures
        awaits_from(s, r) == awaits_from(s, Reading { at: e, ..r }),
    decreases e - r.at,
{
    if r.at < e {
        let n = next(s, r);
        assert(n == Reading { at: r.at + 1, ..r });
        lemma_template(s, n, e);
    }
}

/// What the text of a template says is not seen, whatever it says, and a line that begins with `await` behind
/// the template is: whatever brackets and quotes the text holds, none of them is open behind it.
pub proof fn law_templates_do_not_await(before: Seq<char>, text: Seq<char>, after: Seq<char>)
    requires
        is_whole(before),
        before.len() > 0 ==> before[0] != '#',
        !contains_text(before, "await"@),
        forall|i: int|
            0 <= i < text.len() ==> (#[trigger] text[i]) != '`' && text[i] != '\\' && text[i] != '$',
    ensures
        !awaits(before + seq!['`'] + text + seq!['`']),
        awaits(before + seq!['`'] + text + seq!['`'] + (";\nawait "@ + after)),
{
    let none = Seq::<char>::empty();
    let r = lemma_behind_template(before, text, none);
    assert(before + seq!['`'] + text + seq!['`'] + none =~= before + seq!['`'] + text + seq!['`']);
    let rest = ";\nawait "@ + after;
    let e = lemma_behind_template(before, text, rest);
    let s = before + seq!['`'] + text + seq!['`'] + rest;
    assert(s.skip(e.at) =~= rest);
    lemma_statement_end(s, e, after);
}

proof fn lemma_behind_template(before: Seq<char>, text: Seq<char>, rest: Seq<char>) -> (e: Reading)
    requires
        is_whole(before),
        before.len() > 0 ==> before[0] != '#',
        !contains_text(before, "await"@),
        forall|i: int|
            0 <= i < text.len() ==> (#[trigger] text[i]) != '`' && text[i] != '\\' && text[i] != '$',
    ensures
        e.at == before.len() + text.len() + 2,
        e.levels == seq![outermost()],
        awaits_from(before + seq!['`'] + text + seq!['`'] + rest, e) == awaits(
            before + seq!['`'] + text + seq!['`'] + rest,
        ),
{
    let s = before + seq!['`'] + text + seq!['`'] + rest;
    let k = before.len() as int;
    let e = k + 1 + text.len();
    assert(s.take(k) =~= before);
    assert(s[k] == '`');
    if k > 0 {
        assert(s[0] == before[0]);
    }
    let r = lemma_before(s, before);
    assert(r.levels.last() == outermost());
    let n = next(s, r);
    assert(n.at == k + 1);
    assert(n.levels == r.levels.push(within(outermost(), Kind::Text)));
    assert(!word_here(s, r));
    assert forall|j: int| k + 1 <= j < e implies s[j] != '`' && s[j] != '\\' && s[j] != '$' by {
        assert(s[j] == text[j - k - 1]);
    }
    assert(s[e] == '`');
    lemma_template(s, n, e);
    let m = Reading { at: e, ..n };
    let c = next(s, m);
    assert(c.at == e + 1);
    assert(c.levels =~= seq![outermost()]);
    assert(!word_here(s, m));
    c
}

} // verus!

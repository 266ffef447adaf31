//! Module specifiers and import attributes in the text of a statement.

use crate::text::{
    char_from, chars_of, contains_text, find_char, find_from, first_from, lemma_char_from,
    lemma_first_from, occurs_at, span,
};
use crate::text_laws::law_search;
use vstd::prelude::*;

verus! {

/// The first double or single quote at or after `i`.
pub open spec fn quote_from(s: Seq<char>, i: int) -> Option<int>
    decreases s.len() - i,
{
    if i < 0 || i >= s.len() {
        None
    } else if s[i] == '"' || s[i] == '\'' {
        Some(i)
    } else {
        quote_from(s, i + 1)
    }
}

/// Where the quotes of the first string literal in `s` from position `i` on stand: the first quote and the
/// next quote of the same kind.
pub open spec fn literal_quotes(s: Seq<char>, i: int) -> Option<(int, int)> {
    match quote_from(s, i) {
        None => None,
        Some(o) => match char_from(s, s[o], o + 1) {
            None => None,
            Some(c) => Some((o, c)),
        },
    }
}

/// The first string literal in `s` from position `i` on: what stands between its quotes.
pub open spec fn literal_from(s: Seq<char>, i: int) -> Option<Seq<char>> {
    match literal_quotes(s, i) {
        None => None,
        Some((o, c)) => Some(s.subrange(o + 1, c)),
    }
}

/// A double or single quote.
pub open spec fn is_quote(c: char) -> bool {
    c == '"' || c == '\''
}

proof fn lemma_quote_from_is(s: Seq<char>, i: int, m: int)
    requires
        0 <= i <= m < s.len(),
        is_quote(s[m]),
        forall|k: int| i <= k < m ==> !is_quote(s[k]),
    ensures
        quote_from(s, i) == Some(m),
    decreases m - i,
{
    if i < m {
        lemma_quote_from_is(s, i + 1, m);
    }
}

proof fn lemma_char_from_is(s: Seq<char>, c: char, i: int, m: int)
    requires
        0 <= i <= m < s.len(),
        s[m] == c,
        forall|k: int| i <= k < m ==> s[k] != c,
    ensures
        char_from(s, c, i) == Some(m),
    decreases m - i,
{
    if i < m {
        lemma_char_from_is(s, c, i + 1, m);
    }
}

/// A literal is what stands between its quotes.
pub proof fn lemma_literal(s: Seq<char>, i: int, m: int, spec: Seq<char>)
    requires
        0 <= i <= m,
        m + 1 + spec.len() < s.len(),
        is_quote(s[m]),
        s[m + 1 + spec.len()] == s[m],
        forall|k: int| i <= k < m ==> !is_quote(s[k]),
        s.subrange(m + 1, m + 1 + spec.len()) == spec,
        !spec.contains(s[m]),
    ensures
        literal_quotes(s, i) == Some((m, m + 1 + spec.len())),
        literal_from(s, i) == Some(spec),
{
    lemma_quote_from_is(s, i, m);
    assert forall|k: int| m + 1 <= k < m + 1 + spec.len() implies s[k] != s[m] by {
        assert(s[k] == spec[k - m - 1]);
    }
    lemma_char_from_is(s, s[m], m + 1, m + 1 + spec.len());
}

/// Where the quotes of the first string literal in `s` from position `from` on stand.
pub fn find_literal(s: &[char], from: usize) -> (r: Option<(usize, usize)>)
    requires
        from <= s@.len(),
    ensures
        match r {
            Some((o, c)) => literal_quotes(s@, from as int) == Some((o as int, c as int)) && from
                <= o < c < s@.len(),
            None => literal_quotes(s@, from as int) is None,
        },
{
    let mut i: usize = from;
    while i < s.len() && s[i] != '"' && s[i] != '\''
        invariant
            from <= i <= s.len(),
            quote_from(s@, from as int) == quote_from(s@, i as int),
        decreases s.len() - i,
    {
        i += 1;
    }
    if i >= s.len() {
        return None;
    }
    proof {
        lemma_char_from(s@, s@[i as int], i + 1);
    }
    match find_char(s, s[i], i + 1) {
        None => None,
        Some(c) => Some((i, c)),
    }
}

/// The first string literal in `s` from position `from` on.
pub fn first_literal(s: &[char], from: usize) -> (r: Option<&[char]>)
    requires
        from <= s@.len(),
    ensures
        match r {
            Some(t) => literal_from(s@, from as int) == Some(t@),
            None => literal_from(s@, from as int) is None,
        },
{
    match find_literal(s, from) {
        None => None,
        Some((o, c)) => Some(span(s, o + 1, c)),
    }
}

/// Where the attributes clause of an import statement begins: at ` with ` or ` with{`, else at
/// ` assert ` or ` assert{`.
pub open spec fn attributes_at(s: Seq<char>) -> Option<int> {
    if first_from(s, " with "@, 0) is Some {
        first_from(s, " with "@, 0)
    } else if first_from(s, " with{"@, 0) is Some {
        first_from(s, " with{"@, 0)
    } else if first_from(s, " assert "@, 0) is Some {
        first_from(s, " assert "@, 0)
    } else {
        first_from(s, " assert{"@, 0)
    }
}

/// The `type` attribute of the import statement `s`: the first string literal behind the word `type`
/// in its attributes clause.
pub open spec fn attribute_type(s: Seq<char>) -> Option<Seq<char>> {
    match attributes_at(s) {
        None => None,
        Some(a) => match first_from(s, "type"@, a) {
            None => None,
            Some(t) => literal_from(s, t + 4),
        },
    }
}

/// The first position where `p` stands in `s`.
fn find_str(s: &[char], p: &str) -> (r: Option<usize>)
    ensures
        match r {
            Some(k) => first_from(s@, p@, 0) == Some(k as int),
            None => first_from(s@, p@, 0) is None,
        },
{
    let p = chars_of(p);
    find_from(s, &p, 0)
}

/// The `type` attribute of the import statement `s`.
pub fn find_attribute_type(s: &[char]) -> (r: Option<&[char]>)
    ensures
        match r {
            Some(t) => attribute_type(s@) == Some(t@),
            None => attribute_type(s@) is None,
        },
{
    let mut at = find_str(s, " with ");
    if at.is_none() {
        at = find_str(s, " with{");
    }
    if at.is_none() {
        at = find_str(s, " assert ");
    }
    if at.is_none() {
        at = find_str(s, " assert{");
    }
    match at {
        None => None,
        Some(a) => {
            let word = chars_of("type");
            proof {
                reveal_strlit("type");
                lemma_first_from(s@, word@, a as int);
            }
            match find_from(s, &word, a) {
                None => None,
                Some(t) => {
                    assert(t + 4 <= s.len());
                    first_literal(s, t + 4)
                },
            }
        },
    }
}

/// The attributes of a statement begin at the first ` with `, before all else.
pub proof fn law_with_clause(before: Seq<char>, rest: Seq<char>)
    requires
        forall|i: int| 0 <= i < before.len() ==> !occurs_at(before + " with "@ + rest, " with "@, i),
    ensures
        attributes_at(before + " with "@ + rest) == Some(before.len() as int),
{
    reveal_strlit(" with ");
    law_search(before, " with "@, rest);
}

/// Where the word stands next to the brace they begin there, if it does not stand by itself anywhere.
pub proof fn law_with_clause_at_the_brace(before: Seq<char>, rest: Seq<char>)
    requires
        !contains_text(before + " with{"@ + rest, " with "@),
        forall|i: int| 0 <= i < before.len() ==> !occurs_at(before + " with{"@ + rest, " with{"@, i),
    ensures
        attributes_at(before + " with{"@ + rest) == Some(before.len() as int),
{
    reveal_strlit(" with ");
    reveal_strlit(" with{");
    let s = before + " with{"@ + rest;
    law_search(before, " with{"@, rest);
    law_search(s, " with "@, seq![]);
}

/// Without `with` they begin at `assert`.
pub proof fn law_assert_clause(before: Seq<char>, rest: Seq<char>)
    requires
        !contains_text(before + " assert "@ + rest, " with "@),
        !contains_text(before + " assert "@ + rest, " with{"@),
        forall|i: int|
            0 <= i < before.len() ==> !occurs_at(before + " assert "@ + rest, " assert "@, i),
    ensures
        attributes_at(before + " assert "@ + rest) == Some(before.len() as int),
{
    reveal_strlit(" with ");
    reveal_strlit(" with{");
    reveal_strlit(" assert ");
    let s = before + " assert "@ + rest;
    law_search(before, " assert "@, rest);
    law_search(s, " with "@, seq![]);
    law_search(s, " with{"@, seq![]);
}

/// Without any of the words there are none.
pub proof fn law_no_attributes(s: Seq<char>)
    requires
        !contains_text(s, " with "@),
        !contains_text(s, " with{"@),
        !contains_text(s, " assert "@),
        !contains_text(s, " assert{"@),
    ensures
        attributes_at(s) is None,
        attribute_type(s) is None,
{
    reveal_strlit(" with ");
    reveal_strlit(" with{");
    reveal_strlit(" assert ");
    reveal_strlit(" assert{");
    law_search(s, " with "@, seq![]);
    law_search(s, " with{"@, seq![]);
    law_search(s, " assert "@, seq![]);
    law_search(s, " assert{"@, seq![]);
}

/// The type is the first literal behind the first `type` in the attributes, which stands at the end of
/// `before`.
pub proof fn law_type_of_the_attributes(
    before: Seq<char>,
    gap: Seq<char>,
    quote: char,
    ty: Seq<char>,
    rest: Seq<char>,
    a: int,
)
    requires
        quote == '"' || quote == '\'',
        !ty.contains(quote),
        forall|i: int| 0 <= i < gap.len() ==> !is_quote(#[trigger] gap[i]),
        attributes_at(before + gap + seq![quote] + ty + seq![quote] + rest) == Some(a),
        first_from(before + gap + seq![quote] + ty + seq![quote] + rest, "type"@, a) == Some(
            before.len() - 4,
        ),
    ensures
        attribute_type(before + gap + seq![quote] + ty + seq![quote] + rest) == Some(ty),
{
    lemma_literal_behind(before, gap, quote, ty, rest);
}

proof fn lemma_literal_behind(
    before: Seq<char>,
    gap: Seq<char>,
    quote: char,
    ty: Seq<char>,
    rest: Seq<char>,
)
    requires
        is_quote(quote),
        !ty.contains(quote),
        forall|i: int| 0 <= i < gap.len() ==> !is_quote(#[trigger] gap[i]),
    ensures
        literal_from(before + gap + seq![quote] + ty + seq![quote] + rest, before.len() as int) == Some(
            ty,
        ),
{
    let s = before + gap + seq![quote] + ty + seq![quote] + rest;
    let n = before.len() as int;
    let m = n + gap.len();
    assert(s[m] == quote);
    assert(s[m + 1 + ty.len()] == quote);
    assert(s.subrange(m + 1, m + 1 + ty.len()) =~= ty);
    assert forall|k: int| n <= k < m implies !is_quote(s[k]) by {
        assert(s[k] == gap[k - n]);
    }
    lemma_literal(s, n, m, ty);
}

/// A literal is what stands between two quotes of a kind; without a second one there is none.
pub proof fn law_literals(before: Seq<char>, quote: char, text: Seq<char>, rest: Seq<char>)
    requires
        quote == '"' || quote == '\'',
        forall|i: int| 0 <= i < before.len() ==> before[i] != '"' && before[i] != '\'',
        !text.contains(quote),
    ensures
        literal_from(before + (seq![quote] + text + seq![quote] + rest), 0) == Some(text),
        literal_from(before + (seq![quote] + text), 0) is None,
        literal_from(before, 0) is None,
{
    let s = before + (seq![quote] + text + seq![quote] + rest);
    let m = before.len() as int;
    assert(s[m] == quote);
    assert(s[m + 1 + text.len()] == quote);
    assert(s.subrange(m + 1, m + 1 + text.len()) =~= text);
    assert forall|k: int| 0 <= k < m implies !is_quote(s[k]) by {
        assert(s[k] == before[k]);
    }
    lemma_literal(s, 0, m, text);
    let t = before + (seq![quote] + text);
    assert(t[m] == quote);
    assert forall|k: int| 0 <= k < m implies !is_quote(t[k]) by {
        assert(t[k] == before[k]);
    }
    lemma_quote_from_is(t, 0, m);
    lemma_char_from(t, quote, m + 1);
    if let Some(k) = char_from(t, quote, m + 1) {
        assert(text[k - m - 1] == quote);
    }
    lemma_no_quote(before, 0);
}

proof fn lemma_no_quote(s: Seq<char>, i: int)
    requires
        0 <= i,
        forall|k: int| i <= k < s.len() ==> s[k] != '"' && s[k] != '\'',
    ensures
        quote_from(s, i) is None,
    decreases s.len() - i,
{
    if i < s.len() {
        lemma_no_quote(s, i + 1);
    }
}

} // verus!

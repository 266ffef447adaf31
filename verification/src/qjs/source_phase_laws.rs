//! What counts as a source-phase import, and what becomes of it and of the text around it.

use crate::qjs::imports::word_at;
use crate::qjs::lexer::{is_ident_byte, is_white_byte};
use crate::qjs::source_phase::{
    byte_stop, ident_stop, lookup_text, records_from, replaced_from, source_import,
    source_import_at, source_import_may_begin, white_stop,
};
use crate::text::decimal;
use vstd::prelude::*;
use vstd::utf8::decode_utf8;

verus! {

/// All of the bytes are ASCII white space.
pub open spec fn blank(w: Seq<u8>) -> bool {
    forall|i: int|
        0 <= i < w.len() ==> {
            let c = #[trigger] w[i];
            c == 0x20 || c == 0x9 || c == 0xa || c == 0xc || c == 0xd
        }
}

/// All of the bytes are ASCII letters, digits, `_` or `$`.
pub open spec fn word(w: Seq<u8>) -> bool {
    forall|i: int|
        0 <= i < w.len() ==> {
            let c = #[trigger] w[i];
            0x30 <= c <= 0x39 || 0x41 <= c <= 0x5a || 0x61 <= c <= 0x7a || c == 0x5f || c == 0x24
        }
}

proof fn lemma_white_run(b: Seq<u8>, p: int, m: int)
    requires
        0 <= p <= m < b.len(),
        forall|j: int| p <= j < m ==> is_white_byte(#[trigger] b[j]),
        !is_white_byte(b[m]),
    ensures
        white_stop(b, p) == m,
    decreases m - p,
{
    if p < m {
        assert(is_white_byte(b[p]));
        lemma_white_run(b, p + 1, m);
    }
}

proof fn lemma_ident_run(b: Seq<u8>, p: int, m: int)
    requires
        0 <= p <= m < b.len(),
        forall|j: int| p <= j < m ==> is_ident_byte(#[trigger] b[j]),
        !is_ident_byte(b[m]),
    ensures
        ident_stop(b, p) == m,
    decreases m - p,
{
    if p < m {
        assert(is_ident_byte(b[p]));
        lemma_ident_run(b, p + 1, m);
    }
}

proof fn lemma_byte_run(b: Seq<u8>, c: u8, p: int, m: int)
    requires
        0 <= p <= m < b.len(),
        b[m] == c,
        forall|j: int| p <= j < m ==> b[j] != c,
    ensures
        byte_stop(b, c, p) == m,
    decreases m - p,
{
    if p < m {
        lemma_byte_run(b, c, p + 1, m);
    }
}

/// The parts of a source-phase import: the white space behind `import`, behind `source`, behind the name and
/// behind `from`; the name; the specifier in its quotes.
pub struct Shape {
    pub after_import: Seq<u8>,
    pub after_source: Seq<u8>,
    pub name: Seq<u8>,
    pub after_name: Seq<u8>,
    pub after_from: Seq<u8>,
    pub quote: u8,
    pub spec: Seq<u8>,
}

impl Shape {
    /// The parts can stand in an import: white space is white space, and the words are parted.
    pub open spec fn fits(self) -> bool {
        &&& blank(self.after_import) && self.after_import.len() > 0
        &&& blank(self.after_source) && self.after_source.len() > 0
        &&& word(self.name) && self.name.len() > 0
        &&& blank(self.after_name) && self.after_name.len() > 0
        &&& blank(self.after_from)
        &&& self.quote == 0x22 || self.quote == 0x27
        &&& !self.spec.contains(self.quote)
    }

    /// `import source name from`.
    pub open spec fn head(self) -> Seq<u8> {
        seq![0x69u8, 0x6d, 0x70, 0x6f, 0x72, 0x74] + self.after_import + seq![
            0x73u8, 0x6f, 0x75, 0x72, 0x63, 0x65,
        ] + self.after_source + self.name + self.after_name + seq![0x66u8, 0x72, 0x6f, 0x6d]
    }

    /// The import without a semicolon.
    pub open spec fn text(self) -> Seq<u8> {
        self.head() + (self.after_from + seq![self.quote] + self.spec + seq![self.quote])
    }
}

proof fn lemma_head(s: Shape, rest: Seq<u8>)
    requires
        s.fits(),
        rest.len() > 0,
    ensures
        ({
            let b = s.head() + rest;
            let p1 = 6 + s.after_import.len() as int;
            let p2 = p1 + 6 + s.after_source.len();
            let e = p2 + s.name.len();
            let p3 = e + s.after_name.len();
            &&& word_at(b, "import"@, 0) && word_at(b, "source"@, p1) && word_at(b, "from"@, p3)
            &&& white_stop(b, 6) == p1
            &&& white_stop(b, p1 + 6) == p2
            &&& ident_stop(b, p2) == e
            &&& white_stop(b, e) == p3
            &&& b.subrange(p2, e) == s.name
            &&& s.head().len() == p3 + 4
        }),
{
    reveal_strlit("import");
    reveal_strlit("source");
    reveal_strlit("from");
    let b = s.head() + rest;
    let p1 = 6 + s.after_import.len() as int;
    let p2 = p1 + 6 + s.after_source.len();
    let e = p2 + s.name.len();
    let p3 = e + s.after_name.len();
    assert forall|j: int| 6 <= j < p1 implies is_white_byte(#[trigger] b[j]) by {
        assert(b[j] == s.after_import[j - 6]);
    }
    assert(b[p1] == 0x73);
    lemma_white_run(b, 6, p1);
    assert forall|j: int| p1 + 6 <= j < p2 implies is_white_byte(#[trigger] b[j]) by {
        assert(b[j] == s.after_source[j - p1 - 6]);
    }
    assert(b[p2] == s.name[0]);
    lemma_white_run(b, p1 + 6, p2);
    assert forall|j: int| p2 <= j < e implies is_ident_byte(#[trigger] b[j]) by {
        assert(b[j] == s.name[j - p2]);
    }
    assert(b[e] == s.after_name[0]);
    lemma_ident_run(b, p2, e);
    assert forall|j: int| e <= j < p3 implies is_white_byte(#[trigger] b[j]) by {
        assert(b[j] == s.after_name[j - e]);
    }
    assert(b[p3] == 0x66);
    lemma_white_run(b, e, p3);
    assert(b.subrange(p2, e) =~= s.name);
}

/// The words, a name and a specifier in quotes, with white space between, make a source-phase import; a
/// semicolon right behind it belongs to it.
#[verifier::rlimit(50)]
pub proof fn law_source_import_shape(s: Shape, after: Seq<u8>)
    requires
        s.fits(),
    ensures
        source_import(s.text() + after) == Some(
            (
                s.text().len() as int + (if after.len() > 0 && after[0] == 0x3b {
                    1int
                } else {
                    0
                }),
                decode_utf8(s.name),
                decode_utf8(s.spec),
            ),
        ),
{
    let tail = s.after_from + seq![s.quote] + s.spec + seq![s.quote] + after;
    let b = s.head() + tail;
    assert(s.text() + after =~= b);
    lemma_head(s, tail);
    let p3 = s.head().len() - 4;
    let p4 = p3 + 4 + s.after_from.len();
    let c = p4 + 1 + s.spec.len();
    assert forall|j: int| p3 + 4 <= j < p4 implies is_white_byte(#[trigger] b[j]) by {
        assert(b[j] == tail[j - p3 - 4]);
        assert(tail[j - p3 - 4] == s.after_from[j - p3 - 4]);
    }
    assert(b[p4] == tail[s.after_from.len() as int]);
    assert(b[p4] == s.quote);
    lemma_white_run(b, p3 + 4, p4);
    assert forall|j: int| p4 + 1 <= j < c implies b[j] != s.quote by {
        assert(b[j] == tail[j - p3 - 4]);
        assert(b[j] == s.spec[j - p4 - 1]);
    }
    assert(b[c] == tail[c - p3 - 4]);
    lemma_byte_run(b, s.quote, p4 + 1, c);
    assert(b.subrange(p4 + 1, c) =~= s.spec);
    assert(s.text().len() == c + 1);
    if after.len() > 0 {
        assert(b[c + 1] == tail[c + 1 - p3 - 4]);
        assert(b[c + 1] == after[0]);
    }
}

/// A source-phase import begins at the beginning of the text, or behind white space, a semicolon or a brace.
pub proof fn law_where_an_import_begins(before: Seq<u8>, rest: Seq<u8>)
    ensures
        source_import_may_begin(before + rest, before.len() as int) == (before.len() == 0 || {
            let c = before.last();
            c == 0x20 || c == 0x9 || c == 0xd || c == 0xa || c == 0x3b || c == 0x7b || c == 0x7d
        }),
{
    if before.len() > 0 {
        assert((before + rest)[before.len() - 1] == before.last());
    }
}

/// Where no source-phase import stands, the text is kept byte for byte and nothing is recorded.
pub proof fn law_other_text_is_kept(b: Seq<u8>, i: int, id: nat)
    requires
        0 <= i <= b.len(),
        forall|k: int| i <= k < b.len() ==> source_import_at(b, k) is None,
    ensures
        replaced_from(b, i, id) == b.skip(i),
        records_from(b, i, id).len() == 0,
    decreases b.len() - i,
{
    if i < b.len() {
        assert(source_import_at(b, i) is None);
        law_other_text_is_kept(b, i + 1, id);
        assert(seq![b[i]] + b.skip(i + 1) =~= b.skip(i));
    } else {
        assert(b.skip(i) =~= seq![]);
    }
}

/// The lookup binds the name to what the table holds under the number of the import.
pub proof fn law_lookup(name: Seq<char>, id: nat)
    ensures
        lookup_text(name, id) == "const "@ + name + "=globalThis.__v82jsc_wasm_src.get("@ + decimal(id)
            + ");"@,
{
}

} // verus!

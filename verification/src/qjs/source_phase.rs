//! Source-phase imports: `import source name from "specifier"`.
//!
//! QuickJS cannot parse them, so each becomes a lookup in a table that is filled before the module
//! runs.

use crate::qjs::imports::{is_word_at, text_between, word_at};
use crate::qjs::lexer::{
    ident_byte, is_ident_byte, is_white_byte, white_byte, CARRIAGE_RETURN, CLOSE_BRACE,
    DOUBLE_QUOTE, LINE_FEED, OPEN_BRACE, SEMICOLON, SINGLE_QUOTE, SPACE, TAB,
};
use crate::scan::is_ident;
use crate::specifier::is_quote;
use crate::text::{
    chars_of, contains, contains_text, decimal, decimal_of, push_all, push_str, string_of,
};
use crate::utf8::{
    byte_offset, lemma_ascii, lemma_boundary, lemma_bytes_before, lemma_character,
    lemma_encode_concat, str_slice,
};
use vstd::prelude::*;
use vstd::utf8::{
    char_u32_cast, decode_utf8, encode_utf8, encode_utf8_decode_utf8, encode_utf8_valid_utf8,
    is_ascii_chars, is_ascii_chars_encode_utf8,
};

verus! {

/// The first position at or after `p` that holds no ASCII white space, or the end of the text.
pub open spec fn white_stop(b: Seq<u8>, p: int) -> int
    decreases b.len() - p,
{
    if p < 0 || p >= b.len() {
        b.len() as int
    } else if is_white_byte(b[p]) {
        white_stop(b, p + 1)
    } else {
        p
    }
}

/// The first position at or after `p` that holds no identifier character, or the end of the text.
pub open spec fn ident_stop(b: Seq<u8>, p: int) -> int
    decreases b.len() - p,
{
    if p < 0 || p >= b.len() {
        b.len() as int
    } else if is_ident_byte(b[p]) {
        ident_stop(b, p + 1)
    } else {
        p
    }
}

/// The first position at or after `p` that holds `c`, or the end of the text.
pub open spec fn byte_stop(b: Seq<u8>, c: u8, p: int) -> int
    decreases b.len() - p,
{
    if p < 0 || p >= b.len() {
        b.len() as int
    } else if b[p] == c {
        p
    } else {
        byte_stop(b, c, p + 1)
    }
}

/// Skips ASCII white space.
fn skip_white(b: &[u8], from: usize) -> (r: usize)
    requires
        from <= b@.len(),
    ensures
        r == white_stop(b@, from as int),
        from <= r <= b@.len(),
        from < r ==> b@[r - 1] < 0x80,
{
    let mut p: usize = from;
    while p < b.len() && white_byte(b[p])
        invariant
            from <= p <= b.len(),
            white_stop(b@, from as int) == white_stop(b@, p as int),
            from < p ==> b@[p - 1] < 0x80,
        decreases b.len() - p,
    {
        p += 1;
    }
    p
}

/// Skips identifier characters.
fn skip_ident_bytes(b: &[u8], from: usize) -> (r: usize)
    requires
        from <= b@.len(),
    ensures
        r == ident_stop(b@, from as int),
        from <= r <= b@.len(),
        from < r ==> b@[r - 1] < 0x80,
{
    let mut p: usize = from;
    while p < b.len() && ident_byte(b[p])
        invariant
            from <= p <= b.len(),
            ident_stop(b@, from as int) == ident_stop(b@, p as int),
            from < p ==> b@[p - 1] < 0x80,
        decreases b.len() - p,
    {
        p += 1;
    }
    p
}

/// Skips to the next `c`.
fn skip_to(b: &[u8], c: u8, from: usize) -> (r: usize)
    requires
        from <= b@.len(),
    ensures
        r == byte_stop(b@, c, from as int),
        from <= r <= b@.len(),
        r < b@.len() ==> b@[r as int] == c,
{
    let mut p: usize = from;
    while p < b.len() && b[p] != c
        invariant
            from <= p <= b.len(),
            byte_stop(b@, c, from as int) == byte_stop(b@, c, p as int),
        decreases b.len() - p,
    {
        p += 1;
    }
    p
}

/// The source-phase import that the text `b` begins with: how many bytes it takes, a semicolon
/// included, the name that it binds, and its specifier.
pub open spec fn source_import(b: Seq<u8>) -> Option<(int, Seq<char>, Seq<char>)> {
    let n = b.len() as int;
    let p1 = white_stop(b, 6);
    let p2 = white_stop(b, p1 + 6);
    let e = ident_stop(b, p2);
    let p3 = white_stop(b, e);
    let p4 = white_stop(b, p3 + 4);
    if !word_at(b, "import"@, 0) || p1 == 6 {
        None
    } else if !word_at(b, "source"@, p1) || p2 == p1 + 6 {
        None
    } else if e == p2 || !word_at(b, "from"@, p3) || p4 >= n {
        None
    } else if b[p4] != DOUBLE_QUOTE && b[p4] != SINGLE_QUOTE {
        None
    } else {
        let c = byte_stop(b, b[p4], p4 + 1);
        if c >= n {
            None
        } else {
            let end = if c + 1 < n && b[c + 1] == SEMICOLON {
                c + 2
            } else {
                c + 1
            };
            Some((end, text_between(b, p2, e), text_between(b, p4 + 1, c)))
        }
    }
}

/// The source-phase import that `s` begins with: the number of bytes that it takes, the name that it
/// binds and its specifier.
pub fn parse_source_phase_at(s: &str) -> (r: Option<(usize, String, String)>)
    ensures
        match r {
            Some((n, binding, spec)) => source_import(encode_utf8(s@)) == Some(
                (n as int, binding@, spec@),
            ) && 0 < n <= encode_utf8(s@).len() && encode_utf8(s@)[n - 1] < 0x80,
            None => source_import(encode_utf8(s@)) is None,
        },
{
    let b = s.as_bytes();
    let n = b.len();
    proof {
        encode_utf8_valid_utf8(s@);
        reveal_strlit("import");
        reveal_strlit("source");
        reveal_strlit("from");
    }
    if !is_word_at(b, "import", 0) {
        return None;
    }
    let p1 = skip_white(b, 6);
    if p1 == 6 || !is_word_at(b, "source", p1) {
        return None;
    }
    assert(p1 + 6 <= n);
    let p2 = skip_white(b, p1 + 6);
    if p2 == p1 + 6 {
        return None;
    }
    let e = skip_ident_bytes(b, p2);
    if e == p2 {
        return None;
    }
    proof {
        lemma_boundary(b@, p2 as int);
        lemma_boundary(b@, e as int);
    }
    let binding = str_slice(s, p2, e).to_owned();
    let p3 = skip_white(b, e);
    if !is_word_at(b, "from", p3) {
        return None;
    }
    assert(p3 + 4 <= n);
    let p4 = skip_white(b, p3 + 4);
    if p4 >= n {
        return None;
    }
    let q = b[p4];
    if q != DOUBLE_QUOTE && q != SINGLE_QUOTE {
        return None;
    }
    let c = skip_to(b, q, p4 + 1);
    if c >= n {
        return None;
    }
    proof {
        lemma_boundary(b@, p4 + 1);
        lemma_boundary(b@, c as int);
    }
    let spec = str_slice(s, p4 + 1, c).to_owned();
    let end = if n - c > 1 && b[c + 1] == SEMICOLON {
        c + 2
    } else {
        c + 1
    };
    Some((end, binding, spec))
}

/// A source-phase import can begin at `i`: at the beginning of the text, or behind a blank, the end of a
/// line, `;` or a brace.
pub open spec fn source_import_may_begin(b: Seq<u8>, i: int) -> bool {
    i == 0 || ({
        let c = b[i - 1];
        c == SPACE || c == TAB || c == CARRIAGE_RETURN || c == LINE_FEED || c == SEMICOLON || c
            == OPEN_BRACE || c == CLOSE_BRACE
    })
}

/// The source-phase import that begins at `i`, where one can begin.
pub open spec fn source_import_at(b: Seq<u8>, i: int) -> Option<(int, Seq<char>, Seq<char>)> {
    if source_import_may_begin(b, i) && word_at(b, "import"@, i) {
        source_import(b.subrange(i, b.len() as int))
    } else {
        None
    }
}

/// The lookup that replaces a source-phase import.
pub open spec fn lookup_text(binding: Seq<char>, id: nat) -> Seq<char> {
    "const "@ + binding + "=globalThis.__v82jsc_wasm_src.get("@ + decimal(id) + ");"@
}

/// A source-phase import takes bytes within the text.
pub proof fn lemma_source_import(b: Seq<u8>)
    ensures
        source_import(b) matches Some(r) ==> 0 < r.0 <= b.len(),
{
    if source_import(b) is Some {
        reveal_strlit("import");
        reveal_strlit("source");
        reveal_strlit("from");
        let p1 = white_stop(b, 6);
        let p2 = white_stop(b, p1 + 6);
        let e = ident_stop(b, p2);
        let p3 = white_stop(b, e);
        let p4 = white_stop(b, p3 + 4);
        lemma_byte_stop(b, b[p4], p4 + 1);
    }
}

proof fn lemma_byte_stop(b: Seq<u8>, c: u8, p: int)
    requires
        0 <= p <= b.len(),
    ensures
        p <= byte_stop(b, c, p) <= b.len(),
    decreases b.len() - p,
{
    if p < b.len() && b[p] != c {
        lemma_byte_stop(b, c, p + 1);
    }
}

/// The bytes of the text from `i` on with its source-phase imports replaced, the first one getting the
/// number `id`.
pub open spec fn replaced_from(b: Seq<u8>, i: int, id: nat) -> Seq<u8>
    decreases b.len() - i,
{
    if i < 0 || i >= b.len() {
        seq![]
    } else {
        proof {
            lemma_source_import(b.subrange(i, b.len() as int));
        }
        match source_import_at(b, i) {
            Some((n, binding, _)) => encode_utf8(lookup_text(binding, id)) + replaced_from(
                b,
                i + n,
                id + 1,
            ),
            None => seq![b[i]] + replaced_from(b, i + 1, id),
        }
    }
}

/// The source-phase imports of the text from `i` on: number and specifier of each.
pub open spec fn records_from(b: Seq<u8>, i: int, id: nat) -> Seq<(nat, Seq<char>)>
    decreases b.len() - i,
{
    if i < 0 || i >= b.len() {
        seq![]
    } else {
        proof {
            lemma_source_import(b.subrange(i, b.len() as int));
        }
        match source_import_at(b, i) {
            Some((n, _, spec)) => seq![(id, spec)] + records_from(b, i + n, id + 1),
            None => records_from(b, i + 1, id),
        }
    }
}

/// The views of a list of records.
pub open spec fn record_views(v: Seq<(u64, String)>) -> Seq<(nat, Seq<char>)> {
    Seq::new(v.len(), |i: int| (v[i].0 as nat, v[i].1@))
}

/// The number of the next source-phase import.
pub fn next_src_phase_id(counter: &mut u64) -> (r: u64)
    requires
        *old(counter) < u64::MAX,
    ensures
        r == *old(counter),
        *final(counter) == *old(counter) + 1,
{
    let v = *counter;
    *counter = v + 1;
    v
}

/// Appends a string to a string.
fn append(out: &mut String, s: &str)
    ensures
        final(out)@ == old(out)@ + s@,
{
    let c = chars_of(s);
    let ghost before = out@;
    let mut i: usize = 0;
    while i < c.len()
        invariant
            i <= c.len(),
            out@ =~= before + c@.take(i as int),
        decreases c.len() - i,
    {
        out.push(c[i]);
        i += 1;
    }
    assert(c@.take(c@.len() as int) =~= c@);
}

/// The lookup that replaces a source-phase import.
fn lookup_source(binding: &str, id: u64) -> (r: String)
    ensures
        r@ == lookup_text(binding@, id as nat),
{
    let name = chars_of(binding);
    let mut out = chars_of("const ");
    push_all(&mut out, &name);
    push_str(&mut out, "=globalThis.__v82jsc_wasm_src.get(");
    push_all(&mut out, &decimal_of(id));
    push_str(&mut out, ");");
    assert(out@ =~= lookup_text(binding@, id as nat));
    string_of(&out)
}

/// Replaces source-phase imports (`import source X from "Y"`) by lookups
/// (`const X=globalThis.__v82jsc_wasm_src.get(ID);`), and reports number and specifier of each. The
/// numbers are taken from `counter`. Text without `import source` stays as it is.
#[verifier::rlimit(60)]
pub fn rewrite_source_phase(src: &str, counter: &mut u64) -> (r: (String, Vec<(u64, String)>))
    requires
        *old(counter) + encode_utf8(src@).len() <= u64::MAX,
    ensures
        !contains_text(src@, "import source"@) ==> r.0@ == src@ && r.1@.len() == 0
            && *final(counter) == *old(counter),
        contains_text(src@, "import source"@) ==> {
            &&& encode_utf8(r.0@) == replaced_from(encode_utf8(src@), 0, *old(counter) as nat)
            &&& record_views(r.1@) == records_from(encode_utf8(src@), 0, *old(counter) as nat)
            &&& *final(counter) == *old(counter) + r.1@.len()
        },
{
    let chars = chars_of(src);
    if !contains(&chars, "import source") {
        return (src.to_owned(), Vec::new());
    }
    let b = src.as_bytes();
    let n = b.len();
    proof {
        encode_utf8_valid_utf8(src@);
        reveal_strlit("import");
        assert("import"@[0] == 'i');
    }
    let ghost first = *counter as nat;
    let mut out = String::new();
    let mut records: Vec<(u64, String)> = Vec::new();
    let mut i: usize = 0;
    let mut last: usize = 0;
    proof {
        assert(encode_utf8(out@) =~= seq![]);
        assert(b@.subrange(0, 0) =~= seq![]);
        assert(seq![] + seq![] + replaced_from(b@, 0, first) =~= replaced_from(b@, 0, first));
        assert(record_views(records@) + records_from(b@, 0, first) =~= records_from(b@, 0, first));
    }
    while i < n
        invariant
            n == b@.len(),
            b@ == encode_utf8(src@),
            vstd::utf8::valid_utf8(b@),
            "import"@[0] == 'i',
            "import"@.len() == 6,
            last <= i <= n,
            last == 0 || b@[last - 1] < 0x80,
            first == *old(counter),
            first + n <= u64::MAX,
            *counter == first + records@.len(),
            records@.len() <= i,
            encode_utf8(out@) + b@.subrange(last as int, i as int) + replaced_from(
                b@,
                i as int,
                *counter as nat,
            ) =~= replaced_from(b@, 0, first),
            record_views(records@) + records_from(b@, i as int, *counter as nat) =~= records_from(
                b@,
                0,
                first,
            ),
        decreases n - i,
    {
        let may_begin = i == 0 || ({
            let p = b[i - 1];
            p == SPACE || p == TAB || p == CARRIAGE_RETURN || p == LINE_FEED || p == SEMICOLON || p
                == OPEN_BRACE || p == CLOSE_BRACE
        });
        let mut hit: Option<(usize, String, String)> = None;
        if may_begin && is_word_at(b, "import", i) {
            proof {
                assert(b@[i + 0] as u32 == "import"@[0] as u32);
                lemma_boundary(b@, i as int);
                lemma_boundary(b@, n as int);
            }
            hit = parse_source_phase_at(str_slice(src, i, n));
        }
        match hit {
            Some((len, binding, spec)) => {
                let ghost rest = b@.subrange(i as int, n as int);
                proof {
                    lemma_boundary(b@, last as int);
                    lemma_boundary(b@, i as int);
                    assert(rest[len - 1] == b@[i + len - 1]);
                }
                let ghost before = out@;
                let ghost done = record_views(records@);
                append(&mut out, str_slice(src, last, i));
                let ghost copied = out@;
                let id = next_src_phase_id(counter);
                let lookup = lookup_source(&binding, id);
                append(&mut out, &lookup);
                proof {
                    lemma_encode_concat(before, decode_utf8(b@.subrange(last as int, i as int)));
                    lemma_encode_concat(copied, lookup@);
                }
                records.push((id, spec));
                assert(record_views(records@) =~= done.push((id as nat, spec@)));
                i += len;
                last = i;
                assert(b@.subrange(last as int, i as int) =~= seq![]);
            },
            None => {
                assert(b@.subrange(last as int, i + 1) =~= b@.subrange(last as int, i as int).push(
                    b@[i as int],
                ));
                i += 1;
            },
        }
    }
    proof {
        lemma_boundary(b@, last as int);
        lemma_boundary(b@, n as int);
    }
    let ghost before = out@;
    append(&mut out, str_slice(src, last, n));
    proof {
        lemma_encode_concat(before, decode_utf8(b@.subrange(last as int, n as int)));
        assert(records_from(b@, n as int, *counter as nat) =~= seq![]);
        assert(replaced_from(b@, n as int, *counter as nat) =~= seq![]);
        assert(encode_utf8(out@) =~= replaced_from(b@, 0, first));
    }
    (out, records)
}

/// The source-phase imports of a text are numbered one after the other.
pub proof fn law_records_are_numbered(b: Seq<u8>, i: int, id: nat, k: int)
    requires
        0 <= k < records_from(b, i, id).len(),
    ensures
        records_from(b, i, id)[k].0 == id + k,
    decreases b.len() - i,
{
    if 0 <= i < b.len() {
        lemma_source_import(b.subrange(i, b.len() as int));
        match source_import_at(b, i) {
            Some((n, _, _)) => {
                if k > 0 {
                    law_records_are_numbered(b, i + n, id + 1, k - 1);
                }
            },
            None => {
                law_records_are_numbered(b, i + 1, id, k);
            },
        }
    }
}

/// The source-phase import of `spec` as `name`, with the semicolon that ends it.
pub open spec fn source_statement(name: Seq<char>, quote: char, spec: Seq<char>) -> Seq<char> {
    "import source "@ + name + " from "@ + seq![quote] + spec + seq![quote, ';']
}

proof fn lemma_white_stop_is(b: Seq<u8>, p: int)
    requires
        0 <= p,
        p + 1 < b.len(),
        is_white_byte(b[p]),
        !is_white_byte(b[p + 1]),
    ensures
        white_stop(b, p) == p + 1,
{
    reveal_with_fuel(white_stop, 2);
}

proof fn lemma_ident_stop_is(b: Seq<u8>, p: int, m: int)
    requires
        0 <= p <= m < b.len(),
        forall|j: int| p <= j < m ==> is_ident_byte(#[trigger] b[j]),
        !is_ident_byte(b[m]),
    ensures
        ident_stop(b, p) == m,
    decreases m - p,
{
    if p < m {
        assert(is_ident_byte(b[p]));
        lemma_ident_stop_is(b, p + 1, m);
    }
}

proof fn lemma_byte_stop_is(b: Seq<u8>, c: u8, p: int, m: int)
    requires
        0 <= p <= m < b.len(),
        b[m] == c,
        forall|j: int| p <= j < m ==> b[j] != c,
    ensures
        byte_stop(b, c, p) == m,
    decreases m - p,
{
    if p < m {
        lemma_byte_stop_is(b, c, p + 1, m);
    }
}

/// A text that lacks an ASCII character lacks its byte.
pub proof fn lemma_no_byte(s: Seq<char>, c: char)
    requires
        (c as u32) < 0x80,
        !s.contains(c),
    ensures
        forall|j: int| 0 <= j < encode_utf8(s).len() ==> encode_utf8(s)[j] as u32 != c as u32,
    decreases s.len(),
{
    if s.len() > 0 {
        let rest = s.skip(1);
        assert(s.contains(s[0]));
        assert forall|k: int| 0 <= k < rest.len() implies rest[k] != c by {
            assert(s.contains(s[k + 1]));
        }
        lemma_no_byte(rest, c);
        lemma_ascii(s, 0);
        lemma_character(s, 0);
        lemma_bytes_before(s, 1);
        assert(s.take(0) =~= seq![]);
        let w = byte_offset(s, 1);
        let b = encode_utf8(s);
        assert forall|j: int| 0 <= j < b.len() implies b[j] as u32 != c as u32 by {
            if j >= w {
                assert(b[j] == b.skip(w)[j - w]);
            } else if (s[0] as u32) >= 0x80 {
                assert(b[j] >= 0x80);
            } else {
                assert(j == 0);
                char_u32_cast(s[0], s[0] as u32);
                char_u32_cast(c, c as u32);
            }
        }
    }
}

/// What stands behind a semicolon is read as a text of its own.
proof fn lemma_behind_semicolon(a: Seq<u8>, c: Seq<u8>, i: int, id: nat)
    requires
        a.len() > 0,
        a.last() == SEMICOLON,
        0 <= i,
    ensures
        replaced_from(a + c, a.len() + i, id) == replaced_from(c, i, id),
        records_from(a + c, a.len() + i, id) == records_from(c, i, id),
    decreases c.len() - i,
{
    let b = a + c;
    let k = a.len() + i;
    if i < c.len() {
        let rest = c.subrange(i, c.len() as int);
        assert(b.subrange(k, b.len() as int) =~= rest);
        assert(source_import_may_begin(b, k) == source_import_may_begin(c, i)) by {
            if i == 0 {
                assert(b[k - 1] == a.last());
            } else {
                assert(b[k - 1] == c[i - 1]);
            }
        }
        assert(word_at(b, "import"@, k) == word_at(c, "import"@, i));
        lemma_source_import(rest);
        match source_import_at(c, i) {
            Some((n, _, _)) => {
                lemma_behind_semicolon(a, c, i + n, id + 1);
            },
            None => {
                lemma_behind_semicolon(a, c, i + 1, id);
            },
        }
    }
}

/// A source-phase import becomes the lookup that binds its name, and its specifier is recorded under the
/// number of the lookup; what stands behind it is read on its own.
#[verifier::rlimit(50)]
pub proof fn law_source_import_is_replaced(
    name: Seq<char>,
    quote: char,
    spec: Seq<char>,
    after: Seq<char>,
    id: nat,
)
    requires
        name.len() > 0,
        forall|i: int| 0 <= i < name.len() ==> is_ident(#[trigger] name[i]),
        is_quote(quote),
        !spec.contains(quote),
    ensures
        ({
            let b = encode_utf8(source_statement(name, quote, spec) + after);
            &&& replaced_from(b, 0, id) == encode_utf8(lookup_text(name, id)) + replaced_from(
                encode_utf8(after),
                0,
                id + 1,
            )
            &&& records_from(b, 0, id) == seq![(id, spec)] + records_from(
                encode_utf8(after),
                0,
                id + 1,
            )
        }),
{
    reveal_strlit("import source ");
    reveal_strlit(" from ");
    reveal_strlit("import");
    reveal_strlit("source");
    reveal_strlit("from");
    let head = "import source "@ + name + " from "@ + seq![quote];
    let end = seq![quote, ';'];
    let s = source_statement(name, quote, spec) + after;
    let h = encode_utf8(head);
    let m = encode_utf8(spec);
    let e = encode_utf8(end);
    let a = h + m + e;
    let b = encode_utf8(s);
    assert(s =~= head + (spec + (end + after)));
    lemma_encode_concat(head, spec + (end + after));
    lemma_encode_concat(spec, end + after);
    lemma_encode_concat(end, after);
    assert(b =~= a + encode_utf8(after));
    assert forall|i: int| 0 <= i < head.len() implies '\0' <= #[trigger] head[i] <= '\u{7f}' by {
        if 14 <= i < 14 + name.len() {
            assert(head[i] == name[i - 14]);
            assert(is_ident(name[i - 14]));
            char_u32_cast(head[i], head[i] as u32);
        }
    }
    is_ascii_chars_encode_utf8(head);
    is_ascii_chars_encode_utf8(end);
    let k = 14 + name.len() as int;
    assert(head.len() == k + 7);
    let q = quote as u8;
    assert(q == DOUBLE_QUOTE || q == SINGLE_QUOTE);
    assert forall|i: int| 0 <= i < head.len() implies b[i] == head[i] as u8 by {
        assert(b[i] == h[i]);
    }
    assert forall|i: int| 14 <= i < k implies is_ident_byte(#[trigger] b[i]) by {
        assert(head[i] == name[i - 14]);
        assert(is_ident(name[i - 14]));
    }
    assert(is_ident(name[0]));
    assert(head[14] == name[0]);
    lemma_white_stop_is(b, 6);
    lemma_white_stop_is(b, 13);
    lemma_ident_stop_is(b, 14, k);
    lemma_white_stop_is(b, k);
    lemma_white_stop_is(b, k + 5);
    let c = k + 7 + m.len();
    lemma_no_byte(spec, quote);
    assert forall|j: int| k + 7 <= j < c implies b[j] != q by {
        assert(b[j] == m[j - k - 7]);
    }
    assert(b[c] == e[0] && b[c + 1] == e[1]);
    lemma_byte_stop_is(b, q, k + 7, c);
    assert(b.subrange(14, k) =~= encode_utf8(name)) by {
        assert(is_ascii_chars(name)) by {
            assert forall|i: int| 0 <= i < name.len() implies '\0' <= #[trigger] name[i]
                <= '\u{7f}' by {
                assert(is_ident(name[i]));
                char_u32_cast(name[i], name[i] as u32);
            }
        }
        is_ascii_chars_encode_utf8(name);
        assert forall|i: int| 0 <= i < name.len() implies b.subrange(14, k)[i] == encode_utf8(
            name,
        )[i] by {
            assert(head[14 + i] == name[i]);
        }
    }
    encode_utf8_decode_utf8(name);
    assert(b.subrange(k + 7, c) =~= m);
    encode_utf8_decode_utf8(spec);
    assert(word_at(b, "import"@, 0));
    assert(word_at(b, "source"@, 7));
    assert(word_at(b, "from"@, k + 1));
    assert(source_import(b) == Some((c + 2, name, spec)));
    assert(b.subrange(0, b.len() as int) =~= b);
    assert(a.len() == c + 2);
    assert(a.last() == SEMICOLON);
    lemma_behind_semicolon(a, encode_utf8(after), 0, id + 1);
}

} // verus!

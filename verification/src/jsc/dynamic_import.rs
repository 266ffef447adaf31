//! Sending dynamic `import(...)` calls through a function of the layer.

use crate::scan::{ident, is_ident};
use crate::scan_laws::law_identifier_characters;
use crate::text::{chars_of, is_at, is_white, occurs_at, push_str, string_of, white};
use vstd::prelude::*;

verus! {

/// The first position at or after `i` that holds no white space, or the end of the text.
pub open spec fn blanks_end(s: Seq<char>, i: int) -> int
    decreases s.len() - i,
{
    if i < 0 || i >= s.len() {
        s.len() as int
    } else if is_white(s[i]) {
        blanks_end(s, i + 1)
    } else {
        i
    }
}

/// `blanks_end` lies at or after `i`, within the text.
pub proof fn lemma_blanks_end(s: Seq<char>, i: int)
    requires
        0 <= i <= s.len(),
    ensures
        i <= blanks_end(s, i) <= s.len(),
    decreases s.len() - i,
{
    if i < s.len() && is_white(s[i]) {
        lemma_blanks_end(s, i + 1);
    }
}

/// A dynamic import begins at `i`: the word `import`, not the end of a longer one, then `(`, with
/// nothing but white space between.
pub open spec fn import_call_at(s: Seq<char>, i: int) -> bool {
    &&& occurs_at(s, "import"@, i)
    &&& i == 0 || !is_ident(s[i - 1])
    &&& blanks_end(s, i + 6) < s.len()
    &&& s[blanks_end(s, i + 6)] == '('
}

/// `s` from position `i` on, with its dynamic imports replaced.
pub open spec fn redirected_from(s: Seq<char>, i: int) -> Seq<char>
    decreases s.len() - i,
{
    if i < 0 || i >= s.len() {
        seq![]
    } else if import_call_at(s, i) {
        proof {
            reveal_strlit("import");
            lemma_blanks_end(s, i + 6);
        }
        "__v82jsc_dynImport("@ + redirected_from(s, blanks_end(s, i + 6) + 1)
    } else {
        seq![s[i]] + redirected_from(s, i + 1)
    }
}

/// `s` with `__v82jsc_dynImport(` in place of every `import(`.
pub open spec fn redirected(s: Seq<char>) -> Seq<char> {
    redirected_from(s, 0)
}

/// `s` with its dynamic imports replaced.
pub fn redirect(s: &[char]) -> (r: Vec<char>)
    ensures
        r@ == redirected(s@),
{
    let word = chars_of("import");
    proof {
        reveal_strlit("import");
    }
    let mut out: Vec<char> = Vec::new();
    let mut i: usize = 0;
    while i < s.len()
        invariant
            i <= s.len(),
            word@ == "import"@,
            word@.len() == 6,
            out@ + redirected_from(s@, i as int) =~= redirected(s@),
        decreases s.len() - i,
    {
        let mut call: Option<usize> = None;
        if is_at(s, &word, i) && (i == 0 || !ident(s[i - 1])) {
            let mut j: usize = i + 6;
            while j < s.len() && white(s[j])
                invariant
                    i + 6 <= j <= s.len(),
                    blanks_end(s@, i + 6) == blanks_end(s@, j as int),
                decreases s.len() - j,
            {
                j += 1;
            }
            if j < s.len() && s[j] == '(' {
                call = Some(j);
            }
        }
        match call {
            Some(j) => {
                push_str(&mut out, "__v82jsc_dynImport(");
                i = j + 1;
            },
            None => {
                out.push(s[i]);
                i += 1;
            },
        }
    }
    out
}

/// Replaces dynamic `import(` calls by `__v82jsc_dynImport(`, a function that the caller provides
/// and that passes the module's address on. `reimport(` is left alone, and so are `import.meta` and
/// static imports.
pub fn rewrite_dynamic_import_calls(body: &str) -> (r: String)
    ensures
        r@ == redirected(body@),
{
    let s = chars_of(body);
    string_of(&redirect(&s))
}

/// Text without a dynamic import stays as it is: `import.meta`, static imports, `reimport(`.
pub proof fn law_text_without_calls_is_kept(s: Seq<char>)
    requires
        forall|i: int| !import_call_at(s, i),
    ensures
        redirected(s) == s,
{
    lemma_kept_from(s, 0);
    assert(s.skip(0) =~= s);
}

proof fn lemma_kept_from(s: Seq<char>, i: int)
    requires
        0 <= i <= s.len(),
        forall|k: int| !import_call_at(s, k),
    ensures
        redirected_from(s, i) == s.skip(i),
    decreases s.len() - i,
{
    if i < s.len() {
        assert(!import_call_at(s, i));
        lemma_kept_from(s, i + 1);
        assert(seq![s[i]] + s.skip(i + 1) =~= s.skip(i));
    }
}

/// Characters of the result that are no underscore are those of the text: nothing was replaced before
/// them.
proof fn lemma_run(s: Seq<char>, i: int, n: int)
    requires
        0 <= i <= s.len(),
        0 <= n <= redirected_from(s, i).len(),
        forall|k: int| 0 <= k < n ==> redirected_from(s, i)[k] != '_',
    ensures
        i + n <= s.len(),
        redirected_from(s, i) == s.subrange(i, i + n) + redirected_from(s, i + n),
    decreases n,
{
    let r = redirected_from(s, i);
    if n == 0 {
        assert(s.subrange(i, i) + r =~= r);
    } else {
        if import_call_at(s, i) {
            reveal_strlit("__v82jsc_dynImport(");
            assert(r[0] == '_');
        }
        let t = redirected_from(s, i + 1);
        assert(r =~= seq![s[i]] + t);
        assert forall|k: int| 0 <= k < n - 1 implies t[k] != '_' by {
            assert(t[k] == r[k + 1]);
        }
        lemma_run(s, i + 1, n - 1);
        assert(s.subrange(i, i + n) =~= seq![s[i]] + s.subrange(i + 1, i + n));
        assert(r =~= s.subrange(i, i + n) + redirected_from(s, i + n));
    }
}

/// Between `i` and `blanks_end` there are blanks alone.
proof fn lemma_blanks(s: Seq<char>, i: int)
    requires
        0 <= i <= s.len(),
    ensures
        i <= blanks_end(s, i) <= s.len(),
        forall|k: int| i <= k < blanks_end(s, i) ==> is_white(#[trigger] s[k]),
        blanks_end(s, i) < s.len() ==> !is_white(s[blanks_end(s, i)]),
    decreases s.len() - i,
{
    if i < s.len() && is_white(s[i]) {
        lemma_blanks(s, i + 1);
    }
}

/// The end of the blanks is where something else stands, behind blanks alone.
proof fn lemma_blanks_end_is(s: Seq<char>, i: int, e: int)
    requires
        0 <= i <= e < s.len(),
        forall|k: int| i <= k < e ==> is_white(#[trigger] s[k]),
        !is_white(s[e]),
    ensures
        blanks_end(s, i) == e,
    decreases e - i,
{
    if i < e {
        assert(is_white(s[i]));
        lemma_blanks_end_is(s, i + 1, e);
    }
}

/// A dynamic import at the beginning of what comes out from position `i` on is one at `i`.
proof fn lemma_call_comes_from_a_call(s: Seq<char>, i: int)
    requires
        0 <= i <= s.len(),
        occurs_at(redirected_from(s, i), "import"@, 0),
        ({
            let r = redirected_from(s, i);
            let e = blanks_end(r, 6);
            e < r.len() && r[e] == '('
        }),
        i == 0 || !is_ident(s[i - 1]),
    ensures
        import_call_at(s, i),
{
    reveal_strlit("import");
    let r = redirected_from(s, i);
    let e = blanks_end(r, 6);
    lemma_blanks(r, 6);
    assert forall|k: int| 0 <= k < e + 1 implies r[k] != '_' by {
        if k < 6 {
            assert(r[k] == r.subrange(0, 6)[k]);
            assert(r[k] == "import"@[k]);
        }
    }
    lemma_run(s, i, e + 1);
    assert forall|k: int| 0 <= k < e + 1 implies s[i + k] == r[k] by {
        assert(r[k] == s.subrange(i, i + e + 1)[k]);
    }
    assert(s.subrange(i, i + 6) =~= r.subrange(0, 6));
    assert(s.subrange(i, i + 6) =~= "import"@);
    assert forall|k: int| i + 6 <= k < i + e implies is_white(#[trigger] s[k]) by {
        assert(s[i + (k - i)] == r[k - i]);
    }
    assert(s[i + e] == r[e]);
    lemma_blanks_end_is(s, i + 6, i + e);
}

/// The blanks of a text behind one more character end one position later.
proof fn lemma_blanks_end_shift(c: char, t: Seq<char>, i: int)
    requires
        0 <= i,
    ensures
        blanks_end(seq![c] + t, i + 1) == blanks_end(t, i) + 1,
    decreases t.len() - i,
{
    let u = seq![c] + t;
    if i < t.len() {
        assert(u[i + 1] == t[i]);
        if is_white(t[i]) {
            lemma_blanks_end_shift(c, t, i + 1);
        }
    }
}

/// A dynamic import in a text behind one more character is one in the text, where nothing but the
/// character before it can tell the difference.
proof fn lemma_call_shift(c: char, t: Seq<char>, k: int)
    requires
        k >= 1,
    ensures
        import_call_at(seq![c] + t, k) == (import_call_at(t, k - 1) && (k == 1 ==> !is_ident(c))),
{
    reveal_strlit("import");
    let u = seq![c] + t;
    if k - 1 + 6 <= t.len() {
        assert(u.subrange(k, k + 6) =~= t.subrange(k - 1, k + 5));
        lemma_blanks_end_shift(c, t, k + 5);
        if k >= 2 {
            assert(u[k - 1] == t[k - 2]);
        }
        let e = blanks_end(t, k + 5);
        if e < t.len() {
            lemma_blanks_end(t, k + 5);
            assert(u[e + 1] == t[e]);
        }
    }
}

/// No dynamic import stands in what comes out from position `i` on; at its beginning the character before
/// `i` counts.
proof fn lemma_no_call_left(s: Seq<char>, i: int, k: int)
    requires
        0 <= i <= s.len(),
        k == 0 ==> i == 0 || !is_ident(s[i - 1]),
    ensures
        !import_call_at(redirected_from(s, i), k),
    decreases s.len() - i,
{
    reveal_strlit("import");
    let r = redirected_from(s, i);
    if import_call_at(r, k) {
        if k == 0 {
            lemma_call_comes_from_a_call(s, i);
            reveal_strlit("__v82jsc_dynImport(");
            assert(r[0] == '_');
            assert(r.subrange(0, 6)[0] == 'i');
        } else if import_call_at(s, i) {
            let e = blanks_end(s, i + 6);
            lemma_blanks_end(s, i + 6);
            lemma_behind_helper(redirected_from(s, e + 1), k);
            lemma_no_call_left(s, e + 1, k - 19);
        } else {
            lemma_call_shift(s[i], redirected_from(s, i + 1), k);
            lemma_no_call_left(s, i + 1, k - 1);
        }
    }
}

/// A dynamic import in a text that the name of the function comes before stands in the text itself.
proof fn lemma_behind_helper(t: Seq<char>, k: int)
    requires
        k >= 1,
        import_call_at("__v82jsc_dynImport("@ + t, k),
    ensures
        k >= 19,
        import_call_at(t, k - 19),
{
    reveal_strlit("import");
    reveal_strlit("__v82jsc_dynImport(");
    let h = "__v82jsc_dynImport("@;
    let u = h + t;
    assert(u.subrange(k, k + 6) =~= "import"@);
    assert(u[k] == u.subrange(k, k + 6)[0]);
    assert(u[k + 1] == u.subrange(k, k + 6)[1]);
    if k < 19 {
        assert(u[k] == h[k]);
        if k + 1 < 19 {
            assert(u[k + 1] == h[k + 1]);
        }
        assert(false);
    }
    assert(u.subrange(k, k + 6) =~= t.subrange(k - 19, k - 13));
    lemma_blanks(u, k + 6);
    let e = blanks_end(u, k + 6);
    assert forall|j: int| k - 13 <= j < e - 19 implies is_white(#[trigger] t[j]) by {
        assert(u[j + 19] == t[j]);
    }
    assert(u[e] == t[e - 19]);
    lemma_blanks_end_is(t, k - 13, e - 19);
    if k > 19 {
        assert(u[k - 1] == t[k - 20]);
    }
}

/// Every dynamic import is replaced: none is left in the result.
pub proof fn law_no_call_is_left(s: Seq<char>, k: int)
    ensures
        !import_call_at(redirected(s), k),
{
    lemma_no_call_left(s, 0, k);
}

/// The word `import`, not the end of a longer word, and a bracket behind it with only white space between make
/// a dynamic import; nothing else does.
pub proof fn law_call_shape(before: Seq<char>, blank: Seq<char>, c: char, rest: Seq<char>)
    requires
        forall|i: int| 0 <= i < blank.len() ==> is_white(#[trigger] blank[i]),
        !is_white(c),
    ensures
        import_call_at(before + ("import"@ + blank + seq![c] + rest), before.len() as int) == (c == '('
            && (before.len() == 0 || !({
            let l = before.last();
            'a' <= l <= 'z' || 'A' <= l <= 'Z' || '0' <= l <= '9' || l == '_' || l == '$'
        }))),
{
    let n = before.len() as int;
    let s = before + ("import"@ + blank + seq![c] + rest);
    reveal_strlit("import");
    assert(s.subrange(n, n + 6) =~= "import"@);
    let u = before + "import"@;
    assert(s =~= u + blank + seq![c] + rest);
    lemma_blanks_end_at(u, blank, c, rest);
    assert(u.len() == n + 6);
    assert(blanks_end(s, n + 6) == n + 6 + blank.len());
    assert(s[n + 6 + blank.len()] == c);
    assert(occurs_at(s, "import"@, n));
    if n > 0 {
        assert(s[n - 1] == before.last());
        law_identifier_characters(before.last());
    }
    assert(blanks_end(s, n + 6) < s.len());
    assert(import_call_at(s, n) == (c == '(' && (n == 0 || !is_ident(s[n - 1]))));
}

proof fn lemma_blanks_end_at(before: Seq<char>, blank: Seq<char>, c: char, rest: Seq<char>)
    requires
        forall|i: int| 0 <= i < blank.len() ==> is_white(#[trigger] blank[i]),
        !is_white(c),
    ensures
        blanks_end(before + blank + seq![c] + rest, before.len() as int) == before.len() + blank.len(),
    decreases blank.len(),
{
    let s = before + blank + seq![c] + rest;
    let n = before.len() as int;
    if blank.len() == 0 {
        assert(s[n] == c);
    } else {
        assert(is_white(blank[0]));
        assert(s[n] == blank[0]);
        let next = before.push(blank[0]);
        let more = blank.skip(1);
        assert forall|i: int| 0 <= i < more.len() implies is_white(#[trigger] more[i]) by {
            assert(is_white(blank[i + 1]));
        }
        assert(next + more + seq![c] + rest =~= s);
        lemma_blanks_end_at(next, more, c, rest);
    }
}

/// The first dynamic import becomes a call of the layer's function; what stands before it is kept, and the
/// rest is treated likewise.
pub proof fn law_call_is_redirected(before: Seq<char>, blank: Seq<char>, rest: Seq<char>)
    requires
        forall|i: int| 0 <= i < blank.len() ==> is_white(#[trigger] blank[i]),
        before.len() == 0 || !is_ident(before.last()),
        forall|i: int|
            0 <= i < before.len() ==> !import_call_at(
                before + ("import"@ + blank + seq!['('] + rest),
                i,
            ),
    ensures
        redirected(before + ("import"@ + blank + seq!['('] + rest)) == before + "__v82jsc_dynImport("@
            + redirected(rest),
{
    let s = before + ("import"@ + blank + seq!['('] + rest);
    let n = before.len() as int;
    law_call_shape(before, blank, '(', rest);
    reveal_strlit("import");
    let u = before + "import"@;
    assert(s =~= u + blank + seq!['('] + rest);
    lemma_blanks_end_at(u, blank, '(', rest);
    let e = n + 6 + blank.len();
    assert(s.skip(e + 1) =~= rest);
    assert(s[e] == '(');
    lemma_redirected_behind(s, e + 1, 0);
    lemma_kept_up_to(s, 0, n);
    assert(s.subrange(0, n) =~= before);
    assert(before + ("__v82jsc_dynImport("@ + redirected(rest)) =~= before + "__v82jsc_dynImport("@
        + redirected(rest));
}

proof fn lemma_kept_up_to(s: Seq<char>, i: int, n: int)
    requires
        0 <= i <= n <= s.len(),
        forall|k: int| 0 <= k < n ==> !import_call_at(s, k),
    ensures
        redirected_from(s, i) == s.subrange(i, n) + redirected_from(s, n),
    decreases n - i,
{
    if i < n {
        lemma_kept_up_to(s, i + 1, n);
        assert(seq![s[i]] + (s.subrange(i + 1, n) + redirected_from(s, n)) =~= s.subrange(i, n)
            + redirected_from(s, n));
    } else {
        assert(s.subrange(i, n) + redirected_from(s, n) =~= redirected_from(s, n));
    }
}

proof fn lemma_blanks_behind(s: Seq<char>, k: int, i: int)
    requires
        0 <= k <= s.len(),
        0 <= i,
    ensures
        blanks_end(s, k + i) == k + blanks_end(s.skip(k), i),
    decreases s.len() - k - i,
{
    if k + i < s.len() {
        assert(s.skip(k)[i] == s[k + i]);
        if is_white(s[k + i]) {
            lemma_blanks_behind(s, k, i + 1);
        }
    }
}

proof fn lemma_redirected_behind(s: Seq<char>, k: int, i: int)
    requires
        0 < k <= s.len(),
        !is_ident(s[k - 1]),
        0 <= i,
    ensures
        redirected_from(s, k + i) == redirected_from(s.skip(k), i),
    decreases s.len() - k - i,
{
    let t = s.skip(k);
    if k + i < s.len() {
        reveal_strlit("import");
        assert(t[i] == s[k + i]);
        if k + i + 6 <= s.len() {
            assert(s.subrange(k + i, k + i + 6) =~= t.subrange(i, i + 6));
            lemma_blanks_behind(s, k, i + 6);
            lemma_blanks_end(t, i + 6);
        }
        if i > 0 {
            assert(t[i - 1] == s[k + i - 1]);
        }
        assert(import_call_at(s, k + i) == import_call_at(t, i)) by {
            if blanks_end(t, i + 6) < t.len() && k + i + 6 <= s.len() {
                assert(t[blanks_end(t, i + 6)] == s[k + blanks_end(t, i + 6)]);
            }
        }
        if import_call_at(t, i) {
            lemma_redirected_behind(s, k, blanks_end(t, i + 6) + 1);
        } else {
            lemma_redirected_behind(s, k, i + 1);
        }
    }
}

} // verus!

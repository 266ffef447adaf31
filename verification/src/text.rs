//! Text as a sequence of characters: searching, trimming, splitting and joining.

use vstd::prelude::*;

verus! {

/// Unicode `White_Space`.
pub open spec fn is_white(c: char) -> bool {
    let u = c as u32;
    ||| 0x9 <= u <= 0xd
    ||| u == 0x20
    ||| u == 0x85
    ||| u == 0xa0
    ||| u == 0x1680
    ||| 0x2000 <= u <= 0x200a
    ||| u == 0x2028
    ||| u == 0x2029
    ||| u == 0x202f
    ||| u == 0x205f
    ||| u == 0x3000
}

/// Whether `c` has the Unicode property `White_Space`.
pub fn white(c: char) -> (r: bool)
    ensures
        r == is_white(c),
{
    let u: u32 = c as u32;
    (0x9 <= u && u <= 0xd) || u == 0x20 || u == 0x85 || u == 0xa0 || u == 0x1680 || (0x2000 <= u
        && u <= 0x200a) || u == 0x2028 || u == 0x2029 || u == 0x202f || u == 0x205f || u == 0x3000
}

/// The characters of `s`.
pub fn chars_of(s: &str) -> (r: Vec<char>)
    ensures
        r@ == s@,
{
    let mut out: Vec<char> = Vec::new();
    for c in it: s.chars()
        invariant
            out@ == s@.take(it.index() as int),
            it.seq() == s@,
    {
        out.push(c);
    }
    out
}

/// `String::push` appends one character.
pub assume_specification[ String::push ](s: &mut String, c: char)
    ensures
        final(s)@ == old(s)@.push(c),
;

/// The string with these characters.
pub fn string_of(s: &[char]) -> (r: String)
    ensures
        r@ == s@,
{
    let mut out = String::new();
    let mut i: usize = 0;
    while i < s.len()
        invariant
            i <= s.len(),
            out@ == s@.take(i as int),
        decreases s.len() - i,
    {
        out.push(s[i]);
        i += 1;
    }
    out
}

/// The views of a list of character vectors.
pub open spec fn texts(v: Seq<Vec<char>>) -> Seq<Seq<char>> {
    Seq::new(v.len(), |i: int| v[i]@)
}

/// The views of a list of strings.
pub open spec fn strings(v: Seq<String>) -> Seq<Seq<char>> {
    Seq::new(v.len(), |i: int| v[i]@)
}

/// The characters of these strings.
pub fn all_chars(v: &[String]) -> (r: Vec<Vec<char>>)
    ensures
        texts(r@) == strings(v@),
{
    let mut r: Vec<Vec<char>> = Vec::new();
    let mut i: usize = 0;
    while i < v.len()
        invariant
            i <= v.len(),
            texts(r@) =~= strings(v@).take(i as int),
        decreases v.len() - i,
    {
        let ghost done = texts(r@);
        r.push(chars_of(&v[i]));
        assert(texts(r@) =~= done.push(strings(v@)[i as int]));
        i += 1;
    }
    assert(strings(v@).take(i as int) =~= strings(v@));
    r
}

/// `p` stands in `s` at position `i`.
pub open spec fn occurs_at(s: Seq<char>, p: Seq<char>, i: int) -> bool {
    0 <= i && i + p.len() <= s.len() && s.subrange(i, i + p.len()) =~= p
}

/// The first position at or after `i` where `p` stands in `s`.
pub open spec fn first_from(s: Seq<char>, p: Seq<char>, i: int) -> Option<int>
    decreases s.len() + 1 - i,
{
    if i < 0 || i + p.len() > s.len() {
        None
    } else if occurs_at(s, p, i) {
        Some(i)
    } else {
        first_from(s, p, i + 1)
    }
}

/// The last position at or before `i` where `p` stands in `s`.
pub open spec fn last_upto(s: Seq<char>, p: Seq<char>, i: int) -> Option<int>
    decreases i + 1,
{
    if i < 0 {
        None
    } else if occurs_at(s, p, i) {
        Some(i)
    } else {
        last_upto(s, p, i - 1)
    }
}

/// `p` stands somewhere in `s`.
pub open spec fn contains_text(s: Seq<char>, p: Seq<char>) -> bool {
    exists|i: int| occurs_at(s, p, i)
}

/// The first position at or after `i` that holds `c`.
pub open spec fn char_from(s: Seq<char>, c: char, i: int) -> Option<int>
    decreases s.len() - i,
{
    if i < 0 || i >= s.len() {
        None
    } else if s[i] == c {
        Some(i)
    } else {
        char_from(s, c, i + 1)
    }
}

/// `first_from` is the least position at or after `i` where `p` stands.
pub proof fn lemma_first_from(s: Seq<char>, p: Seq<char>, i: int)
    requires
        0 <= i,
    ensures
        match first_from(s, p, i) {
            Some(k) => i <= k && occurs_at(s, p, k) && forall|j: int|
                i <= j < k ==> !occurs_at(s, p, j),
            None => forall|j: int| i <= j ==> !occurs_at(s, p, j),
        },
    decreases s.len() + 1 - i,
{
    if i + p.len() > s.len() {
    } else if occurs_at(s, p, i) {
    } else {
        lemma_first_from(s, p, i + 1);
    }
}

/// `last_upto` is the greatest position at or before `i` where `p` stands.
pub proof fn lemma_last_upto(s: Seq<char>, p: Seq<char>, i: int)
    ensures
        match last_upto(s, p, i) {
            Some(k) => 0 <= k <= i && occurs_at(s, p, k) && forall|j: int|
                k < j <= i ==> !occurs_at(s, p, j),
            None => forall|j: int| j <= i ==> !occurs_at(s, p, j),
        },
    decreases i + 1,
{
    if i < 0 {
    } else if occurs_at(s, p, i) {
    } else {
        lemma_last_upto(s, p, i - 1);
    }
}

/// `char_from` is the least position at or after `i` that holds `c`.
pub proof fn lemma_char_from(s: Seq<char>, c: char, i: int)
    requires
        0 <= i,
    ensures
        match char_from(s, c, i) {
            Some(k) => i <= k < s.len() && s[k] == c && forall|j: int| i <= j < k ==> s[j] != c,
            None => forall|j: int| i <= j < s.len() ==> s[j] != c,
        },
    decreases s.len() - i,
{
    if i < s.len() && s[i] != c {
        lemma_char_from(s, c, i + 1);
    }
}

/// Whether `p` stands in `s` at position `i`.
pub fn is_at(s: &[char], p: &[char], i: usize) -> (r: bool)
    ensures
        r == occurs_at(s@, p@, i as int),
{
    if i > s.len() || p.len() > s.len() - i {
        return false;
    }
    let mut k: usize = 0;
    while k < p.len()
        invariant
            k <= p.len(),
            i + p.len() <= s.len(),
            forall|j: int| 0 <= j < k ==> s@[i + j] == p@[j],
        decreases p.len() - k,
    {
        if s[i + k] != p[k] {
            assert(s@.subrange(i as int, i + p@.len())[k as int] != p@[k as int]);
            return false;
        }
        k += 1;
    }
    assert(s@.subrange(i as int, i + p@.len()) =~= p@);
    true
}

/// The first position at or after `from` where `p` stands in `s`.
pub fn find_from(s: &[char], p: &[char], from: usize) -> (r: Option<usize>)
    ensures
        match r {
            Some(k) => first_from(s@, p@, from as int) == Some(k as int),
            None => first_from(s@, p@, from as int) is None,
        },
{
    let mut i: usize = from;
    while i <= s.len() && p.len() <= s.len() - i
        invariant
            first_from(s@, p@, from as int) == first_from(s@, p@, i as int),
        decreases s.len() + 1 - i,
    {
        if is_at(s, p, i) {
            return Some(i);
        }
        if i == s.len() {
            assert(s@.subrange(i as int, i as int) =~= p@);
            return None;
        }
        i += 1;
    }
    None
}

/// The last position where `p` stands in `s`.
pub fn rfind(s: &[char], p: &[char]) -> (r: Option<usize>)
    ensures
        match r {
            Some(k) => last_upto(s@, p@, s@.len() as int) == Some(k as int),
            None => last_upto(s@, p@, s@.len() as int) is None,
        },
{
    let mut i: usize = s.len();
    loop
        invariant
            i <= s.len(),
            last_upto(s@, p@, s@.len() as int) == last_upto(s@, p@, i as int),
        decreases i,
    {
        if is_at(s, p, i) {
            return Some(i);
        }
        if i == 0 {
            assert(last_upto(s@, p@, -1) is None);
            return None;
        }
        i -= 1;
    }
}

/// The first position at or after `from` that holds `c`.
pub fn find_char(s: &[char], c: char, from: usize) -> (r: Option<usize>)
    ensures
        match r {
            Some(k) => char_from(s@, c, from as int) == Some(k as int),
            None => char_from(s@, c, from as int) is None,
        },
{
    let mut i: usize = from;
    while i < s.len()
        invariant
            char_from(s@, c, from as int) == char_from(s@, c, i as int),
        decreases s.len() - i,
    {
        if s[i] == c {
            return Some(i);
        }
        i += 1;
    }
    None
}

/// Whether `p` stands somewhere in `s`.
pub fn contains(s: &[char], p: &str) -> (r: bool)
    ensures
        r == contains_text(s@, p@),
{
    let p = chars_of(p);
    proof {
        lemma_first_from(s@, p@, 0);
    }
    match find_from(s, &p, 0) {
        Some(k) => {
            assert(occurs_at(s@, p@, k as int));
            true
        },
        None => false,
    }
}

/// Whether `s` holds `c`.
pub fn contains_char(s: &[char], c: char) -> (r: bool)
    ensures
        r == s@.contains(c),
{
    proof {
        lemma_char_from(s@, c, 0);
    }
    match find_char(s, c, 0) {
        Some(k) => {
            assert(s@[k as int] == c);
            true
        },
        None => false,
    }
}

/// Whether a text holds a NUL. The engines take text that ends at its first NUL.
pub fn has_nul(s: &str) -> (r: bool)
    ensures
        r == s@.contains('\0'),
{
    let c = chars_of(s);
    contains_char(&c, '\0')
}

/// The text, unless it holds a NUL.
pub open spec fn without_nul(s: Seq<char>) -> Option<Seq<char>> {
    if s.contains('\0') {
        None
    } else {
        Some(s)
    }
}

/// A text that may be missing.
pub open spec fn optional(s: Option<String>) -> Option<Seq<char>> {
    match s {
        Some(t) => Some(t@),
        None => None,
    }
}

/// A copy of the text, unless it holds a NUL.
pub fn copy_without_nul(s: &str) -> (r: Option<String>)
    ensures
        optional(r) == without_nul(s@),
{
    if has_nul(s) {
        None
    } else {
        Some(s.to_owned())
    }
}

/// `s` begins with `p`.
pub open spec fn begins(s: Seq<char>, p: Seq<char>) -> bool {
    occurs_at(s, p, 0)
}

/// Whether `s` begins with `p`.
pub fn starts_with(s: &[char], p: &str) -> (r: bool)
    ensures
        r == begins(s@, p@),
{
    let p = chars_of(p);
    is_at(s, &p, 0)
}

/// Whether the characters of `s` are those of `p`.
pub fn is_text(s: &[char], p: &str) -> (r: bool)
    ensures
        r == (s@ == p@),
{
    let p = chars_of(p);
    proof {
        if s@ == p@ {
            assert(s@.subrange(0, s@.len() as int) =~= s@);
        }
        if occurs_at(s@, p@, 0) && s@.len() == p@.len() {
            assert(s@.subrange(0, s@.len() as int) =~= s@);
        }
    }
    s.len() == p.len() && is_at(s, &p, 0)
}

/// The part of `s` from `i` on.
pub fn tail(s: &[char], i: usize) -> (r: &[char])
    requires
        i <= s@.len(),
    ensures
        r@ == s@.skip(i as int),
{
    vstd::slice::slice_subrange(s, i, s.len())
}

/// The part of `s` from `i` up to `j`.
pub fn span(s: &[char], i: usize, j: usize) -> (r: &[char])
    requires
        i <= j <= s@.len(),
    ensures
        r@ == s@.subrange(i as int, j as int),
{
    vstd::slice::slice_subrange(s, i, j)
}

/// Appends `s` to `out`.
pub fn push_all(out: &mut Vec<char>, s: &[char])
    ensures
        final(out)@ == old(out)@ + s@,
{
    let ghost before = out@;
    let mut i: usize = 0;
    while i < s.len()
        invariant
            i <= s.len(),
            out@ == before + s@.take(i as int),
        decreases s.len() - i,
    {
        out.push(s[i]);
        i += 1;
    }
    assert(s@.take(s@.len() as int) =~= s@);
}

/// Appends the characters of `s` to `out`.
pub fn push_str(out: &mut Vec<char>, s: &str)
    ensures
        final(out)@ == old(out)@ + s@,
{
    let s = chars_of(s);
    push_all(out, &s);
}

/// The characters of `s`, copied.
pub fn copied(s: &[char]) -> (r: Vec<char>)
    ensures
        r@ == s@,
{
    let mut out: Vec<char> = Vec::new();
    push_all(&mut out, s);
    out
}

/// `s` without its leading white space.
pub open spec fn trimmed_start(s: Seq<char>) -> Seq<char>
    decreases s.len(),
{
    if s.len() > 0 && is_white(s[0]) {
        trimmed_start(s.skip(1))
    } else {
        s
    }
}

/// `s` without its trailing white space.
pub open spec fn trimmed_end(s: Seq<char>) -> Seq<char>
    decreases s.len(),
{
    if s.len() > 0 && is_white(s.last()) {
        trimmed_end(s.drop_last())
    } else {
        s
    }
}

/// `s` without its leading and trailing white space.
pub open spec fn trimmed(s: Seq<char>) -> Seq<char> {
    trimmed_end(trimmed_start(s))
}

/// What is left of `s` is its end.
pub proof fn lemma_trimmed_start(s: Seq<char>)
    ensures
        trimmed_start(s).len() <= s.len(),
        trimmed_start(s) == s.skip(s.len() - trimmed_start(s).len()),
    decreases s.len(),
{
    if s.len() > 0 && is_white(s[0]) {
        lemma_trimmed_start(s.skip(1));
        let n = trimmed_start(s).len();
        assert(s.skip(1).skip(s.len() - 1 - n) =~= s.skip(s.len() - n));
    } else {
        assert(s.skip(0) =~= s);
    }
}

/// `s` without its leading white space.
pub fn trim_start(s: &[char]) -> (r: &[char])
    ensures
        r@ == trimmed_start(s@),
{
    let mut i: usize = 0;
    assert(s@.skip(0) =~= s@);
    while i < s.len() && white(s[i])
        invariant
            i <= s.len(),
            trimmed_start(s@) == trimmed_start(s@.skip(i as int)),
        decreases s.len() - i,
    {
        assert(s@.skip(i as int).skip(1) =~= s@.skip(i + 1));
        i += 1;
    }
    tail(s, i)
}

/// `s` without its trailing white space.
pub fn trim_end(s: &[char]) -> (r: &[char])
    ensures
        r@ == trimmed_end(s@),
{
    let mut n: usize = s.len();
    assert(s@.take(n as int) =~= s@);
    while n > 0 && white(s[n - 1])
        invariant
            n <= s.len(),
            trimmed_end(s@) == trimmed_end(s@.take(n as int)),
        decreases n,
    {
        assert(s@.take(n as int).drop_last() =~= s@.take(n - 1));
        n -= 1;
    }
    assert(s@.subrange(0, n as int) =~= s@.take(n as int));
    span(s, 0, n)
}

/// `s` without its leading and trailing white space.
pub fn trim(s: &[char]) -> (r: &[char])
    ensures
        r@ == trimmed(s@),
{
    trim_end(trim_start(s))
}

/// A line without the carriage return that its line feed follows.
pub open spec fn without_cr(s: Seq<char>) -> Seq<char> {
    if s.len() > 0 && s.last() == '\r' {
        s.drop_last()
    } else {
        s
    }
}

/// The lines of `s` from position `i` on. A line ends at a line feed or at the end of the text; the
/// line feed, and a carriage return right before it, do not belong to the line.
pub open spec fn lines_from(s: Seq<char>, i: int) -> Seq<Seq<char>>
    decreases s.len() - i,
{
    if i < 0 || i >= s.len() {
        seq![]
    } else {
        proof {
            lemma_char_from(s, '\n', i);
        }
        match char_from(s, '\n', i) {
            None => seq![s.skip(i)],
            Some(k) => seq![without_cr(s.subrange(i, k))] + lines_from(s, k + 1),
        }
    }
}

/// The lines of `s`.
pub open spec fn lines_of(s: Seq<char>) -> Seq<Seq<char>> {
    lines_from(s, 0)
}

/// The lines of `s`.
pub fn lines(s: &[char]) -> (r: Vec<Vec<char>>)
    ensures
        texts(r@) == lines_of(s@),
{
    let mut out: Vec<Vec<char>> = Vec::new();
    let mut i: usize = 0;
    assert(texts(out@) + lines_from(s@, 0) =~= lines_from(s@, 0));
    while i < s.len()
        invariant
            i <= s.len(),
            texts(out@) + lines_from(s@, i as int) =~= lines_of(s@),
        decreases s.len() - i,
    {
        proof {
            lemma_char_from(s@, '\n', i as int);
        }
        let ghost done = texts(out@);
        match find_char(s, '\n', i) {
            None => {
                out.push(copied(tail(s, i)));
                assert(texts(out@) =~= done.push(s@.skip(i as int)));
                assert(lines_from(s@, s@.len() as int) =~= seq![]);
                i = s.len();
            },
            Some(k) => {
                let mut e: usize = k;
                if i < k && s[k - 1] == '\r' {
                    e = k - 1;
                }
                assert(s@.subrange(i as int, e as int) =~= without_cr(
                    s@.subrange(i as int, k as int),
                ));
                out.push(copied(span(s, i, e)));
                assert(texts(out@) =~= done.push(without_cr(s@.subrange(i as int, k as int))));
                i = k + 1;
            },
        }
    }
    out
}

/// The pieces of `s` from position `i` on, between the places where `c` stands.
pub open spec fn pieces_from(s: Seq<char>, c: char, i: int) -> Seq<Seq<char>>
    decreases s.len() - i,
{
    if i < 0 || i > s.len() {
        seq![]
    } else {
        proof {
            lemma_char_from(s, c, i);
        }
        match char_from(s, c, i) {
            None => seq![s.skip(i)],
            Some(k) => seq![s.subrange(i, k)] + pieces_from(s, c, k + 1),
        }
    }
}

/// The pieces of `s` between the places where `c` stands; one more than there are such places.
pub open spec fn pieces_of(s: Seq<char>, c: char) -> Seq<Seq<char>> {
    pieces_from(s, c, 0)
}

/// The pieces of `s` between the places where `c` stands.
pub fn split(s: &[char], c: char) -> (r: Vec<Vec<char>>)
    ensures
        texts(r@) == pieces_of(s@, c),
{
    let mut out: Vec<Vec<char>> = Vec::new();
    let mut i: usize = 0;
    assert(texts(out@) + pieces_from(s@, c, 0) =~= pieces_from(s@, c, 0));
    loop
        invariant
            i <= s.len(),
            texts(out@) + pieces_from(s@, c, i as int) =~= pieces_of(s@, c),
        decreases s.len() - i,
    {
        proof {
            lemma_char_from(s@, c, i as int);
        }
        let ghost done = texts(out@);
        match find_char(s, c, i) {
            None => {
                out.push(copied(tail(s, i)));
                assert(texts(out@) =~= done.push(s@.skip(i as int)));
                return out;
            },
            Some(k) => {
                out.push(copied(span(s, i, k)));
                assert(texts(out@) =~= done.push(s@.subrange(i as int, k as int)));
                i = k + 1;
            },
        }
    }
}

/// The first position at or after `i` where white space begins (`white`) or ends (`!white`), or the
/// end of the text.
pub open spec fn run_end(s: Seq<char>, white: bool, i: int) -> int
    decreases s.len() - i,
{
    if i < 0 || i >= s.len() {
        s.len() as int
    } else if is_white(s[i]) == white {
        i
    } else {
        run_end(s, white, i + 1)
    }
}

/// `run_end` lies at or after `i`, and what stands there is as wanted.
pub proof fn lemma_run_end(s: Seq<char>, white: bool, i: int)
    requires
        0 <= i <= s.len(),
    ensures
        i <= run_end(s, white, i) <= s.len(),
        i < s.len() && is_white(s[i]) != white ==> i < run_end(s, white, i),
        run_end(s, white, i) < s.len() ==> is_white(s[run_end(s, white, i)]) == white,
    decreases s.len() - i,
{
    if i < s.len() && is_white(s[i]) != white {
        lemma_run_end(s, white, i + 1);
    }
}

/// The first position at or after `from` where white space begins or ends, as wanted.
pub fn skip_run(s: &[char], white_wanted: bool, from: usize) -> (r: usize)
    requires
        from <= s@.len(),
    ensures
        r == run_end(s@, white_wanted, from as int),
        from <= r <= s@.len(),
{
    let mut i: usize = from;
    while i < s.len() && white(s[i]) != white_wanted
        invariant
            from <= i <= s.len(),
            run_end(s@, white_wanted, from as int) == run_end(s@, white_wanted, i as int),
        decreases s.len() - i,
    {
        i += 1;
    }
    i
}

/// The words of `s` from position `i` on: the longest stretches without white space.
pub open spec fn words_from(s: Seq<char>, i: int) -> Seq<Seq<char>>
    decreases s.len() - i,
{
    if i < 0 || i >= s.len() {
        seq![]
    } else {
        let a = run_end(s, false, i);
        let b = run_end(s, true, a);
        proof {
            lemma_run_end(s, false, i);
            lemma_run_end(s, true, a);
        }
        if a >= s.len() {
            seq![]
        } else {
            seq![s.subrange(a, b)] + words_from(s, b)
        }
    }
}

/// The words of `s`.
pub open spec fn words_of(s: Seq<char>) -> Seq<Seq<char>> {
    words_from(s, 0)
}

/// The parts one after another, with `sep` between neighbours.
pub open spec fn joined(parts: Seq<Seq<char>>, sep: Seq<char>) -> Seq<char>
    decreases parts.len(),
{
    if parts.len() == 0 {
        seq![]
    } else if parts.len() == 1 {
        parts[0]
    } else {
        joined(parts.drop_last(), sep) + sep + parts.last()
    }
}

/// The parts one after another, with `sep` between neighbours.
pub fn join(parts: &[Vec<char>], sep: &str) -> (r: Vec<char>)
    ensures
        r@ == joined(texts(parts@), sep@),
{
    let mut out: Vec<char> = Vec::new();
    let mut i: usize = 0;
    while i < parts.len()
        invariant
            i <= parts.len(),
            out@ == joined(texts(parts@.take(i as int)), sep@),
        decreases parts.len() - i,
    {
        if i > 0 {
            push_str(&mut out, sep);
        }
        push_all(&mut out, parts[i].as_slice());
        assert(texts(parts@.take(i + 1)).drop_last() =~= texts(parts@.take(i as int)));
        assert(texts(parts@.take(i + 1)).last() == parts@[i as int]@);
        i += 1;
    }
    assert(parts@.take(parts@.len() as int) =~= parts@);
    out
}

/// The words of `s`.
pub fn words(s: &[char]) -> (r: Vec<Vec<char>>)
    ensures
        texts(r@) == words_of(s@),
{
    let mut out: Vec<Vec<char>> = Vec::new();
    let mut i: usize = 0;
    assert(texts(out@) + words_from(s@, 0) =~= words_from(s@, 0));
    while i < s.len()
        invariant
            i <= s.len(),
            texts(out@) + words_from(s@, i as int) =~= words_of(s@),
        decreases s.len() - i,
    {
        let ghost done = texts(out@);
        let a = skip_run(s, false, i);
        let b = skip_run(s, true, a);
        proof {
            lemma_run_end(s@, false, i as int);
            lemma_run_end(s@, true, a as int);
        }
        if a < s.len() {
            out.push(copied(span(s, a, b)));
            assert(texts(out@) =~= done.push(s@.subrange(a as int, b as int)));
            i = b;
        } else {
            assert(words_from(s@, s@.len() as int) =~= seq![]);
            i = s.len();
        }
    }
    out
}

/// `s` from position `i` on, with `w` in place of every `p`, read from left to right.
pub open spec fn replaced_from(s: Seq<char>, p: Seq<char>, w: Seq<char>, i: int) -> Seq<char>
    decreases s.len() - i,
{
    if i < 0 || i > s.len() || p.len() == 0 {
        s.skip(i)
    } else {
        proof {
            lemma_first_from(s, p, i);
        }
        match first_from(s, p, i) {
            None => s.skip(i),
            Some(k) => s.subrange(i, k) + w + replaced_from(s, p, w, k + p.len()),
        }
    }
}

/// `s` with `w` in place of every `p`.
pub open spec fn replaced(s: Seq<char>, p: Seq<char>, w: Seq<char>) -> Seq<char> {
    replaced_from(s, p, w, 0)
}

/// `s` with `w` in place of every `p`.
pub fn replace(s: &[char], p: &str, w: &str) -> (r: Vec<char>)
    requires
        p@.len() > 0,
    ensures
        r@ == replaced(s@, p@, w@),
{
    let pc = chars_of(p);
    let mut out: Vec<char> = Vec::new();
    let mut i: usize = 0;
    loop
        invariant
            i <= s.len(),
            pc@ == p@,
            p@.len() > 0,
            out@ + replaced_from(s@, p@, w@, i as int) =~= replaced(s@, p@, w@),
        decreases s.len() - i,
    {
        proof {
            lemma_first_from(s@, p@, i as int);
        }
        match find_from(s, &pc, i) {
            None => {
                push_all(&mut out, tail(s, i));
                return out;
            },
            Some(k) => {
                push_all(&mut out, span(s, i, k));
                push_str(&mut out, w);
                i = k + pc.len();
            },
        }
    }
}

/// `s` without the copies of `p` that it begins with.
pub open spec fn without_prefixes(s: Seq<char>, p: Seq<char>) -> Seq<char>
    decreases s.len(),
{
    if p.len() > 0 && begins(s, p) {
        without_prefixes(s.skip(p.len() as int), p)
    } else {
        s
    }
}

/// `s` without the copies of `p` that it begins with.
pub fn strip_prefixes<'a>(s: &'a [char], p: &str) -> (r: &'a [char])
    requires
        p@.len() > 0,
    ensures
        r@ == without_prefixes(s@, p@),
{
    let pc = chars_of(p);
    let mut i: usize = 0;
    assert(s@.skip(0) =~= s@);
    while is_at(s, &pc, i)
        invariant
            i <= s.len(),
            pc@ == p@,
            p@.len() > 0,
            without_prefixes(s@, p@) == without_prefixes(s@.skip(i as int), p@),
        decreases s.len() - i,
    {
        assert(s@.skip(i as int).subrange(0, p@.len() as int) =~= s@.subrange(
            i as int,
            i + p@.len(),
        ));
        assert(s@.skip(i as int).skip(p@.len() as int) =~= s@.skip(i + p@.len()));
        i += pc.len();
    }
    proof {
        if begins(s@.skip(i as int), p@) {
            assert(s@.skip(i as int).subrange(0, p@.len() as int) =~= s@.subrange(
                i as int,
                i + p@.len(),
            ));
        }
    }
    tail(s, i)
}

/// `s` without the copies of `c` that it ends with.
pub open spec fn without_trailing(s: Seq<char>, c: char) -> Seq<char>
    decreases s.len(),
{
    if s.len() > 0 && s.last() == c {
        without_trailing(s.drop_last(), c)
    } else {
        s
    }
}

/// `s` without the copies of `c` that it ends with.
pub fn strip_trailing(s: &[char], c: char) -> (r: &[char])
    ensures
        r@ == without_trailing(s@, c),
{
    let mut n: usize = s.len();
    assert(s@.take(n as int) =~= s@);
    while n > 0 && s[n - 1] == c
        invariant
            n <= s.len(),
            without_trailing(s@, c) == without_trailing(s@.take(n as int), c),
        decreases n,
    {
        assert(s@.take(n as int).drop_last() =~= s@.take(n - 1));
        n -= 1;
    }
    assert(s@.subrange(0, n as int) =~= s@.take(n as int));
    span(s, 0, n)
}

/// A printable ASCII character other than `"` and `\`.
pub open spec fn is_plain(c: char) -> bool {
    0x20 <= c as u32 <= 0x7e && c != '"' && c != '\\'
}

/// The text that `{:?}` makes of a string that holds characters other than plain ones.
pub uninterp spec fn debug_text(s: Seq<char>) -> Seq<char>;

/// `s` in double quotes, as `{:?}` writes it: a string of plain characters stands as it is between
/// the quotes.
pub open spec fn quoted(s: Seq<char>) -> Seq<char> {
    if forall|i: int| 0 <= i < s.len() ==> is_plain(#[trigger] s[i]) {
        seq!['"'] + s + seq!['"']
    } else {
        debug_text(s)
    }
}

/// The `Debug` formatting of `str`. It puts the string between double quotes and leaves printable
/// ASCII other than `"` and `\` as it is; what it makes of any other string is not stated beyond that
/// it depends on the string alone.
#[verifier::external_body]
pub(crate) fn debug_of(s: &str) -> (r: String)
    ensures
        (forall|i: int| 0 <= i < s@.len() ==> is_plain(#[trigger] s@[i])) ==> r@ == seq!['"'] + s@
            + seq!['"'],
        !(forall|i: int| 0 <= i < s@.len() ==> is_plain(#[trigger] s@[i])) ==> r@ == debug_text(s@),
{
    format!("{:?}", s)
}

/// `s` in double quotes.
pub fn quote(s: &[char]) -> (r: Vec<char>)
    ensures
        r@ == quoted(s@),
{
    let r = debug_of(&string_of(s));
    chars_of(&r)
}

/// Whether a character outside ASCII is alphabetic or numeric.
pub uninterp spec fn alphanumeric(c: char) -> bool;

/// `c` is alphabetic or numeric; of ASCII, the letters and digits are.
pub open spec fn letter_or_digit(c: char) -> bool {
    let u = c as u32;
    if u < 0x80 {
        0x30 <= u <= 0x39 || 0x41 <= u <= 0x5a || 0x61 <= u <= 0x7a
    } else {
        alphanumeric(c)
    }
}

/// `char::is_alphanumeric` holds of the ASCII letters and digits and of no other ASCII character;
/// outside ASCII the answer depends on the character alone.
pub assume_specification[ char::is_alphanumeric ](c: char) -> (r: bool)
    ensures
        (c as u32) < 0x80 ==> r == (0x30 <= c as u32 <= 0x39 || 0x41 <= c as u32 <= 0x5a || 0x61
            <= c as u32 <= 0x7a),
        (c as u32) >= 0x80 ==> r == alphanumeric(c),
;

/// An alphanumeric character, `_` or `$`.
pub open spec fn is_name_char(c: char) -> bool {
    letter_or_digit(c) || c == '_' || c == '$'
}

/// The characters of a name that `s` begins with.
pub open spec fn leading_name(s: Seq<char>) -> Seq<char>
    decreases s.len(),
{
    if s.len() > 0 && is_name_char(s[0]) {
        seq![s[0]] + leading_name(s.skip(1))
    } else {
        seq![]
    }
}

/// The characters of a name that `s` begins with.
pub fn name_prefix(s: &[char]) -> (r: Vec<char>)
    ensures
        r@ == leading_name(s@),
{
    let mut out: Vec<char> = Vec::new();
    let mut i: usize = 0;
    assert(s@.skip(0) =~= s@);
    while i < s.len() && (s[i].is_alphanumeric() || s[i] == '_' || s[i] == '$')
        invariant
            i <= s.len(),
            out@ + leading_name(s@.skip(i as int)) =~= leading_name(s@),
        decreases s.len() - i,
    {
        assert(s@.skip(i as int).skip(1) =~= s@.skip(i + 1));
        out.push(s[i]);
        i += 1;
    }
    out
}

/// The decimal digit `d`.
pub open spec fn digit(d: nat) -> char {
    (0x30 + d) as char
}

/// `n` in decimal digits.
pub open spec fn decimal(n: nat) -> Seq<char>
    decreases n,
{
    if n < 10 {
        seq![digit(n)]
    } else {
        decimal(n / 10).push(digit(n % 10))
    }
}

/// `n` in decimal digits.
pub fn decimal_of(n: u64) -> (r: Vec<char>)
    ensures
        r@ == decimal(n as nat),
    decreases n,
{
    let d: u8 = (n % 10) as u8;
    let c = (48u8 + d) as char;
    let mut out: Vec<char> = if n < 10 {
        Vec::new()
    } else {
        decimal_of(n / 10)
    };
    out.push(c);
    assert(out@ =~= decimal(n as nat));
    out
}

} // verus!

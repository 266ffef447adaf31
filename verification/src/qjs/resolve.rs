//! Which module a specifier stands for.

use crate::table::{inserted, lemma_position, lemma_position_is, position, value_of};
use crate::text::{
    begins, char_from, chars_of, contains_char, contains_text, copied, find_char, find_from,
    first_from, is_text, join, joined, last_upto, lemma_char_from, lemma_first_from,
    lemma_last_upto, occurs_at, pieces_from, pieces_of, push_all, rfind, span, split, starts_with,
    string_of, tail, texts,
};
use crate::text_laws::{law_pieces, law_search};
use vstd::prelude::*;

verus! {

/// What the embedder resolved specifiers to: for each importing module and specifier, the name of the
/// module that it stands for.
pub struct Resolutions {
    entries: Vec<((String, String), String)>,
}

/// The text of modules by name.
pub struct ModuleSources {
    entries: Vec<(String, String)>,
}

/// The entries as plain values.
pub open spec fn resolution_entries(v: Seq<((String, String), String)>) -> Seq<
    ((Seq<char>, Seq<char>), Seq<char>),
> {
    Seq::new(v.len(), |i: int| ((v[i].0.0@, v[i].0.1@), v[i].1@))
}

/// The entries as plain values.
pub open spec fn source_entries(v: Seq<(String, String)>) -> Seq<(Seq<char>, Seq<char>)> {
    Seq::new(v.len(), |i: int| (v[i].0@, v[i].1@))
}

impl View for Resolutions {
    type V = Seq<((Seq<char>, Seq<char>), Seq<char>)>;

    closed spec fn view(&self) -> Seq<((Seq<char>, Seq<char>), Seq<char>)> {
        resolution_entries(self.entries@)
    }
}

impl View for ModuleSources {
    type V = Seq<(Seq<char>, Seq<char>)>;

    closed spec fn view(&self) -> Seq<(Seq<char>, Seq<char>)> {
        source_entries(self.entries@)
    }
}

/// Whether two texts are the same.
fn same_text(a: &str, b: &str) -> (r: bool)
    ensures
        r == (a@ == b@),
{
    let c = chars_of(a);
    is_text(&c, b)
}

/// The first recorded resolution of the specifier `spec`, whoever imports it.
pub open spec fn any_resolution(s: Seq<((Seq<char>, Seq<char>), Seq<char>)>, spec: Seq<char>) -> Option<
    Seq<char>,
>
    decreases s.len(),
{
    if s.len() == 0 {
        None
    } else {
        match any_resolution(s.drop_last(), spec) {
            Some(r) => Some(r),
            None => if s.last().0.1 == spec {
                Some(s.last().1)
            } else {
                None
            },
        }
    }
}

impl Resolutions {
    /// Nothing is recorded.
    pub fn new() -> (r: Resolutions)
        ensures
            r@ == Seq::<((Seq<char>, Seq<char>), Seq<char>)>::empty(),
    {
        let r = Resolutions { entries: Vec::new() };
        assert(r@ =~= Seq::empty());
        r
    }

    /// The position of an entry.
    fn find(&self, base: &str, spec: &str) -> (r: Option<usize>)
        ensures
            match r {
                Some(i) => position(self@, (base@, spec@)) == Some(i as int) && i
                    < self.entries@.len(),
                None => position(self@, (base@, spec@)) is None,
            },
    {
        let mut i: usize = 0;
        while i < self.entries.len()
            invariant
                i <= self.entries.len(),
                forall|j: int| 0 <= j < i ==> (#[trigger] self@[j]).0 != (base@, spec@),
            decreases self.entries.len() - i,
        {
            if same_text(&self.entries[i].0.0, base) && same_text(&self.entries[i].0.1, spec) {
                proof {
                    lemma_position_is(self@, (base@, spec@), i as int);
                }
                return Some(i);
            }
            i += 1;
        }
        proof {
            lemma_position(self@, (base@, spec@));
        }
        None
    }

    /// The name that an import of `spec` by the module `base` was resolved to.
    pub fn lookup_resolved_specifier(&self, base: &str, spec: &str) -> (r: Option<String>)
        ensures
            match r {
                Some(t) => value_of(self@, (base@, spec@)) == Some(t@),
                None => value_of(self@, (base@, spec@)) is None,
            },
    {
        match self.find(base, spec) {
            Some(i) => Some(self.entries[i].1.clone()),
            None => None,
        }
    }

    /// Records that an import of `spec` by the module `base` stands for `resolved`.
    pub fn record_resolved_specifier(&mut self, base: &str, spec: &str, resolved: &str)
        ensures
            final(self)@ == inserted(old(self)@, (base@, spec@), resolved@),
    {
        match self.find(base, spec) {
            Some(i) => {
                self.entries[i].1 = resolved.to_owned();
                proof {
                    lemma_position(old(self)@, (base@, spec@));
                }
                assert(self@ =~= inserted(old(self)@, (base@, spec@), resolved@));
            },
            None => {
                self.entries.push(((base.to_owned(), spec.to_owned()), resolved.to_owned()));
                assert(self@ =~= inserted(old(self)@, (base@, spec@), resolved@));
            },
        }
    }

    /// The first recorded resolution of `spec`, whoever imports it. A specifier of an import map means
    /// the same everywhere.
    pub fn lookup_resolved_specifier_any(&self, spec: &str) -> (r: Option<String>)
        ensures
            match r {
                Some(t) => any_resolution(self@, spec@) == Some(t@),
                None => any_resolution(self@, spec@) is None,
            },
    {
        let mut i: usize = 0;
        while i < self.entries.len()
            invariant
                i <= self.entries.len(),
                any_resolution(self@.take(i as int), spec@) is None,
            decreases self.entries.len() - i,
        {
            assert(self@.take(i + 1).drop_last() =~= self@.take(i as int));
            assert(self@.take(i + 1).last() == self@[i as int]);
            if same_text(&self.entries[i].0.1, spec) {
                proof {
                    lemma_any_prefix(self@, spec@, i + 1);
                }
                return Some(self.entries[i].1.clone());
            }
            i += 1;
        }
        assert(self@.take(self@.len() as int) =~= self@);
        None
    }
}

/// What is found among the first entries is found in the table.
proof fn lemma_any_prefix(
    s: Seq<((Seq<char>, Seq<char>), Seq<char>)>,
    spec: Seq<char>,
    n: int,
)
    requires
        0 <= n <= s.len(),
        any_resolution(s.take(n), spec) is Some,
    ensures
        any_resolution(s, spec) == any_resolution(s.take(n), spec),
    decreases s.len() - n,
{
    if n < s.len() {
        assert(s.take(n + 1).drop_last() =~= s.take(n));
        lemma_any_prefix(s, spec, n + 1);
    } else {
        assert(s.take(n) =~= s);
    }
}

impl ModuleSources {
    /// Nothing is registered.
    pub fn new() -> (r: ModuleSources)
        ensures
            r@ == Seq::<(Seq<char>, Seq<char>)>::empty(),
    {
        let r = ModuleSources { entries: Vec::new() };
        assert(r@ =~= Seq::empty());
        r
    }

    /// The position of a name.
    fn find(&self, name: &str) -> (r: Option<usize>)
        ensures
            match r {
                Some(i) => position(self@, name@) == Some(i as int) && i < self.entries@.len(),
                None => position(self@, name@) is None,
            },
    {
        let mut i: usize = 0;
        while i < self.entries.len()
            invariant
                i <= self.entries.len(),
                forall|j: int| 0 <= j < i ==> (#[trigger] self@[j]).0 != name@,
            decreases self.entries.len() - i,
        {
            if same_text(&self.entries[i].0, name) {
                proof {
                    lemma_position_is(self@, name@, i as int);
                }
                return Some(i);
            }
            i += 1;
        }
        proof {
            lemma_position(self@, name@);
        }
        None
    }

    /// Registers the text of the module `name`, in place of an earlier one. A module without a name is
    /// not registered.
    pub fn register_module_source(&mut self, name: &str, source: &str)
        ensures
            final(self)@ == if name@.len() == 0 {
                old(self)@
            } else {
                inserted(old(self)@, name@, source@)
            },
    {
        if name.is_empty() {
            return;
        }
        match self.find(name) {
            Some(i) => {
                self.entries[i].1 = source.to_owned();
                proof {
                    lemma_position(old(self)@, name@);
                }
                assert(self@ =~= inserted(old(self)@, name@, source@));
            },
            None => {
                self.entries.push((name.to_owned(), source.to_owned()));
                assert(self@ =~= inserted(old(self)@, name@, source@));
            },
        }
    }

    /// The text of the module `name`.
    pub fn lookup_module_source_by_name(&self, name: &str) -> (r: Option<String>)
        ensures
            match r {
                Some(t) => value_of(self@, name@) == Some(t@),
                None => value_of(self@, name@) is None,
            },
    {
        match self.find(name) {
            Some(i) => Some(self.entries[i].1.clone()),
            None => None,
        }
    }
}

/// The pieces that are not empty.
pub open spec fn nonempty(pieces: Seq<Seq<char>>) -> Seq<Seq<char>>
    decreases pieces.len(),
{
    if pieces.len() == 0 {
        seq![]
    } else {
        let rest = nonempty(pieces.drop_last());
        if pieces.last().len() == 0 {
            rest
        } else {
            rest.push(pieces.last())
        }
    }
}

/// The path `segments` followed by the segment `part`: `.` and an empty segment stay where they are,
/// `..` goes up.
pub open spec fn followed(segments: Seq<Seq<char>>, part: Seq<char>) -> Seq<Seq<char>> {
    if part.len() == 0 || part == "."@ {
        segments
    } else if part == ".."@ {
        if segments.len() == 0 {
            segments
        } else {
            segments.drop_last()
        }
    } else {
        segments.push(part)
    }
}

/// The path `segments` followed by all of `parts`.
pub open spec fn walked(segments: Seq<Seq<char>>, parts: Seq<Seq<char>>) -> Seq<Seq<char>>
    decreases parts.len(),
{
    if parts.len() == 0 {
        segments
    } else {
        followed(walked(segments, parts.drop_last()), parts.last())
    }
}

/// How many characters of `base` come before its path: an address has a scheme, `://` and a host before it.
pub open spec fn root_end(base: Seq<char>) -> int {
    match first_from(base, "://"@, 0) {
        Some(i) => match char_from(base, '/', i + 3) {
            Some(k) => k,
            None => base.len() as int,
        },
        None => 0,
    }
}

/// `base` has a path that begins at a root: it is an address, or a path that begins with `/`.
pub open spec fn is_rooted(base: Seq<char>) -> bool {
    first_from(base, "://"@, 0) is Some || base.len() > 0 && base[0] == '/'
}

/// The directory of a path: what stands before its last `/`.
pub open spec fn directory(path: Seq<char>) -> Seq<char> {
    match last_upto(path, seq!['/'], path.len() as int) {
        Some(i) => path.take(i),
        None => seq![],
    }
}

/// The directory of the module `base`, segment by segment.
pub open spec fn directory_of(base: Seq<char>) -> Seq<Seq<char>> {
    nonempty(pieces_of(directory(base.skip(root_end(base))), '/'))
}

/// The path that the relative specifier `name` in the module `base` leads to.
pub open spec fn path_to(base: Seq<char>, name: Seq<char>) -> Seq<Seq<char>> {
    walked(directory_of(base), pieces_of(name, '/'))
}

/// The address with what comes before the path of `base` and with this path.
pub open spec fn with_path(base: Seq<char>, segments: Seq<Seq<char>>) -> Seq<char> {
    base.take(root_end(base)) + (if is_rooted(base) {
        seq!['/']
    } else {
        seq![]
    }) + joined(segments, "/"@)
}

/// The address that the relative specifier `name` in the module `base` stands for. However often it goes up,
/// the scheme and the host stay.
pub open spec fn relative(base: Seq<char>, name: Seq<char>) -> Seq<char> {
    with_path(base, path_to(base, name))
}

/// The pieces of the text that are not empty.
fn nonempty_pieces(s: &[char], c: char) -> (r: Vec<Vec<char>>)
    ensures
        texts(r@) == nonempty(pieces_of(s@, c)),
{
    let pieces = split(s, c);
    let ghost all = texts(pieces@);
    let mut out: Vec<Vec<char>> = Vec::new();
    let mut i: usize = 0;
    assert(texts(out@) =~= nonempty(all.take(0)));
    while i < pieces.len()
        invariant
            i <= pieces.len(),
            all == texts(pieces@),
            texts(out@) =~= nonempty(all.take(i as int)),
        decreases pieces.len() - i,
    {
        let ghost done = texts(out@);
        assert(all.take(i + 1).drop_last() =~= all.take(i as int));
        assert(all.take(i + 1).last() == pieces@[i as int]@);
        if pieces[i].len() > 0 {
            out.push(copied(&pieces[i]));
            assert(texts(out@) =~= done.push(pieces@[i as int]@));
        }
        i += 1;
    }
    assert(all.take(all.len() as int) =~= all);
    out
}

/// Resolves a relative specifier (`./x`, `../x`) against the address of the module that imports it; `.`
/// and `..` are worked out, and neither leads above the root of the host.
pub fn resolve_relative_specifier(base: &str, name: &str) -> (r: String)
    ensures
        r@ == relative(base@, name@),
{
    let b = chars_of(base);
    let n = chars_of(name);
    let mark = chars_of("://");
    proof {
        reveal_strlit("://");
        lemma_first_from(b@, mark@, 0);
        assert(b@.len() == b.len());
    }
    let mut rooted = b.len() > 0 && b[0] == '/';
    let mut cut: usize = 0;
    if let Some(i) = find_from(&b, &mark, 0) {
        rooted = true;
        proof {
            lemma_char_from(b@, '/', i + 3);
        }
        cut = match find_char(&b, '/', i + 3) {
            Some(k) => k,
            None => b.len(),
        };
    }
    assert(cut == root_end(b@) && rooted == is_rooted(b@));
    let path = tail(&b, cut);
    let mut slash: Vec<char> = Vec::new();
    slash.push('/');
    assert(slash@ =~= seq!['/']);
    proof {
        lemma_last_upto(path@, slash@, path@.len() as int);
    }
    let dir: Vec<char> = match rfind(path, &slash) {
        Some(i) => {
            assert(path@.subrange(0, i as int) =~= path@.take(i as int));
            copied(span(path, 0, i))
        },
        None => Vec::new(),
    };
    assert(dir@ =~= directory(path@));
    let mut segments = nonempty_pieces(&dir, '/');
    let ghost start = texts(segments@);
    let parts = split(&n, '/');
    let ghost all = texts(parts@);
    let mut i: usize = 0;
    while i < parts.len()
        invariant
            i <= parts.len(),
            all == texts(parts@),
            texts(segments@) =~= walked(start, all.take(i as int)),
        decreases parts.len() - i,
    {
        let ghost done = texts(segments@);
        assert(all.take(i + 1).drop_last() =~= all.take(i as int));
        assert(all.take(i + 1).last() == parts@[i as int]@);
        let part = parts[i].as_slice();
        if part.len() == 0 || is_text(part, ".") {
        } else if is_text(part, "..") {
            if segments.len() > 0 {
                segments.pop();
                assert(texts(segments@) =~= done.drop_last());
            }
        } else {
            segments.push(copied(part));
            assert(texts(segments@) =~= done.push(part@));
        }
        i += 1;
    }
    assert(all.take(all.len() as int) =~= all);
    assert(b@.subrange(0, cut as int) =~= b@.take(cut as int));
    let mut out = copied(span(&b, 0, cut));
    if rooted {
        out.push('/');
    }
    push_all(&mut out, &join(&segments, "/"));
    assert(out@ =~= relative(base@, name@));
    string_of(&out)
}

/// `name` is relative to the module that imports it.
pub open spec fn is_relative(name: Seq<char>) -> bool {
    begins(name, "./"@) || begins(name, "../"@)
}

/// `name` is neither a path nor relative.
pub open spec fn is_bare(name: Seq<char>) -> bool {
    !(name.len() > 0 && (name[0] == '.' || name[0] == '/'))
}

/// What the specifier `name` in the module `base` stands for: what the embedder resolved it to; else,
/// for a relative one, the address that it leads to; else, for a bare one without a scheme, the builtin
/// `node:name` if the engine has loaded it (`builtin_loaded`) or its text is registered; else, for a
/// bare one, what it was resolved to for another module.
pub open spec fn canonical(
    resolutions: Seq<((Seq<char>, Seq<char>), Seq<char>)>,
    sources: Seq<(Seq<char>, Seq<char>)>,
    base: Seq<char>,
    name: Seq<char>,
    builtin_loaded: bool,
) -> Option<Seq<char>> {
    let builtin = "node:"@ + name;
    if value_of(resolutions, (base, name)) is Some {
        value_of(resolutions, (base, name))
    } else if is_relative(name) {
        Some(relative(base, name))
    } else if !name.contains(':') && is_bare(name) && (builtin_loaded || value_of(
        sources,
        builtin,
    ) is Some) {
        Some(builtin)
    } else if is_bare(name) {
        any_resolution(resolutions, name)
    } else {
        None
    }
}

/// The name under which the engine looks for the module: the canonical one, unless there is none or it
/// holds a NUL; then the specifier itself.
pub open spec fn normalized(
    resolutions: Seq<((Seq<char>, Seq<char>), Seq<char>)>,
    sources: Seq<(Seq<char>, Seq<char>)>,
    base: Seq<char>,
    name: Seq<char>,
    builtin_loaded: bool,
) -> Seq<char> {
    match canonical(resolutions, sources, base, name, builtin_loaded) {
        Some(c) => if c.contains('\0') {
            name
        } else {
            c
        },
        None => name,
    }
}

/// The name of the builtin module that a bare specifier may stand for.
pub fn builtin_name(name: &str) -> (r: String)
    ensures
        r@ == "node:"@ + name@,
{
    let n = chars_of(name);
    let mut out = chars_of("node:");
    push_all(&mut out, &n);
    string_of(&out)
}

/// The name under which the engine looks for the module that the specifier `name` in the module `base`
/// stands for. `builtin_loaded` says whether the engine has loaded the module `node:name`.
pub fn normalize_specifier(
    resolutions: &Resolutions,
    sources: &ModuleSources,
    base: &str,
    name: &str,
    builtin_loaded: bool,
) -> (r: String)
    ensures
        r@ == normalized(resolutions@, sources@, base@, name@, builtin_loaded),
{
    let n = chars_of(name);
    let mut found = resolutions.lookup_resolved_specifier(base, name);
    if found.is_none() && (starts_with(&n, "./") || starts_with(&n, "../")) {
        found = Some(resolve_relative_specifier(base, name));
    }
    let bare = !(n.len() > 0 && (n[0] == '.' || n[0] == '/'));
    if found.is_none() && bare && !contains_char(&n, ':') {
        let builtin = builtin_name(name);
        if builtin_loaded || sources.lookup_module_source_by_name(&builtin).is_some() {
            found = Some(builtin);
        }
    }
    if found.is_none() && bare {
        found = resolutions.lookup_resolved_specifier_any(name);
    }
    match found {
        Some(c) => {
            let cs = chars_of(&c);
            if contains_char(&cs, '\0') {
                name.to_owned()
            } else {
                c
            }
        },
        None => name.to_owned(),
    }
}

/// What the embedder resolved a specifier to is what the engine looks for, whatever else is known.
pub proof fn law_recorded_resolution_wins(
    resolutions: Seq<((Seq<char>, Seq<char>), Seq<char>)>,
    sources: Seq<(Seq<char>, Seq<char>)>,
    base: Seq<char>,
    name: Seq<char>,
    resolved: Seq<char>,
    builtin_loaded: bool,
)
    requires
        !resolved.contains('\0'),
    ensures
        normalized(
            inserted(resolutions, (base, name), resolved),
            sources,
            base,
            name,
            builtin_loaded,
        ) == resolved,
{
    crate::table::law_insert_then_look_up(resolutions, (base, name), resolved, (base, name));
}

/// A path never holds a `.`, `..` or empty segment.
pub open spec fn plain_path(segments: Seq<Seq<char>>) -> bool {
    forall|i: int|
        0 <= i < segments.len() ==> (#[trigger] segments[i]).len() > 0 && segments[i] != "."@
            && segments[i] != ".."@
}

/// Walking from a plain path leads to a plain path: no `.` or `..` is left of a relative specifier.
pub proof fn law_walked_path_is_plain(segments: Seq<Seq<char>>, parts: Seq<Seq<char>>)
    requires
        plain_path(segments),
    ensures
        plain_path(walked(segments, parts)),
    decreases parts.len(),
{
    if parts.len() > 0 {
        law_walked_path_is_plain(segments, parts.drop_last());
    }
}

/// No segment holds a `/`.
pub open spec fn no_slashes(segments: Seq<Seq<char>>) -> bool {
    forall|i: int| 0 <= i < segments.len() ==> !(#[trigger] segments[i]).contains('/')
}

/// `s` can stand in a path as a segment of its own: it is not empty, holds no `/`, and is neither `.` nor
/// `..`.
pub open spec fn is_segment(s: Seq<char>) -> bool {
    s.len() > 0 && !s.contains('/') && s != "."@ && s != ".."@
}

proof fn lemma_char_absent(s: Seq<char>, c: char, i: int)
    requires
        0 <= i,
        forall|k: int| i <= k < s.len() ==> s[k] != c,
    ensures
        char_from(s, c, i) is None,
{
    lemma_char_from(s, c, i);
}

/// One more piece behind a text is one more piece.
proof fn lemma_pieces_push(a: Seq<char>, q: Seq<char>, i: int)
    requires
        !q.contains('/'),
        0 <= i <= a.len(),
    ensures
        pieces_from(a + "/"@ + q, '/', i) == pieces_from(a, '/', i).push(q),
    decreases a.len() - i,
{
    reveal_strlit("/");
    let s = a + "/"@ + q;
    let n = a.len() as int;
    lemma_char_from(s, '/', i);
    lemma_char_from(a, '/', i);
    assert(s[n] == '/');
    match char_from(a, '/', i) {
        Some(k) => {
            assert(s[k] == '/');
            let m = char_from(s, '/', i)->0;
            assert(m <= k);
            assert(m < n && a[m] == s[m]);
            assert(m == k);
            assert(s.subrange(i, k) =~= a.subrange(i, k));
            lemma_pieces_push(a, q, k + 1);
            assert(seq![s.subrange(i, k)] + pieces_from(a, '/', k + 1).push(q) =~= (
            seq![a.subrange(i, k)] + pieces_from(a, '/', k + 1)).push(q));
        },
        None => {
            let m = char_from(s, '/', i)->0;
            assert(m <= n);
            if m < n {
                assert(a[m] == s[m]);
            }
            assert(s.subrange(i, n) =~= a.skip(i));
            assert forall|k: int| n + 1 <= k < s.len() implies s[k] != '/' by {
                assert(s[k] == q[k - n - 1]);
            }
            lemma_char_absent(s, '/', n + 1);
            assert(s.skip(n + 1) =~= q);
            assert(m == n);
            assert(pieces_from(s, '/', n + 1) =~= seq![q]);
            assert(pieces_from(a, '/', i) =~= seq![a.skip(i)]);
            assert(seq![a.skip(i)] + seq![q] =~= seq![a.skip(i)].push(q));
        },
    }
}

/// Segments that were joined come apart again.
proof fn lemma_joined_pieces(segments: Seq<Seq<char>>)
    requires
        segments.len() > 0,
        no_slashes(segments),
    ensures
        pieces_of(joined(segments, "/"@), '/') == segments,
    decreases segments.len(),
{
    if segments.len() == 1 {
        let s = segments[0];
        assert forall|k: int| 0 <= k < s.len() implies s[k] != '/' by {
            assert(!segments[0].contains('/'));
        }
        lemma_char_absent(s, '/', 0);
        assert(s.skip(0) =~= s);
        assert(seq![s] =~= segments);
    } else {
        let rest = segments.drop_last();
        assert forall|i: int| 0 <= i < rest.len() implies !(#[trigger] rest[i]).contains('/') by {
            assert(!segments[i].contains('/'));
        }
        lemma_joined_pieces(rest);
        assert(!segments[segments.len() - 1].contains('/'));
        lemma_pieces_push(joined(rest, "/"@), segments.last(), 0);
        assert(rest.push(segments.last()) =~= segments);
    }
}

/// Joined segments have no two slashes side by side, and none at either end.
proof fn lemma_no_double_slash(segments: Seq<Seq<char>>)
    requires
        segments.len() > 0,
        no_slashes(segments),
        forall|i: int| 0 <= i < segments.len() ==> (#[trigger] segments[i]).len() > 0,
    ensures
        ({
            let s = joined(segments, "/"@);
            &&& s.len() > 0
            &&& s[0] != '/'
            &&& s.last() != '/'
            &&& forall|k: int| 0 <= k < s.len() - 1 ==> !(#[trigger] s[k] == '/' && s[k + 1] == '/')
        }),
    decreases segments.len(),
{
    reveal_strlit("/");
    let q = segments.last();
    assert(segments[segments.len() - 1] == q);
    assert(!segments[segments.len() - 1].contains('/'));
    assert forall|k: int| 0 <= k < q.len() implies q[k] != '/' by {}
    if segments.len() > 1 {
        let rest = segments.drop_last();
        assert forall|i: int| 0 <= i < rest.len() implies !(#[trigger] rest[i]).contains('/')
            && rest[i].len() > 0 by {
            assert(!segments[i].contains('/'));
            assert(segments[i].len() > 0);
        }
        lemma_no_double_slash(rest);
        let r = joined(rest, "/"@);
        let s = joined(segments, "/"@);
        let n = r.len() as int;
        assert(s == r + "/"@ + q);
        assert forall|k: int| 0 <= k < s.len() - 1 implies !(#[trigger] s[k] == '/' && s[k + 1]
            == '/') by {
            if k + 1 < n {
                assert(s[k] == r[k] && s[k + 1] == r[k + 1]);
            } else if k + 1 == n {
                assert(s[k] == r.last());
            } else {
                assert(s[k + 1] == q[k - n]);
            }
        }
        assert(s.last() == q.last());
    } else {
        assert(segments[0] == q);
    }
}

proof fn lemma_nonempty(pieces: Seq<Seq<char>>)
    requires
        no_slashes(pieces),
    ensures
        no_slashes(nonempty(pieces)),
        forall|i: int| 0 <= i < nonempty(pieces).len() ==> (#[trigger] nonempty(pieces)[i]).len() > 0,
    decreases pieces.len(),
{
    if pieces.len() > 0 {
        let rest = pieces.drop_last();
        assert forall|i: int| 0 <= i < rest.len() implies !(#[trigger] rest[i]).contains('/') by {
            assert(!pieces[i].contains('/'));
        }
        lemma_nonempty(rest);
        assert(!pieces[pieces.len() - 1].contains('/'));
    }
}

proof fn lemma_pieces_have_no_slashes(s: Seq<char>, i: int)
    requires
        0 <= i <= s.len(),
    ensures
        no_slashes(pieces_from(s, '/', i)),
    decreases s.len() - i,
{
    lemma_char_from(s, '/', i);
    match char_from(s, '/', i) {
        None => {
            assert forall|k: int| 0 <= k < s.skip(i).len() implies s.skip(i)[k] != '/' by {}
        },
        Some(k) => {
            lemma_pieces_have_no_slashes(s, k + 1);
            let first = s.subrange(i, k);
            assert forall|j: int| 0 <= j < first.len() implies first[j] != '/' by {}
            let rest = pieces_from(s, '/', k + 1);
            let all = seq![first] + rest;
            assert forall|j: int| 0 <= j < all.len() implies !(#[trigger] all[j]).contains('/') by {
                if j > 0 {
                    assert(all[j] == rest[j - 1]);
                }
            }
        },
    }
}

/// Segments that are not empty are all kept, and an empty one before them is not.
proof fn lemma_nonempty_kept(segments: Seq<Seq<char>>)
    requires
        forall|i: int| 0 <= i < segments.len() ==> (#[trigger] segments[i]).len() > 0,
    ensures
        nonempty(segments) == segments,
        nonempty(seq![Seq::<char>::empty()] + segments) == segments,
    decreases segments.len(),
{
    let e = seq![Seq::<char>::empty()];
    if segments.len() == 0 {
        assert(e + segments =~= e);
        assert(e.drop_last() =~= seq![]);
        assert(nonempty(e.drop_last()) =~= seq![]);
        assert(nonempty(e) =~= segments);
        assert(nonempty(segments) =~= segments);
    } else {
        let rest = segments.drop_last();
        assert forall|i: int| 0 <= i < rest.len() implies (#[trigger] rest[i]).len() > 0 by {
            assert(segments[i].len() > 0);
        }
        lemma_nonempty_kept(rest);
        assert(segments[segments.len() - 1].len() > 0);
        assert((e + segments).drop_last() =~= e + rest);
        assert(rest.push(segments.last()) =~= segments);
    }
}

/// A path below a root, written out, is the segments behind an empty one.
proof fn lemma_rooted(segments: Seq<Seq<char>>)
    requires
        segments.len() > 0,
    ensures
        seq!['/'] + joined(segments, "/"@) == joined(
            seq![Seq::<char>::empty()] + segments,
            "/"@,
        ),
    decreases segments.len(),
{
    reveal_strlit("/");
    let e = seq![Seq::<char>::empty()];
    let all = e + segments;
    assert(all.drop_last() =~= e + segments.drop_last());
    if segments.len() == 1 {
        assert(segments.drop_last() =~= seq![]);
        assert(all.drop_last() =~= e);
        assert(joined(e, "/"@) =~= seq![]);
        assert(joined(all, "/"@) =~= seq!['/'] + segments[0]);
    } else {
        lemma_rooted(segments.drop_last());
        assert(joined(all, "/"@) =~= seq!['/'] + joined(segments, "/"@));
    }
}

/// The directory of a path is the path without its last segment.
proof fn lemma_directory(d: Seq<char>, q: Seq<char>)
    requires
        !q.contains('/'),
    ensures
        directory(d + "/"@ + q) == d,
{
    reveal_strlit("/");
    let s = d + "/"@ + q;
    let n = d.len() as int;
    lemma_last_upto(s, seq!['/'], s.len() as int);
    assert(s.subrange(n, n + 1) =~= seq!['/']);
    assert(occurs_at(s, seq!['/'], n));
    let m = last_upto(s, seq!['/'], s.len() as int)->0;
    if m > n {
        assert(s.subrange(m, m + 1)[0] == '/');
        assert(s[m] == q[m - n - 1]);
    }
    assert(s.take(n) =~= d);
}

/// What comes before the path of an address stays when it gets another path, and so does its root.
proof fn lemma_same_root(base: Seq<char>, segments: Seq<Seq<char>>)
    requires
        segments.len() > 0,
        no_slashes(segments),
        forall|i: int| 0 <= i < segments.len() ==> (#[trigger] segments[i]).len() > 0,
    ensures
        ({
            let r = with_path(base, segments);
            &&& root_end(r) == root_end(base)
            &&& is_rooted(r) == is_rooted(base)
            &&& r.take(root_end(r)) == base.take(root_end(base))
            &&& r.skip(root_end(r)) == (if is_rooted(base) {
                seq!['/']
            } else {
                seq![]
            }) + joined(segments, "/"@)
        }),
{
    reveal_strlit("://");
    let mark = "://"@;
    let r = with_path(base, segments);
    let e = root_end(base);
    let j = joined(segments, "/"@);
    lemma_no_double_slash(segments);
    lemma_first_from(base, mark, 0);
    lemma_first_from(r, mark, 0);
    match first_from(base, mark, 0) {
        Some(i) => {
            lemma_char_from(base, '/', i + 3);
            assert(i + 3 <= e <= base.len());
            assert(r.subrange(i, i + 3) =~= base.subrange(i, i + 3));
            assert(occurs_at(r, mark, i));
            let k = first_from(r, mark, 0)->0;
            if k < i {
                assert(r.subrange(k, k + 3) =~= base.subrange(k, k + 3));
                assert(occurs_at(base, mark, k));
            }
            assert(k == i);
            lemma_char_from(r, '/', i + 3);
            assert(r[e] == '/');
            let m = char_from(r, '/', i + 3)->0;
            if m < e {
                assert(base[m] == r[m]);
            }
        },
        None => {
            assert(e == 0);
            assert(base.take(0) =~= seq![]);
            if let Some(k) = first_from(r, mark, 0) {
                let w = r.subrange(k, k + 3);
                assert(w[1] == '/' && w[2] == '/');
                assert(r[k + 1] == '/' && r[k + 2] == '/');
                if is_rooted(base) {
                    assert(r =~= seq!['/'] + j);
                    assert(j[k] == '/' && j[k + 1] == '/');
                } else {
                    assert(r =~= j);
                    assert(j[k + 1] == '/' && j[k + 2] == '/');
                }
            }
        },
    }
    assert(r.take(e) =~= base.take(e));
    assert(r.skip(e) =~= (if is_rooted(base) {
        seq!['/']
    } else {
        seq![]
    }) + j);
}

proof fn lemma_walk(segments: Seq<Seq<char>>, first: Seq<char>, then: Seq<Seq<char>>)
    requires
        forall|i: int| 0 <= i < then.len() ==> is_segment(#[trigger] then[i]),
    ensures
        walked(segments, seq![first] + then) == followed(segments, first) + then,
    decreases then.len(),
{
    let all = seq![first] + then;
    if then.len() == 0 {
        assert(all.drop_last() =~= seq![]);
        assert(walked(segments, all.drop_last()) == segments);
        assert(followed(segments, first) + then =~= followed(segments, first));
    } else {
        let rest = then.drop_last();
        assert forall|i: int| 0 <= i < rest.len() implies is_segment(#[trigger] rest[i]) by {
            assert(is_segment(then[i]));
        }
        lemma_walk(segments, first, rest);
        assert(all.drop_last() =~= seq![first] + rest);
        assert(is_segment(then[then.len() - 1]));
        assert((followed(segments, first) + rest).push(then.last()) =~= followed(segments, first)
            + then);
    }
}

/// The directory of a module is made of segments.
proof fn lemma_directory_of(base: Seq<char>)
    ensures
        no_slashes(directory_of(base)),
        forall|i: int| 0 <= i < directory_of(base).len() ==> (#[trigger] directory_of(
            base,
        )[i]).len() > 0,
{
    let dir = directory(base.skip(root_end(base)));
    lemma_pieces_have_no_slashes(dir, 0);
    lemma_nonempty(pieces_of(dir, '/'));
}

/// Where one step and a segment lead.
proof fn lemma_step(base: Seq<char>, step: Seq<char>, t: Seq<char>)
    requires
        !step.contains('/'),
        is_segment(t),
    ensures
        path_to(base, step + "/"@ + t) == followed(directory_of(base), step) + seq![t],
{
    let v = seq![step, t];
    lemma_two(v);
    lemma_joined_pieces(v);
    assert(v =~= seq![step] + seq![t]);
    lemma_walk(directory_of(base), step, seq![t]);
}

/// Where one step and two segments lead.
proof fn lemma_way_down(base: Seq<char>, p: Seq<char>, q: Seq<char>)
    requires
        is_segment(p),
        is_segment(q),
    ensures
        path_to(base, "."@ + "/"@ + p + "/"@ + q) == directory_of(base) + seq![p, q],
{
    reveal_strlit(".");
    let v = seq!["."@, p, q];
    lemma_three(v);
    lemma_joined_pieces(v);
    assert(v =~= seq!["."@] + seq![p, q]);
    lemma_walk(directory_of(base), "."@, seq![p, q]);
}

/// The directory of an address that got another path is that path without its last segment.
proof fn lemma_directory_below(base: Seq<char>, upper: Seq<Seq<char>>, q: Seq<char>)
    requires
        upper.len() > 0,
        no_slashes(upper),
        forall|i: int| 0 <= i < upper.len() ==> (#[trigger] upper[i]).len() > 0,
        is_segment(q),
    ensures
        directory_of(with_path(base, upper.push(q))) == upper,
{
    let below = upper.push(q);
    let r = with_path(base, below);
    lemma_segments_added(upper, seq![q]);
    assert(upper + seq![q] =~= below);
    lemma_same_root(base, below);
    let root = if is_rooted(base) {
        seq!['/']
    } else {
        seq![]
    };
    let d = root + joined(upper, "/"@);
    assert(below.drop_last() =~= upper);
    assert(r.skip(root_end(r)) =~= d + "/"@ + q);
    lemma_directory(d, q);
    lemma_nonempty_kept(upper);
    if is_rooted(base) {
        lemma_rooted(upper);
        let with_root = seq![Seq::<char>::empty()] + upper;
        assert forall|i: int| 0 <= i < with_root.len() implies !(#[trigger] with_root[i]).contains(
            '/',
        ) by {
            if i > 0 {
                assert(with_root[i] == upper[i - 1]);
            }
        }
        lemma_joined_pieces(with_root);
    } else {
        assert(d =~= joined(upper, "/"@));
        lemma_joined_pieces(upper);
    }
}

/// Going down into a directory and up again leads where the direct way leads: `../t` in the module that
/// `./p/q` stands for is what `./t` stands for.
pub proof fn law_down_and_up_again(base: Seq<char>, p: Seq<char>, q: Seq<char>, t: Seq<char>)
    requires
        is_segment(p),
        is_segment(q),
        is_segment(t),
    ensures
        relative(relative(base, "./"@ + p + "/"@ + q), "../"@ + t) == relative(base, "./"@ + t),
{
    reveal_strlit("/");
    reveal_strlit(".");
    reveal_strlit("..");
    reveal_strlit("./");
    reveal_strlit("../");
    assert("./"@ =~= "."@ + "/"@);
    assert("../"@ =~= ".."@ + "/"@);
    let start = directory_of(base);
    lemma_directory_of(base);
    lemma_way_down(base, p, q);
    let upper = start + seq![p];
    lemma_segments_added(start, seq![p]);
    let below = upper.push(q);
    assert(start + seq![p, q] =~= below);
    let r = with_path(base, below);
    lemma_directory_below(base, upper, q);
    lemma_segments_added(upper, seq![q]);
    assert(upper + seq![q] =~= below);
    lemma_same_root(base, below);
    lemma_step(r, ".."@, t);
    lemma_step(base, "."@, t);
    assert(upper.drop_last() =~= start);
}

proof fn lemma_two(v: Seq<Seq<char>>)
    requires
        v.len() == 2,
    ensures
        joined(v, "/"@) == v[0] + "/"@ + v[1],
{
    assert(v.drop_last() =~= seq![v[0]]);
    reveal_with_fuel(joined, 2);
}

proof fn lemma_three(v: Seq<Seq<char>>)
    requires
        v.len() == 3,
    ensures
        joined(v, "/"@) == v[0] + "/"@ + v[1] + "/"@ + v[2],
{
    lemma_two(v.drop_last());
}

proof fn lemma_segments_added(start: Seq<Seq<char>>, more: Seq<Seq<char>>)
    requires
        no_slashes(start),
        forall|i: int| 0 <= i < start.len() ==> (#[trigger] start[i]).len() > 0,
        forall|i: int| 0 <= i < more.len() ==> is_segment(#[trigger] more[i]),
    ensures
        no_slashes(start + more),
        forall|i: int| 0 <= i < (start + more).len() ==> (#[trigger] (start + more)[i]).len() > 0,
{
    let all = start + more;
    assert forall|i: int| 0 <= i < all.len() implies !(#[trigger] all[i]).contains('/')
        && all[i].len() > 0 by {
        if i < start.len() {
            assert(all[i] == start[i]);
        } else {
            assert(is_segment(more[i - start.len()]));
        }
    }
}

/// `root` is the root of an address: a scheme, `://` and a host.
pub open spec fn is_root(root: Seq<char>, scheme: Seq<char>, host: Seq<char>) -> bool {
    &&& root == scheme + "://"@ + host
    &&& !scheme.contains(':')
    &&& !host.contains('/')
}

proof fn lemma_root(root: Seq<char>, scheme: Seq<char>, host: Seq<char>)
    requires
        is_root(root, scheme, host),
    ensures
        root_end(root) == root.len(),
        is_rooted(root),
{
    reveal_strlit("://");
    let n = scheme.len() as int;
    assert(root.len() == n + 3 + host.len());
    assert(root.subrange(n, n + 3) =~= "://"@);
    assert(occurs_at(root, "://"@, n));
    lemma_first_from(root, "://"@, 0);
    let k = first_from(root, "://"@, 0)->0;
    assert(k >= n) by {
        if k < n {
            assert(root.subrange(k, k + 3)[0] == ':');
            assert(scheme[k] == ':');
            assert(scheme.contains(':'));
        }
    }
    assert(k == n);
    assert forall|m: int| n + 3 <= m < root.len() implies root[m] != '/' by {
        assert(root[m] == host[m - n - 3]);
    }
    lemma_char_absent(root, '/', n + 3);
}

/// Where nothing is recorded, a relative specifier leads from the directory of the importing module: `./` into
/// it, `../` into the one above it. So no name that begins with `./` or `../` is looked for as it is.
pub proof fn law_relative_specifier_leads_from_the_directory(
    resolutions: Seq<((Seq<char>, Seq<char>), Seq<char>)>,
    sources: Seq<(Seq<char>, Seq<char>)>,
    address: (Seq<char>, Seq<char>, Seq<char>),
    dirs: Seq<Seq<char>>,
    file: Seq<char>,
    t: Seq<char>,
    builtin_loaded: bool,
)
    requires
        is_root(address.0, address.1, address.2),
        dirs.len() > 0,
        forall|i: int| 0 <= i < dirs.len() ==> is_segment(#[trigger] dirs[i]),
        is_segment(file),
        is_segment(t),
    ensures
        ({
            let base = address.0 + "/"@ + joined(dirs, "/"@) + "/"@ + file;
            let below = address.0 + "/"@ + joined(dirs.push(t), "/"@);
            let above = address.0 + "/"@ + joined(dirs.drop_last().push(t), "/"@);
            &&& value_of(resolutions, (base, "./"@ + t)) is None && !below.contains('\0')
                ==> normalized(resolutions, sources, base, "./"@ + t, builtin_loaded) == below
            &&& value_of(resolutions, (base, "../"@ + t)) is None && !above.contains('\0')
                ==> normalized(resolutions, sources, base, "../"@ + t, builtin_loaded) == above
        }),
{
    reveal_strlit("/");
    reveal_strlit(".");
    reveal_strlit("..");
    reveal_strlit("./");
    reveal_strlit("../");
    assert("./"@ =~= "."@ + "/"@);
    assert("../"@ =~= ".."@ + "/"@);
    let root = address.0;
    lemma_root(root, address.1, address.2);
    let base = root + "/"@ + joined(dirs, "/"@) + "/"@ + file;
    lemma_segments_added(seq![], dirs);
    assert(seq![] + dirs =~= dirs);
    lemma_directory_below(root, dirs, file);
    let path = dirs.push(file);
    assert(path.drop_last() =~= dirs);
    assert(root.take(root.len() as int) =~= root);
    assert(with_path(root, path) =~= base);
    lemma_segments_added(dirs, seq![file]);
    assert(dirs + seq![file] =~= path);
    lemma_same_root(root, path);
    lemma_step(base, "."@, t);
    lemma_step(base, ".."@, t);
    let below = root + "/"@ + joined(dirs.push(t), "/"@);
    let above = root + "/"@ + joined(dirs.drop_last().push(t), "/"@);
    assert(dirs + seq![t] =~= dirs.push(t));
    assert(dirs.drop_last() + seq![t] =~= dirs.drop_last().push(t));
    assert(relative(base, "./"@ + t) =~= below);
    assert(relative(base, "../"@ + t) =~= above);
    let one = "./"@ + t;
    let two = "../"@ + t;
    assert(one.subrange(0, 2) =~= "./"@);
    assert(two.subrange(0, 3) =~= "../"@);
}

/// Two steps up from a module in the directory `a/b` lead to the root, and no step leads above it.
pub proof fn law_steps_up_end_at_the_root(
    address: (Seq<char>, Seq<char>, Seq<char>),
    d: Seq<char>,
    file: Seq<char>,
    t: Seq<char>,
)
    requires
        is_root(address.0, address.1, address.2),
        is_segment(d),
        is_segment(file),
        is_segment(t),
    ensures
        relative(address.0 + "/"@ + d + "/"@ + file, "../"@ + t) == address.0 + "/"@ + t,
        relative(address.0 + "/"@ + d + "/"@ + file, "./"@ + t) == address.0 + "/"@ + d + "/"@ + t,
        relative(address.0 + "/"@ + t, "../"@ + t) == address.0 + "/"@ + t,
{
    reveal_strlit("/");
    reveal_strlit(".");
    reveal_strlit("..");
    reveal_strlit("./");
    reveal_strlit("../");
    assert("./"@ =~= "."@ + "/"@);
    assert("../"@ =~= ".."@ + "/"@);
    let root = address.0;
    lemma_root(root, address.1, address.2);
    let base = root + "/"@ + d + "/"@ + file;
    let dirs = seq![d];
    lemma_directory_below(root, dirs, file);
    let path = dirs.push(file);
    assert(path =~= seq![d, file]);
    lemma_two(path);
    assert(root.take(root.len() as int) =~= root);
    assert(with_path(root, path) =~= base);
    lemma_segments_added(dirs, seq![file]);
    assert(dirs + seq![file] =~= path);
    lemma_same_root(root, path);
    lemma_step(base, ".."@, t);
    lemma_step(base, "."@, t);
    assert(dirs.drop_last() + seq![t] =~= seq![t]);
    assert(joined(seq![t], "/"@) == t);
    assert(relative(base, "../"@ + t) =~= root + "/"@ + t);
    assert(dirs + seq![t] =~= seq![d, t]);
    lemma_two(seq![d, t]);
    assert(relative(base, "./"@ + t) =~= root + "/"@ + d + "/"@ + t);
    let top = root + "/"@ + t;
    assert(with_path(root, seq![t]) =~= top);
    lemma_same_root(root, seq![t]);
    let rest = top.skip(root_end(top));
    assert(rest =~= Seq::<char>::empty() + "/"@ + t);
    lemma_directory(seq![], t);
    lemma_char_absent(Seq::<char>::empty(), '/', 0);
    assert(Seq::<char>::empty().skip(0) =~= Seq::<char>::empty());
    assert(pieces_of(Seq::<char>::empty(), '/') =~= seq![Seq::<char>::empty()]);
    lemma_nonempty_kept(seq![]);
    assert(seq![Seq::<char>::empty()] + Seq::<Seq<char>>::empty() =~= seq![Seq::<char>::empty()]);
    assert(directory_of(top) =~= seq![]);
    lemma_step(top, ".."@, t);
    assert(followed(directory_of(top), ".."@) + seq![t] =~= seq![t]);
    assert(relative(top, "../"@ + t) =~= top);
}

/// `name` is neither relative nor absolute, and has no scheme.
pub open spec fn is_builtin_like(name: Seq<char>) -> bool {
    name.len() > 0 && name[0] != '.' && name[0] != '/' && !name.contains(':')
}

proof fn lemma_not_relative(name: Seq<char>)
    requires
        name.len() == 0 || name[0] != '.',
    ensures
        !is_relative(name),
{
    reveal_strlit("./");
    reveal_strlit("../");
    if begins(name, "./"@) {
        assert(name.subrange(0, 2)[0] == name[0]);
    }
    if begins(name, "../"@) {
        assert(name.subrange(0, 3)[0] == name[0]);
    }
}

/// Where nothing is recorded for the importing module, a bare name without a scheme stands for the builtin of
/// that name, if the engine has loaded it or its text is registered.
pub proof fn law_bare_name_is_a_builtin(
    resolutions: Seq<((Seq<char>, Seq<char>), Seq<char>)>,
    sources: Seq<(Seq<char>, Seq<char>)>,
    base: Seq<char>,
    name: Seq<char>,
    builtin_loaded: bool,
)
    requires
        value_of(resolutions, (base, name)) is None,
        is_builtin_like(name),
        !name.contains('\0'),
        builtin_loaded || value_of(sources, "node:"@ + name) is Some,
    ensures
        normalized(resolutions, sources, base, name, builtin_loaded) == "node:"@ + name,
{
    reveal_strlit("node:");
    lemma_not_relative(name);
    let b = "node:"@ + name;
    assert forall|i: int| 0 <= i < b.len() implies b[i] != '\0' by {
        if i >= 5 {
            assert(b[i] == name[i - 5]);
        } else {
            assert(b[i] == "node:"@[i]);
        }
    }
}

/// A bare name that is no builtin stands for what any module had it resolved to, the first of them; and for
/// itself where none had.
pub proof fn law_bare_name_means_the_same_everywhere(
    resolutions: Seq<((Seq<char>, Seq<char>), Seq<char>)>,
    sources: Seq<(Seq<char>, Seq<char>)>,
    base: Seq<char>,
    name: Seq<char>,
    i: int,
)
    requires
        value_of(resolutions, (base, name)) is None,
        is_builtin_like(name),
        value_of(sources, "node:"@ + name) is None,
        0 <= i <= resolutions.len(),
        forall|j: int| 0 <= j < i ==> (#[trigger] resolutions[j]).0.1 != name,
        i < resolutions.len() ==> resolutions[i].0.1 == name && !resolutions[i].1.contains('\0'),
    ensures
        normalized(resolutions, sources, base, name, false) == if i < resolutions.len() {
            resolutions[i].1
        } else {
            name
        },
{
    lemma_not_relative(name);
    lemma_any_resolution(resolutions, name, i);
}

proof fn lemma_any_resolution(
    s: Seq<((Seq<char>, Seq<char>), Seq<char>)>,
    name: Seq<char>,
    i: int,
)
    requires
        0 <= i <= s.len(),
        forall|j: int| 0 <= j < i ==> (#[trigger] s[j]).0.1 != name,
        i < s.len() ==> s[i].0.1 == name,
    ensures
        any_resolution(s, name) == if i < s.len() {
            Some(s[i].1)
        } else {
            None
        },
    decreases s.len(),
{
    if s.len() > 0 {
        let rest = s.drop_last();
        let n = s.len() - 1;
        assert(s.last() == s[n]);
        assert forall|j: int| 0 <= j < i && j < n implies (#[trigger] rest[j]).0.1 != name by {
            assert(s[j].0.1 != name);
        }
        lemma_any_resolution(
            rest,
            name,
            if i <= n {
                i
            } else {
                n
            },
        );
        if i > n {
            assert(s[n].0.1 != name);
        }
    }
}

/// A name that begins with `/`, or a name with a scheme, stands for itself where nothing is recorded.
pub proof fn law_full_names_stand_for_themselves(
    resolutions: Seq<((Seq<char>, Seq<char>), Seq<char>)>,
    sources: Seq<(Seq<char>, Seq<char>)>,
    base: Seq<char>,
    name: Seq<char>,
    builtin_loaded: bool,
)
    requires
        name.len() > 0,
        name[0] == '/' || name[0] != '.' && name.contains(':'),
        forall|j: int| 0 <= j < resolutions.len() ==> (#[trigger] resolutions[j]).0.1 != name,
    ensures
        normalized(resolutions, sources, base, name, builtin_loaded) == name,
{
    lemma_not_relative(name);
    lemma_any_resolution(resolutions, name, resolutions.len() as int);
    lemma_position(resolutions, (base, name));
    if let Some(p) = position(resolutions, (base, name)) {
        assert(resolutions[p].0.1 == name);
    }
}

proof fn lemma_plain_base(base: Seq<char>)
    requires
        !contains_text(base, "://"@),
    ensures
        root_end(base) == 0,
        is_rooted(base) == (base.len() > 0 && base[0] == '/'),
        directory_of(base) == nonempty(pieces_of(directory(base), '/')),
        base.take(root_end(base)) == Seq::<char>::empty(),
{
    law_search(base, "://"@, seq![]);
    reveal_strlit("://");
    assert(base.skip(0) =~= base);
    assert(base.take(0) =~= seq![]);
}

/// From a path without a scheme a relative specifier leads to a path that begins as it does: at the root where
/// it begins with a slash, and else nowhere.
pub proof fn law_relative_to_an_absolute_path(d: Seq<char>, file: Seq<char>, t: Seq<char>)
    requires
        is_segment(d) && is_segment(file) && is_segment(t),
        !contains_text("/"@ + d + "/"@ + file, "://"@),
    ensures
        relative("/"@ + d + "/"@ + file, "./"@ + t) == "/"@ + d + "/"@ + t,
        relative("/"@ + d + "/"@ + file, "../"@ + t) == "/"@ + t,
{
    reveal_strlit("/");
    reveal_strlit(".");
    reveal_strlit("..");
    reveal_strlit("./");
    reveal_strlit("../");
    assert("./"@ =~= "."@ + "/"@);
    assert("../"@ =~= ".."@ + "/"@);
    let base = "/"@ + d + "/"@ + file;
    lemma_plain_base(base);
    lemma_directory("/"@ + d, file);
    assert("/"@ + d =~= Seq::<char>::empty() + seq!['/'] + d);
    law_pieces(seq![], '/', d);
    law_pieces(d, '/', seq![]);
    lemma_nonempty_kept(seq![d]);
    assert(directory_of(base) =~= seq![d]);
    lemma_step(base, "."@, t);
    lemma_step(base, ".."@, t);
    assert(seq![d] + seq![t] =~= seq![d, t]);
    lemma_two(seq![d, t]);
    assert(seq![d].drop_last() + seq![t] =~= seq![t]);
    assert(joined(seq![t], "/"@) == t);
    assert(relative(base, "./"@ + t) =~= "/"@ + d + "/"@ + t);
    assert(relative(base, "../"@ + t) =~= "/"@ + t);
}

/// From a path that begins nowhere a relative specifier leads to such a path.
pub proof fn law_relative_to_a_relative_path(d: Seq<char>, file: Seq<char>, t: Seq<char>)
    requires
        is_segment(d) && is_segment(file) && is_segment(t),
        !contains_text(d + "/"@ + file, "://"@),
    ensures
        relative(d + "/"@ + file, "./"@ + t) == d + "/"@ + t,
        relative(d + "/"@ + file, "../"@ + t) == t,
{
    reveal_strlit("/");
    reveal_strlit(".");
    reveal_strlit("..");
    reveal_strlit("./");
    reveal_strlit("../");
    assert("./"@ =~= "."@ + "/"@);
    assert("../"@ =~= ".."@ + "/"@);
    let base = d + "/"@ + file;
    lemma_plain_base(base);
    assert(base[0] == d[0]);
    assert(d.contains(d[0]));
    lemma_directory(d, file);
    law_pieces(d, '/', seq![]);
    lemma_nonempty_kept(seq![d]);
    assert(directory_of(base) =~= seq![d]);
    lemma_step(base, "."@, t);
    lemma_step(base, ".."@, t);
    assert(seq![d] + seq![t] =~= seq![d, t]);
    lemma_two(seq![d, t]);
    assert(seq![d].drop_last() + seq![t] =~= seq![t]);
    assert(joined(seq![t], "/"@) == t);
    assert(relative(base, "./"@ + t) =~= d + "/"@ + t);
    assert(relative(base, "../"@ + t) =~= t);
}

/// A name that a NUL would come into is looked for as it is.
pub proof fn law_no_nul_comes_in(
    resolutions: Seq<((Seq<char>, Seq<char>), Seq<char>)>,
    sources: Seq<(Seq<char>, Seq<char>)>,
    base: Seq<char>,
    name: Seq<char>,
    builtin_loaded: bool,
)
    requires
        !name.contains('\0'),
    ensures
        !normalized(resolutions, sources, base, name, builtin_loaded).contains('\0'),
        canonical(resolutions, sources, base, name, builtin_loaded) matches Some(c) ==> c.contains('\0')
            ==> normalized(resolutions, sources, base, name, builtin_loaded) == name,
{
}

/// A path is walked segment by segment: an empty one and `.` stay, `..` goes up, and any other goes down.
pub proof fn law_walking(segments: Seq<Seq<char>>, parts: Seq<Seq<char>>, s: Seq<char>)
    ensures
        walked(segments, seq![]) == segments,
        is_segment(s) ==> walked(segments, parts.push(s)) == walked(segments, parts).push(s),
        walked(segments, parts.push("."@)) == walked(segments, parts),
        walked(segments, parts.push(seq![])) == walked(segments, parts),
        walked(segments, parts).len() > 0 ==> walked(segments, parts.push(".."@)) == walked(
            segments,
            parts,
        ).drop_last(),
        walked(segments, parts).len() == 0 ==> walked(segments, parts.push(".."@)).len() == 0,
{
    reveal_strlit(".");
    reveal_strlit("..");
    assert(parts.push(s).drop_last() =~= parts);
    assert(parts.push("."@).drop_last() =~= parts);
    assert(parts.push(".."@).drop_last() =~= parts);
    assert(parts.push(seq![]).drop_last() =~= parts);
}

} // verus!

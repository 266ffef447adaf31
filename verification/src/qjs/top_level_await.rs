//! Whether a module's source text awaits outside every function.
//!
//! The text is read once, token by token. Of what is open at a position only that is kept which tells the
//! bodies of functions from other braces, and regular expressions from divisions.

use crate::qjs::request::{comment_at, is_comment, lemma_token_end, skip_token, token_end};
use crate::scan::{
    ident, ident_end, is_ident, is_pair, lemma_ident_end, lemma_regex_end, line_end, pair_at,
    regex_end, skip_ident, skip_line, skip_regex,
};
use crate::specifier::is_quote;
use crate::text::{chars_of, is_at, is_text, is_white, occurs_at, span, white};
use vstd::prelude::*;

verus! {

/// What a bracket or a backtick has opened.
#[derive(Clone, Copy, PartialEq, Eq, Structural, Debug)]
pub enum Kind {
    /// Statements: the module itself, or a block.
    Block,
    /// The body of a function.
    Body,
    /// The members of a class or an object.
    Members,
    /// What a statement like `if` has in parentheses.
    Control,
    /// The parameters of a function.
    Params,
    /// Any other parentheses or square brackets.
    Group,
    /// The text of a template.
    Text,
    /// Code in a template.
    Code,
}

/// What is known of what is open.
#[derive(Clone, Copy, Debug)]
pub struct Level {
    pub kind: Kind,
    /// It stands in a function.
    pub hidden: bool,
    /// The expression here is what an arrow function returns; so many `?` waited when it began.
    pub arrow: Option<usize>,
    /// The members of a class follow.
    pub class: bool,
    /// How many `?` wait for their `:`.
    pub ternary: usize,
}

/// What was read last.
#[derive(Clone, Copy, PartialEq, Eq, Structural, Debug)]
pub enum Sign {
    /// Something behind which a statement begins.
    Start,
    /// A word, a literal or something else that ends an operand.
    Operand,
    /// A parenthesis that closes a group.
    Paren,
    /// The brace that closes the body of a function.
    Brace,
    /// The parenthesis that closes parameters.
    Params,
    /// The word `function`, or the name behind it.
    Function,
    /// A word like `if`, behind which a parenthesis or a block stands.
    Control,
    /// `=>`
    Arrow,
    /// A mark behind which a name stands.
    Dot,
    /// `,`
    Comma,
    /// `*`
    Star,
    /// Something else, behind which an operand stands.
    Operator,
}

/// Where the reading stands: the position, what is open, innermost last, what was read last, and whether a
/// line has ended since.
pub struct Reading {
    pub at: int,
    pub levels: Seq<Level>,
    pub sign: Sign,
    pub broken: bool,
}

/// Statements stand directly in it.
pub open spec fn holds_statements(kind: Kind) -> bool {
    kind == Kind::Block || kind == Kind::Body
}

/// What was read last can end an operand.
pub open spec fn ends_operand(sign: Sign) -> bool {
    sign == Sign::Operand || sign == Sign::Paren || sign == Sign::Brace
}

/// Behind what was read last, among members, the name of a member stands.
pub open spec fn names_member(sign: Sign) -> bool {
    ends_operand(sign) || sign == Sign::Start || sign == Sign::Comma || sign == Sign::Star
}

/// What is known where a statement begins.
pub open spec fn fresh(l: Level) -> Level {
    Level { arrow: None, class: false, ternary: 0, ..l }
}

/// What is opened within `outer`. The body and the parameters of a function are hidden, and so is all that
/// stands in what an arrow function returns.
pub open spec fn within(outer: Level, kind: Kind) -> Level {
    Level {
        kind,
        hidden: outer.hidden || outer.arrow is Some || kind == Kind::Body || kind == Kind::Params,
        arrow: None,
        class: false,
        ternary: 0,
    }
}

/// What a brace opens.
pub open spec fn brace_kind(l: Level, sign: Sign) -> Kind {
    if sign == Sign::Arrow {
        Kind::Body
    } else if l.class {
        Kind::Members
    } else if sign == Sign::Params {
        Kind::Body
    } else if l.kind == Kind::Members {
        if names_member(sign) {
            Kind::Body
        } else {
            Kind::Members
        }
    } else if holds_statements(l.kind) {
        if sign == Sign::Start || sign == Sign::Control || ends_operand(sign) {
            Kind::Block
        } else {
            Kind::Members
        }
    } else if sign == Sign::Paren {
        Kind::Body
    } else {
        Kind::Members
    }
}

/// What a parenthesis opens.
pub open spec fn paren_kind(sign: Sign) -> Kind {
    if sign == Sign::Control {
        Kind::Control
    } else if sign == Sign::Function {
        Kind::Params
    } else {
        Kind::Group
    }
}

/// The sign of the bracket that closes this.
pub open spec fn closing_sign(kind: Kind, c: char) -> Sign {
    match kind {
        Kind::Block | Kind::Control => Sign::Start,
        Kind::Body => Sign::Brace,
        Kind::Params => Sign::Params,
        Kind::Group => if c == ')' {
            Sign::Paren
        } else {
            Sign::Operand
        },
        _ => Sign::Operand,
    }
}

/// The level on which a word or a brace stands: where a line has ended behind an operand, a statement
/// begins.
pub open spec fn settled(r: Reading) -> Level {
    let l = r.levels.last();
    if r.broken && ends_operand(r.sign) && !l.class {
        fresh(l)
    } else {
        l
    }
}

/// The levels with the innermost one replaced.
pub open spec fn with_top(levels: Seq<Level>, l: Level) -> Seq<Level> {
    levels.drop_last().push(l)
}

/// The reading once the bracket or backtick `c` has opened something.
pub open spec fn opened(r: Reading, c: char) -> Reading {
    if c == '{' {
        let l = if holds_statements(r.levels.last().kind) {
            settled(r)
        } else {
            r.levels.last()
        };
        let kind = brace_kind(l, r.sign);
        Reading {
            at: r.at + 1,
            levels: with_top(r.levels, Level { class: false, ..l }).push(within(l, kind)),
            sign: if holds_statements(kind) {
                Sign::Start
            } else {
                Sign::Comma
            },
            broken: false,
        }
    } else {
        let kind = if c == '(' {
            paren_kind(r.sign)
        } else if c == '`' {
            Kind::Text
        } else {
            Kind::Group
        };
        Reading {
            at: r.at + 1,
            levels: r.levels.push(within(r.levels.last(), kind)),
            sign: Sign::Operator,
            broken: false,
        }
    }
}

/// The reading once the bracket `c` has closed what was opened last. Behind its body an arrow function is
/// over.
pub open spec fn closed(r: Reading, c: char) -> Reading {
    let l = r.levels.last();
    let rest = r.levels.drop_last();
    Reading {
        at: r.at + 1,
        levels: if rest.len() == 0 {
            r.levels
        } else if l.kind == Kind::Body {
            with_top(rest, Level { arrow: None, ..rest.last() })
        } else {
            rest
        },
        sign: closing_sign(l.kind, c),
        broken: false,
    }
}

/// A word behind which a parenthesis and then a statement stand.
pub open spec fn control_word(w: Seq<char>) -> bool {
    w == "if"@ || w == "for"@ || w == "while"@ || w == "switch"@ || w == "catch"@ || w == "with"@
}

/// A word behind which a statement stands.
pub open spec fn statement_word(w: Seq<char>) -> bool {
    w == "else"@ || w == "try"@ || w == "do"@ || w == "finally"@
}

/// A word that goes on with the operand before it.
pub open spec fn infix_word(w: Seq<char>) -> bool {
    w == "in"@ || w == "of"@ || w == "instanceof"@
}

/// A word behind which an operand stands.
pub open spec fn operator_word(w: Seq<char>) -> bool {
    ||| infix_word(w) || w == "return"@ || w == "typeof"@ || w == "case"@ || w == "default"@
    ||| w == "delete"@ || w == "void"@ || w == "throw"@ || w == "new"@ || w == "extends"@
    ||| w == "await"@ || w == "yield"@
}

/// A word has its meaning as a keyword: it is no name of a member.
pub open spec fn is_keyword(r: Reading) -> bool {
    r.sign != Sign::Dot && !(r.levels.last().kind == Kind::Members && names_member(r.sign))
}

/// Where the word that begins at `i` ends; a number may end with a dot.
pub open spec fn word_end(s: Seq<char>, i: int) -> int {
    let e = ident_end(s, i);
    if '0' <= s[i] <= '9' && e < s.len() && s[e] == '.' {
        e + 1
    } else {
        e
    }
}

/// The sign of the word `w`.
pub open spec fn word_sign(r: Reading, w: Seq<char>) -> Sign {
    if !is_keyword(r) {
        Sign::Operand
    } else if r.sign == Sign::Function || w == "function"@ {
        Sign::Function
    } else if control_word(w) || (w == "await"@ && r.sign == Sign::Control) {
        Sign::Control
    } else if statement_word(w) {
        Sign::Start
    } else if operator_word(w) {
        Sign::Operator
    } else {
        Sign::Operand
    }
}

/// The level on which the word `w` stands.
pub open spec fn word_level(r: Reading, w: Seq<char>) -> Level {
    if is_keyword(r) && infix_word(w) {
        r.levels.last()
    } else {
        settled(r)
    }
}

/// The reading behind a word.
pub open spec fn behind_word(s: Seq<char>, r: Reading) -> Reading {
    let w = s.subrange(r.at, ident_end(s, r.at));
    let l = word_level(r, w);
    Reading {
        at: word_end(s, r.at),
        levels: with_top(
            r.levels,
            Level { class: l.class || (is_keyword(r) && w == "class"@), ..l },
        ),
        sign: word_sign(r, w),
        broken: false,
    }
}

/// The beginning of the line of position `i`.
pub open spec fn line_start(s: Seq<char>, i: int) -> int
    decreases i,
{
    if i <= 0 || i > s.len() {
        0
    } else if s[i - 1] == '\n' {
        i
    } else {
        line_start(s, i - 1)
    }
}

/// Only white space stands before `i` on its line, and the line does not begin with two spaces.
pub open spec fn leads_line(s: Seq<char>, i: int) -> bool {
    let b = line_start(s, i);
    &&& forall|k: int| b <= k < i ==> is_white(#[trigger] s[k])
    &&& !occurs_at(s, "  "@, b)
}

/// A line begins to await at `i`.
pub open spec fn line_awaits_at(s: Seq<char>, i: int) -> bool {
    leads_line(s, i) && (occurs_at(s, "await "@, i) || occurs_at(s, "for await"@, i))
}

/// The word that begins here awaits at the top level: in no function, as a keyword, and at the beginning of
/// its line.
pub open spec fn awaits_here(s: Seq<char>, r: Reading) -> bool {
    let l = word_level(r, s.subrange(r.at, ident_end(s, r.at)));
    is_keyword(r) && !l.hidden && l.arrow is None && line_awaits_at(s, r.at)
}

/// `c` ends a line.
pub open spec fn is_line_break(c: char) -> bool {
    c == '\n' || c == '\r' || c as u32 == 0x2028 || c as u32 == 0x2029
}

/// A line ends from `i` up to `e`.
pub open spec fn breaks_between(s: Seq<char>, i: int, e: int) -> bool {
    exists|k: int| i <= k < e && is_line_break(#[trigger] s[k])
}

/// A regular expression begins at the slash that stands here: no operand stands before it, and it is closed
/// on its line. Behind the body of a function one begins on another line.
pub open spec fn regex_here(s: Seq<char>, r: Reading) -> bool {
    &&& s[r.at] == '/'
    &&& !ends_operand(r.sign) || (r.sign == Sign::Brace && r.broken)
    &&& regex_end(s, false, r.at + 1) <= line_end(s, r.at + 1)
}

/// What a mark of punctuation does to its level.
pub open spec fn mark_level(l: Level, c: char) -> Level {
    if c == ';' {
        fresh(l)
    } else if c == ',' {
        Level { arrow: None, ternary: 0, ..l }
    } else if c == '?' {
        Level { ternary: (l.ternary + 1) as usize, ..l }
    } else if c == ':' && l.ternary > 0 {
        Level {
            ternary: (l.ternary - 1) as usize,
            arrow: if l.arrow == Some(l.ternary) {
                None
            } else {
                l.arrow
            },
            ..l
        }
    } else {
        l
    }
}

/// The sign of a mark of punctuation.
pub open spec fn mark_sign(l: Level, sign: Sign, c: char) -> Sign {
    if c == ';' || (c == ':' && l.ternary == 0 && holds_statements(l.kind)) {
        Sign::Start
    } else if c == ',' {
        Sign::Comma
    } else if c == '.' || c == '#' {
        Sign::Dot
    } else if sign == Sign::Function && (c == '*' || c == '\\' || c as u32 >= 0x80) {
        Sign::Function
    } else if c == '*' {
        Sign::Star
    } else if c == '\\' || c as u32 >= 0x80 {
        Sign::Operand
    } else {
        Sign::Operator
    }
}

/// `?.` stands at `i`, and no number that begins with a dot.
pub open spec fn optional_dot_at(s: Seq<char>, i: int) -> bool {
    pair_at(s, i, '?', '.') && !(i + 2 < s.len() && '0' <= s[i + 2] <= '9')
}

/// The reading behind a mark of punctuation.
pub open spec fn behind_mark(s: Seq<char>, r: Reading) -> Reading {
    let i = r.at;
    let l = r.levels.last();
    if pair_at(s, i, '=', '>') {
        Reading {
            at: i + 2,
            levels: with_top(
                r.levels,
                Level {
                    arrow: if l.arrow is Some {
                        l.arrow
                    } else {
                        Some(l.ternary)
                    },
                    ..l
                },
            ),
            sign: Sign::Arrow,
            broken: false,
        }
    } else if pair_at(s, i, '+', '+') || pair_at(s, i, '-', '-') {
        Reading {
            at: i + 2,
            sign: if ends_operand(r.sign) && !r.broken {
                Sign::Operand
            } else {
                Sign::Operator
            },
            broken: false,
            ..r
        }
    } else if optional_dot_at(s, i) {
        Reading { at: i + 2, sign: Sign::Dot, broken: false, ..r }
    } else if pair_at(s, i, '?', '?') {
        Reading { at: i + 2, sign: Sign::Operator, broken: false, ..r }
    } else if pair_at(s, i, '.', '.') && i + 2 < s.len() && s[i + 2] == '.' {
        Reading { at: i + 3, sign: Sign::Operator, broken: false, ..r }
    } else {
        Reading {
            at: i + 1,
            levels: with_top(r.levels, mark_level(l, s[i])),
            sign: mark_sign(l, r.sign, s[i]),
            broken: false,
        }
    }
}

/// The reading behind what stands here in the text of a template.
pub open spec fn behind_text(s: Seq<char>, r: Reading) -> Reading {
    let i = r.at;
    if s[i] == '\\' {
        Reading {
            at: if i + 2 <= s.len() {
                i + 2
            } else {
                s.len() as int
            },
            ..r
        }
    } else if s[i] == '`' {
        Reading { at: i + 1, levels: r.levels.drop_last(), sign: Sign::Operand, broken: false }
    } else if pair_at(s, i, '$', '{') {
        Reading {
            at: i + 2,
            levels: r.levels.push(within(r.levels.last(), Kind::Code)),
            sign: Sign::Operator,
            broken: false,
        }
    } else {
        Reading { at: i + 1, ..r }
    }
}

/// The reading behind what stands here.
pub open spec fn next(s: Seq<char>, r: Reading) -> Reading {
    let i = r.at;
    let c = s[i];
    if r.levels.last().kind == Kind::Text {
        behind_text(s, r)
    } else if is_white(c) {
        Reading { at: i + 1, broken: r.broken || is_line_break(c), ..r }
    } else if comment_at(s, i) {
        let e = token_end(s, i);
        Reading { at: e, broken: r.broken || breaks_between(s, i, e), ..r }
    } else if is_quote(c) {
        Reading { at: token_end(s, i), sign: Sign::Operand, broken: false, ..r }
    } else if c == '(' || c == '[' || c == '{' || c == '`' {
        opened(r, c)
    } else if c == ')' || c == ']' || c == '}' {
        closed(r, c)
    } else if regex_here(s, r) {
        Reading { at: regex_end(s, false, i + 1), sign: Sign::Operand, broken: false, ..r }
    } else if is_ident(c) {
        behind_word(s, r)
    } else {
        behind_mark(s, r)
    }
}

/// A word begins here, in code.
pub open spec fn word_here(s: Seq<char>, r: Reading) -> bool {
    r.levels.last().kind != Kind::Text && is_ident(s[r.at])
}

/// The reading goes on behind what stands here, within the text.
pub proof fn lemma_next(s: Seq<char>, r: Reading)
    requires
        0 <= r.at < s.len(),
    ensures
        r.at < next(s, r).at <= s.len(),
{
    lemma_token_end(s, r.at);
    lemma_regex_end(s, false, r.at + 1);
    lemma_ident_end(s, r.at);
}

/// From here on, a line awaits at the top level.
pub open spec fn awaits_from(s: Seq<char>, r: Reading) -> bool
    decreases s.len() - r.at,
{
    if r.at < 0 || r.at >= s.len() {
        false
    } else {
        proof {
            lemma_next(s, r);
        }
        (word_here(s, r) && awaits_here(s, r)) || awaits_from(s, next(s, r))
    }
}

/// The level of the module itself.
pub open spec fn outermost() -> Level {
    Level { kind: Kind::Block, hidden: false, arrow: None, class: false, ternary: 0 }
}

/// Where the code of a module begins: behind a first line that names an interpreter.
pub open spec fn code_start(s: Seq<char>) -> int {
    if pair_at(s, 0, '#', '!') {
        line_end(s, 2)
    } else {
        0
    }
}

/// Where the reading begins.
pub open spec fn beginning(s: Seq<char>) -> Reading {
    Reading { at: code_start(s), levels: seq![outermost()], sign: Sign::Start, broken: false }
}

/// A line of the module `s` awaits at the top level.
pub open spec fn awaits(s: Seq<char>) -> bool {
    awaits_from(s, beginning(s))
}

/// A reading under way.
struct Scan {
    at: usize,
    levels: Vec<Level>,
    sign: Sign,
    broken: bool,
}

impl Scan {
    spec fn reading(&self) -> Reading {
        Reading { at: self.at as int, levels: self.levels@, sign: self.sign, broken: self.broken }
    }

    /// Something is open, and no more `?` wait than have been read.
    spec fn well_formed(&self, n: nat) -> bool {
        &&& self.at <= n
        &&& self.levels@.len() > 0
        &&& forall|j: int| 0 <= j < self.levels@.len() ==> (#[trigger] self.levels@[j]).ternary <= self.at
    }

    fn top(&self) -> (r: Level)
        requires
            self.levels@.len() > 0,
        ensures
            r == self.levels@.last(),
    {
        self.levels[self.levels.len() - 1]
    }

    fn set_top(&mut self, l: Level)
        requires
            old(self).levels@.len() > 0,
        ensures
            final(self).levels@ == with_top(old(self).levels@, l),
            *final(self) == (Scan { levels: final(self).levels, ..*old(self) }),
    {
        let k = self.levels.len() - 1;
        self.levels.set(k, l);
        assert(self.levels@ =~= with_top(old(self).levels@, l));
    }

    fn move_on(&mut self, at: usize, sign: Sign)
        ensures
            *final(self) == (Scan { at, sign, broken: false, levels: old(self).levels }),
    {
        self.at = at;
        self.sign = sign;
        self.broken = false;
    }

    fn ends_operand(&self) -> (r: bool)
        ensures
            r == ends_operand(self.sign),
    {
        self.sign == Sign::Operand || self.sign == Sign::Paren || self.sign == Sign::Brace
    }

    fn names_member(&self) -> (r: bool)
        ensures
            r == names_member(self.sign),
    {
        self.ends_operand() || self.sign == Sign::Start || self.sign == Sign::Comma || self.sign
            == Sign::Star
    }

    fn settled(&self) -> (r: Level)
        requires
            self.levels@.len() > 0,
        ensures
            r == settled(self.reading()),
    {
        let l = self.top();
        if self.broken && self.ends_operand() && !l.class {
            Level { arrow: None, class: false, ternary: 0, ..l }
        } else {
            l
        }
    }

    fn brace_kind(&self, l: Level) -> (r: Kind)
        ensures
            r == brace_kind(l, self.sign),
    {
        if self.sign == Sign::Arrow {
            Kind::Body
        } else if l.class {
            Kind::Members
        } else if self.sign == Sign::Params {
            Kind::Body
        } else if l.kind == Kind::Members {
            if self.names_member() {
                Kind::Body
            } else {
                Kind::Members
            }
        } else if l.kind == Kind::Block || l.kind == Kind::Body {
            if self.sign == Sign::Start || self.sign == Sign::Control || self.ends_operand() {
                Kind::Block
            } else {
                Kind::Members
            }
        } else if self.sign == Sign::Paren {
            Kind::Body
        } else {
            Kind::Members
        }
    }

    fn push(&mut self, outer: Level, kind: Kind)
        ensures
            final(self).levels@ == old(self).levels@.push(within(outer, kind)),
            *final(self) == (Scan { levels: final(self).levels, ..*old(self) }),
    {
        self.levels.push(
            Level {
                kind,
                hidden: outer.hidden || outer.arrow.is_some() || kind == Kind::Body || kind
                    == Kind::Params,
                arrow: None,
                class: false,
                ternary: 0,
            },
        );
    }

    fn open(&mut self, n: usize, c: char)
        requires
            old(self).well_formed(n as nat),
            old(self).at < n,
            c == '(' || c == '[' || c == '{' || c == '`',
        ensures
            final(self).well_formed(n as nat),
            final(self).reading() == opened(old(self).reading(), c),
    {
        let at = self.at + 1;
        if c == '{' {
            let top = self.top();
            let l = if top.kind == Kind::Block || top.kind == Kind::Body {
                self.settled()
            } else {
                top
            };
            let kind = self.brace_kind(l);
            self.set_top(Level { class: false, ..l });
            self.push(l, kind);
            let sign = if kind == Kind::Block || kind == Kind::Body {
                Sign::Start
            } else {
                Sign::Comma
            };
            self.move_on(at, sign);
        } else {
            let kind = if c == '(' {
                if self.sign == Sign::Control {
                    Kind::Control
                } else if self.sign == Sign::Function {
                    Kind::Params
                } else {
                    Kind::Group
                }
            } else if c == '`' {
                Kind::Text
            } else {
                Kind::Group
            };
            let top = self.top();
            self.push(top, kind);
            self.move_on(at, Sign::Operator);
        }
    }

    fn close(&mut self, n: usize, c: char)
        requires
            old(self).well_formed(n as nat),
            old(self).at < n,
        ensures
            final(self).well_formed(n as nat),
            final(self).reading() == closed(old(self).reading(), c),
    {
        let at = self.at + 1;
        let l = self.top();
        if self.levels.len() > 1 {
            let ghost before = self.levels@;
            self.levels.pop();
            assert(self.levels@ =~= before.drop_last());
            if l.kind == Kind::Body {
                let outer = self.top();
                self.set_top(Level { arrow: None, ..outer });
            }
        }
        let sign = match l.kind {
            Kind::Block | Kind::Control => Sign::Start,
            Kind::Body => Sign::Brace,
            Kind::Params => Sign::Params,
            Kind::Group => if c == ')' {
                Sign::Paren
            } else {
                Sign::Operand
            },
            _ => Sign::Operand,
        };
        self.move_on(at, sign);
    }

    /// Reads the word that stands here. Whether it awaits at the top level.
    fn word(&mut self, s: &[char]) -> (r: bool)
        requires
            old(self).well_formed(s@.len()),
            old(self).at < s@.len(),
            is_ident(s@[old(self).at as int]),
        ensures
            final(self).well_formed(s@.len()),
            r == awaits_here(s@, old(self).reading()),
            final(self).reading() == behind_word(s@, old(self).reading()),
    {
        let i = self.at;
        proof {
            lemma_ident_end(s@, i as int);
        }
        let e = skip_ident(s, i);
        let w = span(s, i, e);
        let top = self.top();
        let keyword = self.sign != Sign::Dot && !(top.kind == Kind::Members && self.names_member());
        let l = if keyword && is_infix(w) {
            top
        } else {
            self.settled()
        };
        let seen = keyword && !l.hidden && l.arrow.is_none() && is_line_awaiting(s, i);
        let sign = if !keyword {
            Sign::Operand
        } else if self.sign == Sign::Function || is_text(w, "function") {
            Sign::Function
        } else if is_control(w) || (is_text(w, "await") && self.sign == Sign::Control) {
            Sign::Control
        } else if is_statement(w) {
            Sign::Start
        } else if is_operator(w) {
            Sign::Operator
        } else {
            Sign::Operand
        };
        let class = l.class || (keyword && is_text(w, "class"));
        self.set_top(Level { class, ..l });
        let at: usize = if '0' <= s[i] && s[i] <= '9' && e < s.len() && s[e] == '.' {
            e + 1
        } else {
            e
        };
        self.move_on(at, sign);
        seen
    }

    /// Reads the mark of punctuation that stands here.
    fn mark(&mut self, s: &[char])
        requires
            old(self).well_formed(s@.len()),
            old(self).at < s@.len(),
        ensures
            final(self).well_formed(s@.len()),
            final(self).reading() == behind_mark(s@, old(self).reading()),
    {
        let i = self.at;
        let n = s.len();
        let l = self.top();
        assert(with_top(self.levels@, l) =~= self.levels@);
        if is_pair(s, i, '=', '>') {
            let arrow = if l.arrow.is_some() {
                l.arrow
            } else {
                Some(l.ternary)
            };
            self.set_top(Level { arrow, ..l });
            self.move_on(i + 2, Sign::Arrow);
        } else if is_pair(s, i, '+', '+') || is_pair(s, i, '-', '-') {
            let sign = if self.ends_operand() && !self.broken {
                Sign::Operand
            } else {
                Sign::Operator
            };
            self.move_on(i + 2, sign);
        } else if is_pair(s, i, '?', '.') && !(n - i > 2 && '0' <= s[i + 2] && s[i + 2] <= '9') {
            self.move_on(i + 2, Sign::Dot);
        } else if is_pair(s, i, '?', '?') {
            self.move_on(i + 2, Sign::Operator);
        } else if is_pair(s, i, '.', '.') && n - i > 2 && s[i + 2] == '.' {
            self.move_on(i + 3, Sign::Operator);
        } else {
            let c = s[i];
            let sign = if c == ';' || (c == ':' && l.ternary == 0 && (l.kind == Kind::Block || l.kind
                == Kind::Body)) {
                Sign::Start
            } else if c == ',' {
                Sign::Comma
            } else if c == '.' || c == '#' {
                Sign::Dot
            } else if self.sign == Sign::Function && (c == '*' || c == '\\' || c as u32 >= 0x80) {
                Sign::Function
            } else if c == '*' {
                Sign::Star
            } else if c == '\\' || c as u32 >= 0x80 {
                Sign::Operand
            } else {
                Sign::Operator
            };
            if c == ';' {
                self.set_top(Level { arrow: None, class: false, ternary: 0, ..l });
            } else if c == ',' {
                self.set_top(Level { arrow: None, ternary: 0, ..l });
            } else if c == '?' {
                assert(self.levels@[self.levels@.len() - 1].ternary <= self.at);
                self.set_top(Level { ternary: l.ternary + 1, ..l });
            } else if c == ':' && l.ternary > 0 {
                let ends = match l.arrow {
                    Some(k) => k == l.ternary,
                    None => false,
                };
                let arrow = if ends {
                    None
                } else {
                    l.arrow
                };
                self.set_top(Level { ternary: l.ternary - 1, arrow, ..l });
            }
            self.move_on(i + 1, sign);
        }
    }

    /// Reads what stands here in the text of a template.
    fn template(&mut self, s: &[char])
        requires
            old(self).well_formed(s@.len()),
            old(self).at < s@.len(),
            old(self).levels@.last().kind == Kind::Text,
            old(self).levels@.len() > 1,
        ensures
            final(self).well_formed(s@.len()),
            final(self).reading() == behind_text(s@, old(self).reading()),
    {
        let i = self.at;
        let n = s.len();
        if s[i] == '\\' {
            self.at = if n - i >= 2 {
                i + 2
            } else {
                n
            };
        } else if s[i] == '`' {
            let ghost before = self.levels@;
            self.levels.pop();
            assert(self.levels@ =~= before.drop_last());
            self.move_on(i + 1, Sign::Operand);
        } else if is_pair(s, i, '$', '{') {
            let top = self.top();
            self.push(top, Kind::Code);
            self.move_on(i + 2, Sign::Operator);
        } else {
            self.at = i + 1;
        }
    }

    /// Where the regular expression ends that begins here, if one does.
    fn regex(&self, s: &[char]) -> (r: Option<usize>)
        requires
            self.at < s@.len(),
        ensures
            match r {
                Some(e) => regex_here(s@, self.reading()) && e == regex_end(s@, false, self.at + 1)
                    && self.at < e <= s@.len(),
                None => !regex_here(s@, self.reading()),
            },
    {
        let n = s.len();
        assert(self.at < n);
        if s[self.at] != '/' || (self.ends_operand() && !(self.sign == Sign::Brace && self.broken)) {
            return None;
        }
        let e = skip_regex(s, self.at + 1);
        if e <= skip_line(s, self.at + 1) {
            Some(e)
        } else {
            None
        }
    }
}

/// Whether the word goes on with the operand before it.
fn is_infix(w: &[char]) -> (r: bool)
    ensures
        r == infix_word(w@),
{
    is_text(w, "in") || is_text(w, "of") || is_text(w, "instanceof")
}

/// Whether a parenthesis and then a statement stand behind the word.
fn is_control(w: &[char]) -> (r: bool)
    ensures
        r == control_word(w@),
{
    is_text(w, "if") || is_text(w, "for") || is_text(w, "while") || is_text(w, "switch") || is_text(
        w,
        "catch",
    ) || is_text(w, "with")
}

/// Whether a statement stands behind the word.
fn is_statement(w: &[char]) -> (r: bool)
    ensures
        r == statement_word(w@),
{
    is_text(w, "else") || is_text(w, "try") || is_text(w, "do") || is_text(w, "finally")
}

/// Whether an operand stands behind the word.
fn is_operator(w: &[char]) -> (r: bool)
    ensures
        r == operator_word(w@),
{
    is_infix(w) || is_text(w, "return") || is_text(w, "typeof") || is_text(w, "case") || is_text(
        w,
        "default",
    ) || is_text(w, "delete") || is_text(w, "void") || is_text(w, "throw") || is_text(w, "new")
        || is_text(w, "extends") || is_text(w, "await") || is_text(w, "yield")
}

/// Whether only white space stands before `i` on its line, which does not begin with two spaces.
fn is_lead(s: &[char], i: usize) -> (r: bool)
    requires
        i <= s@.len(),
    ensures
        r == leads_line(s@, i as int),
{
    let mut b: usize = i;
    let mut blank = true;
    while b > 0 && s[b - 1] != '\n'
        invariant
            b <= i <= s@.len(),
            line_start(s@, i as int) == line_start(s@, b as int),
            blank == forall|k: int| b <= k < i ==> is_white(#[trigger] s@[k]),
        decreases b,
    {
        b -= 1;
        let w = white(s[b]);
        proof {
            if blank && w {
                assert forall|k: int| b <= k < i implies is_white(#[trigger] s@[k]) by {
                    if k > b {
                        assert(is_white(s@[k]));
                    }
                }
            } else if blank {
                assert(!is_white(s@[b as int]));
            } else {
                let k = choose|k: int| b + 1 <= k < i && !is_white(#[trigger] s@[k]);
                assert(!is_white(s@[k]));
            }
        }
        blank = blank && w;
    }
    assert(line_start(s@, i as int) == b);
    let two = chars_of("  ");
    blank && !is_at(s, &two, b)
}

/// Whether a line begins to await at `i`.
fn is_line_awaiting(s: &[char], i: usize) -> (r: bool)
    requires
        i <= s@.len(),
    ensures
        r == line_awaits_at(s@, i as int),
{
    let one = chars_of("await ");
    let other = chars_of("for await");
    (is_at(s, &one, i) || is_at(s, &other, i)) && is_lead(s, i)
}

/// Whether `c` ends a line.
fn line_break(c: char) -> (r: bool)
    ensures
        r == is_line_break(c),
{
    c == '\n' || c == '\r' || c as u32 == 0x2028 || c as u32 == 0x2029
}

/// Whether a line ends from `i` up to `e`.
fn has_break(s: &[char], i: usize, e: usize) -> (r: bool)
    requires
        i <= e <= s@.len(),
    ensures
        r == breaks_between(s@, i as int, e as int),
{
    let mut k: usize = i;
    while k < e
        invariant
            i <= k <= e <= s@.len(),
            forall|j: int| i <= j < k ==> !is_line_break(#[trigger] s@[j]),
        decreases e - k,
    {
        if line_break(s[k]) {
            assert(is_line_break(s@[k as int]));
            return true;
        }
        k += 1;
    }
    false
}

/// Whether a module's source text awaits at its top level, as far as it can be told without parsing it: a
/// line begins with `await ` or `for await`, indented by less than two spaces, and stands in no function,
/// literal or comment. An `await` elsewhere is not seen.
pub fn has_top_level_await(src: &str) -> (r: bool)
    ensures
        r == awaits(src@),
{
    let s = chars_of(src);
    let n = s.len();
    let mut levels: Vec<Level> = Vec::new();
    levels.push(
        Level { kind: Kind::Block, hidden: false, arrow: None, class: false, ternary: 0 },
    );
    assert(levels@ =~= seq![outermost()]);
    let at: usize = if is_pair(&s, 0, '#', '!') {
        skip_line(&s, 2)
    } else {
        0
    };
    let mut scan = Scan { at, levels, sign: Sign::Start, broken: false };
    while scan.at < n
        invariant
            s@ == src@,
            n == s@.len(),
            scan.well_formed(n as nat),
            scan.levels@[0].kind != Kind::Text,
            awaits(s@) == awaits_from(s@, scan.reading()),
        decreases n - scan.at,
    {
        let ghost before = scan.reading();
        proof {
            lemma_next(s@, before);
            lemma_token_end(s@, before.at);
        }
        let i = scan.at;
        let c = s[i];
        if scan.top().kind == Kind::Text {
            scan.template(&s);
        } else if white(c) {
            scan.broken = scan.broken || line_break(c);
            scan.at = i + 1;
        } else if is_comment(&s, i) {
            let e = skip_token(&s, i);
            let broken = has_break(&s, i, e);
            scan.broken = scan.broken || broken;
            scan.at = e;
        } else if c == '"' || c == '\'' {
            let e = skip_token(&s, i);
            scan.move_on(e, Sign::Operand);
        } else if c == '(' || c == '[' || c == '{' || c == '`' {
            scan.open(n, c);
        } else if c == ')' || c == ']' || c == '}' {
            scan.close(n, c);
        } else {
            match scan.regex(&s) {
                Some(e) => {
                    scan.move_on(e, Sign::Operand);
                },
                None => {
                    if ident(c) {
                        if scan.word(&s) {
                            return true;
                        }
                    } else {
                        scan.mark(&s);
                    }
                },
            }
        }
        assert(scan.reading() == next(s@, before));
    }
    false
}

} // verus!

//! What brackets, words and marks mean to the reading of a module, and which lines await.

use crate::qjs::top_level_await::{
    awaits_here, brace_kind, closing_sign, code_start, control_word, ends_operand, fresh,
    infix_word, is_keyword, is_line_break, leads_line, line_awaits_at, line_start, mark_level,
    mark_sign, next, operator_word, optional_dot_at, paren_kind, regex_here, settled,
    statement_word, within, word_sign, Kind, Level, Reading, Sign,
};
use crate::qjs::request::token_end;
use crate::scan::{ident_end, is_ident, line_end, regex_end};
use crate::text::{is_white, occurs_at};
use vstd::prelude::*;
use vstd::utf8::char_u32_cast;

verus! {

/// A brace opens the body of a function behind `=>` and behind parameters, the members of a class behind its
/// head, a block where a statement can stand, and else the members of an object. Among members it opens a
/// body behind a name.
pub proof fn law_what_braces_open(l: Level, sign: Sign)
    ensures
        brace_kind(l, Sign::Arrow) == Kind::Body,
        l.class && sign != Sign::Arrow ==> brace_kind(l, sign) == Kind::Members,
        !l.class ==> brace_kind(l, Sign::Params) == Kind::Body,
        !l.class && sign != Sign::Arrow && sign != Sign::Params ==> {
            &&& l.kind == Kind::Members && (sign == Sign::Operand || sign == Sign::Paren || sign
                == Sign::Brace || sign == Sign::Start || sign == Sign::Comma || sign == Sign::Star)
                ==> brace_kind(l, sign) == Kind::Body
            &&& l.kind == Kind::Members && (sign == Sign::Function || sign == Sign::Control || sign
                == Sign::Dot || sign == Sign::Operator) ==> brace_kind(l, sign) == Kind::Members
            &&& (l.kind == Kind::Block || l.kind == Kind::Body) && (sign == Sign::Start || sign
                == Sign::Control || sign == Sign::Operand || sign == Sign::Paren || sign
                == Sign::Brace) ==> brace_kind(l, sign) == Kind::Block
            &&& (l.kind == Kind::Block || l.kind == Kind::Body) && (sign == Sign::Function || sign
                == Sign::Dot || sign == Sign::Comma || sign == Sign::Star || sign == Sign::Operator)
                ==> brace_kind(l, sign) == Kind::Members
            &&& l.kind != Kind::Members && l.kind != Kind::Block && l.kind != Kind::Body ==> brace_kind(
                l,
                sign,
            ) == if sign == Sign::Paren {
                Kind::Body
            } else {
                Kind::Members
            }
        },
{
}

/// A parenthesis opens a condition behind a word like `if`, parameters behind `function`, and else a group.
pub proof fn law_what_parentheses_open(sign: Sign)
    ensures
        paren_kind(Sign::Control) == Kind::Control,
        paren_kind(Sign::Function) == Kind::Params,
        sign != Sign::Control && sign != Sign::Function ==> paren_kind(sign) == Kind::Group,
{
}

/// Behind a block or a condition a statement begins; what else a bracket closes ends an operand, but for
/// parameters.
pub proof fn law_what_follows_brackets(c: char)
    ensures
        closing_sign(Kind::Block, c) == Sign::Start,
        closing_sign(Kind::Control, c) == Sign::Start,
        closing_sign(Kind::Body, c) == Sign::Brace,
        closing_sign(Kind::Params, c) == Sign::Params,
        closing_sign(Kind::Group, ')') == Sign::Paren,
        closing_sign(Kind::Group, ']') == Sign::Operand,
        closing_sign(Kind::Members, c) == Sign::Operand,
        closing_sign(Kind::Code, c) == Sign::Operand,
        ends_operand(Sign::Operand) && ends_operand(Sign::Paren) && ends_operand(Sign::Brace),
        !ends_operand(Sign::Params) && !ends_operand(Sign::Start) && !ends_operand(Sign::Operator),
{
}

/// What stands in a function, in its parameters or in what an arrow function returns is hidden, and so is all
/// within it; nothing else is.
pub proof fn law_what_is_hidden(outer: Level, kind: Kind)
    ensures
        within(outer, kind).kind == kind,
        outer.hidden ==> within(outer, kind).hidden,
        outer.arrow is Some ==> within(outer, kind).hidden,
        kind == Kind::Body || kind == Kind::Params ==> within(outer, kind).hidden,
        !outer.hidden && outer.arrow is None && kind != Kind::Body && kind != Kind::Params
            ==> !within(outer, kind).hidden,
        within(outer, kind).arrow is None && !within(outer, kind).class && within(outer, kind).ternary
            == 0,
{
}

/// The words that stand before conditions, before statements and before operands.
pub proof fn law_classes_of_words()
    ensures
        control_word("if"@) && control_word("for"@) && control_word("while"@),
        control_word("switch"@) && control_word("catch"@) && control_word("with"@),
        statement_word("else"@) && statement_word("try"@) && statement_word("do"@),
        statement_word("finally"@),
        infix_word("in"@) && infix_word("of"@) && infix_word("instanceof"@),
        operator_word("in"@) && operator_word("of"@) && operator_word("instanceof"@),
        operator_word("return"@) && operator_word("typeof"@) && operator_word("case"@),
        operator_word("default"@) && operator_word("delete"@) && operator_word("void"@),
        operator_word("throw"@) && operator_word("new"@) && operator_word("extends"@),
        operator_word("await"@) && operator_word("yield"@),
{
}

/// A name that is no such word ends an operand; so does any word behind a dot.
pub proof fn law_names_end_operands(r: Reading, w: Seq<char>)
    ensures
        r.sign == Sign::Dot ==> word_sign(r, w) == Sign::Operand,
        is_keyword(r) && r.sign != Sign::Function && !control_word(w) && !statement_word(w)
            && !operator_word(w) && w != "function"@ && w != "await"@ ==> word_sign(r, w)
            == Sign::Operand,
        is_keyword(r) ==> word_sign(r, "function"@) == Sign::Function,
        is_keyword(r) && r.sign == Sign::Function ==> word_sign(r, w) == Sign::Function,
        is_keyword(r) && r.sign != Sign::Function && control_word(w) && w != "function"@ ==> word_sign(
            r,
            w,
        ) == Sign::Control,
{
}

/// A semicolon ends all that an expression began; a comma ends what an arrow function returns; `?` and `:`
/// are counted.
pub proof fn law_marks_and_levels(l: Level)
    requires
        l.ternary < usize::MAX,
    ensures
        mark_level(l, ';').arrow is None && !mark_level(l, ';').class && mark_level(l, ';').ternary == 0,
        mark_level(l, ';').hidden == l.hidden && mark_level(l, ';').kind == l.kind,
        mark_level(l, ',').arrow is None && mark_level(l, ',').class == l.class && mark_level(
            l,
            ',',
        ).ternary == 0,
        mark_level(l, '?').ternary == l.ternary + 1 && mark_level(l, '?').arrow == l.arrow,
        l.ternary > 0 ==> mark_level(l, ':').ternary + 1 == l.ternary,
        l.ternary > 0 && l.arrow == Some(l.ternary) ==> mark_level(l, ':').arrow is None,
        l.ternary > 0 && l.arrow != Some(l.ternary) ==> mark_level(l, ':').arrow == l.arrow,
        l.ternary == 0 ==> mark_level(l, ':') == l,
        mark_level(l, '+') == l && mark_level(l, '=') == l && mark_level(l, '.') == l,
        fresh(l).hidden == l.hidden && fresh(l).kind == l.kind && fresh(l).arrow is None,
{
}

/// What marks are followed by: a statement behind `;` and behind a label, a name behind `.` and `#`, and else
/// an operand.
pub proof fn law_what_follows_marks(l: Level, sign: Sign)
    ensures
        mark_sign(l, sign, ';') == Sign::Start,
        l.ternary == 0 && (l.kind == Kind::Block || l.kind == Kind::Body) ==> mark_sign(l, sign, ':')
            == Sign::Start,
        l.ternary > 0 ==> mark_sign(l, sign, ':') == Sign::Operator,
        mark_sign(l, sign, ',') == Sign::Comma,
        mark_sign(l, sign, '.') == Sign::Dot,
        mark_sign(l, sign, '#') == Sign::Dot,
        sign == Sign::Function ==> mark_sign(l, sign, '*') == Sign::Function,
        sign != Sign::Function ==> mark_sign(l, sign, '*') == Sign::Star,
        mark_sign(l, sign, '+') == Sign::Operator,
        mark_sign(l, sign, '=') == Sign::Operator,
        mark_sign(l, sign, '!') == Sign::Operator,
        mark_sign(l, sign, '/') == Sign::Operator,
        sign != Sign::Function ==> mark_sign(l, sign, '\u{e9}') == Sign::Operand,
{
}

/// The characters that end a line.
pub proof fn law_line_breaks(c: char)
    ensures
        is_line_break(c) <==> c == '\n' || c == '\r' || c == '\u{2028}' || c == '\u{2029}',
{
}

/// `?.` reads a member unless a digit stands behind it.
pub proof fn law_optional_members(before: Seq<char>, c: char, rest: Seq<char>)
    ensures
        optional_dot_at(before + (seq!['?', '.', c] + rest), before.len() as int) == !('0' <= c <= '9'),
{
    let s = before + (seq!['?', '.', c] + rest);
    let n = before.len() as int;
    assert(s[n] == '?' && s[n + 1] == '.' && s[n + 2] == c);
}

/// A first line that `#!` begins is passed over.
pub proof fn law_where_code_starts(s: Seq<char>)
    ensures
        s.len() >= 2 && s[0] == '#' && s[1] == '!' ==> code_start(s) == line_end(s, 2),
        s.len() < 2 || s[0] != '#' || s[1] != '!' ==> code_start(s) == 0,
{
}

proof fn lemma_line_start_is(s: Seq<char>, i: int, b: int)
    requires
        0 <= b <= i <= s.len(),
        b == 0 || s[b - 1] == '\n',
        forall|k: int| b <= k < i ==> s[k] != '\n',
    ensures
        line_start(s, i) == b,
    decreases i - b,
{
    if b < i {
        lemma_line_start_is(s, i - 1, b);
    }
}

/// A line awaits where only white space, and not two spaces at its beginning, stands before `await ` or
/// `for await`.
pub proof fn law_lines_that_await(before: Seq<char>, blank: Seq<char>, rest: Seq<char>)
    requires
        before.len() == 0 || before.last() == '\n',
        !blank.contains('\n'),
        rest.len() > 0 && rest[0] != ' ',
    ensures
        ({
            let s = before + blank + rest;
            let i = before.len() as int + blank.len();
            let leads = (forall|k: int| 0 <= k < blank.len() ==> is_white(#[trigger] blank[k])) && !(
            blank.len() >= 2 && blank[0] == ' ' && blank[1] == ' ');
            &&& leads_line(s, i) == leads
            &&& line_awaits_at(s, i) == (leads && (occurs_at(s, "await "@, i) || occurs_at(
                s,
                "for await"@,
                i,
            )))
        }),
{
    reveal_strlit("  ");
    let s = before + blank + rest;
    let b = before.len() as int;
    let i = b + blank.len();
    if b > 0 {
        assert(s[b - 1] == before.last());
    }
    assert forall|k: int| b <= k < i implies s[k] != '\n' by {
        assert(s[k] == blank[k - b]);
    }
    lemma_line_start_is(s, i, b);
    assert(s[i] == rest[0]);
    if forall|k: int| 0 <= k < blank.len() ==> is_white(#[trigger] blank[k]) {
        assert forall|k: int| b <= k < i implies is_white(#[trigger] s[k]) by {
            assert(s[k] == blank[k - b]);
            assert(is_white(blank[k - b]));
        }
    } else {
        let k = choose|k: int| 0 <= k < blank.len() && !is_white(#[trigger] blank[k]);
        assert(s[b + k] == blank[k]);
        assert(!is_white(s[b + k]));
    }
    if b + 2 <= s.len() {
        assert(s.subrange(b, b + 2) =~= seq![s[b], s[b + 1]]);
    }
    if blank.len() >= 2 {
        assert(s[b] == blank[0] && s[b + 1] == blank[1]);
    } else if blank.len() == 1 {
        assert(s[b + 1] == rest[0]);
    } else {
        assert(s[b] == rest[0]);
    }
    assert("  "@ =~= seq![' ', ' ']);
}

/// Only a keyword that no function hides awaits, where its line does.
pub proof fn law_where_await_counts(s: Seq<char>, r: Reading)
    requires
        r.levels.len() > 0,
        !r.broken,
    ensures
        awaits_here(s, r) == (is_keyword(r) && !r.levels.last().hidden && r.levels.last().arrow is None
            && line_awaits_at(s, r.at)),
        r.sign == Sign::Dot ==> !is_keyword(r),
{
}

/// The text of a template is passed over: `${` opens code in it, a backtick ends it, and a backslash takes the
/// character behind it.
pub proof fn law_steps_in_a_template(s: Seq<char>, r: Reading)
    requires
        0 <= r.at < s.len(),
        r.levels.len() > 0,
        r.levels.last().kind == Kind::Text,
    ensures
        s[r.at] == '`' ==> next(s, r) == (Reading {
            at: r.at + 1,
            levels: r.levels.drop_last(),
            sign: Sign::Operand,
            broken: false,
        }),
        s[r.at] == '$' && r.at + 1 < s.len() && s[r.at + 1] == '{' ==> {
            let n = next(s, r);
            &&& n.at == r.at + 2 && n.sign == Sign::Operator
            &&& n.levels.drop_last() == r.levels
            &&& n.levels.last().kind == Kind::Code
            &&& n.levels.last().hidden == (r.levels.last().hidden || r.levels.last().arrow is Some)
        },
        s[r.at] == '\\' && r.at + 1 < s.len() ==> next(s, r) == (Reading { at: r.at + 2, ..r }),
        s[r.at] != '`' && s[r.at] != '$' && s[r.at] != '\\' ==> next(s, r) == (Reading {
            at: r.at + 1,
            ..r
        }),
{
    if s[r.at] == '$' && r.at + 1 < s.len() && s[r.at + 1] == '{' {
        assert(next(s, r).levels.drop_last() =~= r.levels);
    }
}

/// In code white space only breaks lines, a literal is an operand, and a bracket opens a level within the one
/// it stands in.
pub proof fn law_steps_in_code(s: Seq<char>, r: Reading)
    requires
        0 <= r.at < s.len(),
        r.levels.len() > 0,
        r.levels.last().kind != Kind::Text,
    ensures
        is_white(s[r.at]) ==> next(s, r) == (Reading {
            at: r.at + 1,
            broken: r.broken || s[r.at] == '\n' || s[r.at] == '\r' || s[r.at] == '\u{2028}' || s[r.at]
                == '\u{2029}',
            ..r
        }),
        s[r.at] == '"' || s[r.at] == '\'' ==> next(s, r) == (Reading {
            at: token_end(s, r.at),
            sign: Sign::Operand,
            broken: false,
            ..r
        }),
        s[r.at] == '(' || s[r.at] == '[' || s[r.at] == '`' ==> {
            let n = next(s, r);
            &&& n.at == r.at + 1 && n.sign == Sign::Operator
            &&& n.levels.drop_last() == r.levels
            &&& s[r.at] == '`' ==> n.levels.last().kind == Kind::Text
            &&& s[r.at] == '[' ==> n.levels.last().kind == Kind::Group
            &&& s[r.at] == '(' ==> n.levels.last().kind == paren_kind(r.sign)
        },
        s[r.at] == ')' || s[r.at] == ']' || s[r.at] == '}' ==> {
            let n = next(s, r);
            &&& n.at == r.at + 1
            &&& r.levels.len() > 1 ==> n.levels.len() == r.levels.len() - 1
            &&& r.levels.len() == 1 ==> n.levels == r.levels
            &&& n.sign == closing_sign(r.levels.last().kind, s[r.at])
        },
        s[r.at] == '{' ==> next(s, r).levels.len() == r.levels.len() + 1 && next(s, r).at == r.at + 1,
{
    law_line_breaks(s[r.at]);
    if s[r.at] == '(' || s[r.at] == '[' || s[r.at] == '`' {
        assert(next(s, r).levels.drop_last() =~= r.levels);
    }
}

/// Behind `=>` stands what an arrow function returns, unless it stands in one already; behind `++` and `--` an
/// operand ends where one stood before them on the line.
pub proof fn law_steps_at_marks(s: Seq<char>, r: Reading)
    requires
        0 <= r.at,
        r.at + 1 < s.len(),
        r.levels.len() > 0,
        r.levels.last().kind != Kind::Text,
    ensures
        s[r.at] == '=' && s[r.at + 1] == '>' ==> {
            let n = next(s, r);
            let l = r.levels.last();
            &&& n.at == r.at + 2 && n.sign == Sign::Arrow
            &&& n.levels.len() == r.levels.len()
            &&& l.arrow is None ==> n.levels.last().arrow == Some(l.ternary)
            &&& l.arrow is Some ==> n.levels.last().arrow == l.arrow
            &&& n.levels.last().hidden == l.hidden && n.levels.last().kind == l.kind
        },
        (s[r.at] == '+' && s[r.at + 1] == '+') || (s[r.at] == '-' && s[r.at + 1] == '-') ==> {
            let n = next(s, r);
            &&& n.at == r.at + 2 && n.levels == r.levels
            &&& n.sign == if !r.broken && (r.sign == Sign::Operand || r.sign == Sign::Paren || r.sign
                == Sign::Brace) {
                Sign::Operand
            } else {
                Sign::Operator
            }
        },
        s[r.at] == '?' && s[r.at + 1] == '?' ==> next(s, r) == (Reading {
            at: r.at + 2,
            sign: Sign::Operator,
            broken: false,
            ..r
        }),
        s[r.at] == '.' && s[r.at + 1] == '.' && r.at + 2 < s.len() && s[r.at + 2] == '.' ==> next(s, r)
            == (Reading { at: r.at + 3, sign: Sign::Operator, broken: false, ..r }),
        s[r.at] == '.' && s[r.at + 1] != '.' ==> next(s, r).sign == Sign::Dot && next(s, r).at == r.at
            + 1,
{
}

/// Behind a line that ends in an operand a new statement begins, and what an arrow function returned is over.
pub proof fn law_lines_end_statements(r: Reading)
    requires
        r.levels.len() > 0,
    ensures
        r.broken && (r.sign == Sign::Operand || r.sign == Sign::Paren || r.sign == Sign::Brace)
            && !r.levels.last().class ==> settled(r).arrow is None && settled(r).ternary == 0
            && settled(r).hidden == r.levels.last().hidden,
        !r.broken || r.levels.last().class ==> settled(r) == r.levels.last(),
        r.sign == Sign::Operator || r.sign == Sign::Arrow || r.sign == Sign::Comma ==> settled(r)
            == r.levels.last(),
{
}

/// A slash begins a regular expression unless it stands behind an operand, and unless the line ends first.
pub proof fn law_where_regexes_stand(s: Seq<char>, r: Reading)
    requires
        0 <= r.at < s.len(),
        s[r.at] == '/',
    ensures
        r.sign == Sign::Operand || r.sign == Sign::Paren ==> !regex_here(s, r),
        r.sign == Sign::Brace && !r.broken ==> !regex_here(s, r),
        regex_end(s, false, r.at + 1) > line_end(s, r.at + 1) ==> !regex_here(s, r),
        (r.sign == Sign::Operator || r.sign == Sign::Start || r.sign == Sign::Comma) && regex_end(
            s,
            false,
            r.at + 1,
        ) <= line_end(s, r.at + 1) ==> regex_here(s, r),
{
}

/// A word is passed over whole; the word `class`, and nothing else, says that members follow.
pub proof fn law_steps_at_words(s: Seq<char>, r: Reading)
    requires
        0 <= r.at < s.len(),
        r.levels.len() > 0,
        r.levels.last().kind != Kind::Text,
        is_ident(s[r.at]),
        !('0' <= s[r.at] <= '9'),
    ensures
        ({
            let n = next(s, r);
            let w = s.subrange(r.at, ident_end(s, r.at));
            &&& n.at == ident_end(s, r.at)
            &&& !n.broken
            &&& n.levels.len() == r.levels.len()
            &&& n.sign == word_sign(r, w)
            &&& w == "class"@ && is_keyword(r) ==> n.levels.last().class
            &&& w != "class"@ && !r.levels.last().class ==> !n.levels.last().class
            &&& n.levels.last().hidden == r.levels.last().hidden
        }),
{
}

/// No other word is of these classes.
pub proof fn law_other_words(w: Seq<char>)
    ensures
        control_word(w) ==> w == "if"@ || w == "for"@ || w == "while"@ || w == "switch"@ || w
            == "catch"@ || w == "with"@,
        statement_word(w) ==> w == "else"@ || w == "try"@ || w == "do"@ || w == "finally"@,
        infix_word(w) ==> w == "in"@ || w == "of"@ || w == "instanceof"@,
        operator_word(w) ==> infix_word(w) || w == "return"@ || w == "typeof"@ || w == "case"@ || w
            == "default"@ || w == "delete"@ || w == "void"@ || w == "throw"@ || w == "new"@ || w
            == "extends"@ || w == "await"@ || w == "yield"@,
{
}

/// Any other mark leaves the level as it is, and an operand follows it.
pub proof fn law_other_marks(l: Level, sign: Sign, c: char)
    requires
        c <= '~',
        c != ';' && c != ',' && c != '?' && c != ':' && c != '.' && c != '#' && c != '*' && c != '\\',
    ensures
        mark_level(l, c) == l,
        mark_sign(l, sign, c) == Sign::Operator,
        mark_sign(l, sign, '?') == Sign::Operator,
{
    char_u32_cast(c, c as u32);
}

/// A word is a keyword unless it names a member: behind a dot, or among members where a name can stand.
pub proof fn law_keywords_and_names(r: Reading)
    requires
        r.levels.len() > 0,
        r.sign != Sign::Dot,
    ensures
        r.levels.last().kind != Kind::Members ==> is_keyword(r),
        r.levels.last().kind == Kind::Members ==> is_keyword(r) == (r.sign == Sign::Params || r.sign
            == Sign::Function || r.sign == Sign::Control || r.sign == Sign::Arrow || r.sign
            == Sign::Operator),
{
}

} // verus!

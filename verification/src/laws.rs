//! Laws of the parser and renderer, stated over the specification
//! functions and proved once and for all.

use vstd::prelude::*;
use crate::codes::{code_of, is_color, is_style, FormattingCode};
use crate::parser::{
    is_text_char, lemma_text_run_len_bounds, lemma_text_run_len_interval, parse_scope_spec,
    parse_spec, push_child, push_formatting, text_run_len, ESCAPE_MARKER, MAX_DEPTH,
};
use crate::render::{
    escape_text, spec_html_content, spec_html_contents, spec_html_section, spec_style_attr,
};
use crate::tree::{SpecContent, SpecSection};

verus! {

/// Law: a scope parse never moves backwards, and never past the end of
/// the input.
pub proof fn lemma_parse_scope_pos(s: Seq<char>, pos: nat, sec: SpecSection)
    requires
        pos <= s.len(),
    ensures
        parse_scope_spec(s, pos, sec) matches Some(done) ==> pos <= done.1 <= s.len(),
    decreases s.len() - pos,
{
    if pos >= s.len() {
    } else {
        let c = s[pos as int];
        if c == '\0' {
        } else if c == '\n' {
            lemma_parse_scope_pos(s, pos + 1, push_child(sec, SpecContent::Newline));
        } else if c == ESCAPE_MARKER {
            if pos + 1 >= s.len() {
                lemma_parse_scope_pos(s, pos + 1, push_child(sec, SpecContent::Text(seq![c])));
            } else {
                match code_of(s[pos as int + 1]) {
                    None => {
                        lemma_parse_scope_pos(
                            s,
                            pos + 2,
                            push_child(
                                sec,
                                SpecContent::Text(s.subrange(pos as int, pos as int + 2)),
                            ),
                        );
                    },
                    Some(code) => {
                        if is_color(code) {
                            if sec.depth + 1 > MAX_DEPTH {
                            } else {
                                let child = SpecSection {
                                    formatting: seq![code],
                                    children: Seq::empty(),
                                    depth: sec.depth + 1,
                                };
                                lemma_parse_scope_pos(s, pos + 2, child);
                                match parse_scope_spec(s, pos + 2, child) {
                                    None => {},
                                    Some((done, p)) => {
                                        let cont = if pos + 2 <= p <= s.len() {
                                            p
                                        } else {
                                            pos + 2
                                        };
                                        lemma_parse_scope_pos(
                                            s,
                                            cont,
                                            push_child(sec, SpecContent::Section(done)),
                                        );
                                    },
                                }
                            }
                        } else if is_style(code) {
                            lemma_parse_scope_pos(s, pos + 2, push_formatting(sec, code));
                        } else {
                            if sec.depth > 0 {
                            } else {
                                lemma_parse_scope_pos(s, pos + 2, sec);
                            }
                        }
                    },
                }
            }
        } else {
            let n = text_run_len(s, pos);
            lemma_text_run_len_bounds(s, pos);
            lemma_parse_scope_pos(
                s,
                pos + n,
                push_child(sec, SpecContent::Text(s.subrange(pos as int, pos as int + n as int))),
            );
        }
    }
}

/// Law: parsing can only fail through colour nesting, and a colour scope
/// can only be opened by an escape marker, so an input with no escape
/// marker always parses successfully, from any position and into any
/// partial section.
pub proof fn lemma_no_marker_never_fails(s: Seq<char>, pos: nat, sec: SpecSection)
    requires
        forall|i: int| 0 <= i < s.len() ==> s[i] != ESCAPE_MARKER,
    ensures
        parse_scope_spec(s, pos, sec) is Some,
    decreases s.len() - pos,
{
    if pos >= s.len() {
    } else {
        let c = s[pos as int];
        if c == '\0' {
        } else if c == '\n' {
            lemma_no_marker_never_fails(s, pos + 1, push_child(sec, SpecContent::Newline));
        } else {
            let n = text_run_len(s, pos);
            lemma_text_run_len_bounds(s, pos);
            lemma_no_marker_never_fails(
                s,
                pos + n,
                push_child(sec, SpecContent::Text(s.subrange(pos as int, pos as int + n as int))),
            );
        }
    }
}

/// Law: an input that holds no escape marker, no line break and no NUL
/// parses to a root section with no formatting and exactly one text item,
/// the whole input, and that root renders as a single span with no style
/// attribute around the escaped input. (An empty input parses to a root
/// with no items at all, and a line break becomes an item of its own, so
/// those inputs are left out.)
pub proof fn lemma_plain_text_round_trip(s: Seq<char>)
    requires
        s.len() > 0,
        forall|i: int| 0 <= i < s.len() ==> is_text_char(s[i]),
    ensures
        parse_spec(s) == Some(
            (SpecSection {
                formatting: Seq::empty(),
                children: seq![SpecContent::Text(s)],
                depth: 0,
            }),
        ),
        spec_html_section(
            (SpecSection {
                formatting: Seq::empty(),
                children: seq![SpecContent::Text(s)],
                depth: 0,
            }),
        ) == "<span"@ + ">"@ + escape_text(s) + "</span>"@,
{
    let root = SpecSection { formatting: Seq::empty(), children: Seq::empty(), depth: 0 };
    lemma_text_run_len_interval(s, 0, s.len());
    assert(s.subrange(0, s.len() as int) =~= s);
    let sec1 = push_child(root, SpecContent::Text(s));
    assert(sec1.children =~= seq![SpecContent::Text(s)]);
    assert(parse_scope_spec(s, 0, root) == parse_scope_spec(s, s.len(), sec1));
    assert(parse_scope_spec(s, s.len(), sec1) == Some((sec1, s.len())));
    let out = SpecSection {
        formatting: Seq::empty(),
        children: seq![SpecContent::Text(s)],
        depth: 0,
    };
    assert(out.children.subrange(0, 0) =~= Seq::<SpecContent>::empty());
    assert(spec_html_contents(out.children.subrange(0, 0)) == Seq::<char>::empty());
    assert(out.children[0] == SpecContent::Text(s));
    assert(spec_html_content(out.children[0]) == escape_text(s));
    assert(spec_html_contents(out.children) =~= escape_text(s));
    assert(spec_style_attr(out.formatting) == Seq::<char>::empty());
    assert(spec_html_section(out) =~= "<span"@ + ">"@ + escape_text(s) + "</span>"@);
}

/// Law: a reset directive closes the scope of any nested section at once;
/// the section is returned unchanged and the parent resumes behind the
/// reset sequence.
pub proof fn lemma_reset_closes_scope(s: Seq<char>, pos: nat, sec: SpecSection)
    requires
        pos + 1 < s.len(),
        s[pos as int] == ESCAPE_MARKER,
        code_of(s[pos as int + 1]) == Some(FormattingCode::Reset),
        sec.depth > 0,
    ensures
        parse_scope_spec(s, pos, sec) == Some((sec, (pos + 2) as nat)),
{
}

/// Law: a reset at the root, which has no enclosing scope to close, is
/// absorbed with no structural effect.
pub proof fn lemma_root_reset_no_op(s: Seq<char>, pos: nat, sec: SpecSection)
    requires
        pos + 1 < s.len(),
        s[pos as int] == ESCAPE_MARKER,
        code_of(s[pos as int + 1]) == Some(FormattingCode::Reset),
        sec.depth == 0,
    ensures
        parse_scope_spec(s, pos, sec) == parse_scope_spec(s, (pos + 2) as nat, sec),
{
}

/// Law: a style directive accumulates on the current section's formatting
/// and opens no new scope.
pub proof fn lemma_style_accumulates(s: Seq<char>, pos: nat, sec: SpecSection, code: FormattingCode)
    requires
        pos + 1 < s.len(),
        s[pos as int] == ESCAPE_MARKER,
        code_of(s[pos as int + 1]) == Some(code),
        is_style(code),
    ensures
        parse_scope_spec(s, pos, sec) == parse_scope_spec(
            s,
            (pos + 2) as nat,
            push_formatting(sec, code),
        ),
{
}

/// Law: a colour directive opens a nested scope one level deeper, holding
/// only that colour; the finished child is appended to the current
/// section's content and the parent resumes where the child stopped, so
/// nested colours compose by tree nesting, never by flattening.
pub proof fn lemma_color_opens_scope(s: Seq<char>, pos: nat, sec: SpecSection, code: FormattingCode)
    requires
        pos + 1 < s.len(),
        s[pos as int] == ESCAPE_MARKER,
        code_of(s[pos as int + 1]) == Some(code),
        is_color(code),
        sec.depth + 1 <= MAX_DEPTH,
    ensures
        parse_scope_spec(
            s,
            (pos + 2) as nat,
            (SpecSection { formatting: seq![code], children: Seq::empty(), depth: sec.depth + 1 }),
        ) matches Some(done) ==> parse_scope_spec(s, pos, sec) == parse_scope_spec(
            s,
            done.1,
            push_child(sec, SpecContent::Section(done.0)),
        ),
        parse_scope_spec(
            s,
            (pos + 2) as nat,
            (SpecSection { formatting: seq![code], children: Seq::empty(), depth: sec.depth + 1 }),
        ) is None ==> parse_scope_spec(s, pos, sec) is None,
{
    let child = SpecSection { formatting: seq![code], children: Seq::empty(), depth: sec.depth + 1 };
    lemma_parse_scope_pos(s, pos + 2, child);
}

/// Law: a line break becomes a newline item of the current section.
pub proof fn lemma_newline_step(s: Seq<char>, pos: nat, sec: SpecSection)
    requires
        pos < s.len(),
        s[pos as int] == '\n',
    ensures
        parse_scope_spec(s, pos, sec) == parse_scope_spec(
            s,
            (pos + 1) as nat,
            push_child(sec, SpecContent::Newline),
        ),
{
}

/// Law: an escape marker followed by an unrecognized code character does
/// not abort the parse; the marker and that character are kept as one
/// literal text item and scanning resumes behind them.
pub proof fn lemma_unrecognized_code_recovered(s: Seq<char>, pos: nat, sec: SpecSection)
    requires
        pos + 1 < s.len(),
        s[pos as int] == ESCAPE_MARKER,
        code_of(s[pos as int + 1]) is None,
    ensures
        parse_scope_spec(s, pos, sec) == parse_scope_spec(
            s,
            (pos + 2) as nat,
            push_child(sec, SpecContent::Text(s.subrange(pos as int, pos as int + 2))),
        ),
{
}

/// Law: an escape marker that ends the input is kept as literal text.
pub proof fn lemma_trailing_marker_kept(s: Seq<char>, pos: nat, sec: SpecSection)
    requires
        pos + 1 == s.len(),
        s[pos as int] == ESCAPE_MARKER,
    ensures
        parse_scope_spec(s, pos, sec) == parse_scope_spec(
            s,
            (pos + 1) as nat,
            push_child(sec, SpecContent::Text(seq![ESCAPE_MARKER])),
        ),
{
}

} // verus!

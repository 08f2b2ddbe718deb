//! The renderer: a pure function from a section tree to an HTML string of
//! nested spans with inline style declarations, together with the document
//! type that ties parsing and rendering together. Literal text is escaped
//! for the output markup, so a text run that holds markup-significant
//! characters is still displayed as the characters themselves.

use vstd::prelude::*;
use vstd::string::{StrSliceExecFns, StringExecFns};
use crate::codes::{color_value, color_value_str, sets_color, FormattingCode};
use crate::parser::{parse_spec, wf_content, wf_section, MotdError, MotdParser};
use crate::tree::{
    content_view, lemma_children_view_index, section_view, Section, SectionContents, SpecContent,
    SpecSection,
};

verus! {

/// The style declarations contributed by bold and italic, in order of
/// appearance.
pub open spec fn style_decls(codes: Seq<FormattingCode>) -> Seq<Seq<char>>
    decreases codes.len(),
{
    if codes.len() == 0 {
        Seq::empty()
    } else {
        let rest = style_decls(codes.subrange(0, codes.len() - 1));
        let last = codes[codes.len() - 1];
        if last == FormattingCode::Bold {
            rest.push("font-weight: bold"@)
        } else if last == FormattingCode::Italic {
            rest.push("font-style: italic"@)
        } else {
            rest
        }
    }
}

/// The text-decoration words contributed by strikethrough and underline,
/// in order of appearance.
pub open spec fn deco_words(codes: Seq<FormattingCode>) -> Seq<Seq<char>>
    decreases codes.len(),
{
    if codes.len() == 0 {
        Seq::empty()
    } else {
        let rest = deco_words(codes.subrange(0, codes.len() - 1));
        let last = codes[codes.len() - 1];
        if last == FormattingCode::Strikethrough {
            rest.push("line-through"@)
        } else if last == FormattingCode::Underline {
            rest.push("underline"@)
        } else {
            rest
        }
    }
}

/// The last colour-setting directive of a formatting sequence; its colour
/// value wins. A reset never sets a colour: for parser-built trees it
/// cannot occur here at all (see `lemma_parse_scope_wf`).
pub open spec fn last_color(codes: Seq<FormattingCode>) -> Option<FormattingCode>
    decreases codes.len(),
{
    if codes.len() == 0 {
        None
    } else if sets_color(codes[codes.len() - 1]) {
        Some(codes[codes.len() - 1])
    } else {
        last_color(codes.subrange(0, codes.len() - 1))
    }
}

/// Chunks joined with a separator between neighbours.
pub open spec fn join_seqs(parts: Seq<Seq<char>>, sep: Seq<char>) -> Seq<char>
    decreases parts.len(),
{
    if parts.len() == 0 {
        Seq::empty()
    } else if parts.len() == 1 {
        parts[0]
    } else {
        join_seqs(parts.subrange(0, parts.len() - 1), sep) + sep + parts[parts.len() - 1]
    }
}

/// Every declaration of a formatting sequence, in the fixed output order:
/// bold and italic styles, then one combined text-decoration declaration,
/// then one colour declaration.
pub open spec fn css_decls(codes: Seq<FormattingCode>) -> Seq<Seq<char>> {
    let with_deco = if deco_words(codes).len() > 0 {
        style_decls(codes).push("text-decoration: "@ + join_seqs(deco_words(codes), " "@))
    } else {
        style_decls(codes)
    };
    match last_color(codes) {
        Some(code) => with_deco.push("color: "@ + color_value(code)),
        None => with_deco,
    }
}

/// The style declaration string of a formatting sequence.
pub open spec fn spec_css(codes: Seq<FormattingCode>) -> Seq<char> {
    join_seqs(css_decls(codes), "; "@)
}

/// The escaping of one text character for the output markup: the three
/// characters that are markup-significant become entities, every other
/// character stands for itself.
pub open spec fn escape_char(c: char) -> Seq<char> {
    if c == '&' {
        "&amp;"@
    } else if c == '<' {
        "&lt;"@
    } else if c == '>' {
        "&gt;"@
    } else {
        seq![c]
    }
}

/// A text run escaped for the output markup, character by character.
pub open spec fn escape_text(t: Seq<char>) -> Seq<char>
    decreases t.len(),
{
    if t.len() == 0 {
        Seq::empty()
    } else {
        escape_text(t.subrange(0, t.len() - 1)) + escape_char(t[t.len() - 1])
    }
}

/// Escapes literal text for the output markup.
fn escape_str(t: &str) -> (r: String)
    ensures
        r@ == escape_text(t@),
{
    let len = t.unicode_len();
    let mut out = String::new();
    let mut i: usize = 0;
    while i < len
        invariant
            len as nat == t@.len(),
            i <= len,
            out@ == escape_text(t@.subrange(0, i as int)),
        decreases len - i,
    {
        let c = t.get_char(i);
        if c == '&' {
            out.append("&amp;");
        } else if c == '<' {
            out.append("&lt;");
        } else if c == '>' {
            out.append("&gt;");
        } else {
            let piece = t.substring_char(i, i + 1);
            proof {
                assert(piece@ =~= seq![t@[i as int]]);
            }
            out.append(piece);
        }
        proof {
            assert(t@.subrange(0, i as int + 1).subrange(0, i as int) =~= t@.subrange(
                0,
                i as int,
            ));
            assert(t@.subrange(0, i as int + 1)[i as int] == t@[i as int]);
        }
        i = i + 1;
    }
    proof {
        assert(t@.subrange(0, t@.len() as int) =~= t@);
    }
    out
}

/// The style attribute of a span: absent when no directive is in effect.
pub open spec fn spec_style_attr(codes: Seq<FormattingCode>) -> Seq<char> {
    if codes.len() == 0 {
        Seq::empty()
    } else {
        " style=\""@ + spec_css(codes) + "\""@
    }
}

/// The rendering of a section: a span wrapping its children in order.
pub open spec fn spec_html_section(sec: SpecSection) -> Seq<char>
    decreases sec,
{
    "<span"@ + spec_style_attr(sec.formatting) + ">"@ + spec_html_contents(sec.children)
        + "</span>"@
}

/// The renderings of a sequence of content items, in order.
pub open spec fn spec_html_contents(cs: Seq<SpecContent>) -> Seq<char>
    decreases cs,
{
    if cs.len() == 0 {
        Seq::empty()
    } else {
        spec_html_contents(cs.subrange(0, cs.len() - 1)) + spec_html_content(cs[cs.len() - 1])
    }
}

/// The rendering of one content item: a nested span, the escaped literal
/// text, or a line-break element.
pub open spec fn spec_html_content(c: SpecContent) -> Seq<char>
    decreases c,
{
    match c {
        SpecContent::Section(s) => spec_html_section(s),
        SpecContent::Text(t) => escape_text(t),
        SpecContent::Newline => "<br/>"@,
    }
}

/// The deep view of a sequence of strings.
pub open spec fn string_views(parts: Seq<String>) -> Seq<Seq<char>> {
    parts.map_values(|p: String| p@)
}

/// Joins strings with a separator between neighbours.
fn join_strings(parts: &Vec<String>, sep: &str) -> (r: String)
    ensures
        r@ == join_seqs(string_views(parts@), sep@),
{
    let mut out = String::new();
    let mut i: usize = 0;
    while i < parts.len()
        invariant
            i <= parts@.len(),
            out@ == join_seqs(string_views(parts@).subrange(0, i as int), sep@),
        decreases parts@.len() - i,
    {
        if i > 0 {
            out.append(sep);
        }
        out.append(parts[i].as_str());
        proof {
            let views = string_views(parts@);
            assert(views.subrange(0, i as int + 1).subrange(0, i as int) =~= views.subrange(
                0,
                i as int,
            ));
            assert(views.subrange(0, i as int + 1)[i as int] == parts@[i as int]@);
            if i == 0 {
                assert(out@ =~= join_seqs(views.subrange(0, 1), sep@));
            }
        }
        i = i + 1;
    }
    proof {
        assert(string_views(parts@).subrange(0, parts@.len() as int) =~= string_views(parts@));
    }
    out
}

/// A parsed document: exactly one root section at depth zero.
pub struct Motd {
    contents: Section,
}

impl View for Motd {
    type V = SpecSection;

    closed spec fn view(&self) -> SpecSection {
        section_view(self.contents)
    }
}

impl Motd {
    /// Parses `src` into a document whose root section is the parse of the
    /// whole input: well formed, at depth zero, with reset stored nowhere.
    pub fn new(src: &str) -> (r: Result<Motd, MotdError>)
        ensures
            match r {
                Ok(m) => parse_spec(src@) == Some(m@) && wf_section(m@) && m@.depth == 0,
                Err(e) => parse_spec(src@) is None && e == MotdError::ExcessiveNestingDepth,
            },
    {
        let mut parser = MotdParser::new(src);
        match parser.parse() {
            Ok(contents) => {
                proof {
                    let root = SpecSection {
                        formatting: Seq::empty(),
                        children: Seq::empty(),
                        depth: 0,
                    };
                    crate::parser::lemma_parse_scope_wf(src@, 0, root);
                }
                Ok(Motd { contents })
            },
            Err(e) => Err(e),
        }
    }

    /// Renders the document. Rendering is total over well-formed trees —
    /// every tree `Motd::new` builds is one — and is a pure function of
    /// the tree: rendering the same tree twice yields the same string.
    pub fn to_html(&self) -> (r: String)
        requires
            wf_section(self@),
        ensures
            r@ == spec_html_section(self@),
    {
        self.section_to_html(&self.contents)
    }

    /// Renders one well-formed section and, recursively, its nested
    /// sections.
    fn section_to_html(&self, section: &Section) -> (r: String)
        requires
            wf_section(section@),
        ensures
            r@ == spec_html_section(section@),
        decreases section,
    {
        let mut string = String::from_str("<span");
        if section.formatting.len() > 0 {
            let css = self.formatting_codes_to_css(&section.formatting);
            string.append(" style=\"");
            string.append(css.as_str());
            string.append("\"");
        }
        string.append(">");
        let ghost header = "<span"@ + spec_style_attr(section@.formatting) + ">"@;
        proof {
            assert(string@ =~= header);
        }
        let mut i: usize = 0;
        while i < section.children.len()
            invariant
                wf_section(section@),
                i <= section.children@.len(),
                header == "<span"@ + spec_style_attr(section@.formatting) + ">"@,
                string@ == header + spec_html_contents(section@.children.subrange(0, i as int)),
            decreases section.children@.len() - i,
        {
            let child = &section.children[i];
            proof {
                lemma_children_view_index(section.children@);
                assert(section@.children[i as int] == content_view(section.children@[i as int]));
            }
            match child {
                SectionContents::Section(inner) => {
                    proof {
                        assert(decreases_to!(section.children@ => section.children@[i as int]));
                        assert(section@.children.len() == section.children@.len());
                        assert((i as int) < section@.children.len());
                        assert(wf_content(section@.children[i as int], section@.depth));
                        assert(wf_section(inner@));
                    }
                    let piece = self.section_to_html(inner);
                    proof {
                        assert(piece@ == spec_html_content(section@.children[i as int]));
                    }
                    string.append(piece.as_str());
                },
                SectionContents::Text(t) => {
                    let piece = escape_str(t.as_str());
                    proof {
                        assert(piece@ == spec_html_content(section@.children[i as int]));
                    }
                    string.append(piece.as_str());
                },
                SectionContents::Newline => {
                    proof {
                        assert("<br/>"@ == spec_html_content(section@.children[i as int]));
                    }
                    string.append("<br/>");
                },
            }
            proof {
                let cs = section@.children;
                assert(cs.subrange(0, i as int + 1).subrange(0, i as int) =~= cs.subrange(
                    0,
                    i as int,
                ));
                assert(cs.subrange(0, i as int + 1)[i as int] == cs[i as int]);
                assert(string@ =~= header + spec_html_contents(cs.subrange(0, i as int + 1)));
            }
            i = i + 1;
        }
        string.append("</span>");
        proof {
            lemma_children_view_index(section.children@);
            assert(section@.children.subrange(0, section@.children.len() as int)
                =~= section@.children);
            assert(string@ =~= spec_html_section(section@));
        }
        string
    }

    /// Folds a formatting sequence into one style declaration string, in
    /// the fixed order: bold and italic styles first, then one combined
    /// text-decoration declaration, then one colour declaration. A reset
    /// reaching the renderer is an internal defect, so callers must
    /// exclude it; every parser-built tree does (see
    /// `lemma_parse_scope_wf`).
    fn formatting_codes_to_css(&self, formatting: &Vec<FormattingCode>) -> (r: String)
        requires
            forall|i: int|
                0 <= i < formatting@.len() ==> formatting@[i] != FormattingCode::Reset,
        ensures
            r@ == spec_css(formatting@),
    {
        let mut color: Option<&str> = None;
        let mut text_decoration: Vec<String> = Vec::new();
        let mut styles: Vec<String> = Vec::new();
        let mut i: usize = 0;
        while i < formatting.len()
            invariant
                forall|j: int|
                    0 <= j < formatting@.len() ==> formatting@[j] != FormattingCode::Reset,
                i <= formatting@.len(),
                string_views(styles@) == style_decls(formatting@.subrange(0, i as int)),
                string_views(text_decoration@) == deco_words(formatting@.subrange(0, i as int)),
                match last_color(formatting@.subrange(0, i as int)) {
                    Some(code) => color matches Some(cv) && cv@ == color_value(code),
                    None => color is None,
                },
            decreases formatting@.len() - i,
        {
            let ghost pre = formatting@.subrange(0, i as int);
            let ghost cur = formatting@.subrange(0, i as int + 1);
            let ghost prestyles = styles@;
            let ghost predeco = text_decoration@;
            proof {
                assert(cur.subrange(0, i as int) =~= pre);
                assert(cur[i as int] == formatting@[i as int]);
            }
            let code = formatting[i];
            match code {
                FormattingCode::Black
                | FormattingCode::DarkBlue
                | FormattingCode::DarkGreen
                | FormattingCode::DarkAqua
                | FormattingCode::DarkRed
                | FormattingCode::DarkPurple
                | FormattingCode::Gold
                | FormattingCode::Gray
                | FormattingCode::DarkGray
                | FormattingCode::Blue
                | FormattingCode::Green
                | FormattingCode::Aqua
                | FormattingCode::Red
                | FormattingCode::LightPurple
                | FormattingCode::Yellow
                | FormattingCode::White
                | FormattingCode::Obfuscated => {
                    color = Some(color_value_str(code));
                },
                FormattingCode::Bold => {
                    let d = String::from_str("font-weight: bold");
                    let ghost dv = d@;
                    styles.push(d);
                    proof {
                        assert(string_views(styles@) =~= string_views(prestyles).push(dv));
                    }
                },
                FormattingCode::Italic => {
                    let d = String::from_str("font-style: italic");
                    let ghost dv = d@;
                    styles.push(d);
                    proof {
                        assert(string_views(styles@) =~= string_views(prestyles).push(dv));
                    }
                },
                FormattingCode::Strikethrough => {
                    let d = String::from_str("line-through");
                    let ghost dv = d@;
                    text_decoration.push(d);
                    proof {
                        assert(string_views(text_decoration@) =~= string_views(predeco).push(dv));
                    }
                },
                FormattingCode::Underline => {
                    let d = String::from_str("underline");
                    let ghost dv = d@;
                    text_decoration.push(d);
                    proof {
                        assert(string_views(text_decoration@) =~= string_views(predeco).push(dv));
                    }
                },
                FormattingCode::Reset => {
                    proof {
                        assert(formatting@[i as int] != FormattingCode::Reset);
                        assert(false);
                    }
                },
            }
            i = i + 1;
        }
        proof {
            assert(formatting@.subrange(0, formatting@.len() as int) =~= formatting@);
        }
        let mut decls = styles;
        if text_decoration.len() > 0 {
            let mut d = String::from_str("text-decoration: ");
            let joined = join_strings(&text_decoration, " ");
            d.append(joined.as_str());
            let ghost dv = d@;
            let ghost predecls = decls@;
            decls.push(d);
            proof {
                assert(string_views(decls@) =~= string_views(predecls).push(dv));
            }
        }
        match color {
            Some(c) => {
                let mut d = String::from_str("color: ");
                d.append(c);
                let ghost dv = d@;
                let ghost predecls = decls@;
                decls.push(d);
                proof {
                    assert(string_views(decls@) =~= string_views(predecls).push(dv));
                }
            },
            None => {},
        }
        proof {
            assert(string_views(decls@) =~= css_decls(formatting@));
        }
        join_strings(&decls, "; ")
    }
}

} // verus!

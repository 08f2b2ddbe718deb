//! The recursive-descent parser: a character cursor over the input string
//! and the scope-building routine that turns escape-coded text into a
//! section tree.
//!
//! Error policy: an escape marker followed by an unrecognized code character,
//! or by nothing at all, is kept as literal text (the marker and, when
//! present, the offending character become one text item) and scanning
//! resumes behind it. Colour nesting deeper than `MAX_DEPTH` aborts the
//! whole parse with `MotdError::ExcessiveNestingDepth`. A NUL character is
//! the cursor's out-of-bounds sentinel, so an embedded NUL ends the parse at
//! that point.

use vstd::prelude::*;
use vstd::string::{StrSliceExecFns, StringExecFns};
use crate::codes::{code_of, is_color, is_style, lookup_code, FormattingCode};
use crate::tree::{
    lemma_children_view_push, Section, SectionContents, SpecContent, SpecSection,
};

verus! {

/// The single reserved character that introduces a directive sequence.
pub const ESCAPE_MARKER: char = '\u{00a7}';

/// The largest colour-directive nesting level the parser accepts; deeper
/// input is rejected instead of risking unbounded recursion.
pub const MAX_DEPTH: usize = 64;

/// The one error that aborts a parse. Malformed directives never do: they
/// degrade to literal text.
#[derive(Clone, Copy, Debug, PartialEq, Eq, Structural)]
pub enum MotdError {
    /// Colour-directive nesting went deeper than `MAX_DEPTH`.
    ExcessiveNestingDepth,
}

/// A character the parser treats as literal text: anything but the NUL
/// sentinel, the line break and the escape marker.
pub open spec fn is_text_char(c: char) -> bool {
    c != '\0' && c != '\n' && c != ESCAPE_MARKER
}

/// The length of the maximal run of literal text characters at `pos`.
pub open spec fn text_run_len(s: Seq<char>, pos: nat) -> nat
    decreases s.len() - pos,
{
    if pos < s.len() && is_text_char(s[pos as int]) {
        1 + text_run_len(s, pos + 1)
    } else {
        0
    }
}

/// A text run is at least one character long where one starts, and never
/// runs past the end of the input.
pub proof fn lemma_text_run_len_bounds(s: Seq<char>, pos: nat)
    ensures
        pos < s.len() && is_text_char(s[pos as int]) ==> text_run_len(s, pos) >= 1,
        pos <= s.len() ==> pos + text_run_len(s, pos) <= s.len(),
        pos > s.len() ==> text_run_len(s, pos) == 0,
    decreases s.len() - pos,
{
    if pos < s.len() && is_text_char(s[pos as int]) {
        lemma_text_run_len_bounds(s, pos + 1);
    }
}

/// A run of text characters that ends at the end of the input or at a
/// non-text character is exactly the maximal run.
pub proof fn lemma_text_run_len_interval(s: Seq<char>, pos: nat, end: nat)
    requires
        pos <= end <= s.len(),
        forall|j: int| pos <= j < end ==> is_text_char(s[j]),
        end == s.len() || !is_text_char(s[end as int]),
    ensures
        text_run_len(s, pos) == end - pos,
    decreases end - pos,
{
    if pos < end {
        lemma_text_run_len_interval(s, pos + 1, end);
    }
}

/// The character at `i`, or the NUL sentinel at and past the end.
pub open spec fn char_at(s: Seq<char>, i: nat) -> char {
    if i < s.len() {
        s[i as int]
    } else {
        '\0'
    }
}

/// `sec` with one more content item.
pub open spec fn push_child(sec: SpecSection, c: SpecContent) -> SpecSection {
    SpecSection { children: sec.children.push(c), ..sec }
}

/// `sec` with one more style directive in effect.
pub open spec fn push_formatting(sec: SpecSection, code: FormattingCode) -> SpecSection {
    SpecSection { formatting: sec.formatting.push(code), ..sec }
}

/// What one scope-parsing pass starting at `pos` with the partially built
/// section `sec` produces: the finished section and the position the pass
/// stops at, or nothing if colour nesting goes deeper than `MAX_DEPTH`.
///
/// A reset directive stops the pass when `sec` is a nested scope and is
/// absorbed with no effect at the root. The position a colour-opened child
/// pass stops at is where the parent resumes; the range bound on it is
/// inert (a child pass never moves backwards, and never past the end) and
/// only justifies termination.
pub open spec fn parse_scope_spec(s: Seq<char>, pos: nat, sec: SpecSection) -> Option<
    (SpecSection, nat),
>
    decreases s.len() - pos
        via parse_scope_spec_decreases
{
    if pos >= s.len() {
        Some((sec, pos))
    } else {
        let c = s[pos as int];
        if c == '\0' {
            Some((sec, pos))
        } else if c == '\n' {
            parse_scope_spec(s, pos + 1, push_child(sec, SpecContent::Newline))
        } else if c == ESCAPE_MARKER {
            if pos + 1 >= s.len() {
                parse_scope_spec(s, pos + 1, push_child(sec, SpecContent::Text(seq![c])))
            } else {
                match code_of(s[pos as int + 1]) {
                    None => parse_scope_spec(
                        s,
                        pos + 2,
                        push_child(
                            sec,
                            SpecContent::Text(s.subrange(pos as int, pos as int + 2)),
                        ),
                    ),
                    Some(code) => {
                        if is_color(code) {
                            if sec.depth + 1 > MAX_DEPTH {
                                None
                            } else {
                                let child = SpecSection {
                                    formatting: seq![code],
                                    children: Seq::empty(),
                                    depth: sec.depth + 1,
                                };
                                match parse_scope_spec(s, pos + 2, child) {
                                    None => None,
                                    Some((done, p)) => {
                                        let cont = if pos + 2 <= p <= s.len() {
                                            p
                                        } else {
                                            pos + 2
                                        };
                                        parse_scope_spec(
                                            s,
                                            cont,
                                            push_child(sec, SpecContent::Section(done)),
                                        )
                                    },
                                }
                            }
                        } else if is_style(code) {
                            parse_scope_spec(s, pos + 2, push_formatting(sec, code))
                        } else {
                            if sec.depth > 0 {
                                Some((sec, pos + 2))
                            } else {
                                parse_scope_spec(s, pos + 2, sec)
                            }
                        }
                    },
                }
            }
        } else {
            let n = text_run_len(s, pos);
            parse_scope_spec(
                s,
                pos + n,
                push_child(sec, SpecContent::Text(s.subrange(pos as int, pos as int + n as int))),
            )
        }
    }
}

#[via_fn]
proof fn parse_scope_spec_decreases(s: Seq<char>, pos: nat, sec: SpecSection) {
    lemma_text_run_len_bounds(s, pos);
}

/// What parsing a whole input produces: a root section at depth zero with
/// no formatting of its own, or nothing if nesting goes too deep.
pub open spec fn parse_spec(s: Seq<char>) -> Option<SpecSection> {
    match parse_scope_spec(
        s,
        0,
        SpecSection { formatting: Seq::empty(), children: Seq::empty(), depth: 0 },
    ) {
        Some((sec, _)) => Some(sec),
        None => None,
    }
}

/// A well-formed section: a reset directive is never stored, a colour can
/// stand only first in a formatting sequence, and every nested section
/// sits exactly one level below its parent.
pub open spec fn wf_section(sec: SpecSection) -> bool
    decreases sec,
{
    &&& forall|i: int|
        0 <= i < sec.formatting.len() ==> sec.formatting[i] != FormattingCode::Reset
    &&& forall|i: int|
        0 <= i < sec.formatting.len() && is_color(#[trigger] sec.formatting[i]) ==> i == 0
    &&& forall|i: int|
        0 <= i < sec.children.len() ==> wf_content(#[trigger] sec.children[i], sec.depth)
}

/// A well-formed content item of a section at depth `d`.
pub open spec fn wf_content(c: SpecContent, d: nat) -> bool
    decreases c,
{
    match c {
        SpecContent::Section(s) => s.depth == d + 1 && wf_section(s),
        SpecContent::Text(_) => true,
        SpecContent::Newline => true,
    }
}

/// Law: scope parsing preserves well-formedness. Whatever the parser
/// returns for a well-formed partial section is well formed and sits at
/// the same depth; in particular a reset directive is never stored in any
/// formatting sequence of a parsed tree.
pub proof fn lemma_parse_scope_wf(s: Seq<char>, pos: nat, sec: SpecSection)
    requires
        wf_section(sec),
    ensures
        parse_scope_spec(s, pos, sec) matches Some(done) ==> wf_section(done.0) && done.0.depth
            == sec.depth,
    decreases s.len() - pos,
{
    if pos >= s.len() {
    } else {
        let c = s[pos as int];
        if c == '\0' {
        } else if c == '\n' {
            let sec2 = push_child(sec, SpecContent::Newline);
            assert(wf_section(sec2));
            lemma_parse_scope_wf(s, pos + 1, sec2);
        } else if c == ESCAPE_MARKER {
            if pos + 1 >= s.len() {
                let sec2 = push_child(sec, SpecContent::Text(seq![c]));
                assert(wf_section(sec2));
                lemma_parse_scope_wf(s, pos + 1, sec2);
            } else {
                match code_of(s[pos as int + 1]) {
                    None => {
                        let sec2 = push_child(
                            sec,
                            SpecContent::Text(s.subrange(pos as int, pos as int + 2)),
                        );
                        assert(wf_section(sec2));
                        lemma_parse_scope_wf(s, pos + 2, sec2);
                    },
                    Some(code) => {
                        if is_color(code) {
                            if sec.depth + 1 > MAX_DEPTH {
                            } else {
                                let child = SpecSection {
                                    formatting: seq![code],
                                    children: Seq::empty(),
                                    depth: sec.depth + 1,
                                };
                                assert(wf_section(child));
                                lemma_parse_scope_wf(s, pos + 2, child);
                                match parse_scope_spec(s, pos + 2, child) {
                                    None => {},
                                    Some((done, p)) => {
                                        let cont = if pos + 2 <= p <= s.len() {
                                            p
                                        } else {
                                            pos + 2
                                        };
                                        let sec2 = push_child(sec, SpecContent::Section(done));
                                        assert(wf_content(
                                            SpecContent::Section(done),
                                            sec.depth,
                                        ));
                                        assert(wf_section(sec2));
                                        lemma_parse_scope_wf(s, cont, sec2);
                                    },
                                }
                            }
                        } else if is_style(code) {
                            let sec2 = push_formatting(sec, code);
                            assert(code != FormattingCode::Reset);
                            assert(!is_color(code));
                            assert(wf_section(sec2));
                            lemma_parse_scope_wf(s, pos + 2, sec2);
                        } else {
                            if sec.depth > 0 {
                            } else {
                                lemma_parse_scope_wf(s, pos + 2, sec);
                            }
                        }
                    },
                }
            }
        } else {
            let n = text_run_len(s, pos);
            lemma_text_run_len_bounds(s, pos);
            let sec2 = push_child(
                sec,
                SpecContent::Text(s.subrange(pos as int, pos as int + n as int)),
            );
            assert(wf_section(sec2));
            lemma_parse_scope_wf(s, pos + n, sec2);
        }
    }
}

/// A character-addressable scanning position over an input string. Reads
/// past the end yield the NUL sentinel instead of failing; the position
/// starts at zero and only moves forward.
pub struct MotdParser {
    src: String,
    position: usize,
}

impl MotdParser {
    /// The input string being scanned.
    pub closed spec fn input(&self) -> Seq<char> {
        self.src@
    }

    /// The current scanning position, in characters.
    pub closed spec fn pos(&self) -> nat {
        self.position as nat
    }

    /// Creates a parser positioned at the start of `src`.
    pub fn new(src: &str) -> (p: MotdParser)
        ensures
            p.input() == src@,
            p.pos() == 0,
    {
        MotdParser { src: String::from_str(src), position: 0 }
    }

    /// The number of characters in the input.
    fn src_len(&self) -> (n: usize)
        ensures
            n as nat == self.input().len(),
    {
        self.src.as_str().unicode_len()
    }

    /// The character `offset` places ahead of the position, or the NUL
    /// sentinel if that is out of bounds.
    fn peek(&self, offset: usize) -> (c: char)
        ensures
            c == char_at(self.input(), (self.pos() + offset) as nat),
    {
        let len = self.src_len();
        if self.position >= len {
            '\0'
        } else if offset < len - self.position {
            self.src.as_str().get_char(self.position + offset)
        } else {
            '\0'
        }
    }

    /// The character at the position, or the NUL sentinel past the end.
    fn current(&self) -> (c: char)
        ensures
            c == char_at(self.input(), self.pos()),
    {
        self.peek(0)
    }

    /// Returns the current character and steps past it. At or past the
    /// end it returns the sentinel and the position stays put, so the
    /// position can never overflow; it only ever moves forward.
    fn consume(&mut self) -> (c: char)
        ensures
            final(self).input() == old(self).input(),
            c == char_at(old(self).input(), old(self).pos()),
            old(self).pos() < old(self).input().len() ==> final(self).pos() == old(self).pos()
                + 1,
            old(self).pos() >= old(self).input().len() ==> final(self).pos() == old(self).pos(),
    {
        let c = self.current();
        let len = self.src_len();
        if self.position < len {
            self.position = self.position + 1;
        }
        c
    }

    /// Whether the parser treats `character` as literal text.
    fn is_valid_text(&self, character: char) -> (b: bool)
        ensures
            b == is_text_char(character),
    {
        character != '\0' && character != '\n' && character != ESCAPE_MARKER
    }

    /// Consumes the maximal run of literal text characters at the position
    /// and returns it.
    fn consume_text(&mut self) -> (t: String)
        requires
            old(self).pos() <= old(self).input().len(),
        ensures
            final(self).input() == old(self).input(),
            final(self).pos() == old(self).pos() + text_run_len(
                old(self).input(),
                old(self).pos(),
            ),
            t@ == old(self).input().subrange(
                old(self).pos() as int,
                final(self).pos() as int,
            ),
    {
        let start = self.position;
        let len = self.src_len();
        loop
            invariant
                self.input() == old(self).input(),
                len as nat == self.input().len(),
                start <= self.position <= len,
                forall|j: int| start <= j < self.position ==> is_text_char(self.input()[j]),
            ensures
                self.input() == old(self).input(),
                start <= self.position <= len,
                self.position as nat == start as nat + text_run_len(self.input(), start as nat),
            decreases len - self.position,
        {
            let c = self.current();
            if self.is_valid_text(c) {
                self.position = self.position + 1;
            } else {
                proof {
                    lemma_text_run_len_interval(
                        self.input(),
                        start as nat,
                        self.position as nat,
                    );
                }
                break;
            }
        }
        let piece = self.src.as_str().substring_char(start, self.position);
        String::from_str(piece)
    }

    /// Consumes one escape sequence at the position: the marker and, when
    /// present, its code character, dispatching on the directive found.
    /// Returns `Ok(true)` exactly when the directive was a reset, which the
    /// caller turns into scope closure; every other outcome leaves the
    /// meaning of the remaining scope parse unchanged.
    fn consume_formatting(&mut self, section: &mut Section) -> (r: Result<bool, MotdError>)
        requires
            old(self).pos() < old(self).input().len(),
            old(self).input()[old(self).pos() as int] == ESCAPE_MARKER,
            old(section)@.depth <= MAX_DEPTH,
        ensures
            final(self).input() == old(self).input(),
            old(self).pos() < final(self).pos() <= final(self).input().len(),
            final(section)@.depth == old(section)@.depth,
            match r {
                Ok(true) => final(section)@ == old(section)@ && old(self).pos() + 1
                    < old(self).input().len() && code_of(
                    old(self).input()[old(self).pos() as int + 1],
                ) == Some(FormattingCode::Reset) && final(self).pos() == old(self).pos() + 2,
                Ok(false) => parse_scope_spec(old(self).input(), old(self).pos(), old(section)@)
                    == parse_scope_spec(final(self).input(), final(self).pos(), final(section)@),
                Err(e) => parse_scope_spec(old(self).input(), old(self).pos(), old(section)@)
                    is None && e == MotdError::ExcessiveNestingDepth,
            },
        decreases old(self).input().len() - old(self).pos(), 0int,
    {
        let ghost s = self.input();
        let ghost pos0 = self.pos();
        let ghost sec0 = section@;

        let _marker = self.consume();
        let current = self.current();
        match lookup_code(current) {
            None => {
                // Unrecognized code, or a marker that ends the input: keep
                // the offending sequence as literal text and resume.
                let len = self.src_len();
                let start = self.position - 1;
                if self.position < len {
                    let _skipped = self.consume();
                }
                let piece = self.src.as_str().substring_char(start, self.position);
                let t = String::from_str(piece);
                let ghost tv = t@;
                let ghost pre = section@;
                let ghost prechildren = section.children@;
                let item = SectionContents::Text(t);
                let ghost iv = item;
                section.children.push(item);
                proof {
                    lemma_children_view_push(prechildren, iv);
                    if pos0 + 1 < s.len() {
                        assert(tv =~= s.subrange(pos0 as int, pos0 as int + 2));
                    } else {
                        assert(tv =~= seq![s[pos0 as int]]);
                    }
                    assert(section@ == push_child(pre, SpecContent::Text(tv)));
                }
                Ok(false)
            },
            Some(code) => {
                let _code_char = self.consume();
                match code {
                    FormattingCode::Black
                    | FormattingCode::DarkBlue
                    | FormattingCode::DarkGreen
                    | FormattingCode::DarkAqua
                    | FormattingCode::DarkRed
                    | FormattingCode::DarkPurple
                    | FormattingCode::Gold
                    | FormattingCode::Gray
                    | FormattingCode::DarkGray
                    | FormattingCode::Blue
                    | FormattingCode::Green
                    | FormattingCode::Aqua
                    | FormattingCode::Red
                    | FormattingCode::LightPurple
                    | FormattingCode::Yellow
                    | FormattingCode::White => {
                        if section.depth >= MAX_DEPTH {
                            return Err(MotdError::ExcessiveNestingDepth);
                        }
                        let mut child = section.make_child();
                        child.formatting.push(code);
                        proof {
                            assert(child@.formatting =~= seq![code]);
                            assert(child@ == (SpecSection {
                                formatting: seq![code],
                                children: Seq::empty(),
                                depth: sec0.depth + 1,
                            }));
                        }
                        match self.parse_scope(child) {
                            Ok(done) => {
                                let ghost pre = section@;
                                let ghost dv = done@;
                                let ghost prechildren = section.children@;
                                let item = SectionContents::Section(done);
                                let ghost iv = item;
                                section.children.push(item);
                                proof {
                                    lemma_children_view_push(prechildren, iv);
                                    assert(section@ == push_child(
                                        pre,
                                        SpecContent::Section(dv),
                                    ));
                                }
                                Ok(false)
                            },
                            Err(e) => Err(e),
                        }
                    },
                    FormattingCode::Obfuscated
                    | FormattingCode::Bold
                    | FormattingCode::Strikethrough
                    | FormattingCode::Underline
                    | FormattingCode::Italic => {
                        section.formatting.push(code);
                        proof {
                            assert(section@ == push_formatting(sec0, code));
                        }
                        Ok(false)
                    },
                    FormattingCode::Reset => Ok(true),
                }
            },
        }
    }

    /// Parses content into `section` until the input ends, or until a reset
    /// directive closes the scope of a nested section.
    fn parse_scope(&mut self, section: Section) -> (r: Result<Section, MotdError>)
        requires
            old(self).pos() <= old(self).input().len(),
            section@.depth <= MAX_DEPTH,
        ensures
            final(self).input() == old(self).input(),
            old(self).pos() <= final(self).pos() <= final(self).input().len(),
            match r {
                Ok(done) => parse_scope_spec(old(self).input(), old(self).pos(), section@)
                    == Some((done@, final(self).pos())),
                Err(e) => parse_scope_spec(old(self).input(), old(self).pos(), section@) is None
                    && e == MotdError::ExcessiveNestingDepth,
            },
        decreases old(self).input().len() - old(self).pos(), 1int,
    {
        let ghost s = self.input();
        let ghost pos0 = self.pos();
        let ghost sec0 = section@;
        let mut sec = section;
        loop
            invariant
                self.input() == s,
                s == old(self).input(),
                pos0 == old(self).pos(),
                sec0 == section@,
                pos0 <= self.pos() <= s.len(),
                sec@.depth == sec0.depth,
                sec0.depth <= MAX_DEPTH,
                parse_scope_spec(s, pos0, sec0) == parse_scope_spec(s, self.pos(), sec@),
            decreases s.len() - self.pos(),
        {
            let current = self.current();
            if current == '\0' {
                proof {
                    assert(parse_scope_spec(s, self.pos(), sec@) == Some((sec@, self.pos())));
                }
                return Ok(sec);
            } else if current == '\n' {
                let ghost prepos = self.pos();
                let ghost pre = sec@;
                let _nl = self.consume();
                let ghost prechildren = sec.children@;
                sec.children.push(SectionContents::Newline);
                proof {
                    lemma_children_view_push(prechildren, SectionContents::Newline);
                    assert(sec@ == push_child(pre, SpecContent::Newline));
                    assert(parse_scope_spec(s, prepos, pre) == parse_scope_spec(
                        s,
                        self.pos(),
                        sec@,
                    ));
                }
            } else if current == ESCAPE_MARKER {
                let ghost prepos = self.pos();
                let ghost pre = sec@;
                let reset = match self.consume_formatting(&mut sec) {
                    Ok(b) => b,
                    Err(e) => return Err(e),
                };
                if reset {
                    if sec.depth > 0 {
                        proof {
                            assert(parse_scope_spec(s, prepos, pre) == Some((
                                sec@,
                                self.pos(),
                            )));
                        }
                        return Ok(sec);
                    }
                    proof {
                        assert(parse_scope_spec(s, prepos, pre) == parse_scope_spec(
                            s,
                            self.pos(),
                            sec@,
                        ));
                    }
                }
            } else {
                let ghost prepos = self.pos();
                let ghost pre = sec@;
                let t = self.consume_text();
                let ghost tv = t@;
                let ghost prechildren = sec.children@;
                let item = SectionContents::Text(t);
                let ghost iv = item;
                sec.children.push(item);
                proof {
                    lemma_children_view_push(prechildren, iv);
                    lemma_text_run_len_bounds(s, prepos);
                    assert(sec@ == push_child(pre, SpecContent::Text(tv)));
                    assert(parse_scope_spec(s, prepos, pre) == parse_scope_spec(
                        s,
                        self.pos(),
                        sec@,
                    ));
                }
            }
        }
    }

    /// Parses the whole input from the beginning into a fresh root section
    /// at depth zero, or reports that colour nesting went too deep.
    pub fn parse(&mut self) -> (r: Result<Section, MotdError>)
        ensures
            final(self).input() == old(self).input(),
            match r {
                Ok(root) => parse_spec(old(self).input()) == Some(root@),
                Err(e) => parse_spec(old(self).input()) is None && e
                    == MotdError::ExcessiveNestingDepth,
            },
    {
        self.position = 0;
        let root = Section::new();
        self.parse_scope(root)
    }
}

} // verus!

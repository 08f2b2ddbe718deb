use motd::{FormattingCode, Motd, MotdError, MotdParser, Section, SectionContents};

fn parse(src: &str) -> Section {
    let mut parser = MotdParser::new(src);
    parser.parse().expect("nesting stays within bounds")
}

fn html(src: &str) -> String {
    Motd::new(src).expect("nesting stays within bounds").to_html()
}

#[test]
fn plain_text_structure() {
    let root = parse("Hello, world!");
    let expected = Section {
        formatting: vec![],
        children: vec![SectionContents::Text("Hello, world!".to_string())],
        depth: 0,
    };
    assert_eq!(root, expected);
}

#[test]
fn plain_text_renders_single_span() {
    assert_eq!(html("Hello, world!"), "<span>Hello, world!</span>");
}

#[test]
fn render_is_pure() {
    let m = Motd::new("\u{00a7}aHello\u{00a7}rWorld").expect("shallow nesting");
    let first = m.to_html();
    let second = m.to_html();
    assert_eq!(first, second);
}

#[test]
fn reset_closes_scope() {
    let root = parse("\u{00a7}aHello\u{00a7}rWorld");
    let expected = Section {
        formatting: vec![],
        children: vec![
            SectionContents::Section(Section {
                formatting: vec![FormattingCode::Green],
                children: vec![SectionContents::Text("Hello".to_string())],
                depth: 1,
            }),
            SectionContents::Text("World".to_string()),
        ],
        depth: 0,
    };
    assert_eq!(root, expected);
}

#[test]
fn root_reset_is_no_op() {
    let root = parse("\u{00a7}rHello");
    let expected = Section {
        formatting: vec![],
        children: vec![SectionContents::Text("Hello".to_string())],
        depth: 0,
    };
    assert_eq!(root, expected);
}

#[test]
fn styles_accumulate_without_nesting() {
    let root = parse("\u{00a7}l\u{00a7}oBold Italic");
    let expected = Section {
        formatting: vec![FormattingCode::Bold, FormattingCode::Italic],
        children: vec![SectionContents::Text("Bold Italic".to_string())],
        depth: 0,
    };
    assert_eq!(root, expected);
    assert_eq!(
        html("\u{00a7}l\u{00a7}oBold Italic"),
        "<span style=\"font-weight: bold; font-style: italic\">Bold Italic</span>"
    );
}

#[test]
fn newline_becomes_its_own_item() {
    let root = parse("Line1\nLine2");
    let expected = Section {
        formatting: vec![],
        children: vec![
            SectionContents::Text("Line1".to_string()),
            SectionContents::Newline,
            SectionContents::Text("Line2".to_string()),
        ],
        depth: 0,
    };
    assert_eq!(root, expected);
    assert_eq!(html("Line1\nLine2"), "<span>Line1<br/>Line2</span>");
}

#[test]
fn nested_colors_nest_in_the_tree() {
    let root = parse("\u{00a7}a\u{00a7}bInner");
    let expected = Section {
        formatting: vec![],
        children: vec![SectionContents::Section(Section {
            formatting: vec![FormattingCode::Green],
            children: vec![SectionContents::Section(Section {
                formatting: vec![FormattingCode::Aqua],
                children: vec![SectionContents::Text("Inner".to_string())],
                depth: 2,
            })],
            depth: 1,
        })],
        depth: 0,
    };
    assert_eq!(root, expected);
    assert_eq!(
        html("\u{00a7}a\u{00a7}bInner"),
        "<span><span style=\"color: #55FF55\"><span style=\"color: #55FFFF\">Inner</span></span></span>"
    );
}

#[test]
fn unrecognized_code_degrades_to_literal_text() {
    let root = parse("\u{00a7}zabc");
    let expected = Section {
        formatting: vec![],
        children: vec![
            SectionContents::Text("\u{00a7}z".to_string()),
            SectionContents::Text("abc".to_string()),
        ],
        depth: 0,
    };
    assert_eq!(root, expected);
    assert_eq!(html("\u{00a7}zabc"), "<span>\u{00a7}zabc</span>");
}

#[test]
fn trailing_marker_is_kept_as_text() {
    let root = parse("abc\u{00a7}");
    let expected = Section {
        formatting: vec![],
        children: vec![
            SectionContents::Text("abc".to_string()),
            SectionContents::Text("\u{00a7}".to_string()),
        ],
        depth: 0,
    };
    assert_eq!(root, expected);
}

#[test]
fn marker_before_nul_is_kept_as_text() {
    let root = parse("\u{00a7}\u{0}b");
    let expected = Section {
        formatting: vec![],
        children: vec![
            SectionContents::Text("\u{00a7}\u{0}".to_string()),
            SectionContents::Text("b".to_string()),
        ],
        depth: 0,
    };
    assert_eq!(root, expected);
}

#[test]
fn nul_ends_the_parse() {
    let root = parse("a\u{0}b");
    let expected = Section {
        formatting: vec![],
        children: vec![SectionContents::Text("a".to_string())],
        depth: 0,
    };
    assert_eq!(root, expected);
}

#[test]
fn empty_input_renders_empty_span() {
    let root = parse("");
    assert_eq!(root.formatting, vec![]);
    assert!(root.children.is_empty());
    assert_eq!(html(""), "<span></span>");
}

#[test]
fn parsing_again_gives_the_same_tree() {
    let mut parser = MotdParser::new("\u{00a7}aHi\u{00a7}rthere");
    let first = parser.parse().expect("shallow nesting");
    let second = parser.parse().expect("shallow nesting");
    assert_eq!(first, second);
}

#[test]
fn nesting_at_the_limit_is_accepted() {
    let mut src = String::new();
    for _ in 0..64 {
        src.push_str("\u{00a7}a");
    }
    src.push('x');
    assert!(Motd::new(&src).is_ok());
}

#[test]
fn excessive_nesting_is_rejected() {
    let mut src = String::new();
    for _ in 0..65 {
        src.push_str("\u{00a7}a");
    }
    src.push('x');
    assert_eq!(Motd::new(&src).err(), Some(MotdError::ExcessiveNestingDepth));
    let mut parser = MotdParser::new(&src);
    assert_eq!(parser.parse().err(), Some(MotdError::ExcessiveNestingDepth));
}

#[test]
fn decoration_words_join_in_order_of_appearance() {
    assert_eq!(
        html("\u{00a7}4\u{00a7}n\u{00a7}mRed"),
        "<span><span style=\"text-decoration: underline line-through; color: #AA0000\">Red</span></span>"
    );
}

#[test]
fn obfuscated_renders_as_placeholder_color() {
    assert_eq!(html("\u{00a7}kX"), "<span style=\"color: #293E0B\">X</span>");
}

#[test]
fn outer_style_wraps_inner_color() {
    assert_eq!(
        html("\u{00a7}l\u{00a7}aHi"),
        "<span style=\"font-weight: bold\"><span style=\"color: #55FF55\">Hi</span></span>"
    );
}

#[test]
fn text_is_escaped_for_markup() {
    assert_eq!(html("a<b&c>d"), "<span>a&lt;b&amp;c&gt;d</span>");
}

#[test]
fn text_inside_a_colored_scope_is_escaped() {
    assert_eq!(
        html("\u{00a7}a<&>"),
        "<span><span style=\"color: #55FF55\">&lt;&amp;&gt;</span></span>"
    );
}

#[test]
fn escaping_keeps_the_tree_verbatim() {
    let root = parse("a<b&c>d");
    let expected = Section {
        formatting: vec![],
        children: vec![SectionContents::Text("a<b&c>d".to_string())],
        depth: 0,
    };
    assert_eq!(root, expected);
}

#[test]
fn every_color_code_maps_to_its_value() {
    let cases = [
        ('0', "#000000"),
        ('1', "#0000AA"),
        ('2', "#00AA00"),
        ('3', "#00AAAA"),
        ('4', "#AA0000"),
        ('5', "#AA00AA"),
        ('6', "#FFAA00"),
        ('7', "#AAAAAA"),
        ('8', "#555555"),
        ('9', "#5555FF"),
        ('a', "#55FF55"),
        ('b', "#55FFFF"),
        ('c', "#FF5555"),
        ('d', "#FF55FF"),
        ('e', "#FFFF55"),
        ('f', "#FFFFFF"),
    ];
    for (code, value) in cases {
        let src = format!("\u{00a7}{}x", code);
        let expected = format!("<span><span style=\"color: {}\">x</span></span>", value);
        assert_eq!(html(&src), expected);
    }
}

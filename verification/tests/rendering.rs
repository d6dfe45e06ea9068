use fmf::document::{Document, Text};
use fmf::format::{CodeblockEngine, DefaultFormatEngine, FormatEngine, ParagraphEngine};
use fmf::format::{FormatType, ListType};

fn render(doc: &str) -> String {
    Document::<DefaultFormatEngine>::new(doc).render()
}

#[test]
fn inline_bold_italic_code() {
    assert_eq!(Text::text("a *b* c").render(), "a <b>b</b> c");
    assert_eq!(Text::text("_i_").render(), "<i>i</i>");
    assert_eq!(Text::text("`x`").render(), "<code>x</code>");
}

#[test]
fn inline_entities_always_escaped() {
    assert_eq!(Text::text("a&b<c>d").render(), "a&amp;b&lt;c&gt;d");
}

#[test]
fn inline_unclosed_marker_leaves_tag_open() {
    assert_eq!(Text::text("*a").render(), "<b>a");
}

#[test]
fn link_url_only_uses_url_as_text() {
    assert_eq!(
        Text::text("\\(a.com).").render(),
        "<a href=\"a.com\">a.com</a>."
    );
}

#[test]
fn link_url_and_text() {
    assert_eq!(
        Text::text("\\(a.com)[Go]").render(),
        "<a href=\"a.com\">Go</a>"
    );
}

#[test]
fn link_text_only_has_empty_url() {
    assert_eq!(Text::text("\\[Just text]").render(), "<a>Just text</a>");
}

#[test]
fn link_cancelled_by_other_character() {
    assert_eq!(Text::text("\\x").render(), "x");
}

#[test]
fn codeblock_engine_escape_makes_markers_literal() {
    assert_eq!(Text::<CodeblockEngine>::new("\\*x\\*").render(), "*x*");
}

#[test]
fn paragraph_lines_accumulate() {
    assert_eq!(render("a\nb"), "<p>a\nb\n</p>");
}

#[test]
fn crlf_line_endings_are_split() {
    assert_eq!(render("a\r\nb"), "<p>a\nb\n</p>");
}

#[test]
fn blank_line_closes_paragraph() {
    assert_eq!(render("x\n\ny"), "<p>x\n</p><p>y\n</p>");
}

#[test]
fn two_blank_lines_render_as_one() {
    assert_eq!(render("x\n\n\ny"), render("x\n\ny"));
}

#[test]
fn heading_levels() {
    assert_eq!(render("# Title"), "<h1>Title</h1>");
    assert_eq!(render("## Sub"), "<h2>Sub</h2>");
    assert_eq!(render("###### Six"), "<h6>Six</h6>");
}

#[test]
fn heading_level_clamps_at_six() {
    assert_eq!(render("#######t"), render("######t"));
    assert_eq!(render("#######t"), "<h6>t</h6>");
}

#[test]
fn heading_markup_clamps_in_engine() {
    assert_eq!(ParagraphEngine::begin(FormatType::Heading(7)), "<h6>");
    assert_eq!(ParagraphEngine::end(FormatType::Heading(7)), "</h6>");
}

#[test]
fn heading_inside_paragraph_is_literal() {
    assert_eq!(render("a\n# b"), "<p>a\n# b\n</p>");
}

#[test]
fn unordered_list_two_items_then_paragraph() {
    assert_eq!(
        render("- a\n- b\n\nc"),
        "<ul><li>a\n</li><li>b\n</li></ul><p>c\n</p>"
    );
}

#[test]
fn ordered_list_uses_ol() {
    assert_eq!(render("@ one\n@ two"), "<ol><li>one\n</li><li>two\n</li></ol>");
}

#[test]
fn list_continuation_line_joins_item() {
    assert_eq!(render("- a\nb"), "<ul><li>a\nb\n</li></ul>");
}

#[test]
fn list_marker_of_other_kind_is_continuation() {
    assert_eq!(render("- a\n@ b"), "<ul><li>a\n@ b\n</li></ul>");
}

#[test]
fn engine_list_markup() {
    assert_eq!(
        ParagraphEngine::begin(FormatType::List(ListType::Ordered)),
        "<ol>"
    );
    assert_eq!(
        ParagraphEngine::begin(FormatType::List(ListType::Unordered)),
        "<ul>"
    );
}

#[test]
fn code_block_escape_round_trip() {
    assert_eq!(
        render("```\n\\*literal\\*\n```"),
        "<div class=\"codeblock\"><div class=\"prelude\"><span></span></div><pre>*literal*\n</pre></div>"
    );
}

#[test]
fn code_block_keeps_markers_literal_without_escape() {
    assert_eq!(
        render("```meta\nint a;\n```"),
        "<div class=\"codeblock\"><div class=\"prelude\"><span>meta</span></div><pre>int a;\n</pre></div>"
    );
}

#[test]
fn code_block_blank_line_stays_inside() {
    assert_eq!(
        render("```\n\n```"),
        "<div class=\"codeblock\"><div class=\"prelude\"><span></span></div><pre>\n</pre></div>"
    );
}

#[test]
fn code_block_unterminated_is_closed_at_end() {
    assert_eq!(
        render("```\nx"),
        "<div class=\"codeblock\"><div class=\"prelude\"><span></span></div><pre>x\n</pre></div>"
    );
}

#[test]
fn comment_lines_are_ignored() {
    assert_eq!(render("//! note\nx"), "<p>x\n</p>");
}

#[test]
fn author_card_renders_all_parts() {
    assert_eq!(
        render("/// Ada / 2024-01-01 / Science"),
        "<div class=\"author-card\"><img src=\"/Ada.jpg\" alt=\"\" width=\"32px\" height=\"32px\"><div class=\"text\"><span class=\"name\">Ada</span><div class=\"info\"><span class=\"date\">2024-01-01</span><span class=\"badge\">Science</span></div></div></div>"
    );
}

#[test]
fn author_card_avatar_drops_non_ascii() {
    assert_eq!(
        render("/// A d-a! / d / c"),
        "<div class=\"author-card\"><img src=\"/Ada.jpg\" alt=\"\" width=\"32px\" height=\"32px\"><div class=\"text\"><span class=\"name\">A d-a!</span><div class=\"info\"><span class=\"date\">d</span><span class=\"badge\">c</span></div></div></div>"
    );
}

#[test]
fn author_card_wrong_field_count_is_not_rendered() {
    assert_eq!(render("///a/b"), "");
    assert_eq!(render("///a/b/c/d"), "");
}

#[test]
fn get_author_card_extracts_trimmed_fields() {
    let doc = Document::<DefaultFormatEngine>::new("/// Ada / 2024-01-01 / Science");
    let card = doc.get_author_card();
    assert_eq!(
        card,
        Some(("Ada".to_string(), "2024-01-01".to_string(), "Science".to_string()))
    );
}

#[test]
fn get_author_card_ignores_wrong_field_counts() {
    let doc = Document::<DefaultFormatEngine>::new("///one/two\n///a/b/c/d");
    assert_eq!(doc.get_author_card(), None);
    let doc2 = Document::<DefaultFormatEngine>::new("///bad\n/// n / d / c");
    assert_eq!(
        doc2.get_author_card(),
        Some(("n".to_string(), "d".to_string(), "c".to_string()))
    );
}

#[test]
fn get_title_returns_first_title_heading() {
    let doc = Document::<DefaultFormatEngine>::new("## a\n# first\n# second");
    assert_eq!(doc.get_title(), "first");
}

#[test]
fn get_title_empty_without_title_heading() {
    let doc = Document::<DefaultFormatEngine>::new("no heading\n## only h2");
    assert_eq!(doc.get_title(), "");
}

#[test]
fn text_new_and_document_new_keep_the_input() {
    let t = Text::<ParagraphEngine>::new("abc");
    assert_eq!(t.v, "abc");
    let d = Document::<DefaultFormatEngine>::new("abc");
    assert_eq!(d.v, "abc");
}

#[test]
fn well_formed_spans_close_what_they_open() {
    let out = Text::text("*b* _i_ `c`").render();
    assert_eq!(out, "<b>b</b> <i>i</i> <code>c</code>");
    let opens = out.matches("<b>").count();
    let closes = out.matches("</b>").count();
    assert_eq!(opens, 1);
    assert_eq!(closes, 1);
    assert!(out.find("<b>").unwrap() < out.find("</b>").unwrap());
}

#[test]
fn document_closes_every_opened_block() {
    let out = render("# h\n- a\n\n```m\nc\n```\npara");
    for (open, close) in [("<ul>", "</ul>"), ("<li>", "</li>"), ("<pre>", "</pre>"), ("<p>", "</p>")] {
        assert_eq!(out.matches(open).count(), out.matches(close).count());
    }
}

#[test]
fn markers_inside_url_follow_the_scan() {
    assert_eq!(
        Text::text("\\(a*b).").render(),
        "<a href=\"a<b>b\">a*b</a>."
    );
}

#[test]
fn codeblock_engine_escaped_escape_is_literal() {
    assert_eq!(Text::<CodeblockEngine>::new("\\\\").render(), "\\");
}

//! Node serialization, escaping, and the style registry.

use sitegen::component::{
    html_checkbox, html_link, html_paragraph, html_span, html_text,
};
use sitegen::context::WebsiteRenderContext;
use sitegen::css::{CSSBuilder, CSSQuery, StyleRule};
use sitegen::escape::escape_text;
use sitegen::html::{HtmlFormat, HtmlNode};
use sitegen::routes::{HRef, Link, RouteTable};
use sitegen::tables::{SegTable, TitleTable};

fn tiny_context() -> WebsiteRenderContext {
    let mut table = SegTable::new();
    table.insert("home".to_string(), vec!["index.html".to_string()]);
    table.insert(
        "p".to_string(),
        vec!["a".to_string(), "p.html".to_string()],
    );
    let mut titles = TitleTable::new();
    titles.insert("home".to_string(), "Home".to_string());
    titles.insert("p".to_string(), "Post".to_string());
    WebsiteRenderContext {
        title: "My Site".to_string(),
        current_page: Some("home".to_string()),
        stylesheet: CSSBuilder::new(),
        stylesheet_link: Link::ID("stylesheet".to_string()),
        document_titles: titles,
        global_scripts: Vec::new(),
        categories: Vec::new(),
        routes: RouteTable { table },
    }
}

fn render(node: HtmlNode) -> String {
    let mut ctx = tiny_context();
    let mut out = String::new();
    node.build(&mut ctx, &mut out, HtmlFormat::Indent(0)).ok().unwrap();
    out
}

#[test]
fn inline_span_renders_on_one_line() {
    let node = HtmlNode::Element(html_span(HtmlNode::Text(html_text("hi".to_string()))));
    assert_eq!(render(node), "<span>hi</span>");
}

#[test]
fn block_paragraph_indents_its_content() {
    let node = HtmlNode::Element(html_paragraph(HtmlNode::Text(html_text("hi".to_string()))));
    assert_eq!(render(node), "<p>\n    hi\n</p>");
}

#[test]
fn text_is_escaped() {
    let node = HtmlNode::Text(html_text("a<b&c>'d\"".to_string()));
    assert_eq!(render(node), "a&lt;b&amp;c&gt;&#x27;d&quot;");
}

#[test]
fn escape_normalizes_crlf() {
    let out = escape_text("x\r\ny&z");
    assert_eq!(out, "x\ny&amp;z");
}

#[test]
fn checkbox_emits_ordered_attributes() {
    let node = HtmlNode::Element(html_checkbox(true, false));
    assert_eq!(render(node), "<input type=\"checkbox\" checked disabled>");
}

#[test]
fn link_resolves_title_and_href() {
    let node = HtmlNode::LinkText(html_link(Link::ID("p".to_string()), None));
    assert_eq!(render(node), "<a href=\"a/p.html\">Post</a>");
}

#[test]
fn link_to_unknown_page_fails() {
    let mut ctx = tiny_context();
    let mut out = String::new();
    let node = HtmlNode::LinkText(html_link(Link::ID("ghost".to_string()), None));
    assert!(node.build(&mut ctx, &mut out, HtmlFormat::Indent(0)).is_err());
    assert_eq!(out, "");
}

#[test]
fn group_inline_flips_with_one_block_member() {
    let ctx = tiny_context();
    let inline_group = HtmlNode::Group(vec![
        HtmlNode::Text(html_text("a".to_string())),
        HtmlNode::Text(html_text("b".to_string())),
    ]);
    assert!(inline_group.is_inline(&ctx));
    let mixed_group = HtmlNode::Group(vec![
        HtmlNode::Text(html_text("a".to_string())),
        HtmlNode::Text(html_text("b\nc".to_string())),
    ]);
    assert!(!mixed_group.is_inline(&ctx));
}

#[test]
fn group_members_get_separated_when_block() {
    let node = HtmlNode::Group(vec![
        HtmlNode::Text(html_text("a".to_string())),
        HtmlNode::Text(html_text("b\nc".to_string())),
    ]);
    assert_eq!(render(node), "a\nb\nc");
}

fn rule(handle: u64, selector: &'static str, decl: &'static str) -> StyleRule {
    StyleRule {
        handle,
        query: CSSQuery::Plain,
        selector,
        declarations: vec![decl],
    }
}

#[test]
fn style_registry_dedups_by_handle_in_first_seen_order() {
    let mut css = CSSBuilder::new();
    css.register(rule(7, ".a", "color: red"));
    css.register(rule(8, ".b", "color: blue"));
    css.register(rule(7, ".a", "color: red"));
    let mut out = String::new();
    css.write(&mut out).ok().unwrap();
    assert_eq!(out, ".a {\n    color: red;\n}\n\n.b {\n    color: blue;\n}\n\n");
}

#[test]
fn two_generators_for_one_selector_are_rejected() {
    let mut css = CSSBuilder::new();
    css.register(rule(7, ".a", "color: red"));
    css.register(rule(8, ".a", "color: blue"));
    let mut out = String::new();
    match css.write(&mut out) {
        Err(sitegen::css::CSSError::DuplicateSelector { selector }) => {
            assert_eq!(selector, ".a");
        }
        _ => panic!("duplicate selector accepted"),
    }
}

#[test]
fn imports_come_first_with_a_blank_line() {
    let mut css = CSSBuilder::new();
    css.import("url('f.css')".to_string());
    css.import("url('f.css')".to_string());
    css.register(rule(7, ".a", "x: y"));
    let mut out = String::new();
    css.write(&mut out).ok().unwrap();
    assert_eq!(out, "@import url('f.css');\n\n.a {\n    x: y;\n}\n\n");
}

#[test]
fn media_rules_are_wrapped_and_indented() {
    let mut css = CSSBuilder::new();
    css.register(StyleRule {
        handle: 9,
        query: CSSQuery::Media("print"),
        selector: ".a",
        declarations: vec!["x: y", "z: w"],
    });
    let mut out = String::new();
    css.write(&mut out).ok().unwrap();
    assert_eq!(
        out,
        "@media print {\n    .a {\n        x: y;\n        z: w;\n    }\n}\n\n"
    );
}

#[test]
fn identifier_escaping_follows_the_rules() {
    assert_eq!(CSSBuilder::escape_identifier("plain"), "plain");
    assert_eq!(CSSBuilder::escape_identifier("2fast"), "\\32 fast");
    assert_eq!(CSSBuilder::escape_identifier("-5x"), "-\\35 x");
    assert_eq!(CSSBuilder::escape_identifier("-"), "\\-");
    assert_eq!(CSSBuilder::escape_identifier("a b"), "a\\ b");
    assert_eq!(CSSBuilder::escape_identifier("\u{0}x"), "\u{FFFD}x");
    assert_eq!(CSSBuilder::escape_identifier("\u{1}x"), "\\1 x");
    assert_eq!(CSSBuilder::escape_identifier("caf\u{E9}"), "caf\u{E9}");
}

#[test]
fn decimal_rendering_is_exact() {
    assert_eq!(sitegen::strutil::decimal_string(0), "0");
    assert_eq!(sitegen::strutil::decimal_string(90127), "90127");
}

#[test]
fn dates_render_in_both_calendar_forms() {
    assert_eq!(sitegen::dates::format_date_iso(0), "1970-01-01");
    assert_eq!(sitegen::dates::format_date_label(0), "1970-Jan-01");
    assert_eq!(sitegen::dates::format_date_iso(951_782_400), "2000-02-29");
}

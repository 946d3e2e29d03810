//! The visual components: thin factories that assemble the core node
//! primitives into headings, code boxes, navigation bars and whole pages.

use vstd::prelude::*;
use crate::css::{CSSQuery, QueryView, StyleRule};
use crate::dates::{format_date_label, label_date_of, MAX_TIMESTAMP};
use crate::html::{
    spec_is_void_name, spec_lower, Component, HtmlAttribute, HtmlElement, HtmlNode, HtmlPlaintext,
    Image, LinkText, RawHtml, Tag,
};
use crate::routes::{HRef, Link};
use crate::strutil::dec_chars;
use crate::util::Language;

verus! {

// Registration handles: one per distinct style-rule generator in the library.
pub const LIST_STYLE_HANDLE: u64 = 2;
pub const CONTENT_COLUMN_STYLE_HANDLE: u64 = 3;
pub const TITLE_STYLE_HANDLE: u64 = 4;
pub const FOOTNOTE_REF_STYLE_HANDLE: u64 = 5;
pub const FOOTNOTE_STYLE_HANDLE: u64 = 6;
pub const IMAGE_BOX_STYLE_HANDLE: u64 = 7;
pub const IMAGE_BOX_IMG_STYLE_HANDLE: u64 = 8;
pub const TAB_BOX_STYLE_HANDLE: u64 = 9;
pub const TAB_BUTTON_STYLE_HANDLE: u64 = 10;
pub const TAB_BUTTON_HOVER_STYLE_HANDLE: u64 = 11;
pub const TAB_BUTTON_SELECTED_STYLE_HANDLE: u64 = 12;
pub const TAB_CONTAINER_STYLE_HANDLE: u64 = 13;
pub const TAB_CONTAINER_SELECTED_STYLE_HANDLE: u64 = 14;
pub const CODE_BOX_STYLE_HANDLE: u64 = 15;
pub const CODE_BOX_TOP_STYLE_HANDLE: u64 = 16;
pub const CODE_BOX_TITLE_STYLE_HANDLE: u64 = 17;
pub const CODE_BOX_INFO_STYLE_HANDLE: u64 = 18;
pub const CODE_BOX_CODE_STYLE_HANDLE: u64 = 19;
pub const CODE_BOX_FOLD_STYLE_HANDLE: u64 = 20;
pub const CODE_BOX_FOLD_BUTTON_STYLE_HANDLE: u64 = 21;
pub const CODE_BOX_FOLD_BUTTON_HOVER_STYLE_HANDLE: u64 = 22;
pub const NAV_STYLE_HANDLE: u64 = 23;
pub const NAV_PRINT_STYLE_HANDLE: u64 = 24;
pub const NAV_MENU_STYLE_HANDLE: u64 = 25;
pub const NAV_MENU_A_STYLE_HANDLE: u64 = 26;
pub const NAV_MENU_HOVER_STYLE_HANDLE: u64 = 27;
pub const NAV_MENU_NARROW_STYLE_HANDLE: u64 = 28;
pub const NAV_HAMBURGER_STYLE_HANDLE: u64 = 29;
pub const NAV_HAMBURGER_NARROW_STYLE_HANDLE: u64 = 30;
pub const NAV_HAMBURGER_OPEN_STYLE_HANDLE: u64 = 31;
pub const NAV_HAMBURGER_HOVER_STYLE_HANDLE: u64 = 32;
pub const NAV_DROPDOWN_STYLE_HANDLE: u64 = 33;
pub const NAV_DROPDOWN_HOVER_STYLE_HANDLE: u64 = 34;
pub const NAV_COLUMN_STYLE_HANDLE: u64 = 35;
pub const NAV_COLUMN_A_STYLE_HANDLE: u64 = 36;
pub const NAV_COLUMN_A_MID_STYLE_HANDLE: u64 = 37;
pub const NAV_COLUMN_A_LAST_STYLE_HANDLE: u64 = 38;
pub const BLOGPOST_STYLE_HANDLE: u64 = 39;
pub const BLOGPOST_CONTENT_STYLE_HANDLE: u64 = 40;
pub const POSTLIST_STYLE_HANDLE: u64 = 41;
pub const CONTENTBOX_STYLE_HANDLE: u64 = 42;
pub const BOTTOM_SPACER_STYLE_HANDLE: u64 = 43;

/// An attribute holds the given name and value.
pub open spec fn attr_is(a: HtmlAttribute, name: Seq<char>, value: Option<Seq<char>>) -> bool {
    &&& a.name@ == name
    &&& match (a.value, value) {
        (Option::Some(s), Option::Some(v)) => s@ == v,
        (Option::None, Option::None) => true,
        _ => false,
    }
}

/// A style rule carries the given handle, scope and selector.
pub open spec fn style_is(r: StyleRule, handle: u64, query: QueryView, selector: Seq<char>) -> bool {
    &&& r.handle == handle
    &&& crate::css::query_view(r.query) == query
    &&& r.selector@ == selector
}

/// An element with the given tag and no attributes, children or flags.
pub open spec fn plain_element(e: HtmlElement, tag: Seq<char>) -> bool {
    &&& e.tag.name@ == tag
    &&& e.tag.is_void == spec_is_void_name(spec_lower(tag))
    &&& e.attributes@ =~= Seq::<HtmlAttribute>::empty()
    &&& !e.enable_inline
    &&& !e.preformatted_content
}

/// An element with the given tag and one `class` attribute.
pub open spec fn classed_element(e: HtmlElement, tag: Seq<char>, class: Seq<char>) -> bool {
    &&& e.tag.name@ == tag
    &&& e.tag.is_void == spec_is_void_name(spec_lower(tag))
    &&& e.attributes@.len() == 1
    &&& attr_is(e.attributes@[0], "class"@, Option::Some(class))
    &&& !e.preformatted_content
}

/// Raw passthrough text.
pub fn html_raw(text: String) -> (r: RawHtml)
    ensures
        r == RawHtml(text),
{
    RawHtml(text)
}

/// Escaped plain text.
pub fn html_text(text: String) -> (r: HtmlPlaintext)
    ensures
        r == HtmlPlaintext(text),
{
    HtmlPlaintext(text)
}

/// A bare element of the given tag.
fn element(tag_name: &'static str) -> (r: HtmlElement)
    ensures
        plain_element(r, tag_name@),
        r.content@ =~= Seq::<HtmlNode>::empty(),
{
    HtmlElement {
        tag: Tag::from_name(tag_name),
        attributes: Vec::new(),
        content: Vec::new(),
        enable_inline: false,
        preformatted_content: false,
    }
}

/// An element of the given tag holding exactly one child.
fn unary_element(tag_name: &'static str, inline: bool, content: HtmlNode) -> (r: HtmlElement)
    ensures
        r.tag.name@ == tag_name@,
        r.tag.is_void == spec_is_void_name(spec_lower(tag_name@)),
        r.attributes@ =~= Seq::<HtmlAttribute>::empty(),
        r.content@ =~= seq![content],
        r.enable_inline == inline,
        !r.preformatted_content,
{
    let mut children: Vec<HtmlNode> = Vec::new();
    children.push(content);
    HtmlElement {
        tag: Tag::from_name(tag_name),
        attributes: Vec::new(),
        content: children,
        enable_inline: inline,
        preformatted_content: false,
    }
}

/// A line break.
pub fn html_break() -> (r: HtmlElement)
    ensures
        plain_element(
            HtmlElement { enable_inline: false, ..r },
            "br"@,
        ),
        r.enable_inline,
        r.content@ =~= Seq::<HtmlNode>::empty(),
{
    let mut e = element("br");
    e.enable_inline = true;
    e
}

/// A horizontal rule.
pub fn html_horizontal_rule() -> (r: HtmlElement)
    ensures
        plain_element(
            HtmlElement { enable_inline: false, ..r },
            "hr"@,
        ),
        r.enable_inline,
        r.content@ =~= Seq::<HtmlNode>::empty(),
{
    let mut e = element("hr");
    e.enable_inline = true;
    e
}

/// An inline span around content.
pub fn html_span(content: HtmlNode) -> (r: HtmlElement)
    ensures
        r.tag.name@ == "span"@,
        r.tag.is_void == spec_is_void_name(spec_lower("span"@)),
        r.attributes@ =~= Seq::<HtmlAttribute>::empty(),
        r.content@ =~= seq![content],
        r.enable_inline,
        !r.preformatted_content,
{
    unary_element("span", true, content)
}

/// Italics.
pub fn html_italics(content: HtmlNode) -> (r: HtmlElement)
    ensures
        r.tag.name@ == "i"@,
        r.tag.is_void == spec_is_void_name(spec_lower("i"@)),
        r.attributes@ =~= Seq::<HtmlAttribute>::empty(),
        r.content@ =~= seq![content],
        r.enable_inline,
        !r.preformatted_content,
{
    unary_element("i", true, content)
}

/// Bold text.
pub fn html_bold(content: HtmlNode) -> (r: HtmlElement)
    ensures
        r.tag.name@ == "b"@,
        r.tag.is_void == spec_is_void_name(spec_lower("b"@)),
        r.attributes@ =~= Seq::<HtmlAttribute>::empty(),
        r.content@ =~= seq![content],
        r.enable_inline,
        !r.preformatted_content,
{
    unary_element("b", true, content)
}

/// Strong emphasis.
pub fn html_strong(content: HtmlNode) -> (r: HtmlElement)
    ensures
        r.tag.name@ == "strong"@,
        r.tag.is_void == spec_is_void_name(spec_lower("strong"@)),
        r.attributes@ =~= Seq::<HtmlAttribute>::empty(),
        r.content@ =~= seq![content],
        r.enable_inline,
        !r.preformatted_content,
{
    unary_element("strong", true, content)
}

/// A preformatted block: its descendants are laid out verbatim.
pub fn html_preformatted(content: HtmlNode) -> (r: HtmlElement)
    ensures
        r.tag.name@ == "pre"@,
        r.tag.is_void == spec_is_void_name(spec_lower("pre"@)),
        r.attributes@ =~= Seq::<HtmlAttribute>::empty(),
        r.content@ =~= seq![content],
        r.enable_inline,
        r.preformatted_content,
{
    let mut e = unary_element("pre", true, content);
    e.preformatted_content = true;
    e
}

/// A paragraph.
pub fn html_paragraph(content: HtmlNode) -> (r: HtmlElement)
    ensures
        r.tag.name@ == "p"@,
        r.tag.is_void == spec_is_void_name(spec_lower("p"@)),
        r.attributes@ =~= Seq::<HtmlAttribute>::empty(),
        r.content@ =~= seq![content],
        !r.enable_inline,
        !r.preformatted_content,
{
    unary_element("p", false, content)
}

/// Inline code.
pub fn html_code(content: HtmlNode) -> (r: HtmlElement)
    ensures
        r.tag.name@ == "code"@,
        r.tag.is_void == spec_is_void_name(spec_lower("code"@)),
        r.attributes@ =~= Seq::<HtmlAttribute>::empty(),
        r.content@ =~= seq![content],
        r.enable_inline,
        !r.preformatted_content,
{
    unary_element("code", true, content)
}

/// A block quotation.
pub fn html_blockquote(content: HtmlNode) -> (r: HtmlElement)
    ensures
        r.tag.name@ == "blockquote"@,
        r.tag.is_void == spec_is_void_name(spec_lower("blockquote"@)),
        r.attributes@ =~= Seq::<HtmlAttribute>::empty(),
        r.content@ =~= seq![content],
        r.enable_inline,
        !r.preformatted_content,
{
    unary_element("blockquote", true, content)
}

/// A checkbox input, checked and enabled as given.
pub fn html_checkbox(value: bool, enabled: bool) -> (r: HtmlElement)
    ensures
        r.tag.name@ == "input"@,
        r.tag.is_void == spec_is_void_name(spec_lower("input"@)),
        r.content@ =~= Seq::<HtmlNode>::empty(),
        r.enable_inline,
        !r.preformatted_content,
        r.attributes@.len() == 1 + (if value { 1int } else { 0int }) + (if enabled { 0int } else { 1int }),
        attr_is(r.attributes@[0], "type"@, Option::Some("checkbox"@)),
        value ==> attr_is(r.attributes@[1], "checked"@, Option::None),
        !enabled ==> attr_is(
            r.attributes@[r.attributes@.len() - 1],
            "disabled"@,
            Option::None,
        ),
{
    let mut attributes: Vec<HtmlAttribute> = Vec::new();
    attributes.push(HtmlAttribute { name: "type", value: Some("checkbox".to_owned()) });
    if value {
        attributes.push(HtmlAttribute { name: "checked", value: None });
    }
    if !enabled {
        attributes.push(HtmlAttribute { name: "disabled", value: None });
    }
    HtmlElement {
        tag: Tag::from_name("input"),
        attributes,
        content: Vec::new(),
        enable_inline: true,
        preformatted_content: false,
    }
}

/// A link displaying its resolved title.
pub fn html_link(link: Link, title: Option<String>) -> (r: LinkText)
    ensures
        crate::routes::link_view(r.link) == crate::routes::link_view(link),
        r.title == title,
        r.content is None,
{
    LinkText { link, title, content: None }
}

/// A link displaying the given content.
pub fn html_link_content(link: Link, title: Option<String>, content: HtmlNode) -> (r: LinkText)
    ensures
        crate::routes::link_view(r.link) == crate::routes::link_view(link),
        r.title == title,
        match r.content {
            Option::Some(c) => *c == content,
            Option::None => false,
        },
{
    LinkText { link, title, content: Some(Box::new(content)) }
}

/// A heading level, one through six.
pub enum HeadingDepth {
    One,
    Two,
    Three,
    Four,
    Five,
    Six,
}

/// The tag name for a heading of the given depth.
pub open spec fn spec_heading_tag(depth: int) -> Seq<char> {
    if depth == 1 { "h1"@ }
    else if depth == 2 { "h2"@ }
    else if depth == 3 { "h3"@ }
    else if depth == 4 { "h4"@ }
    else if depth == 5 { "h5"@ }
    else { "h6"@ }
}

/// A heading. Depths outside one through six are malformed content and are
/// ruled out by the caller.
pub fn html_heading(depth: usize, content: HtmlNode) -> (r: HtmlElement)
    requires
        1 <= depth <= 6,
    ensures
        r.tag.name@ == spec_heading_tag(depth as int),
        r.attributes@.len() == 1,
        attr_is(r.attributes@[0], "class"@, Option::Some("heading"@)),
        r.content@ =~= seq![content],
        !r.enable_inline,
        !r.preformatted_content,
{
    let tag_name: &'static str = match depth {
        1 => "h1",
        2 => "h2",
        3 => "h3",
        4 => "h4",
        5 => "h5",
        _ => "h6",
    };
    let mut attributes: Vec<HtmlAttribute> = Vec::new();
    attributes.push(HtmlAttribute { name: "class", value: Some("heading".to_owned()) });
    let mut children: Vec<HtmlNode> = Vec::new();
    children.push(content);
    HtmlElement {
        tag: Tag::from_name(tag_name),
        attributes,
        content: children,
        enable_inline: false,
        preformatted_content: false,
    }
}

/// The node is a bare `li` element wrapping exactly the given item.
pub open spec fn is_li_of(n: HtmlNode, item: HtmlNode) -> bool {
    match n {
        HtmlNode::Element(e) => {
            &&& plain_element(HtmlElement { content: e.content, ..e }, "li"@)
            &&& e.content@ =~= seq![item]
        },
        _ => false,
    }
}

/// A list component: an ordered or unordered list of items, each wrapped in
/// its own `li`, with an optional numbering start.
pub fn html_list(items: Vec<HtmlNode>, ordered: bool, start: Option<u32>) -> (r: Component)
    ensures
        classed_element(r.content, "div"@, "html_list"@),
        r.content.content@.len() == 1,
        (match r.content.content@[0] {
            HtmlNode::Element(inner) => {
                &&& inner.tag.name@ == (if ordered { "ol"@ } else { "ul"@ })
                &&& inner.content@.len() == items@.len()
                &&& (forall|k: int|
                    0 <= k < items@.len() ==> is_li_of(#[trigger] inner.content@[k], items@[k]))
                &&& (match (ordered, start) {
                    (true, Option::Some(v)) => inner.attributes@.len() == 1 && attr_is(
                        inner.attributes@[0],
                        "start"@,
                        Option::Some(dec_chars(v as int)),
                    ),
                    _ => inner.attributes@.len() == 0,
                })
            },
            _ => false,
        }),
        r.style@.len() == 1,
        style_is(r.style@[0], LIST_STYLE_HANDLE, QueryView::Plain, ".html_list"@),
{
    let mut wrapped: Vec<HtmlNode> = Vec::new();
    let mut rest = items;
    let ghost items0 = rest@;
    let n = rest.len();
    let mut i: usize = 0;
    while i < n
        invariant
            i <= n,
            n == items0.len(),
            rest@ =~= items0.skip(i as int),
            wrapped@.len() == i,
            forall|k: int| 0 <= k < i ==> is_li_of(#[trigger] wrapped@[k], items0[k]),
        decreases n - i,
    {
        proof {
            assert(items0.skip(i as int)[0] == items0[i as int]);
            assert(items0.skip(i as int).skip(1) =~= items0.skip(i + 1));
        }
        let item = rest.remove(0);
        proof {
            assert(rest@ =~= items0.skip(i as int).skip(1));
        }
        let li = unary_element("li", false, item);
        wrapped.push(HtmlNode::Element(li));
        i = i + 1;
    }
    let mut inner = element(if ordered { "ol" } else { "ul" });
    inner.content = wrapped;
    if ordered {
        match start {
            Some(v) => {
                inner.attributes.push(
                    HtmlAttribute { name: "start", value: Some(crate::strutil::decimal_string(v as u64)) },
                );
            },
            None => {},
        }
    }
    let inner_node = HtmlNode::Element(inner);
    let div = unary_element("div", false, inner_node);
    let mut div_attrs: Vec<HtmlAttribute> = Vec::new();
    div_attrs.push(HtmlAttribute { name: "class", value: Some("html_list".to_owned()) });
    let content = HtmlElement { attributes: div_attrs, ..div };
    let style = vec![
        StyleRule {
            handle: LIST_STYLE_HANDLE,
            query: CSSQuery::Plain,
            selector: ".html_list",
            declarations: vec!["display: flex", "flex-direction: column"],
        },
    ];
    Component { content, style }
}

/// A centered column of content.
pub fn content_column(content_items: Vec<HtmlNode>) -> (r: Component)
    ensures
        classed_element(r.content, "div"@, "content_column"@),
        r.content.content@.len() == 1,
        r.content.content@[0] == HtmlNode::Group(content_items),
        r.style@.len() == 1,
        style_is(r.style@[0], CONTENT_COLUMN_STYLE_HANDLE, QueryView::Plain, ".content_column"@),
{
    let div = unary_element("div", false, HtmlNode::Group(content_items));
    let mut div_attrs: Vec<HtmlAttribute> = Vec::new();
    div_attrs.push(HtmlAttribute { name: "class", value: Some("content_column".to_owned()) });
    let content = HtmlElement { attributes: div_attrs, ..div };
    let style = vec![
        StyleRule {
            handle: CONTENT_COLUMN_STYLE_HANDLE,
            query: CSSQuery::Plain,
            selector: ".content_column",
            declarations: vec![
                "display: flex",
                "flex-direction: column",
                "align-items: center",
                "gap: 1rem",
                "box-sizing: border-box",
                "width: 100%",
            ],
        },
    ];
    Component { content, style }
}

/// The site's big title banner.
pub fn title(name: String) -> (r: Component)
    ensures
        classed_element(r.content, "div"@, "title font_title"@),
        r.content.content@.len() == 1,
        r.content.content@[0] == HtmlNode::Text(HtmlPlaintext(name)),
        r.style@.len() == 1,
        style_is(r.style@[0], TITLE_STYLE_HANDLE, QueryView::Plain, ".title"@),
{
    let div = unary_element("div", false, HtmlNode::Text(HtmlPlaintext(name)));
    let mut div_attrs: Vec<HtmlAttribute> = Vec::new();
    div_attrs.push(HtmlAttribute { name: "class", value: Some("title font_title".to_owned()) });
    let content = HtmlElement { attributes: div_attrs, ..div };
    let style = vec![
        StyleRule {
            handle: TITLE_STYLE_HANDLE,
            query: CSSQuery::Plain,
            selector: ".title",
            declarations: vec![
                "font-size: min(5rem, 12.5VW)",
                "background: var(--colour-primary)",
                "padding: 1rem",
            ],
        },
    ];
    Component { content, style }
}

/// A footnote reference: a superscript link down to the footnote.
pub fn footnote_ref(footnote_id: &str, text: &str) -> (r: Component)
    ensures
        r.content.tag.name@ == "sup"@,
        r.content.enable_inline,
        r.content.attributes@.len() == 2,
        attr_is(r.content.attributes@[0], "id"@, Option::Some("footnote_ref-"@ + footnote_id@)),
        attr_is(r.content.attributes@[1], "class"@, Option::Some("footnote_ref"@)),
        r.content.content@.len() == 1,
        (match r.content.content@[0] {
            HtmlNode::LinkText(l) => {
                &&& crate::routes::link_view(l.link) == crate::routes::LinkView::Custom {
                    link_title: text@,
                    destination: "#footnote-"@ + footnote_id@,
                }
                &&& match l.title {
                    Option::Some(t) => t@ == "footnote "@ + footnote_id@,
                    Option::None => false,
                }
                &&& l.content is None
            },
            _ => false,
        }),
        r.style@.len() == 1,
        style_is(
            r.style@[0],
            FOOTNOTE_REF_STYLE_HANDLE,
            QueryView::Plain,
            "cite .footnote_ref, i .footnote_ref"@,
        ),
{
    let link = Link::Custom {
        link_title: text.to_owned(),
        destination: HRef("#footnote-".to_owned().concat(footnote_id)),
    };
    let link_node = HtmlNode::LinkText(
        html_link(link, Some("footnote ".to_owned().concat(footnote_id))),
    );
    let mut sup = unary_element("sup", true, link_node);
    let mut attrs: Vec<HtmlAttribute> = Vec::new();
    attrs.push(
        HtmlAttribute { name: "id", value: Some("footnote_ref-".to_owned().concat(footnote_id)) },
    );
    attrs.push(HtmlAttribute { name: "class", value: Some("footnote_ref".to_owned()) });
    sup.attributes = attrs;
    let style = vec![
        StyleRule {
            handle: FOOTNOTE_REF_STYLE_HANDLE,
            query: CSSQuery::Plain,
            selector: "cite .footnote_ref, i .footnote_ref",
            declarations: vec!["margin-left: 0.125rem"],
        },
    ];
    Component { content: sup, style }
}

/// A footnote: a rule, the note text, a return link, and the note's content.
pub fn footnote(footnote_id: &str, text: &str, content: HtmlNode) -> (r: Component)
    ensures
        r.content.tag.name@ == "div"@,
        !r.content.enable_inline,
        r.content.attributes@.len() == 2,
        attr_is(r.content.attributes@[0], "id"@, Option::Some("footnote-"@ + footnote_id@)),
        attr_is(r.content.attributes@[1], "class"@, Option::Some("footnote"@)),
        r.content.content@.len() == 1,
        (match r.content.content@[0] {
            HtmlNode::Group(members) => {
                &&& members@.len() == 4
                &&& (match members@[1] {
                    HtmlNode::Text(t) => t.0@ == text@,
                    _ => false,
                })
                &&& (match members@[2] {
                    HtmlNode::LinkText(l) => crate::routes::link_view(l.link)
                        == crate::routes::LinkView::Custom {
                        link_title: "\u{21B5}"@,
                        destination: "#footnote_ref-"@ + footnote_id@,
                    },
                    _ => false,
                })
                &&& members@[3] == content
            },
            _ => false,
        }),
        r.style@.len() == 1,
        style_is(r.style@[0], FOOTNOTE_STYLE_HANDLE, QueryView::Plain, ".footnote"@),
{
    let mut members: Vec<HtmlNode> = Vec::new();
    members.push(HtmlNode::Element(html_horizontal_rule()));
    members.push(HtmlNode::Text(html_text(text.to_owned())));
    members.push(
        HtmlNode::LinkText(
            html_link(
                Link::Custom {
                    link_title: "\u{21B5}".to_owned(),
                    destination: HRef("#footnote_ref-".to_owned().concat(footnote_id)),
                },
                Some("Return to post".to_owned()),
            ),
        ),
    );
    members.push(content);
    let mut div = unary_element("div", false, HtmlNode::Group(members));
    let mut attrs: Vec<HtmlAttribute> = Vec::new();
    attrs.push(
        HtmlAttribute { name: "id", value: Some("footnote-".to_owned().concat(footnote_id)) },
    );
    attrs.push(HtmlAttribute { name: "class", value: Some("footnote".to_owned()) });
    div.attributes = attrs;
    let style = vec![
        StyleRule {
            handle: FOOTNOTE_STYLE_HANDLE,
            query: CSSQuery::Plain,
            selector: ".footnote",
            declarations: vec!["font-size: 0.75rem"],
        },
    ];
    Component { content: div, style }
}

/// An image in a framed box.
pub fn image_box(source: Link, alt_text: String, title: Option<String>) -> (r: Component)
    ensures
        classed_element(r.content, "div"@, "image-box"@),
        r.content.content@.len() == 1,
        (match r.content.content@[0] {
            HtmlNode::Image(img) => {
                &&& crate::routes::link_view(img.source) == crate::routes::link_view(source)
                &&& img.alt_text@ == alt_text@
                &&& img.title == title
            },
            _ => false,
        }),
        r.style@.len() == 2,
        style_is(r.style@[0], IMAGE_BOX_STYLE_HANDLE, QueryView::Plain, ".image-box"@),
        style_is(r.style@[1], IMAGE_BOX_IMG_STYLE_HANDLE, QueryView::Plain, ".image-box img"@),
{
    let image = HtmlNode::Image(Image { source, alt_text, title });
    let div = unary_element("div", false, image);
    let mut attrs: Vec<HtmlAttribute> = Vec::new();
    attrs.push(HtmlAttribute { name: "class", value: Some("image-box".to_owned()) });
    let content = HtmlElement { attributes: attrs, ..div };
    let style = vec![
        StyleRule {
            handle: IMAGE_BOX_STYLE_HANDLE,
            query: CSSQuery::Plain,
            selector: ".image-box",
            declarations: vec![
                "display: flex",
                "flex-direction: column",
                "align-items: flex-start",
                "align-self: center",
                "background: var(--colour-secondary)",
                "border: 0.25rem solid var(--colour-secondary-border)",
                "max-width: 100%",
            ],
        },
        StyleRule {
            handle: IMAGE_BOX_IMG_STYLE_HANDLE,
            query: CSSQuery::Plain,
            selector: ".image-box img",
            declarations: vec!["width: 100%"],
        },
    ];
    Component { content, style }
}

/// The node is one tab's button: selected styling for the first tab, a
/// generated id, and the tab's name as content.
pub open spec fn is_tab_button(n: HtmlNode, name: Seq<char>, id: int, first: bool) -> bool {
    match n {
        HtmlNode::Element(e) => {
            &&& e.tag.name@ == "button"@
            &&& e.attributes@.len() == 2
            &&& attr_is(e.attributes@[0], "id"@, Option::Some("tab-box_button:"@ + dec_chars(id)))
            &&& attr_is(
                e.attributes@[1],
                "class"@,
                Option::Some(
                    if first {
                        "tab-box_button tab-box_button_selected"@
                    } else {
                        "tab-box_button"@
                    },
                ),
            )
            &&& e.content@.len() == 1
            &&& (match e.content@[0] {
                HtmlNode::Text(t) => t.0@ == name,
                _ => false,
            })
        },
        _ => false,
    }
}

/// The node is one tab's container: visible for the first tab, a generated
/// id, and the tab's content.
pub open spec fn is_tab_container(n: HtmlNode, body: HtmlNode, id: int, first: bool) -> bool {
    match n {
        HtmlNode::Element(e) => {
            &&& e.tag.name@ == "div"@
            &&& e.attributes@.len() == 2
            &&& attr_is(e.attributes@[0], "id"@, Option::Some("tab-box_container:"@ + dec_chars(id)))
            &&& attr_is(
                e.attributes@[1],
                "class"@,
                Option::Some(
                    if first {
                        "tab-box_container tab-box_container_selected"@
                    } else {
                        "tab-box_container"@
                    },
                ),
            )
            &&& e.content@.len() == 1
            &&& e.content@[0] == body
        },
        _ => false,
    }
}

/// A tab box: a bar of buttons over a stack of containers, one per tab, the
/// first selected. Generated element ids are drawn from the counter.
pub fn tab_box(tabs: Vec<(String, HtmlNode)>, counter: &mut u64) -> (r: Component)
    requires
        *old(counter) + tabs@.len() <= u64::MAX,
    ensures
        *final(counter) == *old(counter) + tabs@.len(),
        classed_element(r.content, "div"@, "tab-box"@),
        r.content.content@.len() == 2,
        (match r.content.content@[0] {
            HtmlNode::Element(bar) => {
                &&& bar.tag.name@ == "div"@
                &&& bar.attributes@.len() == 1
                &&& attr_is(bar.attributes@[0], "class"@, Option::Some("tab-box_bar"@))
                &&& bar.content@.len() == tabs@.len()
                &&& (forall|k: int|
                    0 <= k < tabs@.len() ==> is_tab_button(
                        #[trigger] bar.content@[k],
                        tabs@[k].0@,
                        *old(counter) + k,
                        k == 0,
                    ))
            },
            _ => false,
        }),
        (match r.content.content@[1] {
            HtmlNode::Element(stack) => {
                &&& stack.tag.name@ == "div"@
                &&& stack.attributes@.len() == 1
                &&& attr_is(stack.attributes@[0], "class"@, Option::Some("tab-box_content"@))
                &&& stack.content@.len() == tabs@.len()
                &&& (forall|k: int|
                    0 <= k < tabs@.len() ==> is_tab_container(
                        #[trigger] stack.content@[k],
                        tabs@[k].1,
                        *old(counter) + k,
                        k == 0,
                    ))
            },
            _ => false,
        }),
        r.style@.map_values(|s: StyleRule| s.handle) =~= seq![
            TAB_BOX_STYLE_HANDLE,
            TAB_BUTTON_STYLE_HANDLE,
            TAB_BUTTON_HOVER_STYLE_HANDLE,
            TAB_BUTTON_SELECTED_STYLE_HANDLE,
            TAB_CONTAINER_STYLE_HANDLE,
            TAB_CONTAINER_SELECTED_STYLE_HANDLE,
        ],
{
    let ghost c0 = *counter;
    let mut buttons: Vec<HtmlNode> = Vec::new();
    let mut containers: Vec<HtmlNode> = Vec::new();
    let mut rest = tabs;
    let ghost tabs0 = rest@;
    let n = rest.len();
    let mut i: usize = 0;
    while i < n
        invariant
            i <= n,
            n == tabs0.len(),
            rest@ =~= tabs0.skip(i as int),
            *counter == c0 + i,
            c0 + n <= u64::MAX,
            buttons@.len() == i,
            containers@.len() == i,
            forall|k: int|
                0 <= k < i ==> is_tab_button(#[trigger] buttons@[k], tabs0[k].0@, c0 + k, k == 0),
            forall|k: int|
                0 <= k < i ==> is_tab_container(
                    #[trigger] containers@[k],
                    tabs0[k].1,
                    c0 + k,
                    k == 0,
                ),
        decreases n - i,
    {
        proof {
            assert(tabs0.skip(i as int)[0] == tabs0[i as int]);
            assert(tabs0.skip(i as int).skip(1) =~= tabs0.skip(i + 1));
        }
        let (tab_name, body) = rest.remove(0);
        proof {
            assert(rest@ =~= tabs0.skip(i as int).skip(1));
        }
        let tab_id = crate::util::next_unique_id(counter);
        let first = i == 0;
        let mut button = unary_element("button", false, HtmlNode::Text(HtmlPlaintext(tab_name)));
        let mut battrs: Vec<HtmlAttribute> = Vec::new();
        let mut bid = "tab-box_button:".to_owned();
        bid.append(crate::strutil::decimal_string(tab_id).as_str());
        battrs.push(HtmlAttribute { name: "id", value: Some(bid) });
        battrs.push(
            HtmlAttribute {
                name: "class",
                value: Some(
                    if first {
                        "tab-box_button tab-box_button_selected".to_owned()
                    } else {
                        "tab-box_button".to_owned()
                    },
                ),
            },
        );
        button.attributes = battrs;
        buttons.push(HtmlNode::Element(button));
        let mut container = unary_element("div", false, body);
        let mut cattrs: Vec<HtmlAttribute> = Vec::new();
        let mut cid = "tab-box_container:".to_owned();
        cid.append(crate::strutil::decimal_string(tab_id).as_str());
        cattrs.push(HtmlAttribute { name: "id", value: Some(cid) });
        cattrs.push(
            HtmlAttribute {
                name: "class",
                value: Some(
                    if first {
                        "tab-box_container tab-box_container_selected".to_owned()
                    } else {
                        "tab-box_container".to_owned()
                    },
                ),
            },
        );
        container.attributes = cattrs;
        containers.push(HtmlNode::Element(container));
        i = i + 1;
    }
    let mut bar = element("div");
    let mut bar_attrs: Vec<HtmlAttribute> = Vec::new();
    bar_attrs.push(HtmlAttribute { name: "class", value: Some("tab-box_bar".to_owned()) });
    bar.attributes = bar_attrs;
    bar.content = buttons;
    let mut stack = element("div");
    let mut stack_attrs: Vec<HtmlAttribute> = Vec::new();
    stack_attrs.push(HtmlAttribute { name: "class", value: Some("tab-box_content".to_owned()) });
    stack.attributes = stack_attrs;
    stack.content = containers;
    let mut outer = element("div");
    let mut outer_attrs: Vec<HtmlAttribute> = Vec::new();
    outer_attrs.push(HtmlAttribute { name: "class", value: Some("tab-box".to_owned()) });
    outer.attributes = outer_attrs;
    let mut outer_children: Vec<HtmlNode> = Vec::new();
    outer_children.push(HtmlNode::Element(bar));
    outer_children.push(HtmlNode::Element(stack));
    outer.content = outer_children;
    let style = vec![
        StyleRule {
            handle: TAB_BOX_STYLE_HANDLE,
            query: CSSQuery::Plain,
            selector: ".tab-box_bar",
            declarations: vec![
                "display: flex",
                "flex-direction: row",
                "justify-content: space-around",
                "align-self: center",
                "min-width: 15rem",
            ],
        },
        StyleRule {
            handle: TAB_BUTTON_STYLE_HANDLE,
            query: CSSQuery::Plain,
            selector: ".tab-box_button",
            declarations: vec![
                "border: none",
                "background: var(--colour-secondary)",
                "color: var(--text-color)",
                "padding: 0.5rem",
                "border: 0.25rem solid transparent",
                "border-bottom: none",
                "font-size: 1rem",
            ],
        },
        StyleRule {
            handle: TAB_BUTTON_HOVER_STYLE_HANDLE,
            query: CSSQuery::Plain,
            selector: ".tab-box_button:hover",
            declarations: vec!["background: var(--colour-secondary-highlight)", "cursor: pointer"],
        },
        StyleRule {
            handle: TAB_BUTTON_SELECTED_STYLE_HANDLE,
            query: CSSQuery::Plain,
            selector: ".tab-box_button_selected",
            declarations: vec![
                "border: 0.25rem solid var(--colour-secondary-border)",
                "border-bottom: none",
                "box-sizing: border-box",
                "background: var(--colour-secondary-highlight)",
                "cursor: default !important",
            ],
        },
        StyleRule {
            handle: TAB_CONTAINER_STYLE_HANDLE,
            query: CSSQuery::Plain,
            selector: ".tab-box_container",
            declarations: vec!["visibility: hidden", "display: none"],
        },
        StyleRule {
            handle: TAB_CONTAINER_SELECTED_STYLE_HANDLE,
            query: CSSQuery::Plain,
            selector: ".tab-box_container_selected",
            declarations: vec!["visibility: visible", "display: block"],
        },
    ];
    Component { content: outer, style }
}

/// A code box: an optional caption bar (title, fold button, info link) over
/// the code itself, preformatted or flowing, optionally height-folded.
/// The node is a code box's caption: a framed box showing the title text.
pub open spec fn is_code_box_title(n: HtmlNode, t: String) -> bool {
    match n {
        HtmlNode::Element(e) => {
            &&& classed_element(e, "div"@, "code-box_title"@)
            &&& e.content@.len() == 1
            &&& (match e.content@[0] {
                HtmlNode::Text(txt) => txt.0@ == t@,
                _ => false,
            })
        },
        _ => false,
    }
}

/// The node is a code box's fold button.
pub open spec fn is_code_box_fold_button(n: HtmlNode) -> bool {
    match n {
        HtmlNode::Element(e) => {
            &&& e.tag.name@ == "button"@
            &&& e.attributes@.len() == 2
            &&& attr_is(e.attributes@[0], "class"@, Option::Some("code-box_fold_button"@))
            &&& attr_is(e.attributes@[1], "title"@, Option::Some("expand"@))
            &&& e.content@.len() == 1
            &&& (match e.content@[0] {
                HtmlNode::Text(txt) => txt.0@ == "\u{21C5}"@,
                _ => false,
            })
        },
        _ => false,
    }
}

/// The node is a code box's info corner: a link to the named page.
pub open spec fn is_code_box_info(n: HtmlNode, page: String) -> bool {
    match n {
        HtmlNode::Element(e) => {
            &&& e.tag.name@ == "div"@
            &&& e.attributes@.len() == 2
            &&& attr_is(e.attributes@[0], "class"@, Option::Some("code-box_info"@))
            &&& attr_is(e.attributes@[1], "title"@, Option::Some("info"@))
            &&& e.content@.len() == 1
            &&& (match e.content@[0] {
                HtmlNode::LinkText(l) => {
                    &&& crate::routes::link_view(l.link) == crate::routes::LinkView::ID(page@)
                    &&& (match l.title {
                        Option::Some(t) => t@ == "Info"@,
                        Option::None => false,
                    })
                    &&& (match l.content {
                        Option::Some(c) => match *c {
                            HtmlNode::Text(txt) => txt.0@ == "\u{2139}"@,
                            _ => false,
                        },
                        Option::None => false,
                    })
                },
                _ => false,
            })
        },
        _ => false,
    }
}

pub fn code_box(
    title: Option<String>,
    info: Option<String>,
    fold: bool,
    preformatted: bool,
    content: HtmlNode,
) -> (r: Component)
    ensures
        classed_element(r.content, "div"@, "code-box"@),
        r.content.content@.len() == (if title is Some || info is Some { 2int } else { 1int }),
        title is Some || info is Some ==> (match r.content.content@[0] {
            HtmlNode::Element(top) => {
                &&& classed_element(top, "div"@, "code-box_top"@)
                &&& top.content@.len() == (if title is Some { 1int } else { 0int }) + (
                if fold { 1int } else { 0int }) + (if info is Some { 1int } else { 0int })
                &&& (match title {
                    Option::Some(t) => is_code_box_title(top.content@[0], t),
                    Option::None => true,
                })
                &&& (fold ==> is_code_box_fold_button(
                    top.content@[if title is Some { 1int } else { 0int }],
                ))
                &&& (match info {
                    Option::Some(page) => is_code_box_info(
                        top.content@[top.content@.len() - 1],
                        page,
                    ),
                    Option::None => true,
                })
            },
            _ => false,
        }),
        (match r.content.content@[r.content.content@.len() - 1] {
            HtmlNode::Element(block) => {
                &&& block.tag.name@ == (if preformatted { "pre"@ } else { "code"@ })
                &&& block.enable_inline
                &&& block.preformatted_content == preformatted
                &&& (if fold {
                    block.attributes@.len() == 1 && attr_is(
                        block.attributes@[0],
                        "class"@,
                        Option::Some("code-box_fold"@),
                    )
                } else {
                    block.attributes@.len() == 0
                })
                &&& (if preformatted {
                    block.content@.len() == 1 && (match block.content@[0] {
                        HtmlNode::Element(code) => code.tag.name@ == "code"@ && code.content@ =~= seq![
                            content,
                        ],
                        _ => false,
                    })
                } else {
                    block.content@ =~= seq![content]
                })
            },
            _ => false,
        }),
        r.style@.map_values(|s: StyleRule| s.handle) =~= seq![
            CODE_BOX_STYLE_HANDLE,
            CODE_BOX_TOP_STYLE_HANDLE,
            CODE_BOX_TITLE_STYLE_HANDLE,
            CODE_BOX_INFO_STYLE_HANDLE,
            CODE_BOX_CODE_STYLE_HANDLE,
            CODE_BOX_FOLD_STYLE_HANDLE,
            CODE_BOX_FOLD_BUTTON_STYLE_HANDLE,
            CODE_BOX_FOLD_BUTTON_HOVER_STYLE_HANDLE,
        ],
        style_is(r.style@[5], CODE_BOX_FOLD_STYLE_HANDLE, QueryView::Media("not print"@), ".code-box_fold"@),
{
    let has_top = title.is_some() || info.is_some();
    let mut code_block = if preformatted {
        html_preformatted(HtmlNode::Element(html_code(content)))
    } else {
        html_code(content)
    };
    if fold {
        let mut battrs: Vec<HtmlAttribute> = Vec::new();
        battrs.push(HtmlAttribute { name: "class", value: Some("code-box_fold".to_owned()) });
        code_block.attributes = battrs;
    }
    let mut children: Vec<HtmlNode> = Vec::new();
    if has_top {
        let mut top_children: Vec<HtmlNode> = Vec::new();
        match title {
            Some(t) => {
                let mut tdiv = unary_element("div", false, HtmlNode::Text(HtmlPlaintext(t)));
                let mut tattrs: Vec<HtmlAttribute> = Vec::new();
                tattrs.push(
                    HtmlAttribute { name: "class", value: Some("code-box_title".to_owned()) },
                );
                tdiv.attributes = tattrs;
                top_children.push(HtmlNode::Element(tdiv));
            },
            None => {},
        }
        if fold {
            let mut fbtn = unary_element(
                "button",
                false,
                HtmlNode::Text(HtmlPlaintext("\u{21C5}".to_owned())),
            );
            let mut fattrs: Vec<HtmlAttribute> = Vec::new();
            fattrs.push(
                HtmlAttribute { name: "class", value: Some("code-box_fold_button".to_owned()) },
            );
            fattrs.push(HtmlAttribute { name: "title", value: Some("expand".to_owned()) });
            fbtn.attributes = fattrs;
            top_children.push(HtmlNode::Element(fbtn));
        }
        match info {
            Some(page) => {
                let info_link = HtmlNode::LinkText(
                    html_link_content(
                        Link::ID(page),
                        Some("Info".to_owned()),
                        HtmlNode::Text(HtmlPlaintext("\u{2139}".to_owned())),
                    ),
                );
                let mut idiv = unary_element("div", false, info_link);
                let mut iattrs: Vec<HtmlAttribute> = Vec::new();
                iattrs.push(
                    HtmlAttribute { name: "class", value: Some("code-box_info".to_owned()) },
                );
                iattrs.push(HtmlAttribute { name: "title", value: Some("info".to_owned()) });
                idiv.attributes = iattrs;
                top_children.push(HtmlNode::Element(idiv));
            },
            None => {},
        }
        let mut top = element("div");
        let mut top_attrs: Vec<HtmlAttribute> = Vec::new();
        top_attrs.push(HtmlAttribute { name: "class", value: Some("code-box_top".to_owned()) });
        top.attributes = top_attrs;
        top.content = top_children;
        children.push(HtmlNode::Element(top));
    }
    children.push(HtmlNode::Element(code_block));
    let mut outer = element("div");
    let mut outer_attrs: Vec<HtmlAttribute> = Vec::new();
    outer_attrs.push(HtmlAttribute { name: "class", value: Some("code-box".to_owned()) });
    outer.attributes = outer_attrs;
    outer.content = children;
    let style = vec![
        StyleRule {
            handle: CODE_BOX_STYLE_HANDLE,
            query: CSSQuery::Plain,
            selector: ".code-box",
            declarations: vec![
                "display: flex",
                "flex-direction: column",
                "align-items: flex-start",
                "align-self: center",
                "background: var(--colour-secondary)",
                "border: 0.25rem solid var(--colour-secondary-border)",
                "min-width: 15rem",
            ],
        },
        StyleRule {
            handle: CODE_BOX_TOP_STYLE_HANDLE,
            query: CSSQuery::Plain,
            selector: ".code-box_top",
            declarations: vec![
                "display: flex",
                "justify-content: space-between",
                "flex-direction: row",
                "width: 100%",
            ],
        },
        StyleRule {
            handle: CODE_BOX_TITLE_STYLE_HANDLE,
            query: CSSQuery::Plain,
            selector: ".code-box_title",
            declarations: vec![
                "display: flex",
                "border: 0.25rem solid var(--colour-secondary-border)",
                "border-top: none",
                "border-left: none",
                "border-bottom-right-radius: 1rem",
                "padding: 0.25rem",
                "padding-top: 0.1rem",
            ],
        },
        StyleRule {
            handle: CODE_BOX_INFO_STYLE_HANDLE,
            query: CSSQuery::Plain,
            selector: ".code-box_info",
            declarations: vec![
                "display: flex",
                "justify-content: center",
                "min-width: 0.75rem",
                "margin-left: auto",
                "border: 0.25rem solid var(--colour-secondary-border)",
                "border-top: none",
                "border-right: none",
                "border-bottom-left-radius: 1rem",
                "padding: 0.25rem",
                "padding-top: 0.1rem",
            ],
        },
        StyleRule {
            handle: CODE_BOX_CODE_STYLE_HANDLE,
            query: CSSQuery::Plain,
            selector: ".code-box code, .code-box pre",
            declarations: vec!["padding: 0.25rem"],
        },
        StyleRule {
            handle: CODE_BOX_FOLD_STYLE_HANDLE,
            query: CSSQuery::Media("not print"),
            selector: ".code-box_fold",
            declarations: vec!["max-height: 15rem", "overflow-y: scroll"],
        },
        StyleRule {
            handle: CODE_BOX_FOLD_BUTTON_STYLE_HANDLE,
            query: CSSQuery::Plain,
            selector: ".code-box_fold_button",
            declarations: vec![
                "display: flex",
                "justify-content: center",
                "align-items: center",
                "color: var(--text-color)",
                "background: var(--colour-secondary)",
                "border: 0.25rem solid var(--colour-secondary-border)",
                "border-top: none",
                "margin-left: auto",
                "margin-right: auto",
                "font-size: 1rem",
            ],
        },
        StyleRule {
            handle: CODE_BOX_FOLD_BUTTON_HOVER_STYLE_HANDLE,
            query: CSSQuery::Plain,
            selector: ".code-box_fold_button:hover",
            declarations: vec!["background: var(--colour-secondary-highlight)", "cursor: pointer"],
        },
    ];
    Component { content: outer, style }
}

/// One entry of a navigation menu: a plain link, or a link with a dropdown
/// tree of sub-links.
pub enum NavigationItem {
    SingleLink(Link),
    Tree(Link, Vec<(Link, Vec<Link>)>),
}

/// The node is a block-level button for the given link.
pub open spec fn is_link_button_node(n: HtmlNode, l: Link) -> bool {
    match n {
        HtmlNode::LinkButton(b) => crate::routes::link_view(b.0) == crate::routes::link_view(l),
        _ => false,
    }
}

/// The node is the menu entry a navigation item turns into.
pub open spec fn is_nav_member(n: HtmlNode, item: NavigationItem) -> bool {
    match item {
        NavigationItem::SingleLink(l) => match n {
            HtmlNode::Element(e) => {
                &&& e.tag.name@ == "div"@
                &&& e.attributes@.len() == 1
                &&& attr_is(e.attributes@[0], "class"@, Option::Some("navigation-menu"@))
                &&& e.content@.len() == 1
                &&& is_link_button_node(e.content@[0], l)
            },
            _ => false,
        },
        NavigationItem::Tree(head, dropdown) => match n {
            HtmlNode::Element(e) => {
                &&& e.tag.name@ == "div"@
                &&& e.attributes@.len() == 1
                &&& attr_is(
                    e.attributes@[0],
                    "class"@,
                    Option::Some("navigation-menu navigation-hover"@),
                )
                &&& e.content@.len() == 1
                &&& (match e.content@[0] {
                    HtmlNode::Group(pair) => {
                        &&& pair@.len() == 2
                        &&& is_link_button_node(pair@[0], head)
                        &&& (match pair@[1] {
                            HtmlNode::Element(dd) => {
                                &&& dd.tag.name@ == "div"@
                                &&& dd.attributes@.len() == 1
                                &&& attr_is(
                                    dd.attributes@[0],
                                    "class"@,
                                    Option::Some("navigation-dropdown"@),
                                )
                                &&& dd.content@.len() == 1
                                &&& (match dd.content@[0] {
                                    HtmlNode::Group(cols) => {
                                        &&& cols@.len() == dropdown@.len()
                                        &&& (forall|c: int|
                                            0 <= c < dropdown@.len() ==> is_nav_column(
                                                #[trigger] cols@[c],
                                                dropdown@[c].0,
                                                dropdown@[c].1,
                                            ))
                                    },
                                    _ => false,
                                })
                            },
                            _ => false,
                        })
                    },
                    _ => false,
                })
            },
            _ => false,
        },
    }
}

/// The node is one dropdown column: the column head's button over the column
/// links' buttons.
pub open spec fn is_nav_column(n: HtmlNode, head: Link, links: Vec<Link>) -> bool {
    match n {
        HtmlNode::Element(e) => {
            &&& e.tag.name@ == "div"@
            &&& e.attributes@.len() == 1
            &&& attr_is(e.attributes@[0], "class"@, Option::Some("navigation-dropdown-column"@))
            &&& e.content@.len() == 1
            &&& (match e.content@[0] {
                HtmlNode::Group(pair) => {
                    &&& pair@.len() == 2
                    &&& is_link_button_node(pair@[0], head)
                    &&& (match pair@[1] {
                        HtmlNode::Group(buttons) => {
                            &&& buttons@.len() == links@.len()
                            &&& (forall|b: int|
                                0 <= b < links@.len() ==> is_link_button_node(
                                    #[trigger] buttons@[b],
                                    links@[b],
                                ))
                        },
                        _ => false,
                    })
                },
                _ => false,
            })
        },
        _ => false,
    }
}

/// Builds one dropdown column.
fn nav_column(head: Link, links: Vec<Link>) -> (r: HtmlNode)
    ensures
        is_nav_column(r, head, links),
{
    let ghost links0 = links@;
    let mut buttons: Vec<HtmlNode> = Vec::new();
    let mut rest = links;
    let n = rest.len();
    let mut i: usize = 0;
    while i < n
        invariant
            i <= n,
            n == links0.len(),
            rest@ =~= links0.skip(i as int),
            buttons@.len() == i,
            forall|b: int| 0 <= b < i ==> is_link_button_node(#[trigger] buttons@[b], links0[b]),
        decreases n - i,
    {
        proof {
            assert(links0.skip(i as int)[0] == links0[i as int]);
            assert(links0.skip(i as int).skip(1) =~= links0.skip(i + 1));
        }
        let link = rest.remove(0);
        proof {
            assert(rest@ =~= links0.skip(i as int).skip(1));
        }
        buttons.push(HtmlNode::LinkButton(crate::html::LinkButton(link)));
        i = i + 1;
    }
    let mut pair: Vec<HtmlNode> = Vec::new();
    pair.push(HtmlNode::LinkButton(crate::html::LinkButton(head)));
    pair.push(HtmlNode::Group(buttons));
    let mut col = unary_element("div", false, HtmlNode::Group(pair));
    let mut attrs: Vec<HtmlAttribute> = Vec::new();
    attrs.push(
        HtmlAttribute { name: "class", value: Some("navigation-dropdown-column".to_owned()) },
    );
    col.attributes = attrs;
    HtmlNode::Element(col)
}

/// Builds one navigation menu entry.
fn nav_member(item: NavigationItem) -> (r: HtmlNode)
    ensures
        is_nav_member(r, item),
{
    match item {
        NavigationItem::SingleLink(link) => {
            let mut menu = unary_element(
                "div",
                false,
                HtmlNode::LinkButton(crate::html::LinkButton(link)),
            );
            let mut attrs: Vec<HtmlAttribute> = Vec::new();
            attrs.push(HtmlAttribute { name: "class", value: Some("navigation-menu".to_owned()) });
            menu.attributes = attrs;
            proof {
                assert(crate::routes::link_view(menu.content@[0]->LinkButton_0.0)
                    == crate::routes::link_view(item->SingleLink_0));
            }
            HtmlNode::Element(menu)
        },
        NavigationItem::Tree(head, dropdown) => {
            let ghost dropdown0 = dropdown@;
            let mut cols: Vec<HtmlNode> = Vec::new();
            let mut rest = dropdown;
            let n = rest.len();
            let mut i: usize = 0;
            while i < n
                invariant
                    i <= n,
                    n == dropdown0.len(),
                    rest@ =~= dropdown0.skip(i as int),
                    cols@.len() == i,
                    forall|c: int|
                        0 <= c < i ==> is_nav_column(
                            #[trigger] cols@[c],
                            dropdown0[c].0,
                            dropdown0[c].1,
                        ),
                decreases n - i,
            {
                proof {
                    assert(dropdown0.skip(i as int)[0] == dropdown0[i as int]);
                    assert(dropdown0.skip(i as int).skip(1) =~= dropdown0.skip(i + 1));
                }
                let (col_head, col_links) = rest.remove(0);
                proof {
                    assert(rest@ =~= dropdown0.skip(i as int).skip(1));
                }
                cols.push(nav_column(col_head, col_links));
                i = i + 1;
            }
            let mut dd = unary_element("div", false, HtmlNode::Group(cols));
            let mut dd_attrs: Vec<HtmlAttribute> = Vec::new();
            dd_attrs.push(
                HtmlAttribute { name: "class", value: Some("navigation-dropdown".to_owned()) },
            );
            dd.attributes = dd_attrs;
            let mut pair: Vec<HtmlNode> = Vec::new();
            pair.push(HtmlNode::LinkButton(crate::html::LinkButton(head)));
            pair.push(HtmlNode::Element(dd));
            let mut menu = unary_element("div", false, HtmlNode::Group(pair));
            let mut attrs: Vec<HtmlAttribute> = Vec::new();
            attrs.push(
                HtmlAttribute {
                    name: "class",
                    value: Some("navigation-menu navigation-hover".to_owned()),
                },
            );
            menu.attributes = attrs;
            HtmlNode::Element(menu)
        },
    }
}

/// The node is the hamburger button that opens the menu on narrow screens.
pub open spec fn is_hamburger(n: HtmlNode) -> bool {
    match n {
        HtmlNode::Element(burger) => {
            &&& burger.tag.name@ == "button"@
            &&& burger.enable_inline
            &&& burger.attributes@.len() == 2
            &&& attr_is(burger.attributes@[0], "id"@, Option::Some("navigation-hamburger"@))
            &&& attr_is(burger.attributes@[1], "class"@, Option::Some("link-button"@))
            &&& burger.content@.len() == 1
            &&& (match burger.content@[0] {
                HtmlNode::Text(t) => t.0@ == "\u{2261}"@,
                _ => false,
            })
        },
        _ => false,
    }
}

/// The navigation bar: a hamburger button for narrow screens followed by one
/// menu entry per item.
pub fn navigation_menu(items: Vec<NavigationItem>) -> (r: Component)
    ensures
        r.content.tag.name@ == "nav"@,
        r.content.attributes@.len() == 1,
        attr_is(
            r.content.attributes@[0],
            "class"@,
            Option::Some("navigation font_head content_wide"@),
        ),
        r.content.content@.len() == 1,
        (match r.content.content@[0] {
            HtmlNode::Group(members) => {
                &&& members@.len() == 1 + items@.len()
                &&& is_hamburger(members@[0])
                &&& (forall|k: int|
                    0 <= k < items@.len() ==> is_nav_member(#[trigger] members@[k + 1], items@[k]))
            },
            _ => false,
        }),
        r.style@.map_values(|s: StyleRule| s.handle) =~= seq![
            NAV_STYLE_HANDLE,
            NAV_PRINT_STYLE_HANDLE,
            NAV_MENU_STYLE_HANDLE,
            NAV_MENU_A_STYLE_HANDLE,
            NAV_MENU_HOVER_STYLE_HANDLE,
            NAV_MENU_NARROW_STYLE_HANDLE,
            NAV_HAMBURGER_STYLE_HANDLE,
            NAV_HAMBURGER_NARROW_STYLE_HANDLE,
            NAV_HAMBURGER_OPEN_STYLE_HANDLE,
            NAV_HAMBURGER_HOVER_STYLE_HANDLE,
            NAV_DROPDOWN_STYLE_HANDLE,
            NAV_DROPDOWN_HOVER_STYLE_HANDLE,
            NAV_COLUMN_STYLE_HANDLE,
            NAV_COLUMN_A_STYLE_HANDLE,
            NAV_COLUMN_A_MID_STYLE_HANDLE,
            NAV_COLUMN_A_LAST_STYLE_HANDLE,
        ],
{
    let mut burger = unary_element(
        "button",
        false,
        HtmlNode::Text(HtmlPlaintext("\u{2261}".to_owned())),
    );
    burger.enable_inline = true;
    let mut battrs: Vec<HtmlAttribute> = Vec::new();
    battrs.push(HtmlAttribute { name: "id", value: Some("navigation-hamburger".to_owned()) });
    battrs.push(HtmlAttribute { name: "class", value: Some("link-button".to_owned()) });
    burger.attributes = battrs;
    let mut members: Vec<HtmlNode> = Vec::new();
    members.push(HtmlNode::Element(burger));
    let ghost items0 = items@;
    let mut rest = items;
    let n = rest.len();
    let mut i: usize = 0;
    while i < n
        invariant
            i <= n,
            n == items0.len(),
            rest@ =~= items0.skip(i as int),
            members@.len() == 1 + i,
            forall|k: int| 0 <= k < i ==> is_nav_member(#[trigger] members@[k + 1], items0[k]),
            is_hamburger(members@[0]),
        decreases n - i,
    {
        proof {
            assert(items0.skip(i as int)[0] == items0[i as int]);
            assert(items0.skip(i as int).skip(1) =~= items0.skip(i + 1));
        }
        let item = rest.remove(0);
        proof {
            assert(rest@ =~= items0.skip(i as int).skip(1));
        }
        members.push(nav_member(item));
        i = i + 1;
    }
    let mut nav = unary_element("nav", false, HtmlNode::Group(members));
    let mut attrs: Vec<HtmlAttribute> = Vec::new();
    attrs.push(
        HtmlAttribute { name: "class", value: Some("navigation font_head content_wide".to_owned()) },
    );
    nav.attributes = attrs;
    let style = vec![
        StyleRule {
            handle: NAV_STYLE_HANDLE,
            query: CSSQuery::Plain,
            selector: ".navigation",
            declarations: vec![
                "display: flex",
                "flex-direction: row",
                "flex-wrap: wrap",
                "justify-content: space-evenly",
                "align-items: flex-start",
                "gap: 0.5em",
            ],
        },
        StyleRule {
            handle: NAV_PRINT_STYLE_HANDLE,
            query: CSSQuery::Media("print"),
            selector: ".navigation",
            declarations: vec!["visibility: hidden", "display: none"],
        },
        StyleRule {
            handle: NAV_MENU_STYLE_HANDLE,
            query: CSSQuery::Plain,
            selector: ".navigation-menu",
            declarations: vec![
                "flex-grow: 1",
                "position: relative",
                "background: var(--colour-primary)",
            ],
        },
        StyleRule {
            handle: NAV_MENU_A_STYLE_HANDLE,
            query: CSSQuery::Plain,
            selector: ".navigation-menu a",
            declarations: vec![
                "display: flex",
                "flex-direction: row",
                "justify-content: center",
                "height: 1.5rem",
                "width: 100%",
            ],
        },
        StyleRule {
            handle: NAV_MENU_HOVER_STYLE_HANDLE,
            query: CSSQuery::Plain,
            selector: ".navigation-menu:hover",
            declarations: vec!["background: var(--colour-primary-highlight)"],
        },
        StyleRule {
            handle: NAV_MENU_NARROW_STYLE_HANDLE,
            query: CSSQuery::Media("(hover: none) or (max-width:768px)"),
            selector: ".navigation-menu",
            declarations: vec!["background: var(--colour-primary-highlight)"],
        },
        StyleRule {
            handle: NAV_HAMBURGER_STYLE_HANDLE,
            query: CSSQuery::Plain,
            selector: "#navigation-hamburger",
            declarations: vec![
                "display: none",
                "border: none",
                "background: var(--colour-primary)",
                "color: var(--text-color)",
                "align-items: center",
                "justify-content: center",
                "font-size: 1rem",
                "width: 1.5rem",
                "height: 1.5rem",
            ],
        },
        StyleRule {
            handle: NAV_HAMBURGER_NARROW_STYLE_HANDLE,
            query: CSSQuery::Media("(hover: none) or (max-width:768px)"),
            selector: "#navigation-hamburger",
            declarations: vec!["display: flex"],
        },
        StyleRule {
            handle: NAV_HAMBURGER_OPEN_STYLE_HANDLE,
            query: CSSQuery::Plain,
            selector: "#navigation-hamburger.hamburger-open",
            declarations: vec!["content: '\u{2573}'"],
        },
        StyleRule {
            handle: NAV_HAMBURGER_HOVER_STYLE_HANDLE,
            query: CSSQuery::Plain,
            selector: "#navigation-hamburger:hover",
            declarations: vec!["background: var(--colour-primary-highlight)", "cursor: pointer"],
        },
        StyleRule {
            handle: NAV_DROPDOWN_STYLE_HANDLE,
            query: CSSQuery::Plain,
            selector: ".navigation-dropdown",
            declarations: vec![
                "visibility: hidden",
                "position: absolute",
                "display: flex",
                "flex-direction: row",
                "justify-content: space-evenly",
                "align-items: center",
                "flex-wrap: wrap",
                "background: var(--colour-primary)",
                "width: 100%",
                "box-sizing: border-box",
                "border: 0.125rem solid var(--colour-primary-border)",
                "border-top: 0",
            ],
        },
        StyleRule {
            handle: NAV_DROPDOWN_HOVER_STYLE_HANDLE,
            query: CSSQuery::Media("(hover: hover) and (min-width:768px)"),
            selector: ".navigation-hover:hover .navigation-dropdown",
            declarations: vec!["visibility: visible"],
        },
        StyleRule {
            handle: NAV_COLUMN_STYLE_HANDLE,
            query: CSSQuery::Plain,
            selector: ".navigation-dropdown-column",
            declarations: vec!["display: flex", "flex-grow: 1", "flex-direction: column"],
        },
        StyleRule {
            handle: NAV_COLUMN_A_STYLE_HANDLE,
            query: CSSQuery::Plain,
            selector: ".navigation-dropdown-column a",
            declarations: vec![
                "justify-content: start",
                "padding-top: 0",
                "padding-bottom: 0",
            ],
        },
        StyleRule {
            handle: NAV_COLUMN_A_MID_STYLE_HANDLE,
            query: CSSQuery::Plain,
            selector: ".navigation-dropdown-column a:not(:first-of-type):not(:last-of-type)::before",
            declarations: vec!["content: '\u{2523}'", "margin-right: 0.25rem"],
        },
        StyleRule {
            handle: NAV_COLUMN_A_LAST_STYLE_HANDLE,
            query: CSSQuery::Plain,
            selector: ".navigation-dropdown-column a:last-of-type::before",
            declarations: vec!["content: '\u{2517}'", "margin-right: 0.25rem"],
        },
    ];
    Component { content: nav, style }
}

/// The wrapper around a rendered post's content.
pub fn blogpost(content: HtmlNode) -> (r: Component)
    ensures
        classed_element(r.content, "div"@, "blogpost"@),
        r.content.content@ =~= seq![content],
        r.style@.map_values(|s: StyleRule| s.handle) =~= seq![
            BLOGPOST_STYLE_HANDLE,
            BLOGPOST_CONTENT_STYLE_HANDLE,
        ],
        style_is(r.style@[0], BLOGPOST_STYLE_HANDLE, QueryView::Plain, ".blogpost"@),
        style_is(
            r.style@[1],
            BLOGPOST_CONTENT_STYLE_HANDLE,
            QueryView::Plain,
            ".blogpost > :not(h1,h2,h3,h4,h5,h6)"@,
        ),
{
    let div = unary_element("div", false, content);
    let mut attrs: Vec<HtmlAttribute> = Vec::new();
    attrs.push(HtmlAttribute { name: "class", value: Some("blogpost".to_owned()) });
    let content_el = HtmlElement { attributes: attrs, ..div };
    let style = vec![
        StyleRule {
            handle: BLOGPOST_STYLE_HANDLE,
            query: CSSQuery::Plain,
            selector: ".blogpost",
            declarations: vec!["display: flex", "flex-direction: column"],
        },
        StyleRule {
            handle: BLOGPOST_CONTENT_STYLE_HANDLE,
            query: CSSQuery::Plain,
            selector: ".blogpost > :not(h1,h2,h3,h4,h5,h6)",
            declarations: vec!["margin-left: 1rem"],
        },
    ];
    Component { content: content_el, style }
}

/// One row of a category's post list.
pub struct PostListEntry {
    pub post_id: String,
    pub post_date: i64,
    pub post_title: String,
}

/// The node is one post-list row: a link to the post labelled with its date
/// and title.
pub open spec fn is_post_row(n: HtmlNode, entry: PostListEntry) -> bool {
    match n {
        HtmlNode::Element(li) => {
            &&& li.tag.name@ == "li"@
            &&& li.attributes@.len() == 0
            &&& li.content@.len() == 1
            &&& (match li.content@[0] {
                HtmlNode::LinkText(l) => {
                    &&& crate::routes::link_view(l.link) == crate::routes::LinkView::ID(
                        entry.post_id@,
                    )
                    &&& l.title is None
                    &&& (match l.content {
                        Option::Some(c) => match *c {
                            HtmlNode::Text(t) => t.0@ == label_date_of(entry.post_date as int)
                                + " - "@ + entry.post_title@,
                            _ => false,
                        },
                        Option::None => false,
                    })
                },
                _ => false,
            })
        },
        _ => false,
    }
}

/// A category page's list of posts, newest first; an italic note stands in
/// when the category has none.
pub fn postlist(post_list: Vec<PostListEntry>) -> (r: Component)
    requires
        forall|k: int|
            0 <= k < post_list@.len() ==> 0 <= (#[trigger] post_list@[k]).post_date
                <= MAX_TIMESTAMP,
    ensures
        classed_element(r.content, "div"@, "postlist"@),
        r.content.content@.len() == 1,
        (match r.content.content@[0] {
            HtmlNode::Group(pair) => {
                &&& pair@.len() == 2
                &&& (match pair@[0] {
                    HtmlNode::Text(t) => t.0@ == "Posts"@,
                    _ => false,
                })
                &&& (if post_list@.len() > 0 {
                    match pair@[1] {
                        HtmlNode::Element(lo) => {
                            &&& lo.tag.name@ == "lo"@
                            &&& lo.content@.len() == post_list@.len()
                            &&& (forall|k: int|
                                0 <= k < post_list@.len() ==> is_post_row(
                                    #[trigger] lo.content@[k],
                                    post_list@[k],
                                ))
                        },
                        _ => false,
                    }
                } else {
                    match pair@[1] {
                        HtmlNode::Element(it) => {
                            &&& it.tag.name@ == "i"@
                            &&& it.content@.len() == 1
                            &&& (match it.content@[0] {
                                HtmlNode::Text(t) => t.0@ == "No posts here :("@,
                                _ => false,
                            })
                        },
                        _ => false,
                    }
                })
            },
            _ => false,
        }),
        r.style@.len() == 1,
        style_is(r.style@[0], POSTLIST_STYLE_HANDLE, QueryView::Plain, ".postlist"@),
{
    let has_posts = post_list.len() > 0;
    let listing: HtmlNode = if has_posts {
        let ghost entries0 = post_list@;
        let mut rows: Vec<HtmlNode> = Vec::new();
        let mut rest = post_list;
        let n = rest.len();
        let mut i: usize = 0;
        while i < n
            invariant
                i <= n,
                n == entries0.len(),
                rest@ =~= entries0.skip(i as int),
                rows@.len() == i,
                forall|k: int|
                    0 <= k < entries0.len() ==> 0 <= (#[trigger] entries0[k]).post_date
                        <= MAX_TIMESTAMP,
                forall|k: int| 0 <= k < i ==> is_post_row(#[trigger] rows@[k], entries0[k]),
            decreases n - i,
        {
            proof {
                assert(entries0.skip(i as int)[0] == entries0[i as int]);
                assert(entries0.skip(i as int).skip(1) =~= entries0.skip(i + 1));
            }
            let entry = rest.remove(0);
            proof {
                assert(rest@ =~= entries0.skip(i as int).skip(1));
            }
            let mut label = format_date_label(entry.post_date);
            label.append(" - ");
            label.append(entry.post_title.as_str());
            let link_node = HtmlNode::LinkText(
                html_link_content(
                    Link::ID(entry.post_id),
                    None,
                    HtmlNode::Text(HtmlPlaintext(label)),
                ),
            );
            let li = unary_element("li", false, link_node);
            rows.push(HtmlNode::Element(li));
            i = i + 1;
        }
        let mut lo = element("lo");
        lo.content = rows;
        HtmlNode::Element(lo)
    } else {
        HtmlNode::Element(
            html_italics(HtmlNode::Text(HtmlPlaintext("No posts here :(".to_owned()))),
        )
    };
    let mut pair: Vec<HtmlNode> = Vec::new();
    pair.push(HtmlNode::Text(HtmlPlaintext("Posts".to_owned())));
    pair.push(listing);
    let div = unary_element("div", false, HtmlNode::Group(pair));
    let mut attrs: Vec<HtmlAttribute> = Vec::new();
    attrs.push(HtmlAttribute { name: "class", value: Some("postlist".to_owned()) });
    let content_el = HtmlElement { attributes: attrs, ..div };
    let style = vec![
        StyleRule {
            handle: POSTLIST_STYLE_HANDLE,
            query: CSSQuery::Plain,
            selector: ".postlist",
            declarations: vec!["display: flex", "flex-direction: column"],
        },
    ];
    Component { content: content_el, style }
}

/// The wide box that holds a page's readable content.
pub fn contentbox(content: HtmlNode) -> (r: Component)
    ensures
        classed_element(r.content, "div"@, "contentbox font_text content_wide"@),
        r.content.content@ =~= seq![content],
        r.style@.len() == 1,
        style_is(r.style@[0], CONTENTBOX_STYLE_HANDLE, QueryView::Plain, ".contentbox"@),
{
    let div = unary_element("div", false, content);
    let mut attrs: Vec<HtmlAttribute> = Vec::new();
    attrs.push(
        HtmlAttribute {
            name: "class",
            value: Some("contentbox font_text content_wide".to_owned()),
        },
    );
    let content_el = HtmlElement { attributes: attrs, ..div };
    let style = vec![
        StyleRule {
            handle: CONTENTBOX_STYLE_HANDLE,
            query: CSSQuery::Plain,
            selector: ".contentbox",
            declarations: vec![
                "font-size: 1rem",
                "display: flex",
                "flex-direction: column",
                "gap: 1rem",
                "background: var(--colour-primary)",
                "padding: 1rem",
            ],
        },
    ];
    Component { content: content_el, style }
}

/// Empty space below the content, so short pages do not end abruptly.
pub fn content_bottom_spacer() -> (r: Component)
    ensures
        classed_element(r.content, "div"@, "content_bottom_spacer"@),
        r.content.content@ =~= Seq::<HtmlNode>::empty(),
        r.style@.len() == 1,
        style_is(
            r.style@[0],
            BOTTOM_SPACER_STYLE_HANDLE,
            QueryView::Plain,
            ".content_bottom_spacer"@,
        ),
{
    let mut div = element("div");
    let mut attrs: Vec<HtmlAttribute> = Vec::new();
    attrs.push(
        HtmlAttribute { name: "class", value: Some("content_bottom_spacer".to_owned()) },
    );
    div.attributes = attrs;
    let style = vec![
        StyleRule {
            handle: BOTTOM_SPACER_STYLE_HANDLE,
            query: CSSQuery::Plain,
            selector: ".content_bottom_spacer",
            declarations: vec!["width: 100%", "height: 16rem"],
        },
    ];
    Component { content: div, style }
}

/// The node is a `script` element deferring the given source.
pub open spec fn is_script_node(n: HtmlNode, src: Seq<char>) -> bool {
    match n {
        HtmlNode::Element(e) => {
            &&& e.tag.name@ == "script"@
            &&& e.attributes@.len() == 2
            &&& attr_is(e.attributes@[0], "src"@, Option::Some(src))
            &&& attr_is(e.attributes@[1], "defer"@, Option::None)
            &&& e.content@.len() == 0
        },
        _ => false,
    }
}

/// A whole page: the doctype, then the `html` element carrying the head
/// (title, robots policy, viewport, stylesheet and script links) and the
/// body.
pub fn page(
    stylesheet: HRef,
    scripts: Vec<HRef>,
    lang: &Language,
    title_text: String,
    no_robots: bool,
    body: HtmlNode,
) -> (r: HtmlNode)
    ensures
        (match r {
            HtmlNode::Group(top) => {
                &&& top@.len() == 2
                &&& (match top@[0] {
                    HtmlNode::Element(dt) => {
                        &&& dt.tag.name@ == "!DOCTYPE"@
                        &&& dt.attributes@.len() == 1
                        &&& attr_is(dt.attributes@[0], "html"@, Option::None)
                        &&& dt.content@.len() == 0
                    },
                    _ => false,
                })
                &&& (match top@[1] {
                    HtmlNode::Element(html) => {
                        &&& html.tag.name@ == "html"@
                        &&& html.attributes@.len() == 1
                        &&& attr_is(
                            html.attributes@[0],
                            "lang"@,
                            Option::Some(crate::util::spec_language_tag(*lang)),
                        )
                        &&& html.content@.len() == 1
                        &&& (match html.content@[0] {
                            HtmlNode::Group(sections) => {
                                &&& sections@.len() == 2
                                &&& (match sections@[0] {
                                    HtmlNode::Element(head) => {
                                        &&& head.tag.name@ == "head"@
                                        &&& head.content@.len() == 1
                                        &&& (match head.content@[0] {
                                            HtmlNode::Group(hs) => {
                                                &&& hs@.len() == 5 + scripts@.len()
                                                &&& (match hs@[0] {
                                                    HtmlNode::Element(m) => m.tag.name@ == "meta"@
                                                        && m.attributes@.len() == 1 && attr_is(
                                                        m.attributes@[0],
                                                        "charset"@,
                                                        Option::Some("UTF-8"@),
                                                    ) && m.content@.len() == 0,
                                                    _ => false,
                                                })
                                                &&& (match hs@[3] {
                                                    HtmlNode::Element(m) => m.tag.name@ == "meta"@
                                                        && m.attributes@.len() == 2 && attr_is(
                                                        m.attributes@[0],
                                                        "name"@,
                                                        Option::Some("viewport"@),
                                                    ) && attr_is(
                                                        m.attributes@[1],
                                                        "content"@,
                                                        Option::Some(
                                                            "width=device-width, initial-scale=1"@,
                                                        ),
                                                    ) && m.content@.len() == 0,
                                                    _ => false,
                                                })
                                                &&& (match hs@[1] {
                                                    HtmlNode::Element(t) => t.tag.name@ == "title"@
                                                        && t.content@.len() == 1 && (
                                                    match t.content@[0] {
                                                        HtmlNode::Text(txt) => txt.0@ == title_text@,
                                                        _ => false,
                                                    }),
                                                    _ => false,
                                                })
                                                &&& (match hs@[2] {
                                                    HtmlNode::Element(m) => m.tag.name@ == "meta"@
                                                        && m.attributes@.len() == 2 && attr_is(
                                                        m.attributes@[0],
                                                        "name"@,
                                                        Option::Some("robots"@),
                                                    ) && attr_is(
                                                        m.attributes@[1],
                                                        "content"@,
                                                        Option::Some(
                                                            if no_robots {
                                                                "none"@
                                                            } else {
                                                                "all"@
                                                            },
                                                        ),
                                                    ),
                                                    _ => false,
                                                })
                                                &&& (match hs@[4] {
                                                    HtmlNode::Element(lk) => lk.tag.name@ == "link"@
                                                        && lk.attributes@.len() == 2 && attr_is(
                                                        lk.attributes@[0],
                                                        "href"@,
                                                        Option::Some(stylesheet.0@),
                                                    ) && attr_is(
                                                        lk.attributes@[1],
                                                        "rel"@,
                                                        Option::Some("stylesheet"@),
                                                    ),
                                                    _ => false,
                                                })
                                                &&& (forall|k: int|
                                                    0 <= k < scripts@.len() ==> is_script_node(
                                                        #[trigger] hs@[5 + k],
                                                        scripts@[k].0@,
                                                    ))
                                            },
                                            _ => false,
                                        })
                                    },
                                    _ => false,
                                })
                                &&& (match sections@[1] {
                                    HtmlNode::Element(b) => {
                                        &&& b.tag.name@ == "body"@
                                        &&& b.content@ =~= seq![body]
                                    },
                                    _ => false,
                                })
                            },
                            _ => false,
                        })
                    },
                    _ => false,
                })
            },
            _ => false,
        }),
{
    let mut doctype = element("!DOCTYPE");
    let mut dt_attrs: Vec<HtmlAttribute> = Vec::new();
    dt_attrs.push(HtmlAttribute { name: "html", value: None });
    doctype.attributes = dt_attrs;

    let mut head_items: Vec<HtmlNode> = Vec::new();
    let mut charset = element("meta");
    let mut cs_attrs: Vec<HtmlAttribute> = Vec::new();
    cs_attrs.push(HtmlAttribute { name: "charset", value: Some("UTF-8".to_owned()) });
    charset.attributes = cs_attrs;
    head_items.push(HtmlNode::Element(charset));

    let title_el = unary_element("title", false, HtmlNode::Text(HtmlPlaintext(title_text)));
    head_items.push(HtmlNode::Element(title_el));

    let mut robots = element("meta");
    let mut ro_attrs: Vec<HtmlAttribute> = Vec::new();
    ro_attrs.push(HtmlAttribute { name: "name", value: Some("robots".to_owned()) });
    ro_attrs.push(
        HtmlAttribute {
            name: "content",
            value: Some(if no_robots { "none".to_owned() } else { "all".to_owned() }),
        },
    );
    robots.attributes = ro_attrs;
    head_items.push(HtmlNode::Element(robots));

    let mut viewport = element("meta");
    let mut vp_attrs: Vec<HtmlAttribute> = Vec::new();
    vp_attrs.push(HtmlAttribute { name: "name", value: Some("viewport".to_owned()) });
    vp_attrs.push(
        HtmlAttribute {
            name: "content",
            value: Some("width=device-width, initial-scale=1".to_owned()),
        },
    );
    viewport.attributes = vp_attrs;
    head_items.push(HtmlNode::Element(viewport));

    let mut css_link = element("link");
    let mut cl_attrs: Vec<HtmlAttribute> = Vec::new();
    cl_attrs.push(HtmlAttribute { name: "href", value: Some(stylesheet.0) });
    cl_attrs.push(HtmlAttribute { name: "rel", value: Some("stylesheet".to_owned()) });
    css_link.attributes = cl_attrs;
    head_items.push(HtmlNode::Element(css_link));

    let ghost scripts0 = scripts@;
    let ghost pre_head = head_items@;
    let mut rest = scripts;
    let n = rest.len();
    let mut i: usize = 0;
    while i < n
        invariant
            i <= n,
            n == scripts0.len(),
            rest@ =~= scripts0.skip(i as int),
            head_items@.len() == 5 + i,
            pre_head.len() == 5,
            forall|k: int| 0 <= k < i ==> is_script_node(#[trigger] head_items@[5 + k], scripts0[k].0@),
            forall|k: int| 0 <= k < 5 ==> #[trigger] head_items@[k] == pre_head[k],
        decreases n - i,
    {
        proof {
            assert(scripts0.skip(i as int)[0] == scripts0[i as int]);
            assert(scripts0.skip(i as int).skip(1) =~= scripts0.skip(i + 1));
        }
        let href = rest.remove(0);
        proof {
            assert(rest@ =~= scripts0.skip(i as int).skip(1));
        }
        let mut script = element("script");
        let mut sc_attrs: Vec<HtmlAttribute> = Vec::new();
        sc_attrs.push(HtmlAttribute { name: "src", value: Some(href.0) });
        sc_attrs.push(HtmlAttribute { name: "defer", value: None });
        script.attributes = sc_attrs;
        head_items.push(HtmlNode::Element(script));
        i = i + 1;
    }

    let head = unary_element("head", false, HtmlNode::Group(head_items));
    let body_el = unary_element("body", false, body);
    let mut sections: Vec<HtmlNode> = Vec::new();
    sections.push(HtmlNode::Element(head));
    sections.push(HtmlNode::Element(body_el));
    let mut html = unary_element("html", false, HtmlNode::Group(sections));
    let mut html_attrs: Vec<HtmlAttribute> = Vec::new();
    html_attrs.push(HtmlAttribute { name: "lang", value: Some(lang.as_rfc5646_tag().to_owned()) });
    html.attributes = html_attrs;

    let mut top: Vec<HtmlNode> = Vec::new();
    top.push(HtmlNode::Element(doctype));
    top.push(HtmlNode::Element(html));
    HtmlNode::Group(top)
}

} // verus!

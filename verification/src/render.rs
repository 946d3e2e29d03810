//! The executable serializer for the renderable tree, proved to produce
//! exactly the layout that `spec_render` describes, registering each node's
//! style rules along the way.

use vstd::prelude::*;
use crate::context::{spec_link_title, WebsiteRenderContext};
use crate::css::{spec_register, CSSBuilder, StyleRule};
use crate::escape::{append_escaped_attr, append_escaped_text, escape_attr_chars, escaped_text};
use crate::html::{
    spec_attr_pair, spec_attrs_text, spec_find_nl, spec_format_prefix, spec_href_of,
    spec_link_routes_ok, spec_links_ok, spec_list_links_ok, spec_pretty_text,
    spec_register_handles, spec_render, spec_render_anchor, spec_render_element, spec_render_list,
    spec_render_sep, spec_render_text, spec_sp4, spec_strip_cr, spec_style_handles,
    spec_style_handles_list, HtmlAttribute, HtmlElement, HtmlFormat, HtmlNode,
    LINK_BUTTON_STYLE_HANDLE,
};
use crate::routes::{HRef, Link, LinkError};
use crate::strutil::push_char;
use crate::tables::{SegTable, TitleTable};

verus! {

/// Serialization leaves everything of the context alone except the style
/// registry, which only grows.
pub open spec fn ctx_preserved(a: WebsiteRenderContext, b: WebsiteRenderContext) -> bool {
    &&& b.title == a.title
    &&& b.current_page == a.current_page
    &&& b.stylesheet_link == a.stylesheet_link
    &&& b.document_titles == a.document_titles
    &&& b.global_scripts == a.global_scripts
    &&& b.categories == a.categories
    &&& b.routes == a.routes
    &&& b.stylesheet.spec_imports() == a.stylesheet.spec_imports()
    &&& b.wf()
}

/// The style registry after serialization: the handles that were run through
/// registration extend the handle sequence as `spec_register_handles` says,
/// and the rules already present are untouched.
pub open spec fn styles_advanced(a: CSSBuilder, b: CSSBuilder, hs: Seq<u64>) -> bool {
    &&& b.spec_rules().map_values(|r: StyleRule| r.handle) == spec_register_handles(
        a.spec_rules().map_values(|r: StyleRule| r.handle),
        hs,
    )
    &&& forall|x: int| 0 <= x < a.spec_rules().len() ==> b.spec_rules()[x] == a.spec_rules()[x]
    &&& b.spec_rules().len() >= a.spec_rules().len()
}

/// Two advances compose into one over the concatenated handles.
pub proof fn lemma_styles_advanced_trans(
    a: CSSBuilder,
    b: CSSBuilder,
    c: CSSBuilder,
    h1: Seq<u64>,
    h2: Seq<u64>,
)
    requires
        styles_advanced(a, b, h1),
        styles_advanced(b, c, h2),
    ensures
        styles_advanced(a, c, h1 + h2),
{
    crate::html::lemma_register_handles_concat(
        a.spec_rules().map_values(|r: StyleRule| r.handle),
        h1,
        h2,
    );
}

/// Registering nothing advances by the empty handle run.
pub proof fn lemma_styles_advanced_refl(a: CSSBuilder)
    ensures
        styles_advanced(a, a, Seq::<u64>::empty()),
{
}

/// One registration advances the handle sequence by that one handle.
pub proof fn lemma_register_one(rules: Seq<StyleRule>, rule: StyleRule)
    ensures
        spec_register(rules, rule).map_values(|r: StyleRule| r.handle) =~= spec_register_handles(
            rules.map_values(|r: StyleRule| r.handle),
            seq![rule.handle],
        ),
        forall|x: int| 0 <= x < rules.len() ==> #[trigger] spec_register(rules, rule)[x] == rules[x],
        spec_register(rules, rule).len() >= rules.len(),
{
    let hs = rules.map_values(|r: StyleRule| r.handle);
    let single = seq![rule.handle];
    assert(single.skip(1) =~= Seq::<u64>::empty());
    assert(single[0] == rule.handle);
    assert(single.len() == 1);
    let step = if hs.contains(rule.handle) {
        hs
    } else {
        hs.push(rule.handle)
    };
    assert(spec_register_handles(hs, single) == spec_register_handles(step, single.skip(1)));
    assert(spec_register_handles(step, Seq::<u64>::empty()) == step);
    if hs.contains(rule.handle) {
        assert(spec_register(rules, rule) == rules);
    } else {
        assert(spec_register(rules, rule) == rules.push(rule));
        assert(spec_register(rules, rule).map_values(|r: StyleRule| r.handle) =~= hs.push(
            rule.handle,
        ));
    }
}

// ---------------------------------------------------------------------------
// Text layout helpers
// ---------------------------------------------------------------------------

/// The first line-feed position is pinned by a scan.
proof fn lemma_find_nl_value(t: Seq<char>, i: int)
    requires
        0 <= i <= t.len(),
        forall|x: int| 0 <= x < i ==> t[x] != '\n',
        i < t.len() ==> t[i] == '\n',
    ensures
        spec_find_nl(t) == i,
    decreases i,
{
    if t.len() == 0 {
    } else if t[0] == '\n' {
        assert(i == 0);
    } else {
        assert(i >= 1);
        assert(forall|x: int| 0 <= x < i - 1 ==> t.skip(1)[x] == t[x + 1]);
        if i - 1 < t.skip(1).len() {
            assert(t.skip(1)[i - 1] == t[i]);
        }
        lemma_find_nl_value(t.skip(1), i - 1);
    }
}

/// Appends the pretty layout of already-escaped text: lines joined by a
/// newline plus the indent prefix, with the final line terminator dropped.
fn append_pretty(out: &mut String, txt: &str, prefix: &String)
    ensures
        final(out)@ == old(out)@ + spec_pretty_text(txt@, prefix@),
{
    let n = txt.unicode_len();
    let mut s: usize = 0;
    proof {
        assert(txt@.skip(0) =~= txt@);
    }
    while s < n
        invariant
            s <= n,
            n == txt@.len(),
            old(out)@ + spec_pretty_text(txt@, prefix@) == out@ + spec_pretty_text(
                txt@.skip(s as int),
                prefix@,
            ),
        decreases n - s,
    {
        let ghost suffix = txt@.skip(s as int);
        // find the next line feed
        let mut i: usize = s;
        while i < n
            invariant
                s <= i <= n,
                n == txt@.len(),
                forall|x: int| s <= x < i ==> txt@[x] != '\n',
            ensures
                s <= i <= n,
                forall|x: int| s <= x < i ==> txt@[x] != '\n',
                i < n ==> txt@[i as int] == '\n',
            decreases n - i,
        {
            if txt.get_char(i) == '\n' {
                break ;
            }
            i = i + 1;
        }
        proof {
            assert(forall|x: int| 0 <= x < i - s ==> suffix[x] == txt@[x + s]);
            if i < n {
                assert(suffix[i - s] == txt@[i as int]);
            }
            lemma_find_nl_value(suffix, i - s);
        }
        // the line's end, with one trailing carriage return stripped
        let line_end: usize = if i > s && txt.get_char(i - 1) == '\r' {
            i - 1
        } else {
            i
        };
        let piece = txt.substring_char(s, line_end);
        out.append(piece);
        proof {
            let fl = spec_find_nl(suffix);
            assert(fl == i - s);
            if i == n {
                // last line, no terminator
                assert(suffix.take(fl) =~= suffix);
                assert(spec_strip_cr(suffix) =~= txt@.subrange(s as int, line_end as int)) by {
                    if suffix.len() > 0 && suffix.last() == '\r' {
                        assert(txt@[n - 1] == '\r');
                        assert(suffix.drop_last() =~= txt@.subrange(s as int, n - 1));
                    } else {
                        assert(suffix =~= txt@.subrange(s as int, n as int));
                    }
                }
                assert(spec_pretty_text(suffix, prefix@) == spec_strip_cr(suffix));
            } else {
                let line = suffix.take(fl);
                assert(line =~= txt@.subrange(s as int, i as int));
                assert(spec_strip_cr(line) =~= txt@.subrange(s as int, line_end as int)) by {
                    if line.len() > 0 && line.last() == '\r' {
                        assert(txt@[i - 1] == '\r');
                        assert(line.drop_last() =~= txt@.subrange(s as int, i - 1));
                    }
                }
            }
        }
        if i >= n {
            // no further line
            s = n;
        } else if i == n - 1 {
            // a trailing line terminator is dropped
            proof {
                assert(spec_pretty_text(suffix, prefix@) == spec_strip_cr(
                    suffix.take(spec_find_nl(suffix)),
                ));
                assert(txt@.skip(n as int) =~= Seq::<char>::empty());
                assert(spec_pretty_text(txt@.skip(n as int), prefix@) =~= Seq::<char>::empty());
                assert(out@ + Seq::<char>::empty() =~= out@);
            }
            s = n;
        } else {
            push_char(out, '\n');
            out.append(prefix.as_str());
            proof {
                let fl = spec_find_nl(suffix);
                assert(suffix.skip(fl + 1) =~= txt@.skip(i + 1));
                assert(spec_pretty_text(suffix, prefix@) == spec_strip_cr(suffix.take(fl)) + seq![
                    '\n',
                ] + prefix@ + spec_pretty_text(txt@.skip(i + 1), prefix@));
            }
            s = i + 1;
        }
    }
    proof {
        assert(txt@.skip(n as int) =~= Seq::<char>::empty());
        assert(spec_pretty_text(txt@.skip(n as int), prefix@) =~= Seq::<char>::empty());
        assert(out@ + Seq::<char>::empty() =~= out@);
    }
}

/// Appends escaped plain text under the ambient layout.
fn write_text(out: &mut String, txt: &str, pre: bool, prefix: &String)
    ensures
        final(out)@ == old(out)@ + spec_render_text(txt@, pre, prefix@),
{
    if pre {
        append_escaped_text(out, txt);
    } else {
        let mut escaped = String::new();
        append_escaped_text(&mut escaped, txt);
        proof {
            assert(escaped@ == escaped_text(txt@));
        }
        append_pretty(out, escaped.as_str(), prefix);
    }
}

/// Appends one attribute with a value (bare when the value is empty).
fn write_attr_value(out: &mut String, name: &str, value: &str)
    ensures
        final(out)@ == old(out)@ + spec_attr_pair(name@, Option::Some(value@)),
{
    push_char(out, ' ');
    out.append(name);
    if !value.is_empty() {
        push_char(out, '=');
        push_char(out, '"');
        append_escaped_attr(out, value);
        push_char(out, '"');
        proof {
            assert(final(out)@ =~= old(out)@ + (seq![' '] + name@ + seq!['=', '"']
                + escape_attr_chars(value@) + seq!['"']));
        }
    } else {
        proof {
            assert(final(out)@ =~= old(out)@ + (seq![' '] + name@));
        }
    }
}

/// Appends one attribute of an element.
fn write_attr(out: &mut String, attr: &HtmlAttribute)
    ensures
        final(out)@ == old(out)@ + spec_attr_pair(
            attr.name@,
            match attr.value {
                Option::Some(s) => Option::Some(s@),
                Option::None => Option::None,
            },
        ),
{
    match &attr.value {
        Some(v) => {
            write_attr_value(out, attr.name, v.as_str());
        },
        None => {
            push_char(out, ' ');
            out.append(attr.name);
            proof {
                assert(final(out)@ =~= old(out)@ + (seq![' '] + attr.name@));
            }
        },
    }
}

proof fn lemma_attrs_text_snoc(attrs: Seq<HtmlAttribute>, i: int)
    requires
        0 <= i < attrs.len(),
    ensures
        spec_attrs_text(attrs.take(i + 1)) == spec_attrs_text(attrs.take(i)) + spec_attr_pair(
            attrs[i].name@,
            match attrs[i].value {
                Option::Some(s) => Option::Some(s@),
                Option::None => Option::None,
            },
        ),
    decreases i,
{
    if i == 0 {
        assert(attrs.take(1)[0] == attrs[0]);
        assert(attrs.take(1).skip(1) =~= Seq::<HtmlAttribute>::empty());
        assert(attrs.take(0) =~= Seq::<HtmlAttribute>::empty());
        assert(spec_attrs_text(attrs.take(1)) =~= spec_attrs_text(attrs.take(0)) + spec_attr_pair(
            attrs[0].name@,
            match attrs[0].value {
                Option::Some(s) => Option::Some(s@),
                Option::None => Option::None,
            },
        ));
    } else {
        lemma_attrs_text_snoc(attrs.skip(1), i - 1);
        assert(attrs.take(i + 1)[0] == attrs[0]);
        assert(attrs.take(i + 1).skip(1) =~= attrs.skip(1).take(i));
        assert(attrs.take(i)[0] == attrs[0]);
        assert(attrs.take(i).skip(1) =~= attrs.skip(1).take(i - 1));
        assert(attrs.skip(1)[i - 1] == attrs[i]);
        assert(spec_attrs_text(attrs.take(i + 1)) =~= spec_attrs_text(attrs.take(i))
            + spec_attr_pair(
            attrs[i].name@,
            match attrs[i].value {
                Option::Some(s) => Option::Some(s@),
                Option::None => Option::None,
            },
        ));
    }
}

/// Appends all attributes of an element in emission order.
fn write_attrs(out: &mut String, attrs: &Vec<HtmlAttribute>)
    ensures
        final(out)@ == old(out)@ + spec_attrs_text(attrs@),
{
    let n = attrs.len();
    let mut i: usize = 0;
    proof {
        assert(attrs@.take(0) =~= Seq::<HtmlAttribute>::empty());
        assert(old(out)@ + spec_attrs_text(attrs@.take(0)) =~= old(out)@);
    }
    while i < n
        invariant
            i <= n,
            n == attrs@.len(),
            out@ == old(out)@ + spec_attrs_text(attrs@.take(i as int)),
        decreases n - i,
    {
        write_attr(out, &attrs[i]);
        proof {
            lemma_attrs_text_snoc(attrs@, i as int);
        }
        i = i + 1;
    }
    proof {
        assert(attrs@.take(n as int) =~= attrs@);
    }
}

/// A copy of the prefix, one indentation level deeper.
fn extend_prefix(prefix: &String) -> (r: String)
    ensures
        r@ == prefix@ + spec_sp4(),
{
    let mut p = prefix.clone();
    push_char(&mut p, ' ');
    push_char(&mut p, ' ');
    push_char(&mut p, ' ');
    push_char(&mut p, ' ');
    proof {
        assert(p@ =~= prefix@ + spec_sp4());
    }
    p
}

// ---------------------------------------------------------------------------
// Link checking
// ---------------------------------------------------------------------------

/// Whether one link resolves, naming the failure.
fn check_link(
    l: &Link,
    context: &WebsiteRenderContext,
    need_title: bool,
) -> (r: Result<(), LinkError>)
    requires
        context.wf(),
    ensures
        match r {
            Ok(_) => spec_link_routes_ok(*l, context.routes.table, context.spec_current()) && (
            need_title ==> spec_link_title(*l, context.document_titles) is Some),
            Err(e) => {
                &&& match e {
                    LinkError::UnknownPage { id } => !context.routes.table.spec_contains(id@),
                    LinkError::MissingTitle { id } => context.document_titles.spec_get(id@) is None,
                }
                &&& !(spec_link_routes_ok(*l, context.routes.table, context.spec_current()) && (
                need_title ==> spec_link_title(*l, context.document_titles) is Some))
            },
        },
{
    match l {
        Link::Custom { .. } => Ok(()),
        Link::ID(id) => {
            let current = context.current_page();
            if !context.routes.table.contains(current.0) {
                return Err(LinkError::UnknownPage { id: current.0.to_owned() });
            }
            if !context.routes.table.contains(id.as_str()) {
                return Err(LinkError::UnknownPage { id: id.clone() });
            }
            if need_title {
                match context.document_titles.get(id.as_str()) {
                    Some(_) => Ok(()),
                    None => Err(LinkError::MissingTitle { id: id.clone() }),
                }
            } else {
                Ok(())
            }
        },
    }
}

/// Whether every link in the tree resolves, naming the first failure.
fn check_links(n: &HtmlNode, context: &WebsiteRenderContext) -> (r: Result<(), LinkError>)
    requires
        context.wf(),
    ensures
        match r {
            Ok(_) => spec_links_ok(
                *n,
                context.document_titles,
                context.routes.table,
                context.spec_current(),
            ),
            Err(e) => {
                &&& !spec_links_ok(
                    *n,
                    context.document_titles,
                    context.routes.table,
                    context.spec_current(),
                )
                &&& match e {
                    LinkError::UnknownPage { id } => !context.routes.table.spec_contains(id@),
                    LinkError::MissingTitle { id } => context.document_titles.spec_get(id@) is None,
                }
            },
        },
    decreases *n, 2int,
{
    match n {
        HtmlNode::Text(_) => Ok(()),
        HtmlNode::Raw(_) => Ok(()),
        HtmlNode::Element(e) => check_links_list(&e.content, context),
        HtmlNode::Group(g) => check_links_list(g, context),
        HtmlNode::LinkText(l) => {
            check_link(&l.link, context, true)?;
            match &l.content {
                Some(c) => check_links(c, context),
                None => Ok(()),
            }
        },
        HtmlNode::LinkButton(b) => check_link(&b.0, context, true),
        HtmlNode::Image(img) => check_link(&img.source, context, false),
        HtmlNode::Component(c) => check_links_list(&c.content.content, context),
    }
}

fn check_links_list(items: &Vec<HtmlNode>, context: &WebsiteRenderContext) -> (r: Result<
    (),
    LinkError,
>)
    requires
        context.wf(),
    ensures
        match r {
            Ok(_) => spec_list_links_ok(
                items@,
                context.document_titles,
                context.routes.table,
                context.spec_current(),
            ),
            Err(e) => {
                &&& !spec_list_links_ok(
                    items@,
                    context.document_titles,
                    context.routes.table,
                    context.spec_current(),
                )
                &&& match e {
                    LinkError::UnknownPage { id } => !context.routes.table.spec_contains(id@),
                    LinkError::MissingTitle { id } => context.document_titles.spec_get(id@) is None,
                }
            },
        },
    decreases items@, 1int,
{
    let ghost titles = context.document_titles;
    let ghost routes = context.routes.table;
    let ghost current = context.spec_current();
    let n = items.len();
    let mut i: usize = 0;
    proof {
        assert(items@.skip(0) =~= items@);
    }
    while i < n
        invariant
            i <= n,
            n == items@.len(),
            titles == context.document_titles,
            routes == context.routes.table,
            current == context.spec_current(),
            context.wf(),
            spec_list_links_ok(items@, titles, routes, current) == spec_list_links_ok(
                items@.skip(i as int),
                titles,
                routes,
                current,
            ),
        decreases n - i,
    {
        proof {
            assert(items@.skip(i as int)[0] == items@[i as int]);
            assert(items@.skip(i as int).skip(1) =~= items@.skip(i + 1));
        }
        match check_links(&items[i], context) {
            Ok(_) => {},
            Err(e) => {
                proof {
                    lemma_list_links_not_ok(items@, titles, routes, current, i as int);
                }
                return Err(e);
            },
        }
        i = i + 1;
    }
    proof {
        assert(items@.skip(n as int) =~= Seq::<HtmlNode>::empty());
    }
    Ok(())
}

/// A member whose links do not resolve spoils the whole list.
proof fn lemma_list_links_not_ok(
    items: Seq<HtmlNode>,
    titles: TitleTable,
    routes: SegTable,
    current: Seq<char>,
    i: int,
)
    requires
        0 <= i < items.len(),
        !spec_links_ok(items[i], titles, routes, current),
    ensures
        !spec_list_links_ok(items, titles, routes, current),
    decreases i,
{
    if i == 0 {
    } else {
        assert(items.skip(1)[i - 1] == items[i]);
        lemma_list_links_not_ok(items.skip(1), titles, routes, current, i - 1);
    }
}

/// Resolvability of the links of one list member, from the whole list.
pub proof fn lemma_list_links_ok_index(
    items: Seq<HtmlNode>,
    titles: TitleTable,
    routes: SegTable,
    current: Seq<char>,
    i: int,
)
    requires
        spec_list_links_ok(items, titles, routes, current),
        0 <= i < items.len(),
    ensures
        spec_links_ok(items[i], titles, routes, current),
    decreases i,
{
    if i == 0 {
    } else {
        assert(items.skip(1)[i - 1] == items[i]);
        lemma_list_links_ok_index(items.skip(1), titles, routes, current, i - 1);
    }
}

// ---------------------------------------------------------------------------
// The serializer
// ---------------------------------------------------------------------------

proof fn lemma_render_list_snoc(
    items: Seq<HtmlNode>,
    i: int,
    pre: bool,
    prefix: Seq<char>,
    titles: TitleTable,
    routes: SegTable,
    current: Seq<char>,
)
    requires
        0 <= i < items.len(),
    ensures
        spec_render_list(items.take(i + 1), pre, prefix, titles, routes, current)
            == spec_render_list(items.take(i), pre, prefix, titles, routes, current) + spec_render(
            items[i],
            pre,
            prefix,
            titles,
            routes,
            current,
        ),
    decreases i,
{
    if i == 0 {
        assert(items.take(1)[0] == items[0]);
        assert(items.take(1).skip(1) =~= Seq::<HtmlNode>::empty());
        assert(items.take(0) =~= Seq::<HtmlNode>::empty());
        assert(spec_render_list(items.take(1), pre, prefix, titles, routes, current)
            =~= spec_render_list(items.take(0), pre, prefix, titles, routes, current)
            + spec_render(items[0], pre, prefix, titles, routes, current));
    } else {
        lemma_render_list_snoc(items.skip(1), i - 1, pre, prefix, titles, routes, current);
        assert(items.take(i + 1)[0] == items[0]);
        assert(items.take(i + 1).skip(1) =~= items.skip(1).take(i));
        assert(items.take(i)[0] == items[0]);
        assert(items.take(i).skip(1) =~= items.skip(1).take(i - 1));
        assert(items.skip(1)[i - 1] == items[i]);
        assert(spec_render_list(items.take(i + 1), pre, prefix, titles, routes, current)
            =~= spec_render_list(items.take(i), pre, prefix, titles, routes, current)
            + spec_render(items[i], pre, prefix, titles, routes, current));
    }
}

proof fn lemma_render_sep_snoc(
    items: Seq<HtmlNode>,
    i: int,
    prefix: Seq<char>,
    titles: TitleTable,
    routes: SegTable,
    current: Seq<char>,
)
    requires
        0 <= i < items.len(),
    ensures
        i == 0 ==> spec_render_sep(items.take(1), prefix, titles, routes, current) == spec_render(
            items[0],
            false,
            prefix,
            titles,
            routes,
            current,
        ),
        i > 0 ==> spec_render_sep(items.take(i + 1), prefix, titles, routes, current)
            == spec_render_sep(items.take(i), prefix, titles, routes, current) + seq!['\n'] + prefix
            + spec_render(items[i], false, prefix, titles, routes, current),
    decreases i,
{
    if i == 0 {
        assert(items.take(1)[0] == items[0]);
        assert(items.take(1).len() == 1);
    } else if i == 1 {
        assert(items.take(2)[0] == items[0]);
        assert(items.take(2).skip(1) =~= seq![items[1]]);
        assert(spec_render_sep(seq![items[1]], prefix, titles, routes, current) == spec_render(
            items[1],
            false,
            prefix,
            titles,
            routes,
            current,
        ));
        assert(items.take(1)[0] == items[0]);
        assert(items.take(1).len() == 1);
        assert(spec_render_sep(items.take(2), prefix, titles, routes, current) =~= spec_render_sep(
            items.take(1),
            prefix,
            titles,
            routes,
            current,
        ) + seq!['\n'] + prefix + spec_render(items[1], false, prefix, titles, routes, current));
    } else {
        lemma_render_sep_snoc(items.skip(1), i - 1, prefix, titles, routes, current);
        assert(items.take(i + 1)[0] == items[0]);
        assert(items.take(i + 1).skip(1) =~= items.skip(1).take(i));
        assert(items.take(i)[0] == items[0]);
        assert(items.take(i).skip(1) =~= items.skip(1).take(i - 1));
        assert(items.skip(1)[i - 1] == items[i]);
        assert(items.take(i + 1).len() == i + 1);
        assert(items.take(i).len() == i);
        assert(spec_render_sep(items.take(i + 1), prefix, titles, routes, current)
            =~= spec_render_sep(items.take(i), prefix, titles, routes, current) + seq!['\n']
            + prefix + spec_render(items[i], false, prefix, titles, routes, current));
    }
}

proof fn lemma_style_handles_list_snoc(items: Seq<HtmlNode>, i: int)
    requires
        0 <= i < items.len(),
    ensures
        spec_style_handles_list(items.take(i + 1)) == spec_style_handles_list(items.take(i))
            + spec_style_handles(items[i]),
    decreases i,
{
    if i == 0 {
        assert(items.take(1)[0] == items[0]);
        assert(items.take(1).skip(1) =~= Seq::<HtmlNode>::empty());
        assert(items.take(0) =~= Seq::<HtmlNode>::empty());
        assert(spec_style_handles_list(items.take(1)) =~= spec_style_handles_list(items.take(0))
            + spec_style_handles(items[0]));
    } else {
        lemma_style_handles_list_snoc(items.skip(1), i - 1);
        assert(items.take(i + 1)[0] == items[0]);
        assert(items.take(i + 1).skip(1) =~= items.skip(1).take(i));
        assert(items.take(i)[0] == items[0]);
        assert(items.take(i).skip(1) =~= items.skip(1).take(i - 1));
        assert(items.skip(1)[i - 1] == items[i]);
        assert(spec_style_handles_list(items.take(i + 1)) =~= spec_style_handles_list(
            items.take(i),
        ) + spec_style_handles(items[i]));
    }
}

/// The style rule every link button registers.
fn link_button_style() -> (r: StyleRule)
    ensures
        r.handle == LINK_BUTTON_STYLE_HANDLE,
{
    let mut declarations: Vec<&'static str> = Vec::new();
    declarations.push("display: flex");
    declarations.push("align-items: center");
    declarations.push("text-decoration: none");
    declarations.push("padding: 0.5rem");
    declarations.push("box-sizing: border-box");
    StyleRule {
        handle: LINK_BUTTON_STYLE_HANDLE,
        query: crate::css::CSSQuery::Plain,
        selector: ".link-button",
        declarations,
    }
}

/// Emits the children of a sibling list one after the other, registering
/// their styles as they go.
fn write_children(
    items: &Vec<HtmlNode>,
    context: &mut WebsiteRenderContext,
    out: &mut String,
    pre: bool,
    prefix: &String,
)
    requires
        old(context).wf(),
        spec_list_links_ok(
            items@,
            old(context).document_titles,
            old(context).routes.table,
            old(context).spec_current(),
        ),
    ensures
        ctx_preserved(*old(context), *final(context)),
        styles_advanced(
            old(context).stylesheet,
            final(context).stylesheet,
            spec_style_handles_list(items@),
        ),
        final(out)@ == old(out)@ + spec_render_list(
            items@,
            pre,
            prefix@,
            old(context).document_titles,
            old(context).routes.table,
            old(context).spec_current(),
        ),
    decreases items@, 4int,
{
    let ghost ctx0 = *context;
    let n = items.len();
    let mut i: usize = 0;
    proof {
        assert(items@.take(0) =~= Seq::<HtmlNode>::empty());
        assert(old(out)@ + spec_render_list(
            items@.take(0),
            pre,
            prefix@,
            ctx0.document_titles,
            ctx0.routes.table,
            ctx0.spec_current(),
        ) =~= old(out)@);
        lemma_styles_advanced_refl(ctx0.stylesheet);
        assert(spec_style_handles_list(items@.take(0)) =~= Seq::<u64>::empty());
    }
    while i < n
        invariant
            i <= n,
            n == items@.len(),
            ctx_preserved(ctx0, *context),
            spec_list_links_ok(
                items@,
                ctx0.document_titles,
                ctx0.routes.table,
                ctx0.spec_current(),
            ),
            styles_advanced(
                ctx0.stylesheet,
                context.stylesheet,
                spec_style_handles_list(items@.take(i as int)),
            ),
            out@ == old(out)@ + spec_render_list(
                items@.take(i as int),
                pre,
                prefix@,
                ctx0.document_titles,
                ctx0.routes.table,
                ctx0.spec_current(),
            ),
        decreases n - i,
    {
        proof {
            lemma_list_links_ok_index(
                items@,
                ctx0.document_titles,
                ctx0.routes.table,
                ctx0.spec_current(),
                i as int,
            );
        }
        let ghost mid = *context;
        build_inner(&items[i], context, out, pre, prefix);
        proof {
            lemma_render_list_snoc(
                items@,
                i as int,
                pre,
                prefix@,
                ctx0.document_titles,
                ctx0.routes.table,
                ctx0.spec_current(),
            );
            lemma_style_handles_list_snoc(items@, i as int);
            lemma_styles_advanced_trans(
                ctx0.stylesheet,
                mid.stylesheet,
                context.stylesheet,
                spec_style_handles_list(items@.take(i as int)),
                spec_style_handles(items@[i as int]),
            );
        }
        i = i + 1;
    }
    proof {
        assert(items@.take(n as int) =~= items@);
    }
}

/// Emits one element: its open tag with attributes, then its children laid
/// out inline, block-indented, or verbatim as the flags and ambient format
/// require, then its close tag.
fn write_element(
    e: &HtmlElement,
    context: &mut WebsiteRenderContext,
    out: &mut String,
    pre: bool,
    prefix: &String,
)
    requires
        old(context).wf(),
        spec_list_links_ok(
            e.content@,
            old(context).document_titles,
            old(context).routes.table,
            old(context).spec_current(),
        ),
    ensures
        ctx_preserved(*old(context), *final(context)),
        styles_advanced(
            old(context).stylesheet,
            final(context).stylesheet,
            if e.tag.is_void {
                Seq::<u64>::empty()
            } else {
                spec_style_handles_list(e.content@)
            },
        ),
        final(out)@ == old(out)@ + spec_render_element(
            e.tag,
            e.attributes@,
            e.content@,
            e.enable_inline,
            e.preformatted_content,
            pre,
            prefix@,
            old(context).document_titles,
            old(context).routes.table,
            old(context).spec_current(),
        ),
    decreases e.content@, 5int,
{
    let ghost ctx0 = *context;
    let ghost out0 = out@;
    let ghost open_tag = seq!['<'] + e.tag.name@ + spec_attrs_text(e.attributes@) + seq!['>'];
    let ghost close_tag = seq!['<', '/'] + e.tag.name@ + seq!['>'];
    push_char(out, '<');
    out.append(e.tag.name);
    write_attrs(out, &e.attributes);
    push_char(out, '>');
    proof {
        assert(out@ =~= out0 + open_tag);
        lemma_styles_advanced_refl(ctx0.stylesheet);
    }
    if e.tag.is_void {
        return ;
    }
    if e.content.len() == 0 {
        push_char(out, '<');
        push_char(out, '/');
        out.append(e.tag.name);
        push_char(out, '>');
        proof {
            assert(out@ =~= out0 + (open_tag + close_tag));
            assert(spec_style_handles_list(e.content@) =~= Seq::<u64>::empty());
        }
        return ;
    }
    proof {
        crate::html::lemma_list_links_ok_titles_ok(
            e.content@,
            ctx0.document_titles,
            ctx0.routes.table,
            ctx0.spec_current(),
        );
    }
    let will_inline = e.enable_inline && crate::html::all_inline(&e.content, context);
    if !pre && !will_inline && !e.preformatted_content {
        push_char(out, '\n');
        out.append(prefix.as_str());
        push_char(out, ' ');
        push_char(out, ' ');
        push_char(out, ' ');
        push_char(out, ' ');
        let deeper = extend_prefix(prefix);
        let ghost before_children = out@;
        proof {
            assert(before_children =~= out0 + open_tag + seq!['\n'] + prefix@ + spec_sp4());
        }
        write_children(&e.content, context, out, false, &deeper);
        push_char(out, '\n');
        out.append(prefix.as_str());
        push_char(out, '<');
        push_char(out, '/');
        out.append(e.tag.name);
        push_char(out, '>');
        proof {
            assert(out@ =~= out0 + (open_tag + seq!['\n'] + prefix@ + spec_sp4()
                + spec_render_list(
                e.content@,
                false,
                prefix@ + spec_sp4(),
                ctx0.document_titles,
                ctx0.routes.table,
                ctx0.spec_current(),
            ) + seq!['\n'] + prefix@ + close_tag));
        }
    } else {
        let child_pre = pre || e.preformatted_content;
        write_children(&e.content, context, out, child_pre, prefix);
        push_char(out, '<');
        push_char(out, '/');
        out.append(e.tag.name);
        push_char(out, '>');
        proof {
            assert(out@ =~= out0 + (open_tag + spec_render_list(
                e.content@,
                pre || e.preformatted_content,
                prefix@,
                ctx0.document_titles,
                ctx0.routes.table,
                ctx0.spec_current(),
            ) + close_tag));
        }
    }
}

/// Emits the `>` that closes an anchor's open tag, its text content laid out
/// per the anchor rules, and the close tag.
fn finish_text_anchor(out: &mut String, ttl: &str, pre: bool, prefix: &String)
    ensures
        final(out)@ == old(out)@ + spec_anchor_text_tail(ttl@, pre, prefix@),
{
    let inline = !crate::html::contains_newline(ttl);
    if !pre && !inline {
        push_char(out, '>');
        push_char(out, '\n');
        out.append(prefix.as_str());
        push_char(out, ' ');
        push_char(out, ' ');
        push_char(out, ' ');
        push_char(out, ' ');
        let deeper = extend_prefix(prefix);
        write_text(out, ttl, false, &deeper);
        push_char(out, '\n');
        out.append(prefix.as_str());
        push_char(out, '<');
        push_char(out, '/');
        push_char(out, 'a');
        push_char(out, '>');
        proof {
            assert(final(out)@ =~= old(out)@ + (seq!['>'] + (seq!['\n'] + prefix@ + spec_sp4()
                + spec_render_text(ttl@, false, prefix@ + spec_sp4()) + seq!['\n'] + prefix@ + seq![
                '<',
                '/',
                'a',
                '>',
            ])));
        }
    } else {
        push_char(out, '>');
        write_text(out, ttl, pre, prefix);
        push_char(out, '<');
        push_char(out, '/');
        push_char(out, 'a');
        push_char(out, '>');
        proof {
            assert(final(out)@ =~= old(out)@ + (seq!['>'] + (spec_render_text(ttl@, pre, prefix@)
                + seq!['<', '/', 'a', '>'])));
        }
    }
}

/// What follows an anchor's attributes when its content is link-title text.
pub open spec fn spec_anchor_text_tail(ttl: Seq<char>, pre: bool, prefix: Seq<char>) -> Seq<char> {
    if !pre && ttl.contains('\n') {
        seq!['>'] + (seq!['\n'] + prefix + spec_sp4() + spec_render_text(
            ttl,
            false,
            prefix + spec_sp4(),
        ) + seq!['\n'] + prefix + seq!['<', '/', 'a', '>'])
    } else {
        seq!['>'] + (spec_render_text(ttl, pre, prefix) + seq!['<', '/', 'a', '>'])
    }
}

/// The anchor around text content assembles to the anchor rendering.
proof fn lemma_anchor_text_assemble(
    attrs_text: Seq<char>,
    ttl: Seq<char>,
    pre: bool,
    prefix: Seq<char>,
)
    ensures
        seq!['<', 'a'] + attrs_text + spec_anchor_text_tail(ttl, pre, prefix)
            =~= spec_render_anchor(
            attrs_text,
            spec_render_text(ttl, false, prefix + spec_sp4()),
            spec_render_text(ttl, pre, prefix),
            !ttl.contains('\n'),
            pre,
            prefix,
        ),
{
}

/// Serializes one node, appending exactly its `spec_render` text and
/// registering exactly its styles.
#[verifier::rlimit(80)]
fn build_inner(
    n: &HtmlNode,
    context: &mut WebsiteRenderContext,
    out: &mut String,
    pre: bool,
    prefix: &String,
)
    requires
        old(context).wf(),
        spec_links_ok(
            *n,
            old(context).document_titles,
            old(context).routes.table,
            old(context).spec_current(),
        ),
    ensures
        ctx_preserved(*old(context), *final(context)),
        styles_advanced(
            old(context).stylesheet,
            final(context).stylesheet,
            spec_style_handles(*n),
        ),
        final(out)@ == old(out)@ + spec_render(
            *n,
            pre,
            prefix@,
            old(context).document_titles,
            old(context).routes.table,
            old(context).spec_current(),
        ),
    decreases *n, 6int,
{
    let ghost ctx0 = *context;
    let ghost out0 = out@;
    proof {
        lemma_styles_advanced_refl(ctx0.stylesheet);
    }
    match n {
        HtmlNode::Text(t) => {
            write_text(out, t.0.as_str(), pre, prefix);
        },
        HtmlNode::Raw(r) => {
            out.append(r.0.as_str());
        },
        HtmlNode::Element(e) => {
            write_element(e, context, out, pre, prefix);
        },
        HtmlNode::Component(c) => {
            // the component's own styles first, then its content
            let m = c.style.len();
            let mut i: usize = 0;
            proof {
                assert(c.style@.take(0) =~= Seq::<StyleRule>::empty());
                assert(c.style@.take(0).map_values(|r: StyleRule| r.handle) =~= Seq::<u64>::empty());
            }
            while i < m
                invariant
                    i <= m,
                    m == c.style@.len(),
                    ctx_preserved(ctx0, *context),
                    styles_advanced(
                        ctx0.stylesheet,
                        context.stylesheet,
                        c.style@.take(i as int).map_values(|r: StyleRule| r.handle),
                    ),
                    out@ == out0,
                decreases m - i,
            {
                let ghost mid = *context;
                let rule = duplicate_rule(&c.style[i]);
                let ghost rule_g = rule;
                context.register_style(rule);
                proof {
                    lemma_register_one(mid.stylesheet.spec_rules(), rule_g);
                    assert(rule_g.handle == c.style@[i as int].handle);
                    assert(seq![rule_g.handle] =~= seq![c.style@[i as int].handle]);
                    lemma_styles_advanced_trans(
                        ctx0.stylesheet,
                        mid.stylesheet,
                        context.stylesheet,
                        c.style@.take(i as int).map_values(|r: StyleRule| r.handle),
                        seq![c.style@[i as int].handle],
                    );
                    assert(c.style@.take(i + 1).map_values(|r: StyleRule| r.handle)
                        =~= c.style@.take(i as int).map_values(|r: StyleRule| r.handle) + seq![
                        c.style@[i as int].handle,
                    ]);
                }
                i = i + 1;
            }
            proof {
                assert(c.style@.take(m as int) =~= c.style@);
            }
            let ghost mid2 = *context;
            write_element(&c.content, context, out, pre, prefix);
            proof {
                lemma_styles_advanced_trans(
                    ctx0.stylesheet,
                    mid2.stylesheet,
                    context.stylesheet,
                    c.style@.map_values(|r: StyleRule| r.handle),
                    if c.content.tag.is_void {
                        Seq::<u64>::empty()
                    } else {
                        spec_style_handles_list(c.content.content@)
                    },
                );
            }
        },
        HtmlNode::Group(g) => {
            proof {
                crate::html::lemma_list_links_ok_titles_ok(
                    g@,
                    ctx0.document_titles,
                    ctx0.routes.table,
                    ctx0.spec_current(),
                );
            }
            let inline = crate::html::all_inline(g, context);
            if pre || inline {
                write_children(g, context, out, pre, prefix);
            } else {
                proof {
                    assert(decreases_to!(*n => g@)) by {
                        assert(decreases_to!(*n => n->Group_0));
                        assert(decreases_to!(*g => g@));
                    }
                }
                write_group_sep(g, context, out, prefix);
            }
        },
        HtmlNode::LinkText(l) => {
            proof {
                assert(*n == HtmlNode::LinkText(*l));
                assert(decreases_to!(*n => l.content)) by {
                    assert(decreases_to!(*n => n->LinkText_0));
                    assert(decreases_to!(*l => l.content));
                }
            }
            write_link_text(l, context, out, pre, prefix);
        },
        HtmlNode::LinkButton(b) => {
            write_link_button(b, context, out, pre, prefix);
        },
        HtmlNode::Image(img) => {
            write_image(img, context, out);
        },
    }
}

/// Emits the members of a block-level sibling group, a newline plus the
/// indent prefix between consecutive members.
fn write_group_sep(
    g: &Vec<HtmlNode>,
    context: &mut WebsiteRenderContext,
    out: &mut String,
    prefix: &String,
)
    requires
        old(context).wf(),
        spec_list_links_ok(
            g@,
            old(context).document_titles,
            old(context).routes.table,
            old(context).spec_current(),
        ),
        g@.len() > 0,
    ensures
        ctx_preserved(*old(context), *final(context)),
        styles_advanced(
            old(context).stylesheet,
            final(context).stylesheet,
            spec_style_handles_list(g@),
        ),
        final(out)@ == old(out)@ + spec_render_sep(
            g@,
            prefix@,
            old(context).document_titles,
            old(context).routes.table,
            old(context).spec_current(),
        ),
    decreases g@, 5int,
{
    let ghost ctx0 = *context;
    let ghost out0 = out@;
    let m = g.len();
    let mut i: usize = 0;
    proof {
        assert(g@.take(0) =~= Seq::<HtmlNode>::empty());
        assert(spec_style_handles_list(g@.take(0)) =~= Seq::<u64>::empty());
        lemma_styles_advanced_refl(ctx0.stylesheet);
    }
    while i < m
        invariant
            i <= m,
            m == g@.len(),
            m > 0,
            ctx_preserved(ctx0, *context),
            spec_list_links_ok(g@, ctx0.document_titles, ctx0.routes.table, ctx0.spec_current()),
            styles_advanced(
                ctx0.stylesheet,
                context.stylesheet,
                spec_style_handles_list(g@.take(i as int)),
            ),
            i == 0 ==> out@ == out0,
            i > 0 ==> out@ == out0 + spec_render_sep(
                g@.take(i as int),
                prefix@,
                ctx0.document_titles,
                ctx0.routes.table,
                ctx0.spec_current(),
            ),
        decreases m - i,
    {
        if i > 0 {
            push_char(out, '\n');
            out.append(prefix.as_str());
        }
        proof {
            lemma_list_links_ok_index(
                g@,
                ctx0.document_titles,
                ctx0.routes.table,
                ctx0.spec_current(),
                i as int,
            );
        }
        let ghost mid = *context;
        build_inner(&g[i], context, out, false, prefix);
        proof {
            lemma_render_sep_snoc(
                g@,
                i as int,
                prefix@,
                ctx0.document_titles,
                ctx0.routes.table,
                ctx0.spec_current(),
            );
            lemma_style_handles_list_snoc(g@, i as int);
            lemma_styles_advanced_trans(
                ctx0.stylesheet,
                mid.stylesheet,
                context.stylesheet,
                spec_style_handles_list(g@.take(i as int)),
                spec_style_handles(g@[i as int]),
            );
            if i > 0 {
                assert(out@ =~= out0 + (spec_render_sep(
                    g@.take(i as int),
                    prefix@,
                    ctx0.document_titles,
                    ctx0.routes.table,
                    ctx0.spec_current(),
                ) + seq!['\n'] + prefix@ + spec_render(
                    g@[i as int],
                    false,
                    prefix@,
                    ctx0.document_titles,
                    ctx0.routes.table,
                    ctx0.spec_current(),
                )));
            }
        }
        i = i + 1;
    }
    proof {
        assert(g@.take(m as int) =~= g@);
    }
}

/// Emits a link as an anchor: resolved href and optional title attribute,
/// then the given content or the resolved title text.
#[verifier::rlimit(60)]
fn write_link_text(
    l: &crate::html::LinkText,
    context: &mut WebsiteRenderContext,
    out: &mut String,
    pre: bool,
    prefix: &String,
)
    requires
        old(context).wf(),
        spec_links_ok(
            HtmlNode::LinkText(*l),
            old(context).document_titles,
            old(context).routes.table,
            old(context).spec_current(),
        ),
    ensures
        ctx_preserved(*old(context), *final(context)),
        styles_advanced(
            old(context).stylesheet,
            final(context).stylesheet,
            spec_style_handles(HtmlNode::LinkText(*l)),
        ),
        final(out)@ == old(out)@ + spec_render(
            HtmlNode::LinkText(*l),
            pre,
            prefix@,
            old(context).document_titles,
            old(context).routes.table,
            old(context).spec_current(),
        ),
    decreases l.content, 5int,
{
    let ghost ctx0 = *context;
    let ghost out0 = out@;
    proof {
        lemma_styles_advanced_refl(ctx0.stylesheet);
    }
    let current = context.current_page();
    let resolved = context.resolve_link(&l.link, current);
    let (ttl, href) = match resolved {
        Ok(p) => p,
        Err(_) => {
            proof {
                assert(false);
            }
            (String::new(), HRef(String::new()))
        },
    };
    push_char(out, '<');
    push_char(out, 'a');
    write_attr_value(out, "href", href.0.as_str());
    match &l.title {
        Some(t) => {
            write_attr_value(out, "title", t.as_str());
        },
        None => {},
    }
    let ghost attrs_text = spec_attr_pair(
        "href"@,
        Option::Some(spec_href_of(l.link, ctx0.routes.table, ctx0.spec_current())),
    ) + (match &l.title {
        Option::Some(t) => spec_attr_pair("title"@, Option::Some(t@)),
        Option::None => Seq::<char>::empty(),
    });
    proof {
        assert(out@ =~= out0 + seq!['<', 'a'] + attrs_text);
    }
    match &l.content {
        Some(c) => {
            proof {
                crate::html::lemma_links_ok_titles_ok(
                    **c,
                    ctx0.document_titles,
                    ctx0.routes.table,
                    ctx0.spec_current(),
                );
                assert(decreases_to!(l.content => **c)) by {
                    assert(decreases_to!(l.content => l.content->0));
                    assert(l.content->0 == *c);
                }
            }
            let inline = c.is_inline(context);
            if !pre && !inline {
                push_char(out, '>');
                push_char(out, '\n');
                out.append(prefix.as_str());
                push_char(out, ' ');
                push_char(out, ' ');
                push_char(out, ' ');
                push_char(out, ' ');
                let deeper = extend_prefix(prefix);
                build_inner(c, context, out, false, &deeper);
                push_char(out, '\n');
                out.append(prefix.as_str());
                push_char(out, '<');
                push_char(out, '/');
                push_char(out, 'a');
                push_char(out, '>');
                proof {
                    assert(out@ =~= out0 + ((seq!['<', 'a'] + attrs_text + seq!['>']) + seq!['\n']
                        + prefix@ + spec_sp4() + spec_render(
                        **c,
                        false,
                        prefix@ + spec_sp4(),
                        ctx0.document_titles,
                        ctx0.routes.table,
                        ctx0.spec_current(),
                    ) + seq!['\n'] + prefix@ + seq!['<', '/', 'a', '>']));
                }
            } else {
                push_char(out, '>');
                build_inner(c, context, out, pre, prefix);
                push_char(out, '<');
                push_char(out, '/');
                push_char(out, 'a');
                push_char(out, '>');
                proof {
                    assert(out@ =~= out0 + ((seq!['<', 'a'] + attrs_text + seq!['>'])
                        + spec_render(
                        **c,
                        pre,
                        prefix@,
                        ctx0.document_titles,
                        ctx0.routes.table,
                        ctx0.spec_current(),
                    ) + seq!['<', '/', 'a', '>']));
                }
            }
        },
        None => {
            finish_text_anchor(out, ttl.as_str(), pre, prefix);
            proof {
                lemma_anchor_text_assemble(attrs_text, ttl@, pre, prefix@);
                assert(out@ =~= out0 + (seq!['<', 'a'] + attrs_text + spec_anchor_text_tail(
                    ttl@,
                    pre,
                    prefix@,
                )));
            }
        },
    }
}

/// Emits a link button: its style is registered, then the anchor with the
/// button class and the resolved title as content.
fn write_link_button(
    b: &crate::html::LinkButton,
    context: &mut WebsiteRenderContext,
    out: &mut String,
    pre: bool,
    prefix: &String,
)
    requires
        old(context).wf(),
        spec_links_ok(
            HtmlNode::LinkButton(crate::html::LinkButton(b.0)),
            old(context).document_titles,
            old(context).routes.table,
            old(context).spec_current(),
        ),
    ensures
        ctx_preserved(*old(context), *final(context)),
        styles_advanced(
            old(context).stylesheet,
            final(context).stylesheet,
            seq![LINK_BUTTON_STYLE_HANDLE],
        ),
        final(out)@ == old(out)@ + spec_render(
            HtmlNode::LinkButton(crate::html::LinkButton(b.0)),
            pre,
            prefix@,
            old(context).document_titles,
            old(context).routes.table,
            old(context).spec_current(),
        ),
{
    let ghost ctx0 = *context;
    let ghost out0 = out@;
    let current = context.current_page();
    let resolved = context.resolve_link(&b.0, current);
    let (ttl, href) = match resolved {
        Ok(p) => p,
        Err(_) => {
            proof {
                assert(false);
            }
            (String::new(), HRef(String::new()))
        },
    };
    let ghost mid = *context;
    let button_rule = link_button_style();
    let ghost button_rule_g = button_rule;
    context.register_style(button_rule);
    proof {
        lemma_register_one(mid.stylesheet.spec_rules(), button_rule_g);
    }
    push_char(out, '<');
    push_char(out, 'a');
    write_attr_value(out, "class", "link-button");
    write_attr_value(out, "href", href.0.as_str());
    let ghost attrs_text = spec_attr_pair("class"@, Option::Some("link-button"@)) + spec_attr_pair(
        "href"@,
        Option::Some(spec_href_of(b.0, ctx0.routes.table, ctx0.spec_current())),
    );
    proof {
        assert(out@ =~= out0 + seq!['<', 'a'] + attrs_text);
    }
    finish_text_anchor(out, ttl.as_str(), pre, prefix);
    proof {
        lemma_anchor_text_assemble(attrs_text, ttl@, pre, prefix@);
        assert(out@ =~= out0 + (seq!['<', 'a'] + attrs_text + spec_anchor_text_tail(
            ttl@,
            pre,
            prefix@,
        )));
    }
}

/// Emits an image: a void `img` element with resolved source.
fn write_image(img: &crate::html::Image, context: &mut WebsiteRenderContext, out: &mut String)
    requires
        old(context).wf(),
        spec_link_routes_ok(img.source, old(context).routes.table, old(context).spec_current()),
    ensures
        ctx_preserved(*old(context), *final(context)),
        styles_advanced(old(context).stylesheet, final(context).stylesheet, Seq::<u64>::empty()),
        final(out)@ == old(out)@ + (seq!['<', 'i', 'm', 'g'] + spec_attr_pair(
            "src"@,
            Option::Some(
                spec_href_of(img.source, old(context).routes.table, old(context).spec_current()),
            ),
        ) + (match img.title {
            Option::Some(t) => spec_attr_pair("title"@, Option::Some(t@)),
            Option::None => Seq::<char>::empty(),
        }) + spec_attr_pair("alt"@, Option::Some(img.alt_text@)) + seq!['>']),
{
    let ghost ctx0 = *context;
    let ghost out0 = out@;
    proof {
        lemma_styles_advanced_refl(ctx0.stylesheet);
    }
    let current = context.current_page();
    let resolved = context.resolve_href(&img.source, current);
    let href = match resolved {
        Ok(h) => h,
        Err(_) => {
            proof {
                assert(false);
            }
            HRef(String::new())
        },
    };
    push_char(out, '<');
    push_char(out, 'i');
    push_char(out, 'm');
    push_char(out, 'g');
    write_attr_value(out, "src", href.0.as_str());
    match &img.title {
        Some(t) => {
            write_attr_value(out, "title", t.as_str());
        },
        None => {},
    }
    write_attr_value(out, "alt", img.alt_text.as_str());
    push_char(out, '>');
    proof {
        assert(out@ =~= out0 + (seq!['<', 'i', 'm', 'g'] + spec_attr_pair(
            "src"@,
            Option::Some(spec_href_of(img.source, ctx0.routes.table, ctx0.spec_current())),
        ) + (match img.title {
            Option::Some(t) => spec_attr_pair("title"@, Option::Some(t@)),
            Option::None => Seq::<char>::empty(),
        }) + spec_attr_pair("alt"@, Option::Some(img.alt_text@)) + seq!['>']));
    }
}

/// One registration's worth of a rule identical in content to the given one.
fn duplicate_rule(rule: &StyleRule) -> (r: StyleRule)
    ensures
        r.handle == rule.handle,
{
    let mut declarations: Vec<&'static str> = Vec::new();
    let m = rule.declarations.len();
    let mut i: usize = 0;
    while i < m
        invariant
            i <= m,
            m == rule.declarations@.len(),
            declarations@ =~= rule.declarations@.take(i as int),
        decreases m - i,
    {
        declarations.push(rule.declarations[i]);
        proof {
            assert(declarations@ =~= rule.declarations@.take(i + 1));
        }
        i = i + 1;
    }
    StyleRule {
        handle: rule.handle,
        query: rule.query,
        selector: rule.selector,
        declarations,
    }
}

impl HtmlNode {
    /// Serializes this node into `html_out` under the given format. Succeeds
    /// exactly when every link in the tree resolves, appending precisely the
    /// text `spec_render` describes and registering the tree's style rules;
    /// a failed resolution names the offending id and leaves the output and
    /// the context untouched.
    pub fn build(
        self,
        context: &mut WebsiteRenderContext,
        html_out: &mut String,
        format: HtmlFormat,
    ) -> (r: Result<(), LinkError>)
        requires
            old(context).wf(),
        ensures
            match r {
                Ok(_) => {
                    &&& spec_links_ok(
                        self,
                        old(context).document_titles,
                        old(context).routes.table,
                        old(context).spec_current(),
                    )
                    &&& ctx_preserved(*old(context), *final(context))
                    &&& styles_advanced(
                        old(context).stylesheet,
                        final(context).stylesheet,
                        spec_style_handles(self),
                    )
                    &&& final(html_out)@ == old(html_out)@ + spec_render(
                        self,
                        format is Preformatted,
                        spec_format_prefix(format),
                        old(context).document_titles,
                        old(context).routes.table,
                        old(context).spec_current(),
                    )
                },
                Err(e) => {
                    &&& !spec_links_ok(
                        self,
                        old(context).document_titles,
                        old(context).routes.table,
                        old(context).spec_current(),
                    )
                    &&& *final(context) == *old(context)
                    &&& final(html_out)@ == old(html_out)@
                    &&& match e {
                        LinkError::UnknownPage { id } => !old(
                            context,
                        ).routes.table.spec_contains(id@),
                        LinkError::MissingTitle { id } => old(context).document_titles.spec_get(
                            id@,
                        ) is None,
                    }
                },
            },
    {
        match check_links(&self, context) {
            Ok(_) => {},
            Err(e) => {
                return Err(e);
            },
        }
        let prefix = make_format_prefix(format);
        let pre = format.is_preformat();
        build_inner(&self, context, html_out, pre, &prefix);
        Ok(())
    }
}

/// The starting indent prefix for a format.
fn make_format_prefix(format: HtmlFormat) -> (r: String)
    ensures
        r@ == spec_format_prefix(format),
{
    match format {
        HtmlFormat::Preformatted => {
            let r = String::new();
            proof {
                assert(r@ =~= spec_format_prefix(HtmlFormat::Preformatted));
            }
            r
        },
        HtmlFormat::Indent(d) => {
            let mut r = String::new();
            let mut i: usize = 0;
            proof {
                assert(r@ =~= Seq::new((4 * 0) as nat, |x: int| ' '));
            }
            while i < d
                invariant
                    i <= d,
                    r@ =~= Seq::new((4 * i) as nat, |x: int| ' '),
                decreases d - i,
            {
                push_char(&mut r, ' ');
                push_char(&mut r, ' ');
                push_char(&mut r, ' ');
                push_char(&mut r, ' ');
                proof {
                    assert(r@ =~= Seq::new((4 * (i + 1)) as nat, |x: int| ' '));
                }
                i = i + 1;
            }
            proof {
                assert(r@ =~= spec_format_prefix(HtmlFormat::Indent(d)));
            }
            r
        },
    }
}

} // verus!

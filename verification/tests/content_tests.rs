//! Post content handling: meta tags, metadata blocks, rendering, and a whole
//! page pass.

use sitegen::blog_post::{
    extract_blog_meta, parse_meta_tags, remove_non_renderable_nodes, render, BlogMeta, BlogPost,
    MdNode, MetaError, Published,
};
use sitegen::category::Category;
use sitegen::css::CSSBuilder;
use sitegen::website::Website;

fn code(value: &str, meta: Option<&str>) -> MdNode {
    MdNode::Code {
        value: value.to_string(),
        lang: None,
        meta: meta.map(|m| m.to_string()),
    }
}

#[test]
fn meta_tags_split_on_whitespace_and_equals() {
    let tags = parse_meta_tags("fold info=page  preformatted format=query-response");
    let view: Vec<(String, Option<String>)> = tags;
    assert_eq!(view.len(), 4);
    assert_eq!(view[0], ("fold".to_string(), None));
    assert_eq!(view[1], ("info".to_string(), Some("page".to_string())));
    assert_eq!(view[2], ("preformatted".to_string(), None));
    assert_eq!(
        view[3],
        ("format".to_string(), Some("query-response".to_string()))
    );
}

#[test]
fn exactly_one_blogmeta_block_is_extracted() {
    let nodes = vec![
        MdNode::Paragraph(vec![MdNode::Text("hello".to_string())]),
        code("author: ann", Some("blogmeta")),
    ];
    assert_eq!(extract_blog_meta(&nodes).ok().unwrap(), "author: ann");

    let none: Vec<MdNode> = vec![MdNode::Text("x".to_string())];
    assert!(matches!(extract_blog_meta(&none), Err(MetaError::NoMeta)));

    let two = vec![code("a", Some("blogmeta")), code("b", Some("blogmeta"))];
    assert!(matches!(extract_blog_meta(&two), Err(MetaError::MultipleMeta)));
}

#[test]
fn nested_blogmeta_blocks_are_found_and_stripped() {
    let nodes = vec![MdNode::BlockQuote(vec![
        code("author: ann", Some("blogmeta")),
        MdNode::Text("kept".to_string()),
    ])];
    assert_eq!(extract_blog_meta(&nodes).ok().unwrap(), "author: ann");
    let stripped = remove_non_renderable_nodes(nodes);
    match &stripped[0] {
        MdNode::BlockQuote(children) => {
            assert_eq!(children.len(), 1);
            assert!(matches!(children[0], MdNode::Text(_)));
        }
        _ => panic!("wrong shape"),
    }
}

#[test]
fn unsupported_nodes_are_fatal() {
    let mut counter: u64 = 0;
    assert!(render(MdNode::Unsupported, &mut counter).is_err());
    assert!(render(MdNode::Text("ok".to_string()), &mut counter).is_ok());
}

#[test]
fn image_urls_must_point_into_resources() {
    let mut counter: u64 = 0;
    let bad = MdNode::Image {
        url: "https://example.net/x.png".to_string(),
        alt: "x".to_string(),
        title: None,
    };
    assert!(render(bad, &mut counter).is_err());
    let good = MdNode::Image {
        url: "../resource/img/photo.png".to_string(),
        alt: "x".to_string(),
        title: None,
    };
    assert!(render(good, &mut counter).is_ok());
}

#[test]
fn heading_depth_is_checked() {
    let mut counter: u64 = 0;
    let bad = MdNode::Heading { depth: 7, children: vec![] };
    assert!(render(bad, &mut counter).is_err());
    let good = MdNode::Heading {
        depth: 2,
        children: vec![MdNode::Text("t".to_string())],
    };
    assert!(render(good, &mut counter).is_ok());
}

#[test]
fn code_block_format_tags_are_rejected_and_info_needs_a_page() {
    let mut counter: u64 = 0;
    assert!(render(code("x", Some("format=mystery")), &mut counter).is_err());
    assert!(render(code("x", Some("info")), &mut counter).is_err());
    assert!(render(code("x", Some("fold info=page")), &mut counter).is_ok());
    assert!(render(code("x", None), &mut counter).is_ok());
}

#[test]
fn whole_page_renders_with_shell_navigation_and_content() {
    let site = Website {
        title: "My Site".to_string(),
        description: "welcome home".to_string(),
        categories: vec![Category {
            id_string: "blog".to_string(),
            title: "Blog".to_string(),
            description: "posts".to_string(),
            sub_categories: vec![],
            unlisted: false,
        }],
        posts: vec![(
            "p1".to_string(),
            BlogPost {
                metadata: BlogMeta {
                    author: "ann".to_string(),
                    category: "blog".to_string(),
                    date: 0,
                    title: "First".to_string(),
                    published: Published::True,
                },
                content: vec![MdNode::Paragraph(vec![MdNode::Text("body".to_string())])],
            },
        )],
        resources: Vec::new(),
    };
    let mut builder = site.build(CSSBuilder::new()).ok().unwrap();
    let mut pages: Vec<(String, String)> = Vec::new();
    while let Some(doc) = builder.next() {
        let id = doc.id().to_string();
        let mut out = String::new();
        let copied = builder.render_document(doc, &mut out).ok().unwrap();
        assert!(copied.is_none());
        pages.push((id, out));
    }
    assert_eq!(pages.len(), 4);
    let home = &pages[0].1;
    assert!(home.starts_with("<!DOCTYPE html>"));
    assert!(home.contains("<html lang=\"en\">"));
    assert!(home.contains("My Site - Home"));
    assert!(home.contains("<title>"));
    assert!(home.contains("welcome home"));
    assert!(home.contains("href=\"stylesheet.css\""));
    let css_page = &pages[1].1;
    assert!(css_page.contains("special-cased"));
    let blog_page = &pages[2].1;
    assert!(blog_page.contains("1970-Jan-01 - First"));
    assert!(blog_page.contains("href=\"p1.html\""));
    let post_page = &pages[3].1;
    assert!(post_page.contains("1970-01-01"));
    assert!(post_page.contains("body"));
    let mut css_out = String::new();
    builder.into_stylesheet().write(&mut css_out).ok().unwrap();
    assert!(css_out.contains(".link-button {"));
}

#[test]
fn out_of_range_post_dates_fail_at_render_time() {
    let site = Website {
        title: "t".to_string(),
        description: "d".to_string(),
        categories: vec![Category {
            id_string: "blog".to_string(),
            title: "Blog".to_string(),
            description: "posts".to_string(),
            sub_categories: vec![],
            unlisted: false,
        }],
        posts: vec![(
            "p1".to_string(),
            BlogPost {
                metadata: BlogMeta {
                    author: "ann".to_string(),
                    category: "blog".to_string(),
                    date: -5,
                    title: "First".to_string(),
                    published: Published::True,
                },
                content: Vec::new(),
            },
        )],
        resources: Vec::new(),
    };
    let mut builder = site.build(CSSBuilder::new()).ok().unwrap();
    let mut saw_date_error = false;
    while let Some(doc) = builder.next() {
        let id = doc.id().to_string();
        let mut out = String::new();
        let result = builder.render_document(doc, &mut out);
        if id == "p1" || id == "blog" {
            // the post page itself, and the category page whose list shows it
            assert!(matches!(
                result,
                Err(sitegen::website::RenderError::Content(
                    sitegen::blog_post::ContentError::DateOutOfRange
                ))
            ));
            saw_date_error = true;
        } else {
            assert!(result.is_ok());
        }
    }
    assert!(saw_date_error);
}

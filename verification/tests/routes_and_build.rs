//! Route assignment and link resolution over a small site.

use sitegen::blog_post::{BlogMeta, BlogPost, Published};
use sitegen::category::Category;
use sitegen::css::CSSBuilder;
use sitegen::routes::{Link, PageRef, RouteError};
use sitegen::website::{SiteBuildError, Website};

fn category(id: &str, title: &str, subs: Vec<Category>) -> Category {
    Category {
        id_string: id.to_string(),
        title: title.to_string(),
        description: format!("about {}", title),
        sub_categories: subs,
        unlisted: false,
    }
}

fn post(id: &str, cat: &str, title: &str, date: i64) -> (String, BlogPost) {
    (
        id.to_string(),
        BlogPost {
            metadata: BlogMeta {
                author: "ann".to_string(),
                category: cat.to_string(),
                date,
                title: title.to_string(),
                published: Published::True,
            },
            content: Vec::new(),
        },
    )
}

fn small_site() -> Website {
    Website {
        title: "My Site".to_string(),
        description: "welcome".to_string(),
        categories: vec![category("blog", "Blog", vec![category("tech", "Tech", vec![])])],
        posts: vec![post("p1", "tech", "First", 100), post("p2", "tech", "Second", 200)],
        resources: Vec::new(),
    }
}

#[test]
fn routes_for_category_tree_and_posts() {
    let builder = small_site().build(CSSBuilder::new()).ok().unwrap();
    let routes = &builder.context.routes;
    let home = routes.route(PageRef("home")).unwrap().clone();
    assert_eq!(home, vec!["index.html".to_string()]);
    let blog = routes.route(PageRef("blog")).unwrap().clone();
    assert_eq!(blog, vec!["blog".to_string(), "index.html".to_string()]);
    let tech = routes.route(PageRef("tech")).unwrap().clone();
    assert_eq!(
        tech,
        vec!["blog".to_string(), "tech".to_string(), "index.html".to_string()]
    );
    let p1 = routes.route(PageRef("p1")).unwrap().clone();
    assert_eq!(
        p1,
        vec!["blog".to_string(), "tech".to_string(), "p1.html".to_string()]
    );
    let css = routes.route(PageRef("stylesheet")).unwrap().clone();
    assert_eq!(css, vec!["stylesheet.css".to_string()]);
    assert!(routes.route(PageRef("nope")).is_none());
}

#[test]
fn href_from_home_to_nested_post() {
    let builder = small_site().build(CSSBuilder::new()).ok().unwrap();
    let href = builder
        .context
        .routes
        .resolve_href(&Link::ID("p1".to_string()), PageRef("home"))
        .ok()
        .unwrap();
    assert_eq!(href.0, "blog/tech/p1.html");
}

#[test]
fn href_between_sibling_posts() {
    let builder = small_site().build(CSSBuilder::new()).ok().unwrap();
    let href = builder
        .context
        .routes
        .resolve_href(&Link::ID("p1".to_string()), PageRef("p2"))
        .ok()
        .unwrap();
    assert_eq!(href.0, "p1.html");
}

#[test]
fn href_to_self_uses_dot_slash() {
    let builder = small_site().build(CSSBuilder::new()).ok().unwrap();
    let href = builder
        .context
        .routes
        .resolve_href(&Link::ID("p1".to_string()), PageRef("p1"))
        .ok()
        .unwrap();
    assert_eq!(href.0, "./p1.html");
}

#[test]
fn href_climbs_out_of_deeper_directories() {
    let builder = small_site().build(CSSBuilder::new()).ok().unwrap();
    let href = builder
        .context
        .routes
        .resolve_href(&Link::ID("home".to_string()), PageRef("p1"))
        .ok()
        .unwrap();
    assert_eq!(href.0, "../../index.html");
}

#[test]
fn custom_links_pass_through() {
    let builder = small_site().build(CSSBuilder::new()).ok().unwrap();
    let href = builder
        .context
        .routes
        .resolve_href(
            &Link::Custom {
                link_title: "ext".to_string(),
                destination: sitegen::routes::HRef("https://example.net/x".to_string()),
            },
            PageRef("home"),
        )
        .ok()
        .unwrap();
    assert_eq!(href.0, "https://example.net/x");
}

#[test]
fn colliding_routes_name_both_documents() {
    // A post whose id is `index`, filed directly under `blog`, lands on the
    // same route as the category's own index page.
    let mut site = small_site();
    site.posts = vec![post("index", "blog", "Sneaky", 10)];
    let err = match site.build(CSSBuilder::new()) {
        Err(e) => e,
        Ok(_) => panic!("collision accepted"),
    };
    match err {
        SiteBuildError::Routing(RouteError::DuplicateRoute { route, ids }) => {
            assert_eq!(route, vec!["blog".to_string(), "index.html".to_string()]);
            assert_eq!(ids, vec!["blog".to_string(), "index".to_string()]);
        }
        _ => panic!("wrong error"),
    }
}

#[test]
fn duplicate_ids_are_fatal() {
    let mut site = small_site();
    site.posts = vec![post("blog", "tech", "Clash", 10)];
    let err = match site.build(CSSBuilder::new()) {
        Err(e) => e,
        Ok(_) => panic!("duplicate id accepted"),
    };
    match err {
        SiteBuildError::Routing(RouteError::DuplicateId { id }) => {
            assert_eq!(id, "blog");
        }
        _ => panic!("wrong error"),
    }
}

#[test]
fn unknown_category_is_fatal() {
    let mut site = small_site();
    site.posts = vec![post("p9", "nowhere", "Lost", 10)];
    let err = match site.build(CSSBuilder::new()) {
        Err(e) => e,
        Ok(_) => panic!("unknown category accepted"),
    };
    match err {
        SiteBuildError::Routing(RouteError::UnknownCategory { id, category }) => {
            assert_eq!(id, "p9");
            assert_eq!(category, "nowhere");
        }
        _ => panic!("wrong error"),
    }
}

#[test]
fn too_deep_nesting_is_fatal() {
    let deep = category(
        "a",
        "A",
        vec![category("b", "B", vec![category("c", "C", vec![category("d", "D", vec![])])])],
    );
    let site = Website {
        title: "t".to_string(),
        description: "d".to_string(),
        categories: vec![deep],
        posts: Vec::new(),
        resources: Vec::new(),
    };
    match site.build(CSSBuilder::new()) {
        Err(SiteBuildError::CategoryTooDeep { id }) => assert_eq!(id, "a"),
        _ => panic!("deep nesting accepted"),
    }
}

#[test]
fn unlisted_categories_get_no_index_page() {
    let mut site = small_site();
    site.categories[0].sub_categories.push(Category {
        id_string: "drafts".to_string(),
        title: "Drafts".to_string(),
        description: "hidden".to_string(),
        sub_categories: vec![],
        unlisted: true,
    });
    let builder = site.build(CSSBuilder::new()).ok().unwrap();
    assert!(builder.context.routes.route(PageRef("drafts")).is_none());
    assert!(builder.context.routes.route(PageRef("tech")).is_some());
}

#[test]
fn category_lists_only_published_subtree_posts() {
    let mut site = small_site();
    site.posts.push(post("p3", "tech", "Hidden", 300));
    match &mut site.posts.last_mut().unwrap().1.metadata.published {
        p => *p = Published::Unlisted,
    }
    let mut builder = site.build(CSSBuilder::new()).ok().unwrap();
    let mut blog_page = String::new();
    while let Some(doc) = builder.next() {
        let id = doc.id().to_string();
        let mut out = String::new();
        builder.render_document(doc, &mut out).ok().unwrap();
        if id == "blog" {
            blog_page = out;
        }
    }
    assert!(blog_page.contains("First"));
    assert!(blog_page.contains("Second"));
    assert!(!blog_page.contains("Hidden"));
}

#[test]
fn posts_sort_newest_first() {
    let builder = small_site().build(CSSBuilder::new()).ok().unwrap();
    // document order: home, stylesheet, blog, tech, then posts newest first
    let ids: Vec<String> = builder
        .documents
        .iter()
        .map(|d| d.id().to_string())
        .collect();
    assert_eq!(
        ids,
        vec![
            "home".to_string(),
            "stylesheet".to_string(),
            "blog".to_string(),
            "tech".to_string(),
            "p2".to_string(),
            "p1".to_string()
        ]
    );
}

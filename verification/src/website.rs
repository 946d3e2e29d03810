//! The build orchestrator: the site's document set, route assignment over
//! it, and the one-document-at-a-time render pass.

use vstd::prelude::*;
use crate::blog_post::{spec_list_tab_count, BlogPost, Published};
use crate::category::{spec_descendants, spec_descendants_list, Category};
use crate::component::{
    content_bottom_spacer, content_column, contentbox, navigation_menu, postlist, title,
    NavigationItem, PostListEntry,
};
use crate::context::WebsiteRenderContext;
use crate::css::CSSBuilder;
use crate::html::{HtmlFormat, HtmlNode};
use crate::resource::{Resource, ResourceRender, SpecialCaseRender};
use crate::routes::{build_route_table, FileName, Link, LinkError, PageRef, RouteDoc, RouteError};
use crate::strutil::str_eq;
use crate::tables::{SegTable, TitleTable};

verus! {

/// What a page document displays.
pub enum PageContent {
    Home { description: String },
    CategoryIndex { heading: String, description: String, posts: Option<Vec<PostListEntry>> },
    Post { post: BlogPost },
}

/// A document's deferred render work, captured at collect time.
pub enum RenderTask {
    Page { nav: Vec<NavigationItem>, content: PageContent },
    Special(SpecialCaseRender),
    CopyResource(ResourceRender),
}

/// Why rendering a document failed.
pub enum RenderError {
    DoubleRender,
    Link(LinkError),
    Content(crate::blog_post::ContentError),
    IdsExhausted,
}

/// An HTML page document.
pub struct HtmlDocument {
    pub id: String,
    pub title: String,
    pub filename: FileName,
    pub category: Option<String>,
    pub render: Option<RenderTask>,
}

impl HtmlDocument {
    pub fn new(
        id: String,
        title: String,
        filename: FileName,
        category: Option<String>,
        render: RenderTask,
    ) -> (r: Self)
        ensures
            r.id == id,
            r.title == title,
            r.filename == filename,
            r.category == category,
            r.render == Option::Some(render),
    {
        Self { id, title, filename, category, render: Some(render) }
    }

    pub fn page_ref(&self) -> (r: PageRef<'_>)
        ensures
            r.0@ == self.id@,
    {
        PageRef(self.id.as_str())
    }
}

/// A feed document.
pub struct FeedDocument {
    pub id: String,
    pub title: String,
    pub filename: FileName,
    pub category: Option<String>,
    pub render: Option<RenderTask>,
}

impl FeedDocument {
    pub fn new(
        id: String,
        title: String,
        filename: FileName,
        category: Option<String>,
        render: RenderTask,
    ) -> (r: Self)
        ensures
            r.id == id,
            r.title == title,
            r.filename == filename,
            r.category == category,
            r.render == Option::Some(render),
    {
        Self { id, title, filename, category, render: Some(render) }
    }
}

/// The stylesheet's placeholder document.
pub struct CSSDocument {
    pub id: String,
    pub filename: FileName,
    pub render: Option<RenderTask>,
}

impl CSSDocument {
    pub fn new(id: String, filename: FileName, render: RenderTask) -> (r: Self)
        ensures
            r.id == id,
            r.filename == filename,
            r.render == Option::Some(render),
    {
        Self { id, filename, render: Some(render) }
    }
}

/// A copied-through resource document.
pub struct ResourceDocument {
    pub resource: Resource,
    pub filename: FileName,
    pub render: Option<RenderTask>,
}

impl ResourceDocument {
    pub fn new(resource: Resource, filename: FileName, render: RenderTask) -> (r: Self)
        ensures
            r.resource == resource,
            r.filename == filename,
            r.render == Option::Some(render),
    {
        Self { resource, filename, render: Some(render) }
    }
}

/// One document of the site.
pub enum Document {
    HTML(HtmlDocument),
    Feed(FeedDocument),
    Css(CSSDocument),
    Resource(ResourceDocument),
}

pub open spec fn spec_doc_id(d: Document) -> Seq<char> {
    match d {
        Document::HTML(h) => h.id@,
        Document::Feed(f) => f.id@,
        Document::Css(c) => c.id@,
        Document::Resource(r) => r.resource.id@,
    }
}

pub open spec fn spec_doc_title(d: Document) -> Option<Seq<char>> {
    match d {
        Document::HTML(h) => Option::Some(h.title@),
        _ => Option::None,
    }
}

pub open spec fn spec_doc_filename(d: Document) -> FileName {
    match d {
        Document::HTML(h) => h.filename,
        Document::Feed(f) => f.filename,
        Document::Css(c) => c.filename,
        Document::Resource(r) => r.filename,
    }
}

pub open spec fn spec_doc_extension(d: Document) -> Seq<char> {
    match d {
        Document::HTML(_) => ".html"@,
        Document::Feed(_) => ".rss"@,
        Document::Css(_) => ".css"@,
        Document::Resource(r) => crate::resource::spec_resource_ext(r.resource.resource_type),
    }
}

pub open spec fn spec_doc_category(d: Document) -> Option<Seq<char>> {
    match d {
        Document::HTML(h) => match h.category {
            Option::Some(c) => Option::Some(c@),
            Option::None => Option::None,
        },
        Document::Feed(f) => match f.category {
            Option::Some(c) => Option::Some(c@),
            Option::None => Option::None,
        },
        _ => Option::None,
    }
}

impl Document {
    /// The document's unique id.
    pub fn id(&self) -> (r: &str)
        ensures
            r@ == spec_doc_id(*self),
    {
        match self {
            Document::HTML(h) => h.id.as_str(),
            Document::Feed(f) => f.id.as_str(),
            Document::Css(c) => c.id.as_str(),
            Document::Resource(r) => r.resource.id.as_str(),
        }
    }

    /// The document's display title, for pages.
    pub fn title(&self) -> (r: Option<&str>)
        ensures
            match (r, spec_doc_title(*self)) {
                (Option::Some(s), Option::Some(v)) => s@ == v,
                (Option::None, Option::None) => true,
                _ => false,
            },
    {
        match self {
            Document::HTML(h) => Some(h.title.as_str()),
            _ => None,
        }
    }

    /// The document's file-name policy.
    pub fn filename(&self) -> (r: FileName)
        ensures
            r == spec_doc_filename(*self),
    {
        match self {
            Document::HTML(h) => h.filename,
            Document::Feed(f) => f.filename,
            Document::Css(c) => c.filename,
            Document::Resource(r) => r.filename,
        }
    }

    /// The document's output extension.
    pub fn extension(&self) -> (r: &'static str)
        ensures
            r@ == spec_doc_extension(*self),
    {
        match self {
            Document::HTML(_) => ".html",
            Document::Feed(_) => ".rss",
            Document::Css(_) => ".css",
            Document::Resource(r) => r.resource.resource_type.extension(),
        }
    }

    /// The category the document is filed under.
    pub fn category(&self) -> (r: Option<&str>)
        ensures
            match (r, spec_doc_category(*self)) {
                (Option::Some(s), Option::Some(v)) => s@ == v,
                (Option::None, Option::None) => true,
                _ => false,
            },
    {
        match self {
            Document::HTML(h) => match &h.category {
                Some(c) => Some(c.as_str()),
                None => None,
            },
            Document::Feed(f) => match &f.category {
                Some(c) => Some(c.as_str()),
                None => None,
            },
            _ => None,
        }
    }

    pub fn page_ref(&self) -> (r: PageRef<'_>)
        ensures
            r.0@ == spec_doc_id(*self),
    {
        PageRef(self.id())
    }

    /// The document's render task, consumed exactly once: a document whose
    /// task is already gone reports the repeated render as fatal.
    pub fn build(self) -> (r: Result<RenderTask, RenderError>)
        ensures
            match r {
                Ok(t) => match self {
                    Document::HTML(h) => h.render == Option::Some(t),
                    Document::Feed(f) => f.render == Option::Some(t),
                    Document::Css(c) => c.render == Option::Some(t),
                    Document::Resource(d) => d.render == Option::Some(t),
                },
                Err(e) => e is DoubleRender && (match self {
                    Document::HTML(h) => h.render is None,
                    Document::Feed(f) => f.render is None,
                    Document::Css(c) => c.render is None,
                    Document::Resource(d) => d.render is None,
                }),
            },
    {
        let task = match self {
            Document::HTML(h) => h.render,
            Document::Feed(f) => f.render,
            Document::Css(c) => c.render,
            Document::Resource(d) => d.render,
        };
        match task {
            Some(t) => Ok(t),
            None => Err(RenderError::DoubleRender),
        }
    }
}

// ---------------------------------------------------------------------------
// The site and its document set
// ---------------------------------------------------------------------------

/// The whole site as loaded: its title, front-page description, category
/// tree, posts (keyed by id, in insertion order) and resources.
pub struct Website {
    pub title: String,
    pub description: String,
    pub categories: Vec<Category>,
    pub posts: Vec<(String, BlogPost)>,
    pub resources: Vec<Resource>,
}

/// The categories of a forest that appear in listings, in pre-order.
pub open spec fn spec_listed_cats(cs: Seq<Category>) -> Seq<Category>
    decreases cs.len(),
{
    if cs.len() == 0 {
        Seq::empty()
    } else {
        (if cs[0].unlisted {
            Seq::<Category>::empty()
        } else {
            seq![cs[0]]
        }) + spec_listed_cats(cs.skip(1))
    }
}

pub proof fn lemma_listed_cats_snoc(cs: Seq<Category>, i: int)
    requires
        0 <= i < cs.len(),
    ensures
        spec_listed_cats(cs.take(i + 1)) == spec_listed_cats(cs.take(i)) + (if cs[i].unlisted {
            Seq::<Category>::empty()
        } else {
            seq![cs[i]]
        }),
    decreases i,
{
    if i == 0 {
        assert(cs.take(1)[0] == cs[0]);
        assert(cs.take(1).skip(1) =~= Seq::<Category>::empty());
        assert(cs.take(0) =~= Seq::<Category>::empty());
        assert(spec_listed_cats(cs.take(1)) =~= spec_listed_cats(cs.take(0)) + (if cs[0].unlisted {
            Seq::<Category>::empty()
        } else {
            seq![cs[0]]
        }));
    } else {
        lemma_listed_cats_snoc(cs.skip(1), i - 1);
        assert(cs.take(i + 1)[0] == cs[0]);
        assert(cs.take(i + 1).skip(1) =~= cs.skip(1).take(i));
        assert(cs.take(i)[0] == cs[0]);
        assert(cs.take(i).skip(1) =~= cs.skip(1).take(i - 1));
        assert(cs.skip(1)[i - 1] == cs[i]);
        assert(spec_listed_cats(cs.take(i + 1)) =~= spec_listed_cats(cs.take(i)) + (
        if cs[i].unlisted {
            Seq::<Category>::empty()
        } else {
            seq![cs[i]]
        }));
    }
}

/// Some category of the subtree list carries this id.
pub open spec fn spec_subtree_has_id(cs: Seq<Category>, id: Seq<char>) -> bool {
    exists|i: int| 0 <= i < cs.len() && (#[trigger] cs[i]).id_string@ == id
}

/// The id belongs to the subtree of some category named `blog`.
pub open spec fn spec_in_blog(cats: Seq<Category>, id: Seq<char>) -> bool {
    exists|b: int|
        0 <= b < spec_descendants_list(cats).len() && (#[trigger] spec_descendants_list(
            cats,
        )[b]).id_string@ == "blog"@ && spec_subtree_has_id(
            spec_descendants(spec_descendants_list(cats)[b]),
            id,
        )
}

/// A post is shown in a category's list exactly when it is published and
/// filed in the category's subtree.
pub open spec fn spec_post_selected(p: (String, BlogPost), subtree: Seq<Category>) -> bool {
    p.1.metadata.published == Published::True && spec_subtree_has_id(
        subtree,
        p.1.metadata.category@,
    )
}

/// The posts a category lists, in post order.
pub open spec fn spec_selected_posts(
    posts: Seq<(String, BlogPost)>,
    subtree: Seq<Category>,
) -> Seq<(String, BlogPost)>
    decreases posts.len(),
{
    if posts.len() == 0 {
        Seq::empty()
    } else {
        (if spec_post_selected(posts[0], subtree) {
            seq![posts[0]]
        } else {
            Seq::<(String, BlogPost)>::empty()
        }) + spec_selected_posts(posts.skip(1), subtree)
    }
}

pub proof fn lemma_selected_posts_snoc(
    posts: Seq<(String, BlogPost)>,
    subtree: Seq<Category>,
    i: int,
)
    requires
        0 <= i < posts.len(),
    ensures
        spec_selected_posts(posts.take(i + 1), subtree) == spec_selected_posts(
            posts.take(i),
            subtree,
        ) + (if spec_post_selected(posts[i], subtree) {
            seq![posts[i]]
        } else {
            Seq::<(String, BlogPost)>::empty()
        }),
    decreases i,
{
    if i == 0 {
        assert(posts.take(1)[0] == posts[0]);
        assert(posts.take(1).skip(1) =~= Seq::<(String, BlogPost)>::empty());
        assert(posts.take(0) =~= Seq::<(String, BlogPost)>::empty());
        assert(spec_selected_posts(posts.take(1), subtree) =~= spec_selected_posts(
            posts.take(0),
            subtree,
        ) + (if spec_post_selected(posts[0], subtree) {
            seq![posts[0]]
        } else {
            Seq::<(String, BlogPost)>::empty()
        }));
    } else {
        lemma_selected_posts_snoc(posts.skip(1), subtree, i - 1);
        assert(posts.take(i + 1)[0] == posts[0]);
        assert(posts.take(i + 1).skip(1) =~= posts.skip(1).take(i));
        assert(posts.take(i)[0] == posts[0]);
        assert(posts.take(i).skip(1) =~= posts.skip(1).take(i - 1));
        assert(posts.skip(1)[i - 1] == posts[i]);
        assert(spec_selected_posts(posts.take(i + 1), subtree) =~= spec_selected_posts(
            posts.take(i),
            subtree,
        ) + (if spec_post_selected(posts[i], subtree) {
            seq![posts[i]]
        } else {
            Seq::<(String, BlogPost)>::empty()
        }));
    }
}

/// The entries mirror the selected posts: same ids, dates and titles.
pub open spec fn spec_entries_match(
    es: Seq<PostListEntry>,
    ps: Seq<(String, BlogPost)>,
) -> bool {
    &&& es.len() == ps.len()
    &&& forall|x: int|
        0 <= x < es.len() ==> {
            &&& (#[trigger] es[x]).post_id@ == ps[x].0@
            &&& es[x].post_date == ps[x].1.metadata.date
            &&& es[x].post_title@ == ps[x].1.metadata.title@
        }
}

/// One navigation entry mirrors one top-level category: a dropdown tree when
/// it has listed children, a plain link otherwise.
pub open spec fn spec_nav_entry_matches(item: NavigationItem, c: Category) -> bool {
    let listed = spec_listed_cats(c.sub_categories@);
    if listed.len() > 0 {
        match item {
            NavigationItem::Tree(head, pairs) => {
                &&& crate::routes::link_view(head) == crate::routes::LinkView::ID(c.id_string@)
                &&& pairs@.len() == listed.len()
                &&& (forall|x: int|
                    0 <= x < listed.len() ==> {
                        &&& crate::routes::link_view((#[trigger] pairs@[x]).0)
                            == crate::routes::LinkView::ID(listed[x].id_string@)
                        &&& pairs@[x].1@.len() == listed[x].sub_categories@.len()
                        &&& (forall|y: int|
                            0 <= y < listed[x].sub_categories@.len() ==> crate::routes::link_view(
                                (#[trigger] pairs@[x].1@[y]),
                            ) == crate::routes::LinkView::ID(
                                listed[x].sub_categories@[y].id_string@,
                            ))
                    })
            },
            _ => false,
        }
    } else {
        match item {
            NavigationItem::SingleLink(l) => crate::routes::link_view(l)
                == crate::routes::LinkView::ID(c.id_string@),
            _ => false,
        }
    }
}

/// The navigation mirrors the top-level categories, after the home link.
pub open spec fn spec_nav_matches(items: Seq<NavigationItem>, cats: Seq<Category>) -> bool {
    &&& items.len() == 1 + cats.len()
    &&& (match items[0] {
        NavigationItem::SingleLink(l) => crate::routes::link_view(l)
            == crate::routes::LinkView::ID("home"@),
        _ => false,
    })
    &&& forall|k: int| 0 <= k < cats.len() ==> spec_nav_entry_matches(#[trigger] items[k + 1], cats[k])
}

/// Builds the navigation for the given top-level categories.
pub fn navigation(categories: &Vec<Category>) -> (r: Vec<NavigationItem>)
    ensures
        spec_nav_matches(r@, categories@),
{
    let mut items: Vec<NavigationItem> = Vec::new();
    items.push(NavigationItem::SingleLink(Link::ID("home".to_owned())));
    let n = categories.len();
    let mut i: usize = 0;
    while i < n
        invariant
            i <= n,
            n == categories@.len(),
            items@.len() == 1 + i,
            (match items@[0] {
                NavigationItem::SingleLink(l) => crate::routes::link_view(l)
                    == crate::routes::LinkView::ID("home"@),
                _ => false,
            }),
            forall|k: int|
                0 <= k < i ==> spec_nav_entry_matches(#[trigger] items@[k + 1], categories@[k]),
        decreases n - i,
    {
        let c = &categories[i];
        let m = c.sub_categories.len();
        let ghost subs = c.sub_categories@;
        let mut pairs: Vec<(Link, Vec<Link>)> = Vec::new();
        let mut j: usize = 0;
        proof {
            assert(subs.take(0) =~= Seq::<Category>::empty());
        }
        while j < m
            invariant
                j <= m,
                m == subs.len(),
                *c == categories@[i as int],
                subs == categories@[i as int].sub_categories@,
                i < n,
                n == categories@.len(),
                pairs@.len() == spec_listed_cats(subs.take(j as int)).len(),
                forall|x: int|
                    0 <= x < pairs@.len() ==> {
                        &&& crate::routes::link_view((#[trigger] pairs@[x]).0)
                            == crate::routes::LinkView::ID(
                            spec_listed_cats(subs.take(j as int))[x].id_string@,
                        )
                        &&& pairs@[x].1@.len() == spec_listed_cats(
                            subs.take(j as int),
                        )[x].sub_categories@.len()
                        &&& (forall|y: int|
                            0 <= y < pairs@[x].1@.len() ==> crate::routes::link_view(
                                (#[trigger] pairs@[x].1@[y]),
                            ) == crate::routes::LinkView::ID(
                                spec_listed_cats(
                                    subs.take(j as int),
                                )[x].sub_categories@[y].id_string@,
                            ))
                    },
            decreases m - j,
        {
            let head = &c.sub_categories[j];
            if !head.unlisted {
                let mut sub_links: Vec<Link> = Vec::new();
                let p = head.sub_categories.len();
                let mut y: usize = 0;
                while y < p
                    invariant
                        y <= p,
                        p == head.sub_categories@.len(),
                        sub_links@.len() == y,
                        forall|z: int|
                            0 <= z < y ==> crate::routes::link_view(#[trigger] sub_links@[z])
                                == crate::routes::LinkView::ID(
                                head.sub_categories@[z].id_string@,
                            ),
                    decreases p - y,
                {
                    sub_links.push(Link::ID(head.sub_categories[y].id_string.clone()));
                    y = y + 1;
                }
                proof {
                    assert(*head == subs[j as int]);
                }
                pairs.push((Link::ID(head.id_string.clone()), sub_links));
            }
            proof {
                assert(*head == subs[j as int]);
                lemma_listed_cats_snoc(subs, j as int);
                if !subs[j as int].unlisted {
                    let listed_now = spec_listed_cats(subs.take(j + 1));
                    assert(listed_now =~= spec_listed_cats(subs.take(j as int)).push(
                        subs[j as int],
                    ));
                } else {
                    assert(spec_listed_cats(subs.take(j + 1)) =~= spec_listed_cats(
                        subs.take(j as int),
                    ));
                }
            }
            j = j + 1;
        }
        proof {
            assert(subs.take(m as int) =~= subs);
        }
        if pairs.len() > 0 {
            items.push(NavigationItem::Tree(Link::ID(c.id_string.clone()), pairs));
        } else {
            items.push(NavigationItem::SingleLink(Link::ID(c.id_string.clone())));
        }
        proof {
            assert(spec_nav_entry_matches(items@[i + 1], categories@[i as int]));
        }
        i = i + 1;
    }
    items
}

/// Inserting an element anywhere adds exactly it to the sequence's multiset.
proof fn lemma_to_multiset_insert(s: Seq<(String, BlogPost)>, p: int, x: (String, BlogPost))
    requires
        0 <= p <= s.len(),
    ensures
        s.insert(p, x).to_multiset() =~= s.to_multiset().insert(x),
{
    broadcast use vstd::seq_lib::group_to_multiset_ensures;

    let t = s.insert(p, x);
    assert(t[p] == x);
    assert(t.remove(p) =~= s);
    assert(t.remove(p).to_multiset() =~= t.to_multiset().remove(t[p]));
    assert(t.contains(x));
    assert(t.to_multiset().count(x) > 0);
    assert forall|a: (String, BlogPost)|
        t.to_multiset().count(a) == s.to_multiset().insert(x).count(a) by {
        assert(s.to_multiset().count(a) == t.to_multiset().remove(x).count(a));
        if a == x {
            assert(t.to_multiset().remove(x).count(x) == t.to_multiset().count(x) - 1);
        } else {
            assert(t.to_multiset().remove(x).count(a) == t.to_multiset().count(a));
        }
    }
}

/// Sorts the posts newest first.
pub fn sort_posts(posts: Vec<(String, BlogPost)>) -> (r: Vec<(String, BlogPost)>)
    ensures
        r@.len() == posts@.len(),
        r@.to_multiset() == posts@.to_multiset(),
        forall|a: int, b: int|
            0 <= a < b < r@.len() ==> (#[trigger] r@[a]).1.metadata.date
                >= (#[trigger] r@[b]).1.metadata.date,
{
    let ghost posts0 = posts@;
    let mut rest = posts;
    let mut out: Vec<(String, BlogPost)> = Vec::new();
    proof {
        broadcast use vstd::seq_lib::group_to_multiset_ensures;

        assert(out@.to_multiset().add(rest@.to_multiset()) =~= posts0.to_multiset());
    }
    while rest.len() > 0
        invariant
            out@.len() + rest@.len() == posts0.len(),
            out@.to_multiset().add(rest@.to_multiset()) == posts0.to_multiset(),
            forall|a: int, b: int|
                0 <= a < b < out@.len() ==> (#[trigger] out@[a]).1.metadata.date
                    >= (#[trigger] out@[b]).1.metadata.date,
        decreases rest@.len(),
    {
        let ghost rest_pre = rest@;
        let item = rest.remove(0);
        let ghost item_g = item;
        proof {
            broadcast use vstd::seq_lib::group_to_multiset_ensures;

            assert(rest_pre.remove(0).to_multiset() =~= rest_pre.to_multiset().remove(
                rest_pre[0],
            ));
            assert(rest_pre.contains(rest_pre[0]));
        }
        let mut p: usize = 0;
        let n_out = out.len();
        while p < n_out
            invariant
                p <= n_out,
                n_out == out@.len(),
                item_g == item,
                forall|x: int|
                    0 <= x < p ==> (#[trigger] out@[x]).1.metadata.date >= item_g.1.metadata.date,
            ensures
                p <= n_out,
                forall|x: int|
                    0 <= x < p ==> (#[trigger] out@[x]).1.metadata.date >= item_g.1.metadata.date,
                p < n_out ==> (out@[p as int]).1.metadata.date < item_g.1.metadata.date,
            decreases n_out - p,
        {
            if out[p].1.metadata.date < item.1.metadata.date {
                break ;
            }
            p = p + 1;
        }
        let ghost out_pre = out@;
        out.insert(p, item);
        proof {
            broadcast use vstd::seq_lib::group_to_multiset_ensures;

            assert(out@ == out_pre.insert(p as int, item_g));
            lemma_to_multiset_insert(out_pre, p as int, item_g);
            assert(out@.to_multiset().add(rest@.to_multiset()) =~= posts0.to_multiset()) by {
                assert(out@.to_multiset() =~= out_pre.to_multiset().insert(item_g));
                assert(rest@.to_multiset() =~= rest_pre.to_multiset().remove(item_g));
                assert(rest_pre.to_multiset().count(item_g) > 0);
                assert forall|a: (String, BlogPost)|
                    out@.to_multiset().add(rest@.to_multiset()).count(a)
                        == posts0.to_multiset().count(a) by {
                    assert(out_pre.to_multiset().add(rest_pre.to_multiset()).count(a)
                        == posts0.to_multiset().count(a));
                }
            }
            assert(forall|a: int, b: int|
                0 <= a < b < out@.len() ==> (#[trigger] out@[a]).1.metadata.date
                    >= (#[trigger] out@[b]).1.metadata.date) by {
                assert(forall|x: int| 0 <= x < p ==> out@[x] == out_pre[x]);
                assert(out@[p as int] == item_g);
                assert(forall|x: int| p < x < out@.len() ==> out@[x] == out_pre[x - 1]);
            }
        }
    }
    proof {
        broadcast use vstd::seq_lib::group_to_multiset_ensures;

        assert(rest@.to_multiset() =~= vstd::multiset::Multiset::<(String, BlogPost)>::empty());
        assert(out@.to_multiset().add(vstd::multiset::Multiset::<(String, BlogPost)>::empty())
            =~= out@.to_multiset());
    }
    out
}

/// All categories of a forest, in pre-order.
fn all_categories<'a>(categories: &'a Vec<Category>) -> (r: Vec<&'a Category>)
    ensures
        r@.map_values(|c: &Category| *c) =~= spec_descendants_list(categories@),
{
    let mut out: Vec<&Category> = Vec::new();
    let n = categories.len();
    let mut i: usize = 0;
    proof {
        assert(categories@.take(0) =~= Seq::<Category>::empty());
        assert(out@.map_values(|c: &Category| *c) =~= spec_descendants_list(categories@.take(0)));
    }
    while i < n
        invariant
            i <= n,
            n == categories@.len(),
            out@.map_values(|c: &Category| *c) =~= spec_descendants_list(
                categories@.take(i as int),
            ),
        decreases n - i,
    {
        let sub = categories[i].iter_recurse();
        let ghost pre = out@;
        let m = sub.len();
        let mut j: usize = 0;
        while j < m
            invariant
                j <= m,
                m == sub@.len(),
                i < n,
                n == categories@.len(),
                sub@.map_values(|c: &Category| *c) =~= spec_descendants(categories@[i as int]),
                out@.map_values(|c: &Category| *c) =~= spec_descendants_list(
                    categories@.take(i as int),
                ) + spec_descendants(categories@[i as int]).take(j as int),
            decreases m - j,
        {
            let ghost d = spec_descendants(categories@[i as int]);
            let ghost prev = out@;
            out.push(sub[j]);
            proof {
                assert(sub@.map_values(|c: &Category| *c)[j as int] == *sub@[j as int]);
                assert(*sub@[j as int] == d[j as int]);
                assert(out@.map_values(|c: &Category| *c) =~= prev.map_values(
                    |c: &Category| *c,
                ).push(d[j as int]));
                assert(out@.map_values(|c: &Category| *c) =~= spec_descendants_list(
                    categories@.take(i as int),
                ) + d.take(j + 1));
            }
            j = j + 1;
        }
        proof {
            let d = spec_descendants(categories@[i as int]);
            assert(d.take(m as int) =~= d);
            crate::category::lemma_descendants_list_snoc(categories@, i as int);
        }
        i = i + 1;
    }
    proof {
        assert(categories@.take(n as int) =~= categories@);
    }
    out
}

/// The listed categories of a forest, in pre-order.
fn listed_categories<'a>(categories: &'a Vec<Category>) -> (r: Vec<&'a Category>)
    ensures
        r@.map_values(|c: &Category| *c) =~= spec_listed_cats(spec_descendants_list(categories@)),
{
    let all = all_categories(categories);
    let ghost alls = spec_descendants_list(categories@);
    let mut out: Vec<&Category> = Vec::new();
    let n = all.len();
    let mut i: usize = 0;
    proof {
        assert(alls.take(0) =~= Seq::<Category>::empty());
        assert(out@.map_values(|c: &Category| *c) =~= spec_listed_cats(alls.take(0)));
    }
    while i < n
        invariant
            i <= n,
            n == alls.len(),
            all@.map_values(|c: &Category| *c) =~= alls,
            n == all@.len(),
            out@.map_values(|c: &Category| *c) =~= spec_listed_cats(alls.take(i as int)),
        decreases n - i,
    {
        proof {
            assert(all@.map_values(|c: &Category| *c)[i as int] == *all@[i as int]);
            assert(*all@[i as int] == alls[i as int]);
        }
        let ghost prev = out@;
        if !all[i].unlisted {
            out.push(all[i]);
            proof {
                assert(out@.map_values(|c: &Category| *c) =~= prev.map_values(
                    |c: &Category| *c,
                ).push(alls[i as int]));
            }
        }
        proof {
            lemma_listed_cats_snoc(alls, i as int);
            assert(out@.map_values(|c: &Category| *c) =~= spec_listed_cats(alls.take(i + 1)));
        }
        i = i + 1;
    }
    proof {
        assert(alls.take(n as int) =~= alls);
    }
    out
}

/// Whether the subtree of `cat` holds a category with this id.
fn subtree_contains(cat: &Category, id: &str) -> (r: bool)
    ensures
        r == spec_subtree_has_id(spec_descendants(*cat), id@),
{
    let subtree = cat.iter_recurse();
    let ghost d = spec_descendants(*cat);
    let n = subtree.len();
    let mut i: usize = 0;
    while i < n
        invariant
            i <= n,
            n == subtree@.len(),
            d == spec_descendants(*cat),
            subtree@.map_values(|c: &Category| *c) =~= d,
            n == d.len(),
            forall|x: int| 0 <= x < i ==> (#[trigger] d[x]).id_string@ != id@,
        decreases n - i,
    {
        proof {
            assert(subtree@.map_values(|c: &Category| *c)[i as int] == *subtree@[i as int]);
        }
        if str_eq(subtree[i].id_string.as_str(), id) {
            proof {
                assert(d[i as int].id_string@ == id@);
                assert(spec_subtree_has_id(d, id@));
            }
            return true;
        }
        i = i + 1;
    }
    proof {
        if spec_subtree_has_id(d, id@) {
            let x = choose|x: int| 0 <= x < d.len() && (#[trigger] d[x]).id_string@ == id@;
            assert(false);
        }
    }
    false
}

/// Whether `id` falls in the subtree of any category named `blog`.
pub fn in_blog(categories: &Vec<Category>, id: &str) -> (r: bool)
    ensures
        r == spec_in_blog(categories@, id@),
{
    let all = all_categories(categories);
    let ghost alls = spec_descendants_list(categories@);
    let n = all.len();
    let mut i: usize = 0;
    while i < n
        invariant
            i <= n,
            n == all@.len(),
            alls == spec_descendants_list(categories@),
            all@.map_values(|c: &Category| *c) =~= alls,
            n == alls.len(),
            forall|b: int|
                0 <= b < i ==> !((#[trigger] alls[b]).id_string@ == "blog"@ && spec_subtree_has_id(
                    spec_descendants(alls[b]),
                    id@,
                )),
        decreases n - i,
    {
        proof {
            assert(all@.map_values(|c: &Category| *c)[i as int] == *all@[i as int]);
        }
        if str_eq(all[i].id_string.as_str(), "blog") {
            if subtree_contains(all[i], id) {
                proof {
                    assert(alls[i as int].id_string@ == "blog"@ && spec_subtree_has_id(
                        spec_descendants(alls[i as int]),
                        id@,
                    ));
                    assert(spec_descendants_list(categories@)[i as int].id_string@ == "blog"@);
                    assert(spec_in_blog(categories@, id@));
                }
                return true;
            }
        }
        i = i + 1;
    }
    proof {
        if spec_in_blog(categories@, id@) {
            let b = choose|b: int|
                0 <= b < alls.len() && (#[trigger] alls[b]).id_string@ == "blog"@
                    && spec_subtree_has_id(spec_descendants(alls[b]), id@);
            assert(false);
        }
    }
    false
}

/// The list entries a category shows: its subtree's published posts.
fn category_entries(posts: &Vec<(String, BlogPost)>, cat: &Category) -> (r: Vec<PostListEntry>)
    ensures
        spec_entries_match(r@, spec_selected_posts(posts@, spec_descendants(*cat))),
{
    let ghost subtree = spec_descendants(*cat);
    let mut out: Vec<PostListEntry> = Vec::new();
    let n = posts.len();
    let mut i: usize = 0;
    proof {
        assert(posts@.take(0) =~= Seq::<(String, BlogPost)>::empty());
        assert(spec_entries_match(out@, spec_selected_posts(posts@.take(0), subtree)));
    }
    while i < n
        invariant
            i <= n,
            n == posts@.len(),
            subtree == spec_descendants(*cat),
            spec_entries_match(out@, spec_selected_posts(posts@.take(i as int), subtree)),
        decreases n - i,
    {
        let p = &posts[i];
        let published = match p.1.metadata.published {
            Published::True => true,
            _ => false,
        };
        let selected = published && subtree_contains(cat, p.1.metadata.category.as_str());
        let ghost prev = out@;
        if selected {
            out.push(
                PostListEntry {
                    post_id: p.0.clone(),
                    post_date: p.1.metadata.date,
                    post_title: p.1.metadata.title.clone(),
                },
            );
        }
        proof {
            assert(posts@[i as int] == *p);
            assert(published == (p.1.metadata.published == Published::True)) by {
                match p.1.metadata.published {
                    Published::True => {},
                    Published::False => {},
                    Published::Unlisted => {},
                }
            }
            assert(selected == spec_post_selected(posts@[i as int], subtree));
            lemma_selected_posts_snoc(posts@, subtree, i as int);
            if selected {
                assert(spec_selected_posts(posts@.take(i + 1), subtree) =~= spec_selected_posts(
                    posts@.take(i as int),
                    subtree,
                ).push(posts@[i as int]));
            }
            assert(spec_entries_match(out@, spec_selected_posts(posts@.take(i + 1), subtree)));
        }
        i = i + 1;
    }
    proof {
        assert(posts@.take(n as int) =~= posts@);
    }
    out
}

// ---------------------------------------------------------------------------
// The document set's routing, as a function of the site's data
// ---------------------------------------------------------------------------

/// One document's routing face, at the specification level.
pub struct RouteDesc {
    pub id: Seq<char>,
    pub category: Option<Seq<char>>,
    pub filename: FileName,
    pub extension: Seq<char>,
}

/// The routing descriptor of the document at position `i` of the build
/// order: home, stylesheet, resources, listed categories, posts.
pub open spec fn spec_site_desc_at(
    cats: Seq<Category>,
    posts: Seq<(String, BlogPost)>,
    resources: Seq<Resource>,
    i: int,
) -> RouteDesc {
    let listed = spec_listed_cats(spec_descendants_list(cats));
    let nr = resources.len() as int;
    let nl = listed.len() as int;
    if i == 0 {
        RouteDesc {
            id: "home"@,
            category: Option::None,
            filename: FileName::Index,
            extension: ".html"@,
        }
    } else if i == 1 {
        RouteDesc {
            id: "stylesheet"@,
            category: Option::None,
            filename: FileName::ID,
            extension: ".css"@,
        }
    } else if i < 2 + nr {
        RouteDesc {
            id: resources[i - 2].id@,
            category: Option::None,
            filename: FileName::Resource,
            extension: crate::resource::spec_resource_ext(resources[i - 2].resource_type),
        }
    } else if i < 2 + nr + nl {
        RouteDesc {
            id: listed[i - 2 - nr].id_string@,
            category: Option::Some(listed[i - 2 - nr].id_string@),
            filename: FileName::Index,
            extension: ".html"@,
        }
    } else {
        RouteDesc {
            id: posts[i - 2 - nr - nl].0@,
            category: Option::Some(posts[i - 2 - nr - nl].1.metadata.category@),
            filename: FileName::ID,
            extension: ".html"@,
        }
    }
}

/// The whole document set's routing descriptors, in build order.
pub open spec fn spec_site_descs(
    cats: Seq<Category>,
    posts: Seq<(String, BlogPost)>,
    resources: Seq<Resource>,
) -> Seq<RouteDesc> {
    Seq::new(
        2 + resources.len() + spec_listed_cats(spec_descendants_list(cats)).len() + posts.len(),
        |i: int| spec_site_desc_at(cats, posts, resources, i),
    )
}

/// The category-id-to-path pairs the whole forest contributes, in pre-order.
pub open spec fn spec_forest_paths(cats: Seq<Category>) -> Seq<(Seq<char>, Seq<Seq<char>>)>
    decreases cats.len(),
{
    if cats.len() == 0 {
        Seq::empty()
    } else {
        crate::category::spec_cat_paths(cats[0], Seq::empty()) + spec_forest_paths(cats.skip(1))
    }
}

pub proof fn lemma_forest_paths_snoc(cats: Seq<Category>, i: int)
    requires
        0 <= i < cats.len(),
    ensures
        spec_forest_paths(cats.take(i + 1)) == spec_forest_paths(cats.take(i))
            + crate::category::spec_cat_paths(cats[i], Seq::empty()),
    decreases i,
{
    if i == 0 {
        assert(cats.take(1)[0] == cats[0]);
        assert(cats.take(1).skip(1) =~= Seq::<Category>::empty());
        assert(cats.take(0) =~= Seq::<Category>::empty());
        assert(spec_forest_paths(cats.take(1)) =~= spec_forest_paths(cats.take(0))
            + crate::category::spec_cat_paths(cats[0], Seq::empty()));
    } else {
        lemma_forest_paths_snoc(cats.skip(1), i - 1);
        assert(cats.take(i + 1)[0] == cats[0]);
        assert(cats.take(i + 1).skip(1) =~= cats.skip(1).take(i));
        assert(cats.take(i)[0] == cats[0]);
        assert(cats.take(i).skip(1) =~= cats.skip(1).take(i - 1));
        assert(cats.skip(1)[i - 1] == cats[i]);
        assert(spec_forest_paths(cats.take(i + 1)) =~= spec_forest_paths(cats.take(i))
            + crate::category::spec_cat_paths(cats[i], Seq::empty()));
    }
}

/// The most recent path bound to a category id.
pub open spec fn spec_paths_get(
    pairs: Seq<(Seq<char>, Seq<Seq<char>>)>,
    k: Seq<char>,
) -> Option<Seq<Seq<char>>>
    decreases pairs.len(),
{
    if pairs.len() == 0 {
        Option::None
    } else if pairs.last().0 == k {
        Option::Some(pairs.last().1)
    } else {
        spec_paths_get(pairs.drop_last(), k)
    }
}

/// An exec path table's lookup agrees with the spec-level lookup over its
/// contents.
pub proof fn lemma_assoc_segs_view(entries: Seq<(String, Vec<String>)>, k: Seq<char>)
    ensures
        crate::tables::assoc_segs(entries, k) == spec_paths_get(
            entries.map_values(|p: (String, Vec<String>)| (p.0@, p.1.deep_view())),
            k,
        ),
    decreases entries.len(),
{
    let view = entries.map_values(|p: (String, Vec<String>)| (p.0@, p.1.deep_view()));
    if entries.len() > 0 {
        lemma_assoc_segs_view(entries.drop_last(), k);
        assert(entries.drop_last().map_values(|p: (String, Vec<String>)| (p.0@, p.1.deep_view()))
            =~= view.drop_last());
        assert(view.last() == (entries.last().0@, entries.last().1.deep_view()));
    }
}

/// A spec descriptor's route: its category's path (absent categories make
/// the route undefined) followed by its file-name segments.
pub open spec fn spec_desc_route(
    d: RouteDesc,
    paths: Seq<(Seq<char>, Seq<Seq<char>>)>,
) -> Option<Seq<Seq<char>>> {
    match d.category {
        Option::None => Option::Some(
            crate::routes::spec_filename_segs(d.id, d.filename, d.extension),
        ),
        Option::Some(c) => match spec_paths_get(paths, c) {
            Option::None => Option::None,
            Option::Some(path) => Option::Some(
                path + crate::routes::spec_filename_segs(d.id, d.filename, d.extension),
            ),
        },
    }
}

/// No two descriptors share an id.
pub open spec fn spec_desc_ids_unique(ds: Seq<RouteDesc>) -> bool {
    forall|i: int, j: int| 0 <= i < j < ds.len() ==> (#[trigger] ds[i]).id != (#[trigger] ds[j]).id
}

/// Every descriptor's category is known.
pub open spec fn spec_desc_cats_known(
    ds: Seq<RouteDesc>,
    paths: Seq<(Seq<char>, Seq<Seq<char>>)>,
) -> bool {
    forall|i: int| 0 <= i < ds.len() ==> spec_desc_route(#[trigger] ds[i], paths) is Some
}

/// No two descriptors resolve to the same route.
pub open spec fn spec_desc_routes_unique(
    ds: Seq<RouteDesc>,
    paths: Seq<(Seq<char>, Seq<Seq<char>>)>,
) -> bool {
    forall|i: int, j: int|
        0 <= i < j < ds.len() ==> !(spec_desc_route(#[trigger] ds[i], paths) is Some
            && spec_desc_route(ds[i], paths) == spec_desc_route(#[trigger] ds[j], paths))
}

/// The ids of the descriptors whose route is `route`, in order.
pub open spec fn spec_desc_colliding_ids(
    ds: Seq<RouteDesc>,
    paths: Seq<(Seq<char>, Seq<Seq<char>>)>,
    route: Seq<Seq<char>>,
) -> Seq<Seq<char>>
    decreases ds.len(),
{
    if ds.len() == 0 {
        Seq::empty()
    } else {
        let rest = spec_desc_colliding_ids(ds.drop_last(), paths, route);
        if spec_desc_route(ds.last(), paths) == Option::Some(route) {
            rest.push(ds.last().id)
        } else {
            rest
        }
    }
}

/// One exec descriptor routes as its spec counterpart does.
pub proof fn lemma_desc_route_bridge(
    d: RouteDoc,
    sd: RouteDesc,
    cmap: SegTable,
    paths: Seq<(Seq<char>, Seq<Seq<char>>)>,
)
    requires
        d.id@ == sd.id,
        d.filename == sd.filename,
        d.extension@ == sd.extension,
        (match (d.category, sd.category) {
            (Option::Some(a), Option::Some(b)) => a@ == b,
            (Option::None, Option::None) => true,
            _ => false,
        }),
        cmap.entries@.map_values(|p: (String, Vec<String>)| (p.0@, p.1.deep_view())) == paths,
    ensures
        crate::routes::spec_doc_route(d, cmap) == spec_desc_route(sd, paths),
{
    match d.category {
        Option::None => {},
        Option::Some(c) => {
            lemma_assoc_segs_view(cmap.entries@, c@);
        },
    }
}

/// The collected colliding ids agree between the exec and spec descriptors.
pub proof fn lemma_colliding_bridge(
    ds: Seq<RouteDoc>,
    ss: Seq<RouteDesc>,
    cmap: SegTable,
    paths: Seq<(Seq<char>, Seq<Seq<char>>)>,
    route: Seq<Seq<char>>,
)
    requires
        ds.len() == ss.len(),
        forall|i: int|
            0 <= i < ds.len() ==> (#[trigger] ds[i]).id@ == ss[i].id
                && crate::routes::spec_doc_route(ds[i], cmap) == spec_desc_route(ss[i], paths),
    ensures
        crate::routes::spec_colliding_ids(ds, cmap, route) == spec_desc_colliding_ids(
            ss,
            paths,
            route,
        ),
    decreases ds.len(),
{
    if ds.len() > 0 {
        assert(forall|i: int|
            0 <= i < ds.drop_last().len() ==> #[trigger] ds.drop_last()[i] == ds[i]
                && ss.drop_last()[i] == ss[i]);
        lemma_colliding_bridge(ds.drop_last(), ss.drop_last(), cmap, paths, route);
        assert(ds.last() == ds[ds.len() - 1]);
        assert(ss.last() == ss[ss.len() - 1]);
    }
}

/// The route table binds exactly the site's document descriptors, in build
/// order, each to its category path plus file-name segments.
pub open spec fn spec_table_matches(
    table: SegTable,
    cats: Seq<Category>,
    posts: Seq<(String, BlogPost)>,
    resources: Seq<Resource>,
) -> bool {
    let ds = spec_site_descs(cats, posts, resources);
    let paths = spec_forest_paths(cats);
    &&& table.entries@.len() == ds.len()
    &&& (forall|i: int| 0 <= i < ds.len() ==> table.spec_keys()[i] == (#[trigger] ds[i]).id)
    &&& (forall|i: int| 0 <= i < ds.len() ==> spec_desc_route(#[trigger] ds[i], paths) is Some)
    &&& (forall|i: int|
        0 <= i < ds.len() ==> table.spec_values()[i] == spec_desc_route(
            #[trigger] ds[i],
            paths,
        ).unwrap())
}

/// A sorted rearrangement of the site's posts: same posts, newest first.
pub open spec fn spec_sorted_perm(
    sp: Seq<(String, BlogPost)>,
    posts: Seq<(String, BlogPost)>,
) -> bool {
    &&& sp.len() == posts.len()
    &&& sp.to_multiset() == posts.to_multiset()
    &&& (forall|a: int, b: int|
        0 <= a < b < sp.len() ==> (#[trigger] sp[a]).1.metadata.date
            >= (#[trigger] sp[b]).1.metadata.date)
}

/// The routing failure a build error reports actually holds of the site's
/// document descriptors.
pub open spec fn spec_routing_failure(
    re: RouteError,
    cats: Seq<Category>,
    posts: Seq<(String, BlogPost)>,
    resources: Seq<Resource>,
) -> bool {
    let ds = spec_site_descs(cats, posts, resources);
    let paths = spec_forest_paths(cats);
    match re {
        RouteError::DuplicateId { id } => exists|i: int, j: int|
            0 <= i < j < ds.len() && (#[trigger] ds[i]).id == (#[trigger] ds[j]).id && ds[j].id
                == id@,
        RouteError::UnknownCategory { id, category } => exists|i: int|
            0 <= i < ds.len() && (#[trigger] ds[i]).id == id@ && ds[i].category == Option::Some(
                category@,
            ) && spec_paths_get(paths, category@) is None,
        RouteError::DuplicateRoute { route, ids } => exists|j: int|
            {
                &&& 0 <= j < ds.len()
                &&& spec_desc_route(#[trigger] ds[j], paths) == Option::Some(route.deep_view())
                &&& (exists|i: int|
                    0 <= i < j && spec_desc_route(#[trigger] ds[i], paths) == Option::Some(
                        route.deep_view(),
                    ))
                &&& ids.deep_view() == spec_desc_colliding_ids(
                    ds.take(j + 1),
                    paths,
                    route.deep_view(),
                )
                &&& ids@.len() >= 2
            },
    }
}

/// One routing descriptor carries the given fields.
pub open spec fn rd_matches(
    d: RouteDoc,
    id: Seq<char>,
    category: Option<Seq<char>>,
    filename: FileName,
    ext: Seq<char>,
) -> bool {
    &&& d.id@ == id
    &&& (match (d.category, category) {
        (Option::Some(a), Option::Some(b)) => a@ == b,
        (Option::None, Option::None) => true,
        _ => false,
    })
    &&& d.filename == filename
    &&& d.extension@ == ext
}

/// The full document set's routing descriptors, in build order: the home
/// page and stylesheet, then resources, listed categories and posts.
pub open spec fn spec_descs_match(
    descs: Seq<RouteDoc>,
    categories: Seq<Category>,
    posts: Seq<(String, BlogPost)>,
    resources: Seq<Resource>,
) -> bool {
    let listed = spec_listed_cats(spec_descendants_list(categories));
    let nr = resources.len() as int;
    let nl = listed.len() as int;
    &&& descs.len() == 2 + resources.len() + listed.len() + posts.len()
    &&& rd_matches(descs[0], "home"@, Option::None, FileName::Index, ".html"@)
    &&& rd_matches(descs[1], "stylesheet"@, Option::None, FileName::ID, ".css"@)
    &&& (forall|k: int|
        0 <= k < resources.len() ==> rd_matches(
            #[trigger] descs[2 + k],
            resources[k].id@,
            Option::None,
            FileName::Resource,
            crate::resource::spec_resource_ext(resources[k].resource_type),
        ))
    &&& (forall|k: int|
        0 <= k < listed.len() ==> rd_matches(
            #[trigger] descs[2 + nr + k],
            listed[k].id_string@,
            Option::Some(listed[k].id_string@),
            FileName::Index,
            ".html"@,
        ))
    &&& (forall|k: int|
        0 <= k < posts.len() ==> rd_matches(
            #[trigger] descs[2 + nr + nl + k],
            posts[k].0@,
            Option::Some(posts[k].1.metadata.category@),
            FileName::ID,
            ".html"@,
        ))
}

/// Builds the routing descriptors for the whole document set.
pub fn doc_descriptors(
    categories: &Vec<Category>,
    posts: &Vec<(String, BlogPost)>,
    resources: &Vec<Resource>,
) -> (r: Vec<RouteDoc>)
    ensures
        spec_descs_match(r@, categories@, posts@, resources@),
{
    let mut descs: Vec<RouteDoc> = Vec::new();
    descs.push(
        RouteDoc {
            id: "home".to_owned(),
            category: None,
            filename: FileName::Index,
            extension: ".html".to_owned(),
        },
    );
    descs.push(
        RouteDoc {
            id: "stylesheet".to_owned(),
            category: None,
            filename: FileName::ID,
            extension: ".css".to_owned(),
        },
    );
    let nr = resources.len();
    let mut i: usize = 0;
    while i < nr
        invariant
            i <= nr,
            nr == resources@.len(),
            descs@.len() == 2 + i,
            rd_matches(descs@[0], "home"@, Option::None, FileName::Index, ".html"@),
            rd_matches(descs@[1], "stylesheet"@, Option::None, FileName::ID, ".css"@),
            forall|k: int|
                0 <= k < i ==> rd_matches(
                    #[trigger] descs@[2 + k],
                    resources@[k].id@,
                    Option::None,
                    FileName::Resource,
                    crate::resource::spec_resource_ext(resources@[k].resource_type),
                ),
        decreases nr - i,
    {
        descs.push(
            RouteDoc {
                id: resources[i].id.clone(),
                category: None,
                filename: FileName::Resource,
                extension: resources[i].resource_type.extension().to_owned(),
            },
        );
        i = i + 1;
    }
    let listed = listed_categories(categories);
    let ghost listed_s = spec_listed_cats(spec_descendants_list(categories@));
    let nl = listed.len();
    let mut j: usize = 0;
    while j < nl
        invariant
            j <= nl,
            nl == listed@.len(),
            nr == resources@.len(),
            listed@.map_values(|c: &Category| *c) =~= listed_s,
            nl == listed_s.len(),
            descs@.len() == 2 + nr + j,
            rd_matches(descs@[0], "home"@, Option::None, FileName::Index, ".html"@),
            rd_matches(descs@[1], "stylesheet"@, Option::None, FileName::ID, ".css"@),
            forall|k: int|
                0 <= k < nr ==> rd_matches(
                    #[trigger] descs@[2 + k],
                    resources@[k].id@,
                    Option::None,
                    FileName::Resource,
                    crate::resource::spec_resource_ext(resources@[k].resource_type),
                ),
            forall|k: int|
                0 <= k < j ==> rd_matches(
                    #[trigger] descs@[2 + nr as int + k],
                    listed_s[k].id_string@,
                    Option::Some(listed_s[k].id_string@),
                    FileName::Index,
                    ".html"@,
                ),
        decreases nl - j,
    {
        proof {
            assert(listed@.map_values(|c: &Category| *c)[j as int] == *listed@[j as int]);
        }
        descs.push(
            RouteDoc {
                id: listed[j].id_string.clone(),
                category: Some(listed[j].id_string.clone()),
                filename: FileName::Index,
                extension: ".html".to_owned(),
            },
        );
        j = j + 1;
    }
    let np = posts.len();
    let mut k: usize = 0;
    while k < np
        invariant
            k <= np,
            np == posts@.len(),
            nr == resources@.len(),
            nl == listed_s.len(),
            descs@.len() == 2 + nr + nl + k,
            rd_matches(descs@[0], "home"@, Option::None, FileName::Index, ".html"@),
            rd_matches(descs@[1], "stylesheet"@, Option::None, FileName::ID, ".css"@),
            forall|x: int|
                0 <= x < nr ==> rd_matches(
                    #[trigger] descs@[2 + x],
                    resources@[x].id@,
                    Option::None,
                    FileName::Resource,
                    crate::resource::spec_resource_ext(resources@[x].resource_type),
                ),
            forall|x: int|
                0 <= x < nl ==> rd_matches(
                    #[trigger] descs@[2 + nr as int + x],
                    listed_s[x].id_string@,
                    Option::Some(listed_s[x].id_string@),
                    FileName::Index,
                    ".html"@,
                ),
            forall|x: int|
                0 <= x < k ==> rd_matches(
                    #[trigger] descs@[2 + nr as int + nl as int + x],
                    posts@[x].0@,
                    Option::Some(posts@[x].1.metadata.category@),
                    FileName::ID,
                    ".html"@,
                ),
        decreases np - k,
    {
        descs.push(
            RouteDoc {
                id: posts[k].0.clone(),
                category: Some(posts[k].1.metadata.category.clone()),
                filename: FileName::ID,
                extension: ".html".to_owned(),
            },
        );
        k = k + 1;
    }
    descs
}

/// Builds the document set in build order: the home page and the stylesheet
/// placeholder, then resources, listed category indexes (with a post list
/// exactly for categories in the blog subtree), then posts.
/// The document set mirrors the site's data in build order: the home page
/// and stylesheet placeholder, then resources, listed category indexes
/// (with a post list exactly for categories in the blog subtree), then
/// posts, each carrying its render task.
pub open spec fn spec_documents_match(
    docs: Seq<Document>,
    description: String,
    categories: Seq<Category>,
    posts: Seq<(String, BlogPost)>,
    resources: Seq<Resource>,
) -> bool {

            let listed = spec_listed_cats(spec_descendants_list(categories));
            let nr = resources.len() as int;
            let nl = listed.len() as int;
            &&& docs.len() == 2 + resources.len() + listed.len() + posts.len()
            &&& (match docs[0] {
                Document::HTML(h) => {
                    &&& h.id@ == "home"@
                    &&& h.title@ == "Home"@
                    &&& h.filename == FileName::Index
                    &&& h.category is None
                    &&& (match h.render {
                        Option::Some(RenderTask::Page { content, .. }) => match content {
                            PageContent::Home { description: d } => d@ == description@,
                            _ => false,
                        },
                        _ => false,
                    })
                },
                _ => false,
            })
            &&& (match docs[1] {
                Document::Css(c) => {
                    &&& c.id@ == "stylesheet"@
                    &&& c.filename == FileName::ID
                    &&& (match c.render {
                        Option::Some(t) => t is Special,
                        _ => false,
                    })
                },
                _ => false,
            })
            &&& (forall|k: int|
                0 <= k < resources.len() ==> match #[trigger] docs[2 + k] {
                    Document::Resource(d) => {
                        &&& d.resource.id@ == resources[k].id@
                        &&& d.resource.resource_type == resources[k].resource_type
                        &&& d.filename == FileName::Resource
                        &&& (match d.render {
                            Option::Some(RenderTask::CopyResource(rr)) => rr.0@
                                == resources[k].path@,
                            _ => false,
                        })
                    },
                    _ => false,
                })
            &&& (forall|k: int|
                0 <= k < listed.len() ==> match #[trigger] docs[2 + nr + k] {
                    Document::HTML(h) => {
                        &&& h.id@ == listed[k].id_string@
                        &&& h.title@ == listed[k].title@
                        &&& h.filename == FileName::Index
                        &&& (match h.category {
                            Option::Some(c) => c@ == listed[k].id_string@,
                            Option::None => false,
                        })
                        &&& (match h.render {
                            Option::Some(RenderTask::Page { content, .. }) => match content {
                                PageContent::CategoryIndex { heading, description: d, posts: ps } => {
                                    &&& heading@ == listed[k].title@
                                    &&& d@ == listed[k].description@
                                    &&& (match ps {
                                        Option::Some(es) => spec_in_blog(
                                            categories,
                                            listed[k].id_string@,
                                        ) && spec_entries_match(
                                            es@,
                                            spec_selected_posts(
                                                posts,
                                                spec_descendants(listed[k]),
                                            ),
                                        ),
                                        Option::None => !spec_in_blog(
                                            categories,
                                            listed[k].id_string@,
                                        ),
                                    })
                                },
                                _ => false,
                            },
                            _ => false,
                        })
                    },
                    _ => false,
                })
            &&& (forall|k: int|
                0 <= k < posts.len() ==> match #[trigger] docs[2 + nr + nl + k] {
                    Document::HTML(h) => {
                        &&& h.id@ == posts[k].0@
                        &&& h.title@ == posts[k].1.metadata.title@
                        &&& h.filename == FileName::ID
                        &&& (match h.category {
                            Option::Some(c) => c@ == posts[k].1.metadata.category@,
                            Option::None => false,
                        })
                        &&& (match h.render {
                            Option::Some(RenderTask::Page { content, .. }) => match content {
                                PageContent::Post { post } => post == posts[k].1,
                                _ => false,
                            },
                            _ => false,
                        })
                    },
                    _ => false,
                })
}

pub fn make_documents(
    description: String,
    categories: &Vec<Category>,
    posts: Vec<(String, BlogPost)>,
    resources: Vec<Resource>,
) -> (r: Vec<Document>)
    ensures
        spec_documents_match(r@, description, categories@, posts@, resources@),
{
    let ghost posts0 = posts@;
    let ghost resources0 = resources@;
    let mut docs: Vec<Document> = Vec::new();
    let empty_nav: Vec<NavigationItem> = Vec::new();
    docs.push(
        Document::HTML(
            HtmlDocument::new(
                "home".to_owned(),
                "Home".to_owned(),
                FileName::Index,
                None,
                RenderTask::Page { nav: empty_nav, content: PageContent::Home { description } },
            ),
        ),
    );
    docs.push(
        Document::Css(
            CSSDocument::new(
                "stylesheet".to_owned(),
                FileName::ID,
                RenderTask::Special(SpecialCaseRender()),
            ),
        ),
    );
    let mut rest_res = resources;
    let nr = rest_res.len();
    let mut i: usize = 0;
    while i < nr
        invariant
            i <= nr,
            nr == resources0.len(),
            rest_res@ =~= resources0.skip(i as int),
            docs@.len() == 2 + i,
            (match docs@[0] {
                Document::HTML(h) => {
                    &&& h.id@ == "home"@
                    &&& h.title@ == "Home"@
                    &&& h.filename == FileName::Index
                    &&& h.category is None
                    &&& (match h.render {
                        Option::Some(RenderTask::Page { content, .. }) => match content {
                            PageContent::Home { description: d } => d@ == description@,
                            _ => false,
                        },
                        _ => false,
                    })
                },
                _ => false,
            }),
            (match docs@[1] {
                Document::Css(c) => {
                    &&& c.id@ == "stylesheet"@
                    &&& c.filename == FileName::ID
                    &&& (match c.render {
                        Option::Some(t) => t is Special,
                        _ => false,
                    })
                },
                _ => false,
            }),
            forall|k: int|
                0 <= k < i ==> match #[trigger] docs@[2 + k] {
                    Document::Resource(d) => {
                        &&& d.resource.id@ == resources0[k].id@
                        &&& d.resource.resource_type == resources0[k].resource_type
                        &&& d.filename == FileName::Resource
                        &&& (match d.render {
                            Option::Some(RenderTask::CopyResource(rr)) => rr.0@
                                == resources0[k].path@,
                            _ => false,
                        })
                    },
                    _ => false,
                },
        decreases nr - i,
    {
        proof {
            assert(resources0.skip(i as int)[0] == resources0[i as int]);
            assert(resources0.skip(i as int).skip(1) =~= resources0.skip(i + 1));
        }
        let res = rest_res.remove(0);
        let path_copy = res.path.clone();
        docs.push(
            Document::Resource(
                ResourceDocument::new(
                    res,
                    FileName::Resource,
                    RenderTask::CopyResource(ResourceRender(path_copy)),
                ),
            ),
        );
        i = i + 1;
    }
    let listed = listed_categories(categories);
    let ghost listed_s = spec_listed_cats(spec_descendants_list(categories@));
    let ghost pre_cat_docs = docs@;
    let nl = listed.len();
    let mut j: usize = 0;
    while j < nl
        invariant
            j <= nl,
            nl == listed@.len(),
            nr == resources0.len(),
            listed_s == spec_listed_cats(spec_descendants_list(categories@)),
            listed@.map_values(|c: &Category| *c) =~= listed_s,
            nl == listed_s.len(),
            posts@ == posts0,
            docs@.len() == 2 + nr + j,
            forall|x: int| 0 <= x < 2 + nr ==> #[trigger] docs@[x] == pre_cat_docs[x],
            pre_cat_docs.len() == 2 + nr,
            forall|k: int|
                0 <= k < j ==> match #[trigger] docs@[2 + nr as int + k] {
                    Document::HTML(h) => {
                        &&& h.id@ == listed_s[k].id_string@
                        &&& h.title@ == listed_s[k].title@
                        &&& h.filename == FileName::Index
                        &&& (match h.category {
                            Option::Some(c) => c@ == listed_s[k].id_string@,
                            Option::None => false,
                        })
                        &&& (match h.render {
                            Option::Some(RenderTask::Page { content, .. }) => match content {
                                PageContent::CategoryIndex { heading, description: d, posts: ps } => {
                                    &&& heading@ == listed_s[k].title@
                                    &&& d@ == listed_s[k].description@
                                    &&& (match ps {
                                        Option::Some(es) => spec_in_blog(
                                            categories@,
                                            listed_s[k].id_string@,
                                        ) && spec_entries_match(
                                            es@,
                                            spec_selected_posts(
                                                posts0,
                                                spec_descendants(listed_s[k]),
                                            ),
                                        ),
                                        Option::None => !spec_in_blog(
                                            categories@,
                                            listed_s[k].id_string@,
                                        ),
                                    })
                                },
                                _ => false,
                            },
                            _ => false,
                        })
                    },
                    _ => false,
                },
        decreases nl - j,
    {
        proof {
            assert(listed@.map_values(|c: &Category| *c)[j as int] == *listed@[j as int]);
        }
        let cat = listed[j];
        let entries: Option<Vec<PostListEntry>> = if in_blog(categories, cat.id_string.as_str()) {
            Some(category_entries(&posts, cat))
        } else {
            None
        };
        let empty_nav2: Vec<NavigationItem> = Vec::new();
        docs.push(
            Document::HTML(
                HtmlDocument::new(
                    cat.id_string.clone(),
                    cat.title.clone(),
                    FileName::Index,
                    Some(cat.id_string.clone()),
                    RenderTask::Page {
                        nav: empty_nav2,
                        content: PageContent::CategoryIndex {
                            heading: cat.title.clone(),
                            description: cat.description.clone(),
                            posts: entries,
                        },
                    },
                ),
            ),
        );
        j = j + 1;
    }
    let ghost pre_post_docs = docs@;
    let mut rest_posts = posts;
    let np = rest_posts.len();
    let mut k: usize = 0;
    while k < np
        invariant
            k <= np,
            np == posts0.len(),
            nr == resources0.len(),
            nl == listed_s.len(),
            rest_posts@ =~= posts0.skip(k as int),
            docs@.len() == 2 + nr + nl + k,
            pre_post_docs.len() == 2 + nr + nl,
            forall|x: int| 0 <= x < 2 + nr + nl ==> #[trigger] docs@[x] == pre_post_docs[x],
            forall|x: int|
                0 <= x < k ==> match #[trigger] docs@[2 + nr as int + nl as int + x] {
                    Document::HTML(h) => {
                        &&& h.id@ == posts0[x].0@
                        &&& h.title@ == posts0[x].1.metadata.title@
                        &&& h.filename == FileName::ID
                        &&& (match h.category {
                            Option::Some(c) => c@ == posts0[x].1.metadata.category@,
                            Option::None => false,
                        })
                        &&& (match h.render {
                            Option::Some(RenderTask::Page { content, .. }) => match content {
                                PageContent::Post { post } => post == posts0[x].1,
                                _ => false,
                            },
                            _ => false,
                        })
                    },
                    _ => false,
                },
        decreases np - k,
    {
        proof {
            assert(posts0.skip(k as int)[0] == posts0[k as int]);
            assert(posts0.skip(k as int).skip(1) =~= posts0.skip(k + 1));
        }
        let (post_id, post) = rest_posts.remove(0);
        let empty_nav3: Vec<NavigationItem> = Vec::new();
        let post_title = post.metadata.title.clone();
        let post_category = post.metadata.category.clone();
        docs.push(
            Document::HTML(
                HtmlDocument::new(
                    post_id,
                    post_title,
                    FileName::ID,
                    Some(post_category),
                    RenderTask::Page {
                        nav: empty_nav3,
                        content: PageContent::Post { post },
                    },
                ),
            ),
        );
        k = k + 1;
    }
    docs
}

/// The generated ids a content list will draw: the exact count, or the
/// maximum when the count does not fit a machine word.
fn tab_budget_list(nodes: &Vec<crate::blog_post::MdNode>) -> (r: u64)
    ensures
        r < u64::MAX ==> r as nat == spec_list_tab_count(nodes@),
        r == u64::MAX ==> spec_list_tab_count(nodes@) >= u64::MAX as nat,
    decreases nodes@, 1int,
{
    let n = nodes.len();
    let mut acc: u64 = 0;
    let mut i: usize = 0;
    proof {
        assert(spec_list_tab_count(nodes@.take(0)) == 0);
    }
    while i < n
        invariant
            i <= n,
            n == nodes@.len(),
            acc < u64::MAX,
            acc as nat == spec_list_tab_count(nodes@.take(i as int)),
        decreases n - i,
    {
        proof {
            assert(decreases_to!(nodes@ => nodes@[i as int]));
        }
        let b = tab_budget_node(&nodes[i]);
        proof {
            lemma_list_tab_count_snoc(nodes@, i as int);
            lemma_list_tab_count_prefix(nodes@, i as int + 1);
        }
        if b == u64::MAX || acc > u64::MAX - b {
            return u64::MAX;
        }
        if acc + b == u64::MAX {
            return u64::MAX;
        }
        acc = acc + b;
        i = i + 1;
    }
    proof {
        assert(nodes@.take(n as int) =~= nodes@);
    }
    acc
}

fn tab_budget_node(node: &crate::blog_post::MdNode) -> (r: u64)
    ensures
        r < u64::MAX ==> r as nat == crate::blog_post::spec_tab_count(*node),
        r == u64::MAX ==> crate::blog_post::spec_tab_count(*node) >= u64::MAX as nat,
    decreases *node, 2int,
{
    match node {
        crate::blog_post::MdNode::BlockQuote(c) => tab_budget_list(c),
        crate::blog_post::MdNode::FootnoteDefinition { children, .. } => tab_budget_list(children),
        crate::blog_post::MdNode::List { children, .. } => tab_budget_list(children),
        crate::blog_post::MdNode::Emphasis(c) => tab_budget_list(c),
        crate::blog_post::MdNode::MdLink { children, .. } => tab_budget_list(children),
        crate::blog_post::MdNode::Strong(c) => tab_budget_list(c),
        crate::blog_post::MdNode::Heading { children, .. } => tab_budget_list(children),
        crate::blog_post::MdNode::ListItem { children, .. } => tab_budget_list(children),
        crate::blog_post::MdNode::Paragraph(c) => tab_budget_list(c),
        crate::blog_post::MdNode::QueryResponseMultiBlock { data, .. } => {
            let tabs = data.0.len();
            if tabs as u64 == u64::MAX {
                u64::MAX
            } else {
                tabs as u64
            }
        },
        _ => 0,
    }
}

/// A list's id count is at least any prefix's.
proof fn lemma_list_tab_count_prefix(nodes: Seq<crate::blog_post::MdNode>, i: int)
    requires
        0 <= i <= nodes.len(),
    ensures
        spec_list_tab_count(nodes) >= spec_list_tab_count(nodes.take(i)),
    decreases nodes.len() - i,
{
    if i == nodes.len() {
        assert(nodes.take(i) =~= nodes);
    } else {
        lemma_list_tab_count_snoc(nodes, i);
        lemma_list_tab_count_prefix(nodes, i + 1);
    }
}

proof fn lemma_list_tab_count_snoc(nodes: Seq<crate::blog_post::MdNode>, i: int)
    requires
        0 <= i < nodes.len(),
    ensures
        spec_list_tab_count(nodes.take(i + 1)) == spec_list_tab_count(nodes.take(i))
            + crate::blog_post::spec_tab_count(nodes[i]),
    decreases i,
{
    if i == 0 {
        assert(nodes.take(1)[0] == nodes[0]);
        assert(nodes.take(1).skip(1) =~= Seq::<crate::blog_post::MdNode>::empty());
        assert(nodes.take(0) =~= Seq::<crate::blog_post::MdNode>::empty());
    } else {
        lemma_list_tab_count_snoc(nodes.skip(1), i - 1);
        assert(nodes.take(i + 1)[0] == nodes[0]);
        assert(nodes.take(i + 1).skip(1) =~= nodes.skip(1).take(i));
        assert(nodes.take(i)[0] == nodes[0]);
        assert(nodes.take(i).skip(1) =~= nodes.skip(1).take(i - 1));
        assert(nodes.skip(1)[i - 1] == nodes[i]);
    }
}

/// Whether every list entry's date is in the representable calendar range.
fn entry_dates_ok(entries: &Vec<PostListEntry>) -> (r: bool)
    ensures
        r == (forall|x: int|
            0 <= x < entries@.len() ==> 0 <= (#[trigger] entries@[x]).post_date
                <= crate::dates::MAX_TIMESTAMP),
{
    let ne = entries.len();
    let mut ei: usize = 0;
    while ei < ne
        invariant
            ei <= ne,
            ne == entries@.len(),
            forall|x: int|
                0 <= x < ei ==> 0 <= (#[trigger] entries@[x]).post_date
                    <= crate::dates::MAX_TIMESTAMP,
        decreases ne - ei,
    {
        let d = entries[ei].post_date;
        if d < 0 || d > crate::dates::MAX_TIMESTAMP {
            return false;
        }
        ei = ei + 1;
    }
    true
}

/// Why the whole build was rejected before any rendering.
pub enum SiteBuildError {
    CategoryTooDeep { id: String },
    Routing(RouteError),
}

impl Website {
    /// Whether every top-level category keeps within three nesting levels.
    pub fn validate(&self) -> (r: Option<usize>)
        ensures
            match r {
                Option::Some(i) => i < self.categories@.len()
                    && !crate::category::spec_within_depth(self.categories@[i as int], 3),
                Option::None => forall|i: int|
                    0 <= i < self.categories@.len() ==> crate::category::spec_within_depth(
                        #[trigger] self.categories@[i],
                        3,
                    ),
            },
    {
        let n = self.categories.len();
        let mut i: usize = 0;
        while i < n
            invariant
                i <= n,
                n == self.categories@.len(),
                forall|x: int|
                    0 <= x < i ==> crate::category::spec_within_depth(
                        #[trigger] self.categories@[x],
                        3,
                    ),
            decreases n - i,
        {
            if !self.categories[i].within_depth(3) {
                return Some(i);
            }
            i = i + 1;
        }
        None
    }

    /// The whole build up to rendering: validates category nesting, sorts
    /// the posts newest first, assigns every document its route (rejecting
    /// duplicate ids, unknown categories and route collisions), and hands
    /// back the render pass.
    pub fn build(self, stylesheet: CSSBuilder) -> (r: Result<WebsiteBuilder, SiteBuildError>)
        requires
            stylesheet.wf(),
        ensures
            match r {
                Ok(b) => {
                    &&& b.context.routes.wf()
                    &&& b.context.stylesheet == stylesheet
                    &&& b.context.current_page is None
                    &&& b.context.title@ == self.title@
                    &&& b.context.categories@ == self.categories@
                    &&& b.id_counter == 0
                    &&& (forall|i: int|
                        0 <= i < self.categories@.len() ==> crate::category::spec_within_depth(
                            #[trigger] self.categories@[i],
                            3,
                        ))
                    &&& (exists|sp: Seq<(String, BlogPost)>|
                        {
                            &&& #[trigger] spec_sorted_perm(sp, self.posts@)
                            &&& spec_table_matches(
                                b.context.routes.table,
                                self.categories@,
                                sp,
                                self.resources@,
                            )
                            &&& spec_documents_match(
                                b.documents@,
                                self.description,
                                self.categories@,
                                sp,
                                self.resources@,
                            )
                        })
                },
                Err(e) => match e {
                    SiteBuildError::CategoryTooDeep { id } => exists|i: int|
                        0 <= i < self.categories@.len()
                            && !crate::category::spec_within_depth(
                            #[trigger] self.categories@[i],
                            3,
                        ) && self.categories@[i].id_string@ == id@,
                    SiteBuildError::Routing(re) => exists|sp: Seq<(String, BlogPost)>|
                        #[trigger] spec_sorted_perm(sp, self.posts@) && spec_routing_failure(
                            re,
                            self.categories@,
                            sp,
                            self.resources@,
                        ),
                },
            },
    {
        // Collect phase: category nesting must stay within three levels.
        match self.validate() {
            Some(i) => {
                return Err(
                    SiteBuildError::CategoryTooDeep { id: self.categories[i].id_string.clone() },
                );
            },
            None => {},
        }
        let Website { title: site_title, description, categories, posts, resources } = self;
        let sorted_posts = sort_posts(posts);
        // Route phase: assign every document its route before any rendering.
        let mut category_map = SegTable::new();
        let mut path: Vec<String> = Vec::new();
        let nc = categories.len();
        let mut ci: usize = 0;
        proof {
            assert(category_map.entries@.map_values(
                |p: (String, Vec<String>)| (p.0@, p.1.deep_view()),
            ) =~= spec_forest_paths(categories@.take(0)));
        }
        while ci < nc
            invariant
                ci <= nc,
                nc == categories@.len(),
                path@.len() == 0,
                category_map.entries@.map_values(
                    |p: (String, Vec<String>)| (p.0@, p.1.deep_view()),
                ) == spec_forest_paths(categories@.take(ci as int)),
            decreases nc - ci,
        {
            categories[ci].load_map(&mut category_map, &mut path);
            proof {
                assert(path@.map_values(|st: String| st@) =~= Seq::<Seq<char>>::empty());
                lemma_forest_paths_snoc(categories@, ci as int);
            }
            ci = ci + 1;
        }
        proof {
            assert(categories@.take(nc as int) =~= categories@);
        }
        let descs = doc_descriptors(&categories, &sorted_posts, &resources);
        let ghost sp = sorted_posts@;
        let ghost paths = spec_forest_paths(categories@);
        let ghost sdescs = spec_site_descs(categories@, sp, resources@);
        proof {
            assert(descs@.len() == sdescs.len());
            assert forall|i: int| 0 <= i < descs@.len() implies {
                &&& (#[trigger] descs@[i]).id@ == sdescs[i].id
                &&& descs@[i].filename == sdescs[i].filename
                &&& descs@[i].extension@ == sdescs[i].extension
                &&& (match (descs@[i].category, sdescs[i].category) {
                    (Option::Some(a), Option::Some(bb)) => a@ == bb,
                    (Option::None, Option::None) => true,
                    _ => false,
                })
            } by {
                let listed = spec_listed_cats(spec_descendants_list(categories@));
                let nrr = resources@.len() as int;
                let nll = listed.len() as int;
                if i < 2 {
                } else if i < 2 + nrr {
                    let k = i - 2;
                    assert(rd_matches(
                        descs@[2 + k],
                        resources@[k].id@,
                        Option::None,
                        FileName::Resource,
                        crate::resource::spec_resource_ext(resources@[k].resource_type),
                    ));
                    assert(descs@[2 + k] == descs@[i]);
                } else if i < 2 + nrr + nll {
                    let k = i - 2 - nrr;
                    assert(rd_matches(
                        descs@[2 + nrr + k],
                        listed[k].id_string@,
                        Option::Some(listed[k].id_string@),
                        FileName::Index,
                        ".html"@,
                    ));
                    assert(descs@[2 + nrr + k] == descs@[i]);
                } else {
                    let k = i - 2 - nrr - nll;
                    assert(rd_matches(
                        descs@[2 + nrr + nll + k],
                        sp[k].0@,
                        Option::Some(sp[k].1.metadata.category@),
                        FileName::ID,
                        ".html"@,
                    ));
                    assert(descs@[2 + nrr + nll + k] == descs@[i]);
                }
            }
            assert forall|i: int| 0 <= i < descs@.len() implies crate::routes::spec_doc_route(
                #[trigger] descs@[i],
                category_map,
            ) == spec_desc_route(sdescs[i], paths) by {
                lemma_desc_route_bridge(descs@[i], sdescs[i], category_map, paths);
            }
        }
        let route_table = match build_route_table(&descs, &category_map) {
            Ok(rt) => {
                proof {
                    assert(spec_table_matches(rt.table, categories@, sp, resources@)) by {
                        assert forall|i: int| 0 <= i < sdescs.len() implies {
                            &&& rt.table.spec_keys()[i] == (#[trigger] sdescs[i]).id
                            &&& spec_desc_route(sdescs[i], paths) is Some
                            &&& rt.table.spec_values()[i] == spec_desc_route(
                                sdescs[i],
                                paths,
                            ).unwrap()
                        } by {
                            assert(rt.table.spec_keys()[i] == descs@[i].id@);
                            assert(rt.table.spec_values()[i] == crate::routes::spec_doc_route(
                                descs@[i],
                                category_map,
                            ).unwrap());
                            assert(crate::routes::spec_doc_route(descs@[i], category_map)
                                is Some);
                        }
                    }
                }
                rt
            },
            Err(e) => {
                proof {
                    match &e {
                        RouteError::DuplicateId { .. } => {},
                        RouteError::UnknownCategory { id: eid, category: ecat } => {
                            let i = choose|i: int|
                                0 <= i < descs@.len() && (#[trigger] descs@[i]).id@ == eid@
                                    && descs@[i].category == Option::Some(*ecat)
                                    && !category_map.spec_contains(ecat@);
                            lemma_assoc_segs_view(category_map.entries@, ecat@);
                            assert(sdescs[i].id == eid@);
                            assert(sdescs[i].category == Option::Some(ecat@));
                            assert(spec_paths_get(paths, ecat@) is None);
                        },
                        RouteError::DuplicateRoute { route: eroute, ids: eids } => {
                            let j = choose|j: int|
                                {
                                    &&& 0 <= j < descs@.len()
                                    &&& crate::routes::spec_doc_route(
                                        #[trigger] descs@[j],
                                        category_map,
                                    ) == Option::Some(eroute.deep_view())
                                    &&& (exists|i: int|
                                        0 <= i < j && crate::routes::spec_doc_route(
                                            #[trigger] descs@[i],
                                            category_map,
                                        ) == Option::Some(eroute.deep_view()))
                                    &&& eids.deep_view() == crate::routes::spec_colliding_ids(
                                        descs@.take(j + 1),
                                        category_map,
                                        eroute.deep_view(),
                                    )
                                    &&& eids@.len() >= 2
                                };
                            assert(forall|x: int|
                                0 <= x < j + 1 ==> #[trigger] descs@.take(j + 1)[x] == descs@[x]
                                    && sdescs.take(j + 1)[x] == sdescs[x]);
                            lemma_colliding_bridge(
                                descs@.take(j + 1),
                                sdescs.take(j + 1),
                                category_map,
                                paths,
                                eroute.deep_view(),
                            );
                            let wi = choose|i: int|
                                0 <= i < j && crate::routes::spec_doc_route(
                                    #[trigger] descs@[i],
                                    category_map,
                                ) == Option::Some(eroute.deep_view());
                            assert(spec_desc_route(sdescs[wi], paths) == Option::Some(
                                eroute.deep_view(),
                            ));
                            assert(spec_desc_route(sdescs[j], paths) == Option::Some(
                                eroute.deep_view(),
                            ));
                        },
                    }
                    assert(spec_routing_failure(e, categories@, sp, resources@));
                    assert(spec_sorted_perm(sp, self.posts@));
                    assert(categories@ == self.categories@);
                    assert(resources@ == self.resources@);
                    assert(spec_routing_failure(e, self.categories@, sp, self.resources@));
                }
                return Err(SiteBuildError::Routing(e));
            },
        };
        // Collect the title table and global script links.
        let mut titles = TitleTable::new();
        titles.insert("home".to_owned(), "Home".to_owned());
        let listed = listed_categories(&categories);
        let mut li: usize = 0;
        let nl = listed.len();
        while li < nl
            invariant
                li <= nl,
                nl == listed@.len(),
            decreases nl - li,
        {
            titles.insert(listed[li].id_string.clone(), listed[li].title.clone());
            li = li + 1;
        }
        let mut pi: usize = 0;
        let np = sorted_posts.len();
        while pi < np
            invariant
                pi <= np,
                np == sorted_posts@.len(),
            decreases np - pi,
        {
            titles.insert(sorted_posts[pi].0.clone(), sorted_posts[pi].1.metadata.title.clone());
            pi = pi + 1;
        }
        let mut global_scripts: Vec<Link> = Vec::new();
        let mut ri: usize = 0;
        let nr = resources.len();
        while ri < nr
            invariant
                ri <= nr,
                nr == resources@.len(),
            decreases nr - ri,
        {
            if resources[ri].resource_type.is_global_script() {
                global_scripts.push(Link::ID(resources[ri].id.clone()));
            }
            ri = ri + 1;
        }
        // Render phase: re-derive the document list with its render tasks.
        let documents = make_documents(description, &categories, sorted_posts, resources);
        let context = WebsiteRenderContext {
            title: site_title,
            current_page: None,
            stylesheet,
            stylesheet_link: Link::ID("stylesheet".to_owned()),
            document_titles: titles,
            global_scripts,
            categories,
            routes: route_table,
        };
        let b = WebsiteBuilder { context, documents, id_counter: 0 };
        proof {
            assert(spec_sorted_perm(sp, self.posts@));
            assert(spec_table_matches(
                b.context.routes.table,
                self.categories@,
                sp,
                self.resources@,
            ));
            assert(spec_documents_match(
                b.documents@,
                self.description,
                self.categories@,
                sp,
                self.resources@,
            ));
        }
        Ok(b)
    }
}

/// The render pass: the documents still to render in build order, the
/// shared context, and the counter that dispenses generated element ids.
pub struct WebsiteBuilder {
    pub context: WebsiteRenderContext,
    pub documents: Vec<Document>,
    pub id_counter: u64,
}

impl WebsiteBuilder {
    pub fn new(context: WebsiteRenderContext, documents: Vec<Document>) -> (r: WebsiteBuilder)
        ensures
            r.context == context,
            r.documents == documents,
            r.id_counter == 0,
    {
        WebsiteBuilder { context, documents, id_counter: 0 }
    }

    /// Hands the stylesheet back once the render pass is over.
    pub fn into_stylesheet(self) -> (r: CSSBuilder)
        ensures
            r == self.context.stylesheet,
    {
        self.context.stylesheet
    }

    /// The next document to render, with the context's current page set to
    /// it; exhaustion ends the pass.
    pub fn next(&mut self) -> (r: Option<Document>)
        ensures
            match r {
                Option::Some(d) => {
                    &&& old(self).documents@.len() > 0
                    &&& d == old(self).documents@[0]
                    &&& final(self).documents@ == old(self).documents@.skip(1)
                    &&& final(self).context.current_page is Some
                    &&& final(self).context.spec_current() == spec_doc_id(d)
                    &&& final(self).context.routes == old(self).context.routes
                    &&& final(self).context.stylesheet == old(self).context.stylesheet
                    &&& final(self).context.document_titles == old(self).context.document_titles
                    &&& final(self).context.categories == old(self).context.categories
                    &&& final(self).context.title == old(self).context.title
                    &&& final(self).context.stylesheet_link == old(self).context.stylesheet_link
                    &&& final(self).context.global_scripts == old(self).context.global_scripts
                    &&& final(self).id_counter == old(self).id_counter
                },
                Option::None => {
                    &&& old(self).documents@.len() == 0
                    &&& *final(self) == *old(self)
                },
            },
    {
        if self.documents.len() == 0 {
            return None;
        }
        let d = self.documents.remove(0);
        self.context.current_page = Some(d.id().to_owned());
        proof {
            assert(self.documents@ =~= old(self).documents@.skip(1));
        }
        Some(d)
    }
}

/// The node is the whole page shell: doctype, then the `html` element whose
/// head carries charset, title, robots, viewport, stylesheet and script
/// links, and whose body holds the given content.
pub open spec fn is_page_shell(
    r: HtmlNode,
    stylesheet: Seq<char>,
    scripts: Seq<Seq<char>>,
    lang_tag: Seq<char>,
    title_text: Seq<char>,
    no_robots: bool,
    body: HtmlNode,
) -> bool {
    match r {
        HtmlNode::Group(top) => {
            &&& top@.len() == 2
            &&& (match top@[0] {
                HtmlNode::Element(dt) => {
                    &&& dt.tag.name@ == "!DOCTYPE"@
                    &&& dt.attributes@.len() == 1
                    &&& crate::component::attr_is(dt.attributes@[0], "html"@, Option::None)
                    &&& dt.content@.len() == 0
                },
                _ => false,
            })
            &&& (match top@[1] {
                HtmlNode::Element(html) => {
                    &&& html.tag.name@ == "html"@
                    &&& html.attributes@.len() == 1
                    &&& crate::component::attr_is(
                        html.attributes@[0],
                        "lang"@,
                        Option::Some(lang_tag),
                    )
                    &&& html.content@.len() == 1
                    &&& (match html.content@[0] {
                        HtmlNode::Group(sections) => {
                            &&& sections@.len() == 2
                            &&& (match sections@[0] {
                                HtmlNode::Element(head) => {
                                    &&& head.tag.name@ == "head"@
                                    &&& head.content@.len() == 1
                                    &&& (match head.content@[0] {
                                        HtmlNode::Group(hs) => {
                                            &&& hs@.len() == 5 + scripts.len()
                                            &&& (match hs@[0] {
                                                HtmlNode::Element(m) => m.tag.name@ == "meta"@
                                                    && m.attributes@.len() == 1
                                                    && crate::component::attr_is(
                                                    m.attributes@[0],
                                                    "charset"@,
                                                    Option::Some("UTF-8"@),
                                                ),
                                                _ => false,
                                            })
                                            &&& (match hs@[1] {
                                                HtmlNode::Element(t) => t.tag.name@ == "title"@
                                                    && t.content@.len() == 1 && (
                                                match t.content@[0] {
                                                    HtmlNode::Text(txt) => txt.0@ == title_text,
                                                    _ => false,
                                                }),
                                                _ => false,
                                            })
                                            &&& (match hs@[2] {
                                                HtmlNode::Element(m) => m.tag.name@ == "meta"@
                                                    && m.attributes@.len() == 2
                                                    && crate::component::attr_is(
                                                    m.attributes@[0],
                                                    "name"@,
                                                    Option::Some("robots"@),
                                                ) && crate::component::attr_is(
                                                    m.attributes@[1],
                                                    "content"@,
                                                    Option::Some(
                                                        if no_robots {
                                                            "none"@
                                                        } else {
                                                            "all"@
                                                        },
                                                    ),
                                                ),
                                                _ => false,
                                            })
                                            &&& (match hs@[3] {
                                                HtmlNode::Element(m) => m.tag.name@ == "meta"@
                                                    && m.attributes@.len() == 2
                                                    && crate::component::attr_is(
                                                    m.attributes@[0],
                                                    "name"@,
                                                    Option::Some("viewport"@),
                                                ),
                                                _ => false,
                                            })
                                            &&& (match hs@[4] {
                                                HtmlNode::Element(lk) => lk.tag.name@ == "link"@
                                                    && lk.attributes@.len() == 2
                                                    && crate::component::attr_is(
                                                    lk.attributes@[0],
                                                    "href"@,
                                                    Option::Some(stylesheet),
                                                ) && crate::component::attr_is(
                                                    lk.attributes@[1],
                                                    "rel"@,
                                                    Option::Some("stylesheet"@),
                                                ),
                                                _ => false,
                                            })
                                            &&& (forall|k: int|
                                                0 <= k < scripts.len()
                                                    ==> crate::component::is_script_node(
                                                    #[trigger] hs@[5 + k],
                                                    scripts[k],
                                                ))
                                        },
                                        _ => false,
                                    })
                                },
                                _ => false,
                            })
                            &&& (match sections@[1] {
                                HtmlNode::Element(b) => {
                                    &&& b.tag.name@ == "body"@
                                    &&& b.content@ =~= seq![body]
                                },
                                _ => false,
                            })
                        },
                        _ => false,
                    })
                },
                _ => false,
            })
        },
        _ => false,
    }
}

/// The node is the site's title banner.
pub open spec fn is_title_banner(n: HtmlNode, site_title: String) -> bool {
    match n {
        HtmlNode::Component(cm) => {
            &&& crate::component::classed_element(cm.content, "div"@, "title font_title"@)
            &&& cm.content.content@ =~= seq![
                HtmlNode::Text(crate::html::HtmlPlaintext(site_title)),
            ]
        },
        _ => false,
    }
}

/// The node is the navigation bar for the given items.
pub open spec fn is_navigation_node(n: HtmlNode, items: Seq<NavigationItem>) -> bool {
    match n {
        HtmlNode::Component(cm) => {
            &&& cm.content.tag.name@ == "nav"@
            &&& cm.content.attributes@.len() == 1
            &&& crate::component::attr_is(
                cm.content.attributes@[0],
                "class"@,
                Option::Some("navigation font_head content_wide"@),
            )
            &&& cm.content.content@.len() == 1
            &&& (match cm.content.content@[0] {
                HtmlNode::Group(members) => {
                    &&& members@.len() == 1 + items.len()
                    &&& crate::component::is_hamburger(members@[0])
                    &&& (forall|k: int|
                        0 <= k < items.len() ==> crate::component::is_nav_member(
                            #[trigger] members@[k + 1],
                            items[k],
                        ))
                },
                _ => false,
            })
        },
        _ => false,
    }
}

/// The node is the empty spacer below the content.
pub open spec fn is_bottom_spacer_node(n: HtmlNode) -> bool {
    match n {
        HtmlNode::Component(cm) => {
            &&& crate::component::classed_element(cm.content, "div"@, "content_bottom_spacer"@)
            &&& cm.content.content@.len() == 0
        },
        _ => false,
    }
}

/// The node is the page's body column: banner, navigation, the content
/// itself, and the spacer.
pub open spec fn is_page_body(
    b: HtmlNode,
    site_title: String,
    nav: Seq<NavigationItem>,
    content: HtmlNode,
) -> bool {
    match b {
        HtmlNode::Component(cm) => {
            &&& crate::component::classed_element(cm.content, "div"@, "content_column"@)
            &&& cm.content.content@.len() == 1
            &&& (match cm.content.content@[0] {
                HtmlNode::Group(items) => {
                    &&& items@.len() == 4
                    &&& is_title_banner(items@[0], site_title)
                    &&& is_navigation_node(items@[1], nav)
                    &&& items@[2] == content
                    &&& is_bottom_spacer_node(items@[3])
                },
                _ => false,
            })
        },
        _ => false,
    }
}

/// The hrefs of the context's global scripts, resolved for a page.
pub open spec fn spec_script_hrefs(
    scripts: Seq<Link>,
    table: SegTable,
    page_id: Seq<char>,
) -> Seq<Seq<char>> {
    Seq::new(scripts.len(), |k: int| crate::html::spec_href_of(scripts[k], table, page_id))
}

/// Assembles a whole page around its content: site title banner, navigation,
/// the content itself and the bottom spacer, inside the page shell with the
/// stylesheet and global script links resolved for this page.
pub fn render_page(
    context: &WebsiteRenderContext,
    page_id: &str,
    page_title: &str,
    navigation_items: Vec<NavigationItem>,
    content: HtmlNode,
) -> (r: Result<HtmlNode, LinkError>)
    requires
        context.wf(),
    ensures
        r is Ok <==> (crate::html::spec_link_routes_ok(
            context.stylesheet_link,
            context.routes.table,
            page_id@,
        ) && (forall|k: int|
            0 <= k < context.global_scripts@.len() ==> crate::html::spec_link_routes_ok(
                #[trigger] context.global_scripts@[k],
                context.routes.table,
                page_id@,
            ))),
        match r {
            Ok(n) => exists|b: HtmlNode|
                {
                    &&& is_page_shell(
                        n,
                        crate::html::spec_href_of(
                            context.stylesheet_link,
                            context.routes.table,
                            page_id@,
                        ),
                        spec_script_hrefs(
                            context.global_scripts@,
                            context.routes.table,
                            page_id@,
                        ),
                        crate::util::spec_language_tag(crate::util::Language::English),
                        context.title@ + " - "@ + page_title@,
                        true,
                        b,
                    )
                    &&& is_page_body(b, context.title, navigation_items@, content)
                },
            Err(e) => match e {
                LinkError::UnknownPage { id } => !context.routes.table.spec_contains(id@),
                LinkError::MissingTitle { .. } => false,
            },
        },
{
    let stylesheet_href = match context.resolve_href(&context.stylesheet_link, PageRef(page_id)) {
        Ok(h) => h,
        Err(e) => {
            return Err(e);
        },
    };
    let mut script_hrefs: Vec<crate::routes::HRef> = Vec::new();
    let ns = context.global_scripts.len();
    let mut si: usize = 0;
    while si < ns
        invariant
            si <= ns,
            ns == context.global_scripts@.len(),
            context.wf(),
            script_hrefs@.len() == si,
            forall|k: int|
                0 <= k < si ==> crate::html::spec_link_routes_ok(
                    #[trigger] context.global_scripts@[k],
                    context.routes.table,
                    page_id@,
                ),
            forall|k: int|
                0 <= k < si ==> #[trigger] script_hrefs@[k].0@ == crate::html::spec_href_of(
                    context.global_scripts@[k],
                    context.routes.table,
                    page_id@,
                ),
        decreases ns - si,
    {
        match context.resolve_href(&context.global_scripts[si], PageRef(page_id)) {
            Ok(h) => {
                script_hrefs.push(h);
            },
            Err(e) => {
                return Err(e);
            },
        }
        si = si + 1;
    }
    proof {
        assert(forall|k: int|
            0 <= k < ns ==> #[trigger] script_hrefs@[k].0@ == crate::html::spec_href_of(
                context.global_scripts@[k],
                context.routes.table,
                page_id@,
            ));
    }
    let ghost content_g = content;
    let mut content_items: Vec<HtmlNode> = Vec::new();
    content_items.push(HtmlNode::Component(title(context.title.clone())));
    content_items.push(HtmlNode::Component(navigation_menu(navigation_items)));
    content_items.push(content);
    content_items.push(HtmlNode::Component(content_bottom_spacer()));
    let ghost items_g = content_items@;
    let mut full_title = context.title.clone();
    full_title.append(" - ");
    full_title.append(page_title);
    let ghost full_title_g = full_title@;
    let body_node = HtmlNode::Component(content_column(content_items));
    let ghost body_g = body_node;
    proof {
        assert(is_page_body(body_g, context.title, navigation_items@, content_g));
    }
    let result = crate::component::page(
        stylesheet_href,
        script_hrefs,
        &crate::util::Language::English,
        full_title,
        true,
        body_node,
    );
    proof {
        assert(is_page_shell(
            result,
            crate::html::spec_href_of(context.stylesheet_link, context.routes.table, page_id@),
            spec_script_hrefs(context.global_scripts@, context.routes.table, page_id@),
            crate::util::spec_language_tag(crate::util::Language::English),
            context.title@ + " - "@ + page_title@,
            true,
            body_g,
        )) by {
            assert(full_title_g == context.title@ + " - "@ + page_title@);
            assert(forall|k: int|
                0 <= k < ns ==> #[trigger] spec_script_hrefs(
                    context.global_scripts@,
                    context.routes.table,
                    page_id@,
                )[k] == script_hrefs@[k].0@);
        }
    }
    Ok(result)
}

/// The node is the wide content box holding exactly the given inner node.
pub open spec fn is_contentbox_node(n: HtmlNode, inner: HtmlNode) -> bool {
    match n {
        HtmlNode::Component(cm) => {
            &&& crate::component::classed_element(
                cm.content,
                "div"@,
                "contentbox font_text content_wide"@,
            )
            &&& cm.content.content@ =~= seq![inner]
        },
        _ => false,
    }
}

/// The node is what a page's content renders to, for each kind of page.
pub open spec fn is_rendered_page_content(inner: HtmlNode, content: PageContent) -> bool {
    match content {
        PageContent::Home { description } => inner == HtmlNode::Text(
            crate::html::HtmlPlaintext(description),
        ),
        PageContent::CategoryIndex { heading, description, posts } => match inner {
            HtmlNode::Group(items) => {
                &&& items@.len() == 2 + (if posts is Some { 1int } else { 0int })
                &&& (match items@[0] {
                    HtmlNode::Element(h) => {
                        &&& h.tag.name@ == "h1"@
                        &&& h.content@ =~= seq![
                            HtmlNode::Text(crate::html::HtmlPlaintext(heading)),
                        ]
                    },
                    _ => false,
                })
                &&& items@[1] == HtmlNode::Text(crate::html::HtmlPlaintext(description))
                &&& (match posts {
                    Option::Some(entries) => match items@[2] {
                        HtmlNode::Component(cm) => {
                            &&& crate::component::classed_element(
                                cm.content,
                                "div"@,
                                "postlist"@,
                            )
                            &&& cm.content.content@.len() == 1
                            &&& (match cm.content.content@[0] {
                                HtmlNode::Group(pair) => pair@.len() == 2 && (
                                if entries@.len() > 0 {
                                    match pair@[1] {
                                        HtmlNode::Element(lo) => lo.tag.name@ == "lo"@
                                            && lo.content@.len() == entries@.len() && (forall|
                                            k: int,
                                        |
                                            0 <= k < entries@.len()
                                                ==> crate::component::is_post_row(
                                                #[trigger] lo.content@[k],
                                                entries@[k],
                                            )),
                                        _ => false,
                                    }
                                } else {
                                    true
                                }),
                                _ => false,
                            })
                        },
                        _ => false,
                    },
                    Option::None => true,
                })
            },
            _ => false,
        },
        PageContent::Post { post } => match inner {
            HtmlNode::Group(top) => top@.len() == 1 && (match top@[0] {
                HtmlNode::Component(cm) => crate::component::classed_element(
                    cm.content,
                    "div"@,
                    "blogpost"@,
                ) && cm.content.content@.len() == 1 && (match cm.content.content@[0] {
                    HtmlNode::Group(body) => body@.len() == 1 + post.content@.len()
                        && crate::blog_post::spec_rendered_list_shape(
                        post.content@,
                        body@.skip(1),
                    ),
                    _ => false,
                }),
                _ => false,
            }),
            _ => false,
        },
    }
}

/// Why a page's own content could not be rendered, for each kind of page.
pub open spec fn spec_page_content_failure(
    content: PageContent,
    ce: crate::blog_post::ContentError,
    categories: Seq<Category>,
) -> bool {
    match content {
        PageContent::Home { .. } => false,
        PageContent::CategoryIndex { posts, .. } => ce is DateOutOfRange && (match posts {
            Option::Some(entries) => exists|k: int|
                0 <= k < entries@.len() && !(0 <= (#[trigger] entries@[k]).post_date
                    <= crate::dates::MAX_TIMESTAMP),
            Option::None => false,
        }),
        PageContent::Post { post } => match ce {
            crate::blog_post::ContentError::DateOutOfRange => !(0 <= post.metadata.date
                <= crate::dates::MAX_TIMESTAMP),
            crate::blog_post::ContentError::UnknownCategory { category } => category@
                == post.metadata.category@ && (forall|i: int|
                0 <= i < spec_descendants_list(categories).len() ==> (
                #[trigger] spec_descendants_list(categories)[i]).id_string@
                    != post.metadata.category@),
            _ => crate::blog_post::is_node_content_error(ce) && !crate::blog_post::spec_list_content_ok(
                post.content@,
            ),
        },
    }
}

/// The whole page tree a page document's render pass constructs: the shell
/// with this page's resolved stylesheet and script hrefs and full title,
/// around the body column whose content slot holds this page's rendered
/// content.
pub open spec fn spec_built_page_tree(
    tree: HtmlNode,
    body: HtmlNode,
    cb: HtmlNode,
    inner: HtmlNode,
    nav: Seq<NavigationItem>,
    ctx: WebsiteRenderContext,
    document: Document,
    content: PageContent,
) -> bool {
    &&& spec_nav_matches(nav, ctx.categories@)
    &&& is_page_shell(
        tree,
        crate::html::spec_href_of(ctx.stylesheet_link, ctx.routes.table, spec_doc_id(document)),
        spec_script_hrefs(ctx.global_scripts@, ctx.routes.table, spec_doc_id(document)),
        crate::util::spec_language_tag(crate::util::Language::English),
        ctx.title@ + " - "@ + (match spec_doc_title(document) {
            Option::Some(t) => t,
            Option::None => Seq::<char>::empty(),
        }),
        true,
        body,
    )
    &&& is_page_body(body, ctx.title, nav, cb)
    &&& is_contentbox_node(cb, inner)
    &&& is_rendered_page_content(inner, content)
}

/// The render task a document still holds.
pub open spec fn spec_doc_render(d: Document) -> Option<RenderTask> {
    match d {
        Document::HTML(h) => h.render,
        Document::Feed(f) => f.render,
        Document::Css(c) => c.render,
        Document::Resource(r) => r.render,
    }
}

impl WebsiteBuilder {
    /// Renders one document: pages are serialized into `out`, the stylesheet
    /// placeholder writes its marker line, and a resource reports the source
    /// path whose bytes should be copied to the document's route.
    pub fn render_document(&mut self, document: Document, out: &mut String) -> (r: Result<
        Option<String>,
        RenderError,
    >)
        requires
            old(self).context.wf(),
        ensures
            final(self).context.routes == old(self).context.routes,
            final(self).context.document_titles == old(self).context.document_titles,
            final(self).context.current_page == old(self).context.current_page,
            final(self).context.wf(),
            match spec_doc_render(document) {
                Option::None => r == Result::<Option<String>, RenderError>::Err(
                    RenderError::DoubleRender,
                ),
                Option::Some(t) => match t {
                    RenderTask::Special(_) => r is Ok && final(out)@ == old(out)@
                        + "-- This render is special-cased and should be replaced later --\n"@,
                    RenderTask::CopyResource(rr) => (match r {
                        Ok(o) => match o {
                            Option::Some(p) => p@ == rr.0@,
                            Option::None => false,
                        },
                        Err(_) => false,
                    }) && final(out)@ == old(out)@,
                    RenderTask::Page { content, .. } => match r {
                        Ok(o) => o is None && (exists|tree: HtmlNode, body: HtmlNode, cb: HtmlNode, inner: HtmlNode, nav: Seq<NavigationItem>|
                            {
                                &&& #[trigger] spec_built_page_tree(
                                    tree,
                                    body,
                                    cb,
                                    inner,
                                    nav,
                                    old(self).context,
                                    document,
                                    content,
                                )
                                &&& crate::html::spec_links_ok(
                                    tree,
                                    old(self).context.document_titles,
                                    old(self).context.routes.table,
                                    old(self).context.spec_current(),
                                )
                                &&& final(out)@ == old(out)@ + crate::html::spec_render(
                                    tree,
                                    false,
                                    Seq::<char>::empty(),
                                    old(self).context.document_titles,
                                    old(self).context.routes.table,
                                    old(self).context.spec_current(),
                                )
                            }),
                        Err(e) => match e {
                            RenderError::DoubleRender => false,
                            RenderError::IdsExhausted => (match content {
                                PageContent::Post { post } => old(self).id_counter
                                    + crate::blog_post::spec_list_tab_count(post.content@)
                                    >= u64::MAX,
                                _ => false,
                            }),
                            RenderError::Link(le) => {
                                &&& (match le {
                                    LinkError::UnknownPage { id } => !old(
                                        self,
                                    ).context.routes.table.spec_contains(id@),
                                    LinkError::MissingTitle { id } => old(
                                        self,
                                    ).context.document_titles.spec_get(id@) is None,
                                })
                                &&& (!(crate::html::spec_link_routes_ok(
                                    old(self).context.stylesheet_link,
                                    old(self).context.routes.table,
                                    spec_doc_id(document),
                                ) && (forall|k: int|
                                    0 <= k < old(self).context.global_scripts@.len()
                                        ==> crate::html::spec_link_routes_ok(
                                        #[trigger] old(self).context.global_scripts@[k],
                                        old(self).context.routes.table,
                                        spec_doc_id(document),
                                    ))) || (exists|tree: HtmlNode, body: HtmlNode, cb: HtmlNode, inner: HtmlNode, nav: Seq<NavigationItem>|
                                    {
                                        &&& #[trigger] spec_built_page_tree(
                                            tree,
                                            body,
                                            cb,
                                            inner,
                                            nav,
                                            old(self).context,
                                            document,
                                            content,
                                        )
                                        &&& !crate::html::spec_links_ok(
                                            tree,
                                            old(self).context.document_titles,
                                            old(self).context.routes.table,
                                            old(self).context.spec_current(),
                                        )
                                    }))
                            },
                            RenderError::Content(ce) => spec_page_content_failure(
                                content,
                                ce,
                                old(self).context.categories@,
                            ),
                        },
                    },
                },
            },
    {
        let page_id: String = document.id().to_owned();
        let page_title: String = match document.title() {
            Some(t) => t.to_owned(),
            None => String::new(),
        };
        let task = match document.build() {
            Ok(t) => t,
            Err(e) => {
                return Err(e);
            },
        };
        match task {
            RenderTask::Special(special) => {
                out.append(special.content());
                Ok(None)
            },
            RenderTask::CopyResource(rr) => Ok(Some(rr.0)),
            RenderTask::Page { nav: _, content } => {
                let ghost content_g = content;
                let nav = navigation(&self.context.categories);
                let ghost nav_g = nav@;
                let body: HtmlNode = match content {
                    PageContent::Home { description } => {
                        let inner_node = HtmlNode::Text(crate::html::HtmlPlaintext(description));
                        let ghost inner_g = inner_node;
                        let cb = HtmlNode::Component(contentbox(inner_node));
                        proof {
                            assert(is_contentbox_node(cb, inner_g));
                            assert(is_rendered_page_content(inner_g, content_g));
                        }
                        cb
                    },
                    PageContent::CategoryIndex { heading, description, posts } => {
                        let mut items: Vec<HtmlNode> = Vec::new();
                        items.push(
                            HtmlNode::Element(
                                crate::component::html_heading(
                                    1,
                                    HtmlNode::Text(crate::html::HtmlPlaintext(heading)),
                                ),
                            ),
                        );
                        items.push(HtmlNode::Text(crate::html::HtmlPlaintext(description)));
                        match posts {
                            Some(entries) => {
                                if !entry_dates_ok(&entries) {
                                    return Err(
                                        RenderError::Content(
                                            crate::blog_post::ContentError::DateOutOfRange,
                                        ),
                                    );
                                }
                                items.push(HtmlNode::Component(postlist(entries)));
                            },
                            None => {},
                        }
                        let inner_node = HtmlNode::Group(items);
                        let ghost inner_g = inner_node;
                        let cb = HtmlNode::Component(contentbox(inner_node));
                        proof {
                            assert(is_contentbox_node(cb, inner_g));
                            assert(is_rendered_page_content(inner_g, content_g));
                        }
                        cb
                    },
                    PageContent::Post { post } => {
                        if post.metadata.date < 0 || post.metadata.date
                            > crate::dates::MAX_TIMESTAMP {
                            return Err(
                                RenderError::Content(
                                    crate::blog_post::ContentError::DateOutOfRange,
                                ),
                            );
                        }
                        let budget = tab_budget_list(&post.content);
                        if budget == u64::MAX || self.id_counter > u64::MAX - budget {
                            return Err(RenderError::IdsExhausted);
                        }
                        let ghost post_g = post;
                        let rendered = match post.render_content(
                            &self.context,
                            &mut self.id_counter,
                        ) {
                            Ok(n) => n,
                            Err(e) => {
                                return Err(RenderError::Content(e));
                            },
                        };
                        let ghost inner_g = rendered;
                        let cb = HtmlNode::Component(contentbox(rendered));
                        proof {
                            assert(is_contentbox_node(cb, inner_g));
                            assert(is_rendered_page_content(inner_g, content_g));
                        }
                        cb
                    },
                };
                let ghost cb_g = body;
                proof {
                    assert(exists|inner: HtmlNode|
                        #[trigger] is_contentbox_node(cb_g, inner) && is_rendered_page_content(
                            inner,
                            content_g,
                        ));
                }
                let full_page = match render_page(
                    &self.context,
                    page_id.as_str(),
                    page_title.as_str(),
                    nav,
                    body,
                ) {
                    Ok(p) => p,
                    Err(e) => {
                        proof {
                            assert(page_id@ == spec_doc_id(document));
                            assert(!(crate::html::spec_link_routes_ok(
                                old(self).context.stylesheet_link,
                                old(self).context.routes.table,
                                spec_doc_id(document),
                            ) && (forall|k: int|
                                0 <= k < old(self).context.global_scripts@.len()
                                    ==> crate::html::spec_link_routes_ok(
                                    #[trigger] old(self).context.global_scripts@[k],
                                    old(self).context.routes.table,
                                    spec_doc_id(document),
                                ))));
                        }
                        return Err(RenderError::Link(e));
                    },
                };
                let ghost tree_g = full_page;
                match full_page.build(&mut self.context, out, HtmlFormat::Indent(0)) {
                    Ok(_) => {
                        proof {
                            assert(crate::html::spec_format_prefix(HtmlFormat::Indent(0))
                                =~= Seq::<char>::empty());
                            let b = choose|b: HtmlNode|
                                is_page_shell(
                                    tree_g,
                                    crate::html::spec_href_of(
                                        old(self).context.stylesheet_link,
                                        old(self).context.routes.table,
                                        page_id@,
                                    ),
                                    spec_script_hrefs(
                                        old(self).context.global_scripts@,
                                        old(self).context.routes.table,
                                        page_id@,
                                    ),
                                    crate::util::spec_language_tag(
                                        crate::util::Language::English,
                                    ),
                                    old(self).context.title@ + " - "@ + page_title@,
                                    true,
                                    b,
                                ) && is_page_body(
                                    b,
                                    old(self).context.title,
                                    nav_g,
                                    cb_g,
                                );
                            let inner = choose|inner: HtmlNode|
                                #[trigger] is_contentbox_node(cb_g, inner)
                                    && is_rendered_page_content(inner, content_g);
                            assert(page_id@ == spec_doc_id(document));
                            assert(page_title@ == (match spec_doc_title(document) {
                                Option::Some(t) => t,
                                Option::None => Seq::<char>::empty(),
                            }));
                            assert(spec_built_page_tree(
                                tree_g,
                                b,
                                cb_g,
                                inner,
                                nav_g,
                                old(self).context,
                                document,
                                content_g,
                            ));
                        }
                        Ok(None)
                    },
                    Err(e) => {
                        proof {
                            let b = choose|b: HtmlNode|
                                is_page_shell(
                                    tree_g,
                                    crate::html::spec_href_of(
                                        old(self).context.stylesheet_link,
                                        old(self).context.routes.table,
                                        page_id@,
                                    ),
                                    spec_script_hrefs(
                                        old(self).context.global_scripts@,
                                        old(self).context.routes.table,
                                        page_id@,
                                    ),
                                    crate::util::spec_language_tag(
                                        crate::util::Language::English,
                                    ),
                                    old(self).context.title@ + " - "@ + page_title@,
                                    true,
                                    b,
                                ) && is_page_body(
                                    b,
                                    old(self).context.title,
                                    nav_g,
                                    cb_g,
                                );
                            let inner = choose|inner: HtmlNode|
                                #[trigger] is_contentbox_node(cb_g, inner)
                                    && is_rendered_page_content(inner, content_g);
                            assert(page_id@ == spec_doc_id(document));
                            assert(page_title@ == (match spec_doc_title(document) {
                                Option::Some(t) => t,
                                Option::None => Seq::<char>::empty(),
                            }));
                            assert(spec_built_page_tree(
                                tree_g,
                                b,
                                cb_g,
                                inner,
                                nav_g,
                                old(self).context,
                                document,
                                content_g,
                            ));
                            assert(!crate::html::spec_links_ok(
                                tree_g,
                                old(self).context.document_titles,
                                old(self).context.routes.table,
                                old(self).context.spec_current(),
                            ));
                        }
                        Err(RenderError::Link(e))
                    },
                }
            },
        }
    }
}

} // verus!

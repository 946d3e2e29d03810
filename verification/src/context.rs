//! The rendering context: the route table, the document title table, the
//! style registry and the page currently being rendered, bundled as the
//! capability that node serialization draws on.

use vstd::prelude::*;
use crate::category::{spec_descendants_list, Category};
use crate::css::CSSBuilder;
use crate::routes::{link_view, HRef, Link, LinkError, LinkView, PageRef, RouteTable};
use crate::tables::TitleTable;

verus! {

/// Everything node serialization may consult: link and title resolution, the
/// current page, and the shared style registry.
pub struct WebsiteRenderContext {
    pub title: String,
    pub current_page: Option<String>,
    pub stylesheet: CSSBuilder,
    pub stylesheet_link: Link,
    pub document_titles: TitleTable,
    pub global_scripts: Vec<Link>,
    pub categories: Vec<Category>,
    pub routes: RouteTable,
}

/// The title a link displays when no explicit content is given: a custom
/// link's literal title, an id link's registered document title.
pub open spec fn spec_link_title(l: Link, titles: TitleTable) -> Option<Seq<char>> {
    match link_view(l) {
        LinkView::ID(id) => titles.spec_get(id),
        LinkView::Custom { link_title, .. } => Option::Some(link_title),
    }
}

impl WebsiteRenderContext {
    /// The context can resolve links: a current page is set and the route
    /// table is well-formed.
    pub open spec fn wf(self) -> bool {
        &&& self.routes.wf()
        &&& self.current_page is Some
        &&& self.stylesheet.wf()
    }

    /// The id of the page currently being rendered.
    pub open spec fn spec_current(self) -> Seq<char> {
        self.current_page.unwrap()@
    }

    pub fn title(&self) -> (r: &String)
        ensures
            r@ == self.title@,
    {
        &self.title
    }

    pub fn title_prefix(&self) -> (r: Option<&String>)
        ensures
            match r {
                Some(t) => t@ == self.title@,
                None => false,
            },
    {
        Some(&self.title)
    }

    /// The id of the page currently being rendered.
    pub fn current_page(&self) -> (r: PageRef<'_>)
        requires
            self.wf(),
        ensures
            r.0@ == self.spec_current(),
    {
        match &self.current_page {
            Some(page) => PageRef(page.as_str()),
            None => PageRef(""),  // unreachable under wf
        }
    }

    /// Resolves a link's href as seen from `from_page`.
    pub fn resolve_href(&self, link: &Link, from_page: PageRef) -> (r: Result<HRef, LinkError>)
        requires
            self.wf(),
        ensures
            match r {
                Ok(href) => match link_view(*link) {
                    LinkView::Custom { destination, .. } => href.0@ == destination,
                    LinkView::ID(id) => {
                        &&& self.routes.table.spec_contains(from_page.0@)
                        &&& self.routes.table.spec_contains(id)
                        &&& href.0@ == crate::routes::spec_relative_href(
                            self.routes.table.spec_get(from_page.0@).unwrap(),
                            self.routes.table.spec_get(id).unwrap(),
                        )
                    },
                },
                Err(e) => match e {
                    LinkError::UnknownPage { id } => {
                        &&& link_view(*link) is ID
                        &&& (id@ == from_page.0@ && !self.routes.table.spec_contains(from_page.0@))
                            || (link_view(*link) == LinkView::ID(id@)
                            && self.routes.table.spec_contains(from_page.0@)
                            && !self.routes.table.spec_contains(id@))
                    },
                    LinkError::MissingTitle { .. } => false,
                },
            },
    {
        self.routes.resolve_href(link, from_page)
    }

    /// Resolves the title a link displays. Fails exactly when an id link
    /// names a document without a registered title, telling an unknown id
    /// apart from a known page that merely lacks one.
    pub fn resolve_link_title(&self, link: &Link) -> (r: Result<String, LinkError>)
        ensures
            match r {
                Ok(t) => spec_link_title(*link, self.document_titles) == Option::Some(t@),
                Err(e) => {
                    &&& spec_link_title(*link, self.document_titles) is None
                    &&& match e {
                        LinkError::UnknownPage { id } => link_view(*link) == LinkView::ID(id@)
                            && !self.routes.table.spec_contains(id@),
                        LinkError::MissingTitle { id } => link_view(*link) == LinkView::ID(id@)
                            && self.routes.table.spec_contains(id@),
                    }
                },
            },
    {
        match link {
            Link::ID(id) => match self.document_titles.get(id.as_str()) {
                Option::Some(title) => Ok(title.clone()),
                Option::None => {
                    if self.routes.table.contains(id.as_str()) {
                        Err(LinkError::MissingTitle { id: id.clone() })
                    } else {
                        Err(LinkError::UnknownPage { id: id.clone() })
                    }
                },
            },
            Link::Custom { link_title, .. } => Ok(link_title.clone()),
        }
    }

    /// Resolves a link to its display title and href together.
    pub fn resolve_link(&self, link: &Link, from_page: PageRef) -> (r: Result<
        (String, HRef),
        LinkError,
    >)
        requires
            self.wf(),
        ensures
            match r {
                Ok(p) => {
                    &&& spec_link_title(*link, self.document_titles) == Option::Some(p.0@)
                    &&& match link_view(*link) {
                        LinkView::Custom { destination, .. } => p.1.0@ == destination,
                        LinkView::ID(id) => {
                            &&& self.routes.table.spec_contains(from_page.0@)
                            &&& self.routes.table.spec_contains(id)
                            &&& p.1.0@ == crate::routes::spec_relative_href(
                                self.routes.table.spec_get(from_page.0@).unwrap(),
                                self.routes.table.spec_get(id).unwrap(),
                            )
                        },
                    }
                },
                Err(_) => spec_link_title(*link, self.document_titles) is None || !(match link_view(
                    *link,
                ) {
                    LinkView::ID(id) => self.routes.table.spec_contains(from_page.0@)
                        && self.routes.table.spec_contains(id),
                    LinkView::Custom { .. } => true,
                }),
            },
    {
        let title = self.resolve_link_title(link)?;
        let href = self.resolve_href(link, from_page)?;
        Ok((title, href))
    }

    /// Looks a category up by id anywhere in the tree, in pre-order.
    pub fn resolve_category(&self, category_id: &str) -> (r: Option<&Category>)
        ensures
            match r {
                Some(c) => exists|i: int|
                    {
                        &&& 0 <= i < spec_descendants_list(self.categories@).len()
                        &&& (#[trigger] spec_descendants_list(self.categories@)[i]).id_string@
                            == category_id@
                        &&& spec_descendants_list(self.categories@)[i] == *c
                        &&& (forall|x: int|
                            0 <= x < i ==> (#[trigger] spec_descendants_list(
                                self.categories@,
                            )[x]).id_string@ != category_id@)
                    },
                None => forall|i: int|
                    0 <= i < spec_descendants_list(self.categories@).len() ==> (
                    #[trigger] spec_descendants_list(self.categories@)[i]).id_string@
                        != category_id@,
            },
    {
        let n = self.categories.len();
        let mut i: usize = 0;
        proof {
            assert(self.categories@.take(0) =~= Seq::<Category>::empty());
        }
        while i < n
            invariant
                i <= n,
                n == self.categories@.len(),
                forall|x: int|
                    0 <= x < spec_descendants_list(self.categories@.take(i as int)).len() ==> (
                    #[trigger] spec_descendants_list(self.categories@.take(i as int))[x]).id_string@
                        != category_id@,
            decreases n - i,
        {
            let subtree = self.categories[i].iter_recurse();
            let m = subtree.len();
            let mut j: usize = 0;
            while j < m
                invariant
                    j <= m,
                    m == subtree@.len(),
                    i < n,
                    n == self.categories@.len(),
                    subtree@.map_values(|c: &Category| *c) =~= crate::category::spec_descendants(
                        self.categories@[i as int],
                    ),
                    forall|x: int|
                        0 <= x < spec_descendants_list(self.categories@.take(i as int)).len()
                            ==> (#[trigger] spec_descendants_list(
                            self.categories@.take(i as int),
                        )[x]).id_string@ != category_id@,
                    forall|x: int|
                        0 <= x < j ==> (#[trigger] crate::category::spec_descendants(
                            self.categories@[i as int],
                        )[x]).id_string@ != category_id@,
                decreases m - j,
            {
                if crate::strutil::str_eq(subtree[j].id_string.as_str(), category_id) {
                    proof {
                        let d = crate::category::spec_descendants(self.categories@[i as int]);
                        assert(d[j as int] == *subtree@[j as int]);
                        let listing = spec_descendants_list(self.categories@);
                        let pre = spec_descendants_list(self.categories@.take(i as int));
                        crate::category::lemma_descendants_list_prefix(self.categories@, i as int);
                        crate::category::lemma_descendants_list_snoc(self.categories@, i as int);
                        crate::category::lemma_descendants_list_prefix(
                            self.categories@,
                            i as int + 1,
                        );
                        let mid = spec_descendants_list(self.categories@.take(i as int + 1));
                        assert(mid == pre + d);
                        let k = pre.len() + j as int;
                        assert(k < mid.len() <= listing.len());
                        assert(listing[k] == mid[k]);
                        assert(mid[k] == d[j as int]);
                        assert(listing[k].id_string@ == category_id@);
                        assert forall|x: int| 0 <= x < k implies (#[trigger] listing[x]).id_string@
                            != category_id@ by {
                            if x < pre.len() {
                                assert(listing[x] == pre[x]);
                            } else {
                                assert(listing[x] == mid[x]);
                                assert(mid[x] == d[x - pre.len()]);
                            }
                        }
                    }
                    return Some(subtree[j]);
                }
                proof {
                    let d = crate::category::spec_descendants(self.categories@[i as int]);
                    assert(d[j as int] == *subtree@[j as int]);
                }
                j = j + 1;
            }
            proof {
                lemma_descendants_list_extend_none(self.categories@, i as int, category_id@);
            }
            i = i + 1;
        }
        proof {
            assert(self.categories@.take(n as int) =~= self.categories@);
        }
        None
    }

    /// Registers a style rule into the shared registry.
    pub fn register_style(&mut self, rule: crate::css::StyleRule)
        requires
            old(self).wf(),
        ensures
            final(self).wf(),
            final(self).title == old(self).title,
            final(self).current_page == old(self).current_page,
            final(self).stylesheet_link == old(self).stylesheet_link,
            final(self).document_titles == old(self).document_titles,
            final(self).global_scripts == old(self).global_scripts,
            final(self).categories == old(self).categories,
            final(self).routes == old(self).routes,
            final(self).stylesheet.spec_imports() == old(self).stylesheet.spec_imports(),
            final(self).stylesheet.spec_rules() =~= crate::css::spec_register(
                old(self).stylesheet.spec_rules(),
                rule,
            ),
    {
        self.stylesheet.register(rule);
    }
}

/// If neither the first `i` subtrees nor subtree `i` hold the id, the first
/// `i + 1` subtrees do not.
pub proof fn lemma_descendants_list_extend_none(cs: Seq<Category>, i: int, id: Seq<char>)
    requires
        0 <= i < cs.len(),
        forall|x: int|
            0 <= x < spec_descendants_list(cs.take(i)).len() ==> (#[trigger] spec_descendants_list(
                cs.take(i),
            )[x]).id_string@ != id,
        forall|x: int|
            0 <= x < crate::category::spec_descendants(cs[i]).len() ==> (
            #[trigger] crate::category::spec_descendants(cs[i])[x]).id_string@ != id,
    ensures
        forall|x: int|
            0 <= x < spec_descendants_list(cs.take(i + 1)).len() ==> (
            #[trigger] spec_descendants_list(cs.take(i + 1))[x]).id_string@ != id,
{
    crate::category::lemma_descendants_list_snoc(cs, i);
    assert forall|x: int| 0 <= x < spec_descendants_list(cs.take(i + 1)).len() implies (
    #[trigger] spec_descendants_list(cs.take(i + 1))[x]).id_string@ != id by {
        let pre = spec_descendants_list(cs.take(i));
        let d = crate::category::spec_descendants(cs[i]);
        assert(spec_descendants_list(cs.take(i + 1)) == pre + d);
        if x < pre.len() {
            assert(spec_descendants_list(cs.take(i + 1))[x] == pre[x]);
        } else {
            assert(spec_descendants_list(cs.take(i + 1))[x] == d[x - pre.len()]);
        }
    }
}

} // verus!

//! Route assignment and link resolution: every document is assigned a unique
//! list of output path segments, and links between pages are resolved to the
//! shortest relative path between their routes.

use vstd::prelude::*;
use crate::strutil::{push_char, str_eq};
use crate::tables::{assoc_segs, lemma_assoc_segs_some, SegTable};

verus! {

/// A resolved hypertext reference.
pub struct HRef(pub String);

impl HRef {
    /// A copy of this reference.
    pub fn duplicate(&self) -> (r: HRef)
        ensures
            r.0@ == self.0@,
    {
        HRef(self.0.clone())
    }
}

/// A reference to content: either a document id resolved through the route
/// table, or a literal title and destination taken as given.
pub enum Link {
    ID(String),
    Custom { link_title: String, destination: HRef },
}

impl Link {
    /// A copy of this link, character for character.
    pub fn duplicate(&self) -> (r: Link)
        ensures
            link_view(r) == link_view(*self),
    {
        match self {
            Link::ID(id) => Link::ID(id.clone()),
            Link::Custom { link_title, destination } => Link::Custom {
                link_title: link_title.clone(),
                destination: destination.duplicate(),
            },
        }
    }
}

/// The mathematical content of a link.
pub enum LinkView {
    ID(Seq<char>),
    Custom { link_title: Seq<char>, destination: Seq<char> },
}

pub open spec fn link_view(l: Link) -> LinkView {
    match l {
        Link::ID(id) => LinkView::ID(id@),
        Link::Custom { link_title, destination } => LinkView::Custom {
            link_title: link_title@,
            destination: destination.0@,
        },
    }
}

/// A page named by its document id.
pub struct PageRef<'a>(pub &'a str);

/// How a document's final file name is derived.
pub enum FileName {
    ID,
    Index,
    Resource,
    Custom(&'static str),
}

impl Clone for FileName {
    fn clone(&self) -> (r: Self)
        ensures
            r == *self,
    {
        match self {
            FileName::ID => FileName::ID,
            FileName::Index => FileName::Index,
            FileName::Resource => FileName::Resource,
            FileName::Custom(name) => FileName::Custom(name),
        }
    }
}

impl Copy for FileName {

}

/// A document id with the `resource:` marker removed, if it carries one.
pub open spec fn spec_strip_resource(id: Seq<char>) -> Seq<char> {
    if id.len() >= 9 && id.take(9) =~= "resource:"@ {
        id.skip(9)
    } else {
        id
    }
}

/// The file-name segments a document contributes after its category path.
pub open spec fn spec_filename_segs(id: Seq<char>, filename: FileName, ext: Seq<char>) -> Seq<
    Seq<char>,
> {
    match filename {
        FileName::ID => seq![id + ext],
        FileName::Index => seq!["index"@ + ext],
        FileName::Resource => seq!["rsc"@, spec_strip_resource(id) + ext],
        FileName::Custom(name) => seq![name@ + ext],
    }
}

/// Appends the file-name segments for a document to `route`.
pub fn append_filename_segs(route: &mut Vec<String>, id: &str, filename: FileName, ext: &str)
    ensures
        final(route).deep_view() =~= old(route).deep_view() + spec_filename_segs(
            id@,
            filename,
            ext@,
        ),
{
    match filename {
        FileName::ID => {
            let seg = id.to_owned().concat(ext);
            route.push(seg);
        },
        FileName::Index => {
            let seg: String = "index".to_owned().concat(ext);
            route.push(seg);
        },
        FileName::Resource => {
            let n = id.unicode_len();
            let stripped: &str = if n >= 9 {
                let head = id.substring_char(0, 9);
                if str_eq(head, "resource:") {
                    id.substring_char(9, n)
                } else {
                    id
                }
            } else {
                id
            };
            proof {
                assert(stripped@ == spec_strip_resource(id@));
            }
            route.push("rsc".to_owned());
            let seg = stripped.to_owned().concat(ext);
            route.push(seg);
        },
        FileName::Custom(name) => {
            let seg = name.to_owned().concat(ext);
            route.push(seg);
        },
    }
    proof {
        assert(final(route).deep_view() =~= old(route).deep_view() + spec_filename_segs(
            id@,
            filename,
            ext@,
        )) by {
            assert(forall|x: int|
                0 <= x < old(route)@.len() ==> final(route).deep_view()[x] == old(
                    route,
                ).deep_view()[x]);
        }
    }
}

// ---------------------------------------------------------------------------
// Relative href computation
// ---------------------------------------------------------------------------

/// The number of leading segments two routes share.
pub open spec fn spec_common_prefix(a: Seq<Seq<char>>, b: Seq<Seq<char>>) -> int
    decreases a.len(),
{
    if a.len() == 0 || b.len() == 0 || a[0] != b[0] {
        0
    } else {
        1 + spec_common_prefix(a.skip(1), b.skip(1))
    }
}

pub proof fn lemma_common_prefix(a: Seq<Seq<char>>, b: Seq<Seq<char>>)
    ensures
        0 <= spec_common_prefix(a, b),
        spec_common_prefix(a, b) <= a.len(),
        spec_common_prefix(a, b) <= b.len(),
        forall|x: int| 0 <= x < spec_common_prefix(a, b) ==> a[x] == b[x],
        spec_common_prefix(a, b) < a.len() && spec_common_prefix(a, b) < b.len() ==> a[
            spec_common_prefix(a, b)
        ] != b[spec_common_prefix(a, b)],
    decreases a.len(),
{
    if a.len() == 0 || b.len() == 0 || a[0] != b[0] {
    } else {
        lemma_common_prefix(a.skip(1), b.skip(1));
        let k = spec_common_prefix(a, b);
        assert(forall|x: int| 0 <= x < k - 1 ==> a.skip(1)[x] == b.skip(1)[x]);
        assert(forall|x: int| 1 <= x < k ==> a[x] == a.skip(1)[x - 1] && b[x] == b.skip(1)[x - 1]);
        if k < a.len() && k < b.len() {
            assert(a.skip(1)[k - 1] != b.skip(1)[k - 1]);
        }
    }
}

/// `n` repetitions of `../`.
pub open spec fn spec_ups(n: int) -> Seq<char>
    decreases n,
{
    if n <= 0 {
        Seq::empty()
    } else {
        seq!['.', '.', '/'] + spec_ups(n - 1)
    }
}

pub proof fn lemma_ups_snoc(n: int)
    requires
        n >= 0,
    ensures
        spec_ups(n + 1) == spec_ups(n) + seq!['.', '.', '/'],
    decreases n,
{
    if n == 0 {
        assert(spec_ups(1) =~= spec_ups(0) + seq!['.', '.', '/']);
    } else {
        lemma_ups_snoc(n - 1);
        assert(spec_ups(n + 1) == seq!['.', '.', '/'] + spec_ups(n));
        assert(spec_ups(n) == seq!['.', '.', '/'] + spec_ups(n - 1));
        assert(seq!['.', '.', '/'] + (spec_ups(n - 1) + seq!['.', '.', '/']) =~= (seq![
            '.',
            '.',
            '/',
        ] + spec_ups(n - 1)) + seq!['.', '.', '/']);
    }
}

/// Path segments joined by `/`.
pub open spec fn spec_join_slash(segs: Seq<Seq<char>>) -> Seq<char>
    decreases segs.len(),
{
    if segs.len() == 0 {
        Seq::empty()
    } else if segs.len() == 1 {
        segs[0]
    } else {
        segs[0] + seq!['/'] + spec_join_slash(segs.skip(1))
    }
}

pub proof fn lemma_join_snoc(s: Seq<Seq<char>>, m: int)
    requires
        0 <= m < s.len(),
    ensures
        m == 0 ==> spec_join_slash(s.take(1)) == s[0],
        m > 0 ==> spec_join_slash(s.take(m + 1)) == spec_join_slash(s.take(m)) + seq!['/'] + s[m],
    decreases m,
{
    if m == 0 {
        assert(s.take(1)[0] == s[0]);
        assert(spec_join_slash(s.take(1)) == s[0]);
    } else if m == 1 {
        assert(s.take(2)[0] == s[0]);
        assert(s.take(2).skip(1) =~= seq![s[1]]);
        assert(spec_join_slash(seq![s[1]]) == s[1]);
        assert(s.take(1)[0] == s[0]);
        assert(spec_join_slash(s.take(2)) == s[0] + seq!['/'] + s[1]);
        assert(spec_join_slash(s.take(1)) == s[0]);
    } else {
        lemma_join_snoc(s.skip(1), m - 1);
        assert(s.take(m + 1)[0] == s[0]);
        assert(s.take(m + 1).skip(1) =~= s.skip(1).take(m));
        assert(s.take(m)[0] == s[0]);
        assert(s.take(m).skip(1) =~= s.skip(1).take(m - 1));
        assert(s.skip(1)[m - 1] == s[m]);
        assert(s.take(m + 1).len() == m + 1);
        assert(spec_join_slash(s.take(m + 1)) == s[0] + seq!['/'] + spec_join_slash(
            s.skip(1).take(m),
        ));
        assert(spec_join_slash(s.take(m)) == s[0] + seq!['/'] + spec_join_slash(
            s.skip(1).take(m - 1),
        ));
        assert(s[0] + seq!['/'] + (spec_join_slash(s.skip(1).take(m - 1)) + seq!['/'] + s[m]) =~= (s[0]
            + seq!['/'] + spec_join_slash(s.skip(1).take(m - 1))) + seq!['/'] + s[m]);
    }
}

/// The number of `../` steps a relative link from `from` to `to` climbs.
pub open spec fn spec_href_ups(from: Seq<Seq<char>>, to: Seq<Seq<char>>) -> int {
    let k = spec_common_prefix(from, to);
    if k == from.len() {
        0
    } else {
        from.len() - k - 1
    }
}

/// The relative path from the page at route `from` to the page at route `to`:
/// either `./last-segment` when the whole target route is a shared prefix, or
/// the required `../` steps followed by the unshared target segments.
pub open spec fn spec_relative_href(from: Seq<Seq<char>>, to: Seq<Seq<char>>) -> Seq<char> {
    let k = spec_common_prefix(from, to);
    if k == to.len() {
        seq!['.', '/'] + to.last()
    } else {
        spec_ups(spec_href_ups(from, to)) + spec_join_slash(to.skip(k))
    }
}

// ---------------------------------------------------------------------------
// Route table construction
// ---------------------------------------------------------------------------

/// What route assignment needs to know about one document.
pub struct RouteDoc {
    pub id: String,
    pub category: Option<String>,
    pub filename: FileName,
    pub extension: String,
}

/// Why route assignment failed. Each variant carries the ids involved, so the
/// report can name every colliding document.
pub enum RouteError {
    DuplicateId { id: String },
    UnknownCategory { id: String, category: String },
    DuplicateRoute { route: Vec<String>, ids: Vec<String> },
}

/// The route of one document: its category's path (absent categories make the
/// route undefined) followed by its file-name segments.
pub open spec fn spec_doc_route(d: RouteDoc, cmap: SegTable) -> Option<Seq<Seq<char>>> {
    match d.category {
        Option::None => Option::Some(spec_filename_segs(d.id@, d.filename, d.extension@)),
        Option::Some(c) => match cmap.spec_get(c@) {
            Option::None => Option::None,
            Option::Some(path) => Option::Some(
                path + spec_filename_segs(d.id@, d.filename, d.extension@),
            ),
        },
    }
}

/// No two documents share an id.
pub open spec fn spec_ids_unique(docs: Seq<RouteDoc>) -> bool {
    forall|i: int, j: int| 0 <= i < j < docs.len() ==> docs[i].id@ != docs[j].id@
}

/// Every document's category is known, so every route is defined.
pub open spec fn spec_cats_known(docs: Seq<RouteDoc>, cmap: SegTable) -> bool {
    forall|i: int| 0 <= i < docs.len() ==> spec_doc_route(#[trigger] docs[i], cmap) is Some
}

/// No two documents resolve to the same route.
pub open spec fn spec_routes_unique(docs: Seq<RouteDoc>, cmap: SegTable) -> bool {
    forall|i: int, j: int|
        0 <= i < j < docs.len() ==> !(spec_doc_route(#[trigger] docs[i], cmap) is Some
            && spec_doc_route(docs[i], cmap) == spec_doc_route(#[trigger] docs[j], cmap))
}

/// The ids of the documents in `docs` whose route is `route`, in order.
pub open spec fn spec_colliding_ids(
    docs: Seq<RouteDoc>,
    cmap: SegTable,
    route: Seq<Seq<char>>,
) -> Seq<Seq<char>>
    decreases docs.len(),
{
    if docs.len() == 0 {
        Seq::empty()
    } else {
        let rest = spec_colliding_ids(docs.drop_last(), cmap, route);
        if spec_doc_route(docs.last(), cmap) == Option::Some(route) {
            rest.push(docs.last().id@)
        } else {
            rest
        }
    }
}

/// The finished route table: each document id bound to its route, with both
/// ids and routes pairwise distinct, and every route naming at least a file.
pub struct RouteTable {
    pub table: SegTable,
}

impl RouteTable {
    pub open spec fn wf(self) -> bool {
        &&& forall|i: int, j: int|
            0 <= i < j < self.table.entries@.len() ==> self.table.spec_keys()[i]
                != self.table.spec_keys()[j]
        &&& forall|i: int, j: int|
            0 <= i < j < self.table.entries@.len() ==> self.table.spec_values()[i]
                != self.table.spec_values()[j]
        &&& forall|i: int| 0 <= i < self.table.entries@.len() ==> self.table.spec_values()[i].len() > 0
    }

    /// The route assigned to a page, if the page is known.
    pub fn route(&self, page_ref: PageRef) -> (r: Option<&Vec<String>>)
        ensures
            match r {
                Some(v) => self.table.spec_get(page_ref.0@) == Some(v.deep_view()),
                None => self.table.spec_get(page_ref.0@) is None,
            },
    {
        self.table.get(page_ref.0)
    }
}

/// Route uniqueness: in a well-formed route table, distinct documents hold
/// distinct routes.
pub proof fn lemma_route_uniqueness(rt: RouteTable, i: int, j: int)
    requires
        rt.wf(),
        0 <= i < rt.table.entries@.len(),
        0 <= j < rt.table.entries@.len(),
        i != j,
    ensures
        rt.table.spec_values()[i] != rt.table.spec_values()[j],
{
}

/// Id uniqueness: in a well-formed route table, distinct documents hold
/// distinct ids.
pub proof fn lemma_id_uniqueness(rt: RouteTable, i: int, j: int)
    requires
        rt.wf(),
        0 <= i < rt.table.entries@.len(),
        0 <= j < rt.table.entries@.len(),
        i != j,
    ensures
        rt.table.spec_keys()[i] != rt.table.spec_keys()[j],
{
}

/// Compares two segment lists character for character.
pub fn segs_eq(a: &Vec<String>, b: &Vec<String>) -> (r: bool)
    ensures
        r == (a.deep_view() == b.deep_view()),
{
    if a.len() != b.len() {
        proof {
            assert(a.deep_view().len() != b.deep_view().len());
        }
        return false;
    }
    let n = a.len();
    let mut i: usize = 0;
    while i < n
        invariant
            i <= n,
            n == a@.len(),
            n == b@.len(),
            forall|x: int| 0 <= x < i ==> a.deep_view()[x] == b.deep_view()[x],
        decreases n - i,
    {
        if !str_eq(a[i].as_str(), b[i].as_str()) {
            proof {
                assert(a.deep_view()[i as int] != b.deep_view()[i as int]);
            }
            return false;
        }
        i = i + 1;
    }
    proof {
        assert(a.deep_view() =~= b.deep_view());
    }
    true
}

/// Builds the route table for the whole document set: every document gets its
/// category path plus file name, and the build is rejected when two documents
/// share an id, a document names an unknown category, or two documents
/// resolve to the same route. A route collision names every id involved.
pub fn build_route_table(docs: &Vec<RouteDoc>, cmap: &SegTable) -> (r: Result<
    RouteTable,
    RouteError,
>)
    ensures
        match r {
            Ok(rt) => {
                &&& rt.wf()
                &&& spec_ids_unique(docs@)
                &&& spec_cats_known(docs@, *cmap)
                &&& spec_routes_unique(docs@, *cmap)
                &&& rt.table.entries@.len() == docs@.len()
                &&& forall|i: int|
                    0 <= i < docs@.len() ==> rt.table.spec_keys()[i] == #[trigger] docs@[i].id@
                &&& forall|i: int|
                    0 <= i < docs@.len() ==> rt.table.spec_values()[i] == spec_doc_route(
                        #[trigger] docs@[i],
                        *cmap,
                    ).unwrap()
            },
            Err(e) => {
                &&& !(spec_ids_unique(docs@) && spec_cats_known(docs@, *cmap) && spec_routes_unique(
                    docs@,
                    *cmap,
                ))
                &&& match e {
                    RouteError::DuplicateId { id } => exists|i: int, j: int|
                        0 <= i < j < docs@.len() && #[trigger] docs@[i].id@ == #[trigger] docs@[j].id@
                            && docs@[j].id@ == id@,
                    RouteError::UnknownCategory { id, category } => exists|i: int|
                        0 <= i < docs@.len() && #[trigger] docs@[i].id@ == id@ && docs@[i].category
                            == Option::Some(category) && !cmap.spec_contains(category@),
                    RouteError::DuplicateRoute { route, ids } => exists|j: int|
                        {
                            &&& 0 <= j < docs@.len()
                            &&& spec_doc_route(#[trigger] docs@[j], *cmap) == Option::Some(
                                route.deep_view(),
                            )
                            &&& exists|i: int|
                                0 <= i < j && spec_doc_route(#[trigger] docs@[i], *cmap)
                                    == Option::Some(route.deep_view())
                            &&& ids.deep_view() == spec_colliding_ids(
                                docs@.take(j + 1),
                                *cmap,
                                route.deep_view(),
                            )
                            &&& ids@.len() >= 2
                        },
                }
            },
        },
{
    let mut rt = RouteTable { table: SegTable::new() };
    let n = docs.len();
    let mut i: usize = 0;
    while i < n
        invariant
            i <= n,
            n == docs@.len(),
            rt.table.entries@.len() == i,
            forall|k: int| 0 <= k < i ==> rt.table.spec_keys()[k] == #[trigger] docs@[k].id@,
            forall|k: int|
                0 <= k < i ==> spec_doc_route(#[trigger] docs@[k], *cmap) is Some,
            forall|k: int|
                0 <= k < i ==> rt.table.spec_values()[k] == spec_doc_route(
                    #[trigger] docs@[k],
                    *cmap,
                ).unwrap(),
            forall|k: int| 0 <= k < i ==> #[trigger] rt.table.spec_values()[k].len() > 0,
            spec_ids_unique(docs@.take(i as int)),
            spec_routes_unique(docs@.take(i as int), *cmap),
        decreases n - i,
    {
        let doc = &docs[i];
        // A repeated id is a fatal routing error.
        if rt.table.contains(doc.id.as_str()) {
            proof {
                lemma_assoc_segs_some(rt.table.entries@, doc.id@);
                let k = choose|k: int|
                    0 <= k < rt.table.entries@.len() && rt.table.entries@[k].0@ == doc.id@;
                assert(rt.table.spec_keys()[k] == rt.table.entries@[k].0@);
                assert(docs@[k].id@ == doc.id@);
                assert(0 <= k < i < docs@.len() && docs@[k].id@ == docs@[i as int].id@);
                assert(!spec_ids_unique(docs@));
            }
            return Err(RouteError::DuplicateId { id: doc.id.clone() });
        }
        // Resolve the category prefix; an unknown category is fatal.
        let mut route_vec: Vec<String> = Vec::new();
        match &doc.category {
            Option::None => {},
            Option::Some(c) => {
                match cmap.get(c.as_str()) {
                    Option::None => {
                        proof {
                            assert(docs@[i as int].category == Option::Some(*c));
                            assert(spec_doc_route(docs@[i as int], *cmap) is None);
                            assert(!spec_cats_known(docs@, *cmap));
                        }
                        return Err(
                            RouteError::UnknownCategory { id: doc.id.clone(), category: c.clone() },
                        );
                    },
                    Option::Some(path) => {
                        route_vec = path.clone();
                        proof {
                            crate::strutil::lemma_vec_string_cloned(*path, route_vec);
                        }
                    },
                }
            },
        }
        append_filename_segs(&mut route_vec, doc.id.as_str(), doc.filename, doc.extension.as_str());
        proof {
            assert(spec_doc_route(docs@[i as int], *cmap) == Option::Some(route_vec.deep_view()));
            assert(route_vec.deep_view().len() > 0);
        }
        // A repeated route is fatal and must name every document involved.
        let mut collision = false;
        let m = rt.table.entries.len();
        let mut k: usize = 0;
        while k < m
            invariant
                k <= m,
                m == rt.table.entries@.len(),
                collision <==> exists|x: int|
                    0 <= x < k && #[trigger] rt.table.spec_values()[x] == route_vec.deep_view(),
            decreases m - k,
        {
            if segs_eq(&rt.table.entries[k].1, &route_vec) {
                proof {
                    assert(rt.table.spec_values()[k as int] == route_vec.deep_view());
                }
                collision = true;
            }
            k = k + 1;
        }
        if collision {
            let mut ids: Vec<String> = Vec::new();
            let mut k2: usize = 0;
            proof {
                assert(docs@.take(0int) =~= Seq::<RouteDoc>::empty());
                assert(ids.deep_view() =~= spec_colliding_ids(
                    docs@.take(0int),
                    *cmap,
                    route_vec.deep_view(),
                ));
            }
            while k2 < m
                invariant
                    k2 <= m,
                    m == rt.table.entries@.len(),
                    m == i,
                    i < n,
                    n == docs@.len(),
                    forall|x: int|
                        0 <= x < i ==> spec_doc_route(#[trigger] docs@[x], *cmap) is Some,
                    forall|x: int|
                        0 <= x < i ==> rt.table.spec_values()[x] == spec_doc_route(
                            #[trigger] docs@[x],
                            *cmap,
                        ).unwrap(),
                    ids.deep_view() =~= spec_colliding_ids(
                        docs@.take(k2 as int),
                        *cmap,
                        route_vec.deep_view(),
                    ),
                    forall|x: int| 0 <= x < i ==> rt.table.spec_keys()[x] == #[trigger] docs@[x].id@,
                decreases m - k2,
            {
                let ghost prev_ids = ids.deep_view();
                if segs_eq(&rt.table.entries[k2].1, &route_vec) {
                    ids.push(rt.table.entries[k2].0.clone());
                    proof {
                        assert(ids.deep_view() =~= prev_ids.push(docs@[k2 as int].id@)) by {
                            assert(forall|x: int|
                                0 <= x < prev_ids.len() ==> ids.deep_view()[x] == prev_ids[x]);
                        }
                    }
                }
                proof {
                    assert(docs@.take(k2 + 1).drop_last() =~= docs@.take(k2 as int));
                    assert(docs@.take(k2 + 1).last() == docs@[k2 as int]);
                    assert(spec_doc_route(docs@[k2 as int], *cmap) == Option::Some(
                        rt.table.spec_values()[k2 as int],
                    ));
                }
                k2 = k2 + 1;
            }
            ids.push(doc.id.clone());
            let ghost full_prefix = docs@.take(i + 1);
            proof {
                assert(full_prefix.drop_last() =~= docs@.take(i as int));
                assert(full_prefix.last() == docs@[i as int]);
                assert(docs@.take(m as int) =~= docs@.take(i as int));
                assert(ids.deep_view() =~= spec_colliding_ids(
                    full_prefix,
                    *cmap,
                    route_vec.deep_view(),
                )) by {
                    let prior = spec_colliding_ids(docs@.take(i as int), *cmap, route_vec.deep_view());
                    assert(forall|x: int|
                        0 <= x < prior.len() ==> ids.deep_view()[x] == prior[x]);
                    assert(ids.deep_view().last() == docs@[i as int].id@);
                }
                let x = choose|x: int|
                    0 <= x < i && #[trigger] rt.table.spec_values()[x] == route_vec.deep_view();
                assert(spec_doc_route(docs@[x], *cmap) == Option::Some(route_vec.deep_view()));
                assert(!spec_routes_unique(docs@, *cmap));
                lemma_colliding_at_least_two(docs@, *cmap, route_vec.deep_view(), x, i as int);
            }
            return Err(RouteError::DuplicateRoute { route: route_vec, ids });
        }
        let ghost pre_table = rt.table;
        let ghost pre_entries = rt.table.entries@;
        rt.table.insert(doc.id.clone(), route_vec);
        proof {
            assert(rt.table.entries@.len() == i + 1);
            assert(forall|x: int| 0 <= x < i ==> rt.table.entries@[x] == pre_entries[x]);
            assert(forall|x: int|
                0 <= x < i ==> #[trigger] rt.table.spec_values()[x] == pre_table.spec_values()[x]);
            assert(forall|x: int|
                0 <= x < i ==> #[trigger] rt.table.spec_keys()[x] == pre_table.spec_keys()[x]);
            assert(forall|x: int|
                0 <= x < i ==> #[trigger] rt.table.spec_values()[x].len() > 0) by {
                assert(forall|x: int|
                    0 <= x < i ==> #[trigger] pre_table.spec_values()[x].len() > 0);
            }
            assert(rt.table.spec_keys()[i as int] == docs@[i as int].id@);
            assert(rt.table.spec_values()[i as int] == spec_doc_route(
                docs@[i as int],
                *cmap,
            ).unwrap());
            assert(forall|x: int|
                0 <= x < i ==> #[trigger] rt.table.spec_keys()[x] == pre_entries[x].0@);
            assert(forall|x: int|
                0 <= x < i ==> #[trigger] rt.table.spec_values()[x] == pre_entries[x].1.deep_view());
            assert(docs@.take(i + 1).drop_last() =~= docs@.take(i as int));
            assert(spec_ids_unique(docs@.take(i + 1))) by {
                assert(forall|x: int| 0 <= x < i + 1 ==> docs@.take(i + 1)[x] == docs@[x]);
                assert(forall|x: int|
                    0 <= x < i ==> #[trigger] docs@[x].id@ != docs@[i as int].id@) by {
                    if exists|x: int| 0 <= x < i && #[trigger] docs@[x].id@ == docs@[i as int].id@ {
                        let x = choose|x: int|
                            0 <= x < i && #[trigger] docs@[x].id@ == docs@[i as int].id@;
                        assert(rt.table.spec_keys()[x] == docs@[x].id@);
                        lemma_assoc_key_present(pre_entries, x, docs@[i as int].id@);
                        assert(false);
                    }
                }
            }
            assert(spec_routes_unique(docs@.take(i + 1), *cmap)) by {
                assert(forall|x: int| 0 <= x < i + 1 ==> docs@.take(i + 1)[x] == docs@[x]);
                assert(forall|x: int|
                    0 <= x < i ==> !(spec_doc_route(#[trigger] docs@[x], *cmap) is Some
                        && spec_doc_route(docs@[x], *cmap) == spec_doc_route(
                        docs@[i as int],
                        *cmap,
                    )));
            }
        }
        i = i + 1;
    }
    proof {
        assert(docs@.take(n as int) =~= docs@);
        assert forall|i2: int, j2: int|
            0 <= i2 < j2 < rt.table.entries@.len() implies rt.table.spec_keys()[i2]
            != rt.table.spec_keys()[j2] by {
            assert(rt.table.spec_keys()[i2] == docs@[i2].id@);
            assert(rt.table.spec_keys()[j2] == docs@[j2].id@);
        }
        assert forall|i2: int, j2: int|
            0 <= i2 < j2 < rt.table.entries@.len() implies rt.table.spec_values()[i2]
            != rt.table.spec_values()[j2] by {
            assert(rt.table.spec_values()[i2] == spec_doc_route(docs@[i2], *cmap).unwrap());
            assert(rt.table.spec_values()[j2] == spec_doc_route(docs@[j2], *cmap).unwrap());
            assert(spec_doc_route(docs@[i2], *cmap) is Some);
            assert(spec_doc_route(docs@[j2], *cmap) is Some);
            assert(!(spec_doc_route(docs@[i2], *cmap) is Some && spec_doc_route(docs@[i2], *cmap)
                == spec_doc_route(docs@[j2], *cmap)));
        }
    }
    Ok(rt)
}

/// A route matched by two documents of a prefix is collected at least twice.
pub proof fn lemma_colliding_at_least_two(
    docs: Seq<RouteDoc>,
    cmap: SegTable,
    route: Seq<Seq<char>>,
    x: int,
    j: int,
)
    requires
        0 <= x < j < docs.len(),
        spec_doc_route(docs[x], cmap) == Option::Some(route),
        spec_doc_route(docs[j], cmap) == Option::Some(route),
    ensures
        spec_colliding_ids(docs.take(j + 1), cmap, route).len() >= 2,
{
    let pj = docs.take(j + 1);
    assert(pj.drop_last() =~= docs.take(j));
    assert(pj.last() == docs[j]);
    assert(docs.take(j)[x] == docs[x]);
    lemma_colliding_counts(docs.take(j), cmap, route, x);
    assert(spec_colliding_ids(pj, cmap, route) == spec_colliding_ids(
        docs.take(j),
        cmap,
        route,
    ).push(docs[j].id@));
}

/// Every matching position below `p` contributes one collected id, so the
/// collection over a prefix ending after position `p` has more than `p`'s
/// share.
proof fn lemma_colliding_counts(docs: Seq<RouteDoc>, cmap: SegTable, route: Seq<Seq<char>>, p: int)
    requires
        0 <= p < docs.len(),
        spec_doc_route(docs[p], cmap) == Option::Some(route),
    ensures
        spec_colliding_ids(docs, cmap, route).len() >= spec_colliding_ids(
            docs.take(p + 1),
            cmap,
            route,
        ).len(),
        spec_colliding_ids(docs.take(p + 1), cmap, route).len() >= 1,
    decreases docs.len(),
{
    if docs.len() == 0 {
    } else if p == docs.len() - 1 {
        assert(docs.take(p + 1) =~= docs);
        assert(spec_colliding_ids(docs, cmap, route).len() >= 1);
    } else {
        assert(docs.drop_last()[p] == docs[p]);
        lemma_colliding_counts(docs.drop_last(), cmap, route, p);
        assert(docs.drop_last().take(p + 1) =~= docs.take(p + 1));
    }
}

/// Why resolving a link against the route table failed.
pub enum LinkError {
    UnknownPage { id: String },
    MissingTitle { id: String },
}

/// A successful association lookup returns the value of some entry with that
/// key.
pub proof fn lemma_assoc_get_entry(s: Seq<(String, Vec<String>)>, k: Seq<char>)
    requires
        assoc_segs(s, k) is Some,
    ensures
        exists|i: int|
            0 <= i < s.len() && #[trigger] s[i].0@ == k && s[i].1.deep_view() == assoc_segs(
                s,
                k,
            ).unwrap(),
    decreases s.len(),
{
    if s.len() > 0 {
        if s.last().0@ == k {
            assert(s[s.len() - 1].0@ == k);
        } else {
            lemma_assoc_get_entry(s.drop_last(), k);
            let i = choose|i: int|
                0 <= i < s.drop_last().len() && #[trigger] s.drop_last()[i].0@ == k
                    && s.drop_last()[i].1.deep_view() == assoc_segs(s.drop_last(), k).unwrap();
            assert(s[i] == s.drop_last()[i]);
        }
    }
}

/// The common-prefix length is pinned by its characteristic properties.
pub proof fn lemma_common_prefix_value(a: Seq<Seq<char>>, b: Seq<Seq<char>>, k: int)
    requires
        0 <= k <= a.len(),
        k <= b.len(),
        forall|x: int| 0 <= x < k ==> a[x] == b[x],
        k < a.len() && k < b.len() ==> a[k] != b[k],
    ensures
        spec_common_prefix(a, b) == k,
    decreases k,
{
    if k == 0 {
    } else {
        assert(a[0] == b[0]);
        assert(forall|x: int| 0 <= x < k - 1 ==> a.skip(1)[x] == b.skip(1)[x]);
        if k - 1 < a.skip(1).len() && k - 1 < b.skip(1).len() {
            assert(a.skip(1)[k - 1] == a[k] && b.skip(1)[k - 1] == b[k]);
        }
        lemma_common_prefix_value(a.skip(1), b.skip(1), k - 1);
    }
}

impl RouteTable {
    /// Resolves a link to a relative hypertext reference as seen from
    /// `from_page`: custom links pass their destination through unchanged,
    /// and id links become the shortest relative path from the source page's
    /// directory to the target's route. Resolution fails exactly when the
    /// source or target page is missing from the table, naming the missing
    /// page.
    pub fn resolve_href(&self, link: &Link, from_page: PageRef) -> (r: Result<HRef, LinkError>)
        requires
            self.wf(),
        ensures
            match r {
                Ok(href) => match link_view(*link) {
                    LinkView::Custom { destination, .. } => href.0@ == destination,
                    LinkView::ID(id) => {
                        &&& self.table.spec_contains(from_page.0@)
                        &&& self.table.spec_contains(id)
                        &&& href.0@ == spec_relative_href(
                            self.table.spec_get(from_page.0@).unwrap(),
                            self.table.spec_get(id).unwrap(),
                        )
                    },
                },
                Err(e) => match e {
                    LinkError::UnknownPage { id } => {
                        &&& link_view(*link) is ID
                        &&& (id@ == from_page.0@ && !self.table.spec_contains(from_page.0@)) || (
                        link_view(*link) == LinkView::ID(id@) && self.table.spec_contains(
                            from_page.0@,
                        ) && !self.table.spec_contains(id@))
                    },
                    LinkError::MissingTitle { .. } => false,
                },
            },
    {
        let id = match link {
            Link::Custom { destination, .. } => {
                return Ok(destination.duplicate());
            },
            Link::ID(id) => id,
        };
        let from = match self.table.get(from_page.0) {
            Option::None => {
                return Err(LinkError::UnknownPage { id: from_page.0.to_owned() });
            },
            Option::Some(v) => v,
        };
        let to = match self.table.get(id.as_str()) {
            Option::None => {
                return Err(LinkError::UnknownPage { id: id.clone() });
            },
            Option::Some(v) => v,
        };
        let ghost fd = from.deep_view();
        let ghost td = to.deep_view();
        proof {
            lemma_assoc_get_entry(self.table.entries@, from_page.0@);
            lemma_assoc_get_entry(self.table.entries@, id@);
            let x = choose|x: int|
                0 <= x < self.table.entries@.len() && #[trigger] self.table.entries@[x].0@
                    == from_page.0@ && self.table.entries@[x].1.deep_view() == fd;
            assert(self.table.spec_values()[x] == fd);
            let y = choose|y: int|
                0 <= y < self.table.entries@.len() && #[trigger] self.table.entries@[y].0@ == id@
                    && self.table.entries@[y].1.deep_view() == td;
            assert(self.table.spec_values()[y] == td);
            assert(fd.len() > 0 && td.len() > 0);
        }
        let from_len = from.len();
        let to_len = to.len();
        let mut k: usize = 0;
        while k < from_len && k < to_len
            invariant
                0 <= k <= from_len,
                k <= to_len,
                from_len == fd.len(),
                to_len == td.len(),
                fd == from.deep_view(),
                td == to.deep_view(),
                forall|x: int| 0 <= x < k ==> fd[x] == td[x],
            ensures
                k <= from_len,
                k <= to_len,
                forall|x: int| 0 <= x < k ==> fd[x] == td[x],
                k < from_len && k < to_len ==> fd[k as int] != td[k as int],
            decreases from_len - k,
        {
            if str_eq(from[k].as_str(), to[k].as_str()) {
                proof {
                    assert(fd[k as int] == from@[k as int]@);
                    assert(td[k as int] == to@[k as int]@);
                }
                k = k + 1;
            } else {
                proof {
                    assert(fd[k as int] == from@[k as int]@);
                    assert(td[k as int] == to@[k as int]@);
                    assert(fd[k as int] != td[k as int]);
                }
                break ;
            }
        }
        proof {
            lemma_common_prefix_value(fd, td, k as int);
        }
        let mut out = String::new();
        if k == to_len {
            push_char(&mut out, '.');
            push_char(&mut out, '/');
            out.append(to[to_len - 1].as_str());
            proof {
                assert(td.last() == to@[to_len - 1]@);
                assert(out@ =~= seq!['.', '/'] + td.last());
            }
        } else {
            let ups: usize = if k == from_len {
                0
            } else {
                from_len - k - 1
            };
            let mut c: usize = 0;
            while c < ups
                invariant
                    c <= ups,
                    out@ == spec_ups(c as int),
                decreases ups - c,
            {
                push_char(&mut out, '.');
                push_char(&mut out, '.');
                push_char(&mut out, '/');
                proof {
                    lemma_ups_snoc(c as int);
                    assert(out@ =~= spec_ups(c as int) + seq!['.', '.', '/']);
                }
                c = c + 1;
            }
            proof {
                assert(spec_ups(spec_href_ups(fd, td)) == spec_ups(ups as int));
            }
            let mut x: usize = k;
            proof {
                assert(td.skip(k as int).take(0) =~= Seq::<Seq<char>>::empty());
                assert(out@ + Seq::<char>::empty() =~= out@);
            }
            while x < to_len
                invariant
                    k <= x <= to_len,
                    k < to_len,
                    to_len == td.len(),
                    td == to.deep_view(),
                    out@ == spec_ups(ups as int) + spec_join_slash(
                        td.skip(k as int).take(x - k as int),
                    ),
                decreases to_len - x,
            {
                if x > k {
                    push_char(&mut out, '/');
                }
                out.append(to[x].as_str());
                proof {
                    let tail = td.skip(k as int);
                    let m = x - k as int;
                    lemma_join_snoc(tail, m);
                    assert(tail[m] == td[x as int]);
                    assert(td[x as int] == to@[x as int]@);
                    if x > k {
                        assert(out@ =~= spec_ups(ups as int) + (spec_join_slash(tail.take(m))
                            + seq!['/'] + tail[m]));
                        assert(spec_join_slash(tail.take(m + 1)) == spec_join_slash(tail.take(m))
                            + seq!['/'] + tail[m]);
                    } else {
                        assert(m == 0);
                        assert(spec_join_slash(tail.take(0)) =~= Seq::<char>::empty());
                        assert(out@ =~= spec_ups(ups as int) + tail[0]);
                        assert(spec_join_slash(tail.take(1)) == tail[0]);
                    }
                }
                x = x + 1;
            }
            proof {
                assert(td.skip(k as int).take(to_len - k as int) =~= td.skip(k as int));
            }
        }
        Ok(HRef(out))
    }
}

/// If some entry of an association list carries key `k`, a lookup cannot miss.
pub proof fn lemma_assoc_key_present(s: Seq<(String, Vec<String>)>, x: int, k: Seq<char>)
    requires
        0 <= x < s.len(),
        s[x].0@ == k,
    ensures
        assoc_segs(s, k) is Some,
{
    lemma_assoc_segs_some(s, k);
}

/// One route is a strict prefix of another.
pub open spec fn spec_is_strict_prefix(p: Seq<Seq<char>>, s: Seq<Seq<char>>) -> bool {
    p.len() < s.len() && s.take(p.len() as int) =~= p
}

/// Walking the resolved relative link from the source page's directory lands
/// exactly on the target's route: dropping the source's file name, climbing
/// one directory per `../` step, and descending through the link's remaining
/// segments reconstructs `to`. This holds whenever neither route is a strict
/// prefix of the other, as with any two routes that name actual files.
pub proof fn lemma_href_round_trip(from: Seq<Seq<char>>, to: Seq<Seq<char>>)
    requires
        from.len() > 0,
        to.len() > 0,
        !spec_is_strict_prefix(to, from),
        !spec_is_strict_prefix(from, to),
    ensures
        ({
            let k = spec_common_prefix(from, to);
            let ups = spec_href_ups(from, to);
            let tail = if k == to.len() {
                seq![to.last()]
            } else {
                to.skip(k)
            };
            &&& 0 <= ups <= from.len() - 1
            &&& from.take(from.len() - 1 - ups) + tail =~= to
        }),
{
    let k = spec_common_prefix(from, to);
    lemma_common_prefix(from, to);
    if k == to.len() {
        if from.len() > to.len() {
            assert(forall|x: int| 0 <= x < k ==> from.take(k)[x] == to[x]);
            assert(spec_is_strict_prefix(to, from));
            assert(false);
        }
        assert(from.len() == to.len());
        assert(k == from.len());
        assert(spec_href_ups(from, to) == 0);
        assert(from.take(from.len() - 1) + seq![to.last()] =~= to) by {
            assert(forall|x: int| 0 <= x < to.len() - 1 ==> from[x] == to[x]);
        }
    } else {
        if k == from.len() {
            assert(forall|x: int| 0 <= x < k ==> to.take(k)[x] == from[x]);
            assert(spec_is_strict_prefix(from, to));
            assert(false);
        }
        assert(k < from.len());
        let ups = from.len() - k - 1;
        assert(spec_href_ups(from, to) == ups);
        assert(0 <= ups <= from.len() - 1);
        assert(from.len() - 1 - ups == k);
        assert(from.take(k) + to.skip(k) =~= to) by {
            assert(forall|x: int| 0 <= x < k ==> from.take(k)[x] == to[x]);
        }
    }
}

} // verus!

//! The category tree: hierarchical groupings that contribute a path prefix to
//! the documents filed under them and an entry to the navigation.

use vstd::prelude::*;
use crate::tables::SegTable;

verus! {

/// One node of the category tree.
pub struct Category {
    pub id_string: String,
    pub title: String,
    pub description: String,
    pub sub_categories: Vec<Category>,
    pub unlisted: bool,
}

/// The categories of a subtree in pre-order: the root first, then each
/// child's subtree in order.
pub open spec fn spec_descendants(c: Category) -> Seq<Category>
    decreases c,
{
    seq![c] + spec_descendants_list(c.sub_categories@)
}

/// The concatenated pre-order listings of a forest.
pub open spec fn spec_descendants_list(cs: Seq<Category>) -> Seq<Category>
    decreases cs,
{
    if cs.len() == 0 {
        Seq::empty()
    } else {
        spec_descendants(cs[0]) + spec_descendants_list(cs.skip(1))
    }
}

/// The (id, path-from-root) pairs a subtree contributes, in pre-order, when
/// the path down to the subtree's parent is `prefix`.
pub open spec fn spec_cat_paths(c: Category, prefix: Seq<Seq<char>>) -> Seq<
    (Seq<char>, Seq<Seq<char>>),
>
    decreases c,
{
    seq![(c.id_string@, prefix.push(c.id_string@))] + spec_cat_paths_list(
        c.sub_categories@,
        prefix.push(c.id_string@),
    )
}

/// The concatenated path contributions of a forest of sibling subtrees.
pub open spec fn spec_cat_paths_list(cs: Seq<Category>, prefix: Seq<Seq<char>>) -> Seq<
    (Seq<char>, Seq<Seq<char>>),
>
    decreases cs,
{
    if cs.len() == 0 {
        Seq::empty()
    } else {
        spec_cat_paths(cs[0], prefix) + spec_cat_paths_list(cs.skip(1), prefix)
    }
}

/// The subtree rooted at `c` nests no deeper than `levels` levels.
pub open spec fn spec_within_depth(c: Category, levels: nat) -> bool
    decreases c,
{
    levels >= 1 && spec_list_within_depth(c.sub_categories@, (levels - 1) as nat)
}

pub open spec fn spec_list_within_depth(cs: Seq<Category>, levels: nat) -> bool
    decreases cs,
{
    if cs.len() == 0 {
        true
    } else {
        spec_within_depth(cs[0], levels) && spec_list_within_depth(cs.skip(1), levels)
    }
}

impl Category {
    /// All categories of this subtree, root first, in pre-order.
    pub fn iter_recurse(&self) -> (r: Vec<&Category>)
        ensures
            r@.map_values(|c: &Category| *c) =~= spec_descendants(*self),
        decreases *self,
    {
        let mut out: Vec<&Category> = Vec::new();
        out.push(self);
        let n = self.sub_categories.len();
        let mut i: usize = 0;
        proof {
            assert(self.sub_categories@.take(0) =~= Seq::<Category>::empty());
            assert(out@.map_values(|c: &Category| *c) =~= seq![*self] + spec_descendants_list(
                self.sub_categories@.take(0),
            ));
        }
        while i < n
            invariant
                i <= n,
                n == self.sub_categories@.len(),
                out@.map_values(|c: &Category| *c) =~= seq![*self] + spec_descendants_list(
                    self.sub_categories@.take(i as int),
                ),
            decreases n - i,
        {
            let sub = self.sub_categories[i].iter_recurse();
            let mut j: usize = 0;
            let m = sub.len();
            proof {
                let d = spec_descendants(self.sub_categories@[i as int]);
                assert(d.take(0) =~= Seq::<Category>::empty());
                assert(out@.map_values(|c: &Category| *c) =~= seq![*self] + spec_descendants_list(
                    self.sub_categories@.take(i as int),
                ) + d.take(0));
            }
            while j < m
                invariant
                    j <= m,
                    m == sub@.len(),
                    sub@.map_values(|c: &Category| *c) =~= spec_descendants(
                        self.sub_categories@[i as int],
                    ),
                    i < n,
                    n == self.sub_categories@.len(),
                    out@.map_values(|c: &Category| *c) =~= seq![*self] + spec_descendants_list(
                        self.sub_categories@.take(i as int),
                    ) + spec_descendants(self.sub_categories@[i as int]).take(j as int),
                decreases m - j,
            {
                let ghost prev = out@;
                out.push(sub[j]);
                proof {
                    let d = spec_descendants(self.sub_categories@[i as int]);
                    assert(out@ == prev.push(sub@[j as int]));
                    assert(sub@.map_values(|c: &Category| *c)[j as int] == *sub@[j as int]);
                    assert(*sub@[j as int] == d[j as int]);
                    assert(out@.map_values(|c: &Category| *c) =~= prev.map_values(
                        |c: &Category| *c,
                    ).push(d[j as int]));
                    assert(out@.map_values(|c: &Category| *c) =~= seq![*self]
                        + spec_descendants_list(self.sub_categories@.take(i as int)) + d.take(
                        j + 1,
                    ));
                }
                j = j + 1;
            }
            proof {
                let d = spec_descendants(self.sub_categories@[i as int]);
                assert(d.take(m as int) =~= d);
                lemma_descendants_list_snoc(self.sub_categories@, i as int);
            }
            i = i + 1;
        }
        proof {
            assert(self.sub_categories@.take(n as int) =~= self.sub_categories@);
        }
        out
    }

    /// Records, for every category of this subtree, its full path from the
    /// root: `path` holds the segments down to this node's parent and is
    /// restored before returning.
    pub fn load_map(&self, category_map: &mut SegTable, path: &mut Vec<String>)
        ensures
            final(category_map).entries@.map_values(
                |p: (String, Vec<String>)| (p.0@, p.1.deep_view()),
            ) =~= old(category_map).entries@.map_values(
                |p: (String, Vec<String>)| (p.0@, p.1.deep_view()),
            ) + spec_cat_paths(*self, old(path)@.map_values(|s: String| s@)),
            final(path)@.map_values(|s: String| s@) =~= old(path)@.map_values(|s: String| s@),
            final(path)@.len() == old(path)@.len(),
        decreases *self,
    {
        path.push(self.id_string.clone());
        let mut segments: Vec<String> = Vec::new();
        let m = path.len();
        let mut j: usize = 0;
        proof {
            assert(segments@.map_values(|s: String| s@) =~= path@.map_values(|s: String| s@).take(
                0,
            ));
        }
        while j < m
            invariant
                j <= m,
                m == path@.len(),
                segments@.map_values(|s: String| s@) =~= path@.map_values(|s: String| s@).take(
                    j as int,
                ),
            decreases m - j,
        {
            let ghost prev = segments@;
            let seg = path[j].clone();
            segments.push(seg);
            proof {
                assert(segments@ == prev.push(seg));
                assert(seg@ == path@[j as int]@);
                assert(segments@.map_values(|s: String| s@) =~= prev.map_values(
                    |s: String| s@,
                ).push(path@[j as int]@));
                assert(segments@.map_values(|s: String| s@) =~= path@.map_values(
                    |s: String| s@,
                ).take(j + 1));
            }
            j = j + 1;
        }
        proof {
            assert(path@.map_values(|s: String| s@).take(m as int) =~= path@.map_values(
                |s: String| s@,
            ));
        }
        let ghost pre_subs_map = category_map.entries@;
        category_map.insert(self.id_string.clone(), segments);
        let n = self.sub_categories.len();
        let mut i: usize = 0;
        proof {
            assert(segments.deep_view() =~= path@.map_values(|s: String| s@)) by {
                assert(forall|x: int|
                    0 <= x < segments@.len() ==> segments.deep_view()[x] == segments@[x]@);
                assert(forall|x: int|
                    0 <= x < segments@.len() ==> segments@.map_values(|s: String| s@)[x]
                        == segments@[x]@);
            }
            assert(path@.map_values(|s: String| s@) =~= old(path)@.map_values(|s: String| s@).push(
                self.id_string@,
            ));
            assert(spec_cat_paths_list(
                self.sub_categories@.take(0),
                old(path)@.map_values(|s: String| s@).push(self.id_string@),
            ) =~= Seq::<(Seq<char>, Seq<Seq<char>>)>::empty());
            assert(category_map.entries@.map_values(
                |p: (String, Vec<String>)| (p.0@, p.1.deep_view()),
            ) =~= old(category_map).entries@.map_values(
                |p: (String, Vec<String>)| (p.0@, p.1.deep_view()),
            ) + seq![(self.id_string@, old(path)@.map_values(|s: String| s@).push(self.id_string@))]
                + spec_cat_paths_list(
                self.sub_categories@.take(0),
                old(path)@.map_values(|s: String| s@).push(self.id_string@),
            )) by {
                assert(category_map.entries@.len() == pre_subs_map.len() + 1);
                assert(forall|x: int|
                    0 <= x < pre_subs_map.len() ==> category_map.entries@[x] == pre_subs_map[x]);
                assert(category_map.entries@.last().0@ == self.id_string@);
                assert(category_map.entries@.last().1.deep_view() =~= old(path)@.map_values(
                    |s: String| s@,
                ).push(self.id_string@));
            }
        }
        while i < n
            invariant
                i <= n,
                n == self.sub_categories@.len(),
                path@.len() == old(path)@.len() + 1,
                path@.map_values(|s: String| s@) =~= old(path)@.map_values(|s: String| s@).push(
                    self.id_string@,
                ),
                category_map.entries@.map_values(
                    |p: (String, Vec<String>)| (p.0@, p.1.deep_view()),
                ) =~= old(category_map).entries@.map_values(
                    |p: (String, Vec<String>)| (p.0@, p.1.deep_view()),
                ) + seq![(self.id_string@, old(path)@.map_values(|s: String| s@).push(self.id_string@))]
                    + spec_cat_paths_list(
                    self.sub_categories@.take(i as int),
                    old(path)@.map_values(|s: String| s@).push(self.id_string@),
                ),
            decreases n - i,
        {
            self.sub_categories[i].load_map(category_map, path);
            proof {
                lemma_cat_paths_list_snoc(
                    self.sub_categories@,
                    i as int,
                    old(path)@.map_values(|s: String| s@).push(self.id_string@),
                );
            }
            i = i + 1;
        }
        let ghost pre_trunc = path@;
        let new_len = path.len() - 1;
        path.truncate(new_len);
        proof {
            assert(self.sub_categories@.take(n as int) =~= self.sub_categories@);
            assert(path@ == pre_trunc.subrange(0, new_len as int));
            assert(forall|x: int| 0 <= x < new_len ==> path@[x] == pre_trunc[x]);
            assert(path@.map_values(|s: String| s@) =~= old(path)@.map_values(|s: String| s@)) by {
                assert(forall|x: int|
                    0 <= x < new_len ==> #[trigger] path@[x] == pre_trunc[x]);
                assert forall|x: int| 0 <= x < pre_trunc.len() - 1 implies #[trigger] pre_trunc[x]@
                    == old(path)@[x]@ by {
                    assert(pre_trunc.map_values(|s: String| s@)[x] == pre_trunc[x]@);
                    assert(old(path)@.map_values(|s: String| s@).push(self.id_string@)[x] == old(
                        path,
                    )@.map_values(|s: String| s@)[x]);
                    assert(old(path)@.map_values(|s: String| s@)[x] == old(path)@[x]@);
                }
            }
        }
    }

    /// Whether this subtree stays within `levels` levels of nesting.
    pub fn within_depth(&self, levels: u32) -> (r: bool)
        ensures
            r == spec_within_depth(*self, levels as nat),
        decreases *self,
    {
        if levels == 0 {
            return false;
        }
        let n = self.sub_categories.len();
        let mut i: usize = 0;
        proof {
            assert(self.sub_categories@.skip(0) =~= self.sub_categories@);
        }
        while i < n
            invariant
                i <= n,
                n == self.sub_categories@.len(),
                levels >= 1,
                spec_list_within_depth(self.sub_categories@, (levels - 1) as nat)
                    == spec_list_within_depth(
                    self.sub_categories@.skip(i as int),
                    (levels - 1) as nat,
                ),
            decreases n - i,
        {
            let sub_ok = self.sub_categories[i].within_depth(levels - 1);
            proof {
                assert(self.sub_categories@.skip(i as int)[0] == self.sub_categories@[i as int]);
                assert(self.sub_categories@.skip(i as int).skip(1) =~= self.sub_categories@.skip(
                    i + 1,
                ));
            }
            if !sub_ok {
                return false;
            }
            i = i + 1;
        }
        proof {
            assert(self.sub_categories@.skip(n as int) =~= Seq::<Category>::empty());
        }
        true
    }
}

/// Extending a forest prefix by one subtree appends that subtree's listing.
pub proof fn lemma_descendants_list_snoc(cs: Seq<Category>, i: int)
    requires
        0 <= i < cs.len(),
    ensures
        spec_descendants_list(cs.take(i + 1)) == spec_descendants_list(cs.take(i))
            + spec_descendants(cs[i]),
    decreases i,
{
    if i == 0 {
        assert(cs.take(1)[0] == cs[0]);
        assert(cs.take(1).skip(1) =~= Seq::<Category>::empty());
        assert(cs.take(0) =~= Seq::<Category>::empty());
        assert(spec_descendants_list(cs.take(1)) =~= spec_descendants_list(cs.take(0))
            + spec_descendants(cs[0]));
    } else {
        lemma_descendants_list_snoc(cs.skip(1), i - 1);
        assert(cs.take(i + 1)[0] == cs[0]);
        assert(cs.take(i + 1).skip(1) =~= cs.skip(1).take(i));
        assert(cs.take(i).skip(1) =~= cs.skip(1).take(i - 1));
        assert(cs.take(i)[0] == cs[0]);
        assert(cs.skip(1)[i - 1] == cs[i]);
        assert(spec_descendants_list(cs.take(i + 1)) == spec_descendants(cs[0])
            + spec_descendants_list(cs.skip(1).take(i)));
        assert(spec_descendants_list(cs.take(i)) == spec_descendants(cs[0])
            + spec_descendants_list(cs.skip(1).take(i - 1)));
    }
}

/// The listing of a forest prefix is a prefix of the whole forest's listing.
pub proof fn lemma_descendants_list_prefix(cs: Seq<Category>, i: int)
    requires
        0 <= i <= cs.len(),
    ensures
        spec_descendants_list(cs.take(i)).len() <= spec_descendants_list(cs).len(),
        forall|x: int|
            0 <= x < spec_descendants_list(cs.take(i)).len() ==> #[trigger] spec_descendants_list(
                cs,
            )[x] == spec_descendants_list(cs.take(i))[x],
    decreases cs.len() - i,
{
    if i == cs.len() {
        assert(cs.take(i) =~= cs);
    } else {
        lemma_descendants_list_snoc(cs, i);
        lemma_descendants_list_prefix(cs, i + 1);
        let pre = spec_descendants_list(cs.take(i));
        let mid = spec_descendants_list(cs.take(i + 1));
        assert(mid == pre + spec_descendants(cs[i]));
        assert(forall|x: int| 0 <= x < pre.len() ==> #[trigger] mid[x] == pre[x]);
    }
}

/// The same fact for path contributions.
pub proof fn lemma_cat_paths_list_snoc(cs: Seq<Category>, i: int, prefix: Seq<Seq<char>>)
    requires
        0 <= i < cs.len(),
    ensures
        spec_cat_paths_list(cs.take(i + 1), prefix) == spec_cat_paths_list(cs.take(i), prefix)
            + spec_cat_paths(cs[i], prefix),
    decreases i,
{
    if i == 0 {
        assert(cs.take(1)[0] == cs[0]);
        assert(cs.take(1).skip(1) =~= Seq::<Category>::empty());
        assert(cs.take(0) =~= Seq::<Category>::empty());
        assert(spec_cat_paths_list(cs.take(1), prefix) =~= spec_cat_paths_list(cs.take(0), prefix)
            + spec_cat_paths(cs[0], prefix));
    } else {
        lemma_cat_paths_list_snoc(cs.skip(1), i - 1, prefix);
        assert(cs.take(i + 1)[0] == cs[0]);
        assert(cs.take(i + 1).skip(1) =~= cs.skip(1).take(i));
        assert(cs.take(i).skip(1) =~= cs.skip(1).take(i - 1));
        assert(cs.take(i)[0] == cs[0]);
        assert(cs.skip(1)[i - 1] == cs[i]);
        assert(spec_cat_paths_list(cs.take(i + 1), prefix) == spec_cat_paths(cs[0], prefix)
            + spec_cat_paths_list(cs.skip(1).take(i), prefix));
        assert(spec_cat_paths_list(cs.take(i), prefix) == spec_cat_paths(cs[0], prefix)
            + spec_cat_paths_list(cs.skip(1).take(i - 1), prefix));
    }
}

} // verus!

//! Blog posts: the authored-content tree (as delivered by the external
//! markup parser), the metadata block convention, and the assembly of a
//! post's renderable tree.

use vstd::prelude::*;
use crate::component::{
    blogpost, code_box, footnote, footnote_ref, html_blockquote, html_bold, html_break,
    html_checkbox, html_code, html_heading, html_horizontal_rule, html_italics, html_link,
    html_link_content, html_list, html_paragraph, html_raw, html_span, html_strong, html_text,
    image_box, tab_box,
};
use crate::context::WebsiteRenderContext;
use crate::dates::{format_date_iso, MAX_TIMESTAMP};
use crate::escape::begins;
use crate::html::{HtmlAttribute, HtmlNode, HtmlPlaintext};
use crate::routes::{HRef, Link};
use crate::strutil::str_eq;

verus! {

/// Whether a post is published, hidden, or reachable only by direct link.
#[derive(PartialEq, Eq, Structural)]
pub enum Published {
    True,
    False,
    Unlisted,
}

/// A post's metadata block: author, category, publication date (seconds
/// since the Unix epoch), title, and publication state.
pub struct BlogMeta {
    pub author: String,
    pub category: String,
    pub date: i64,
    pub title: String,
    pub published: Published,
}

impl BlogMeta {
    /// The date is in the representable calendar range.
    pub open spec fn wf(self) -> bool {
        0 <= self.date <= MAX_TIMESTAMP
    }
}

/// A structured query/response example shown in a code box.
pub struct QueryResponse {
    pub q_title: Option<String>,
    pub query: String,
    pub r_title: Option<String>,
    pub response: String,
}

/// A set of query/response examples shown as tabs.
pub struct QueryResponseMulti(pub Vec<(String, QueryResponse)>);

/// The authored content tree, as the external markup parser delivers it:
/// exactly the constructs posts may use, plus a marker for anything else
/// (which is malformed content).
pub enum MdNode {
    BlockQuote(Vec<MdNode>),
    FootnoteDefinition { identifier: String, label: Option<String>, children: Vec<MdNode> },
    List { ordered: bool, start: Option<u32>, children: Vec<MdNode> },
    Break,
    InlineCode(String),
    Emphasis(Vec<MdNode>),
    FootnoteReference { identifier: String, label: Option<String> },
    Html(String),
    Image { url: String, alt: String, title: Option<String> },
    MdLink { url: String, title: Option<String>, children: Vec<MdNode> },
    Strong(Vec<MdNode>),
    Text(String),
    Code { value: String, lang: Option<String>, meta: Option<String> },
    Heading { depth: u8, children: Vec<MdNode> },
    ThematicBreak,
    ListItem { checked: Option<bool>, children: Vec<MdNode> },
    Paragraph(Vec<MdNode>),
    QueryResponseBlock { lang: Option<String>, meta: Option<String>, data: QueryResponse },
    QueryResponseMultiBlock { lang: Option<String>, meta: Option<String>, data: QueryResponseMulti },
    Unsupported,
}

// ---------------------------------------------------------------------------
// Code-block meta tags
// ---------------------------------------------------------------------------

/// ASCII whitespace, as the tag separator.
pub open spec fn is_ws(c: char) -> bool {
    c == ' ' || c == '\t' || c == '\n' || c == '\r' || c == '\u{c}'
}

/// The length of the leading run of non-whitespace characters.
pub open spec fn spec_token_len(s: Seq<char>) -> nat
    decreases s.len(),
{
    if s.len() == 0 || is_ws(s[0]) {
        0
    } else {
        1 + spec_token_len(s.skip(1))
    }
}

/// The whitespace-separated tokens of a meta string.
pub open spec fn spec_split_ws(s: Seq<char>) -> Seq<Seq<char>>
    decreases s.len(),
{
    if s.len() == 0 {
        Seq::empty()
    } else if is_ws(s[0]) {
        spec_split_ws(s.skip(1))
    } else {
        let t = 1 + spec_token_len(s.skip(1));
        let tc = if t as int > s.len() {
            s.len() as int
        } else {
            t as int
        };
        seq![s.take(tc)] + spec_split_ws(s.skip(tc))
    }
}

/// The position of the first `=`, or the length if there is none.
pub open spec fn spec_find_eq(s: Seq<char>) -> int
    decreases s.len(),
{
    if s.len() == 0 {
        0
    } else if s[0] == '=' {
        0
    } else {
        1 + spec_find_eq(s.skip(1))
    }
}

/// A token split at its first `=` into a key and an optional value.
pub open spec fn spec_split_eq(tok: Seq<char>) -> (Seq<char>, Option<Seq<char>>) {
    let i = spec_find_eq(tok);
    if 0 <= i < tok.len() {
        (tok.take(i), Option::Some(tok.skip(i + 1)))
    } else {
        (tok, Option::None)
    }
}

/// The (key, optional value) pairs of a code block's meta string, in order.
pub open spec fn spec_meta_pairs(s: Seq<char>) -> Seq<(Seq<char>, Option<Seq<char>>)> {
    spec_split_ws(s).map_values(|tok: Seq<char>| spec_split_eq(tok))
}

proof fn lemma_find_eq_value(t: Seq<char>, i: int)
    requires
        0 <= i <= t.len(),
        forall|x: int| 0 <= x < i ==> t[x] != '=',
        i < t.len() ==> t[i] == '=',
    ensures
        spec_find_eq(t) == i,
    decreases i,
{
    if t.len() == 0 {
    } else if t[0] == '=' {
        assert(i == 0);
    } else {
        assert(i >= 1);
        assert(forall|x: int| 0 <= x < i - 1 ==> t.skip(1)[x] == t[x + 1]);
        if i - 1 < t.skip(1).len() {
            assert(t.skip(1)[i - 1] == t[i]);
        }
        lemma_find_eq_value(t.skip(1), i - 1);
    }
}

proof fn lemma_token_len_value(t: Seq<char>, i: int)
    requires
        0 <= i <= t.len(),
        forall|x: int| 0 <= x < i ==> !is_ws(t[x]),
        i < t.len() ==> is_ws(t[i]),
    ensures
        spec_token_len(t) == i,
    decreases i,
{
    if t.len() == 0 {
    } else if is_ws(t[0]) {
        assert(i == 0);
    } else {
        assert(i >= 1);
        assert(forall|x: int| 0 <= x < i - 1 ==> t.skip(1)[x] == t[x + 1]);
        if i - 1 < t.skip(1).len() {
            assert(t.skip(1)[i - 1] == t[i]);
        }
        lemma_token_len_value(t.skip(1), i - 1);
    }
}

fn is_ws_char(c: char) -> (r: bool)
    ensures
        r == is_ws(c),
{
    c == ' ' || c == '\t' || c == '\n' || c == '\r' || c == '\u{c}'
}

/// Splits one token at its first `=`.
fn split_token(tok: &str) -> (r: (String, Option<String>))
    ensures
        r.0@ == spec_split_eq(tok@).0,
        match (r.1, spec_split_eq(tok@).1) {
            (Option::Some(v), Option::Some(sv)) => v@ == sv,
            (Option::None, Option::None) => true,
            _ => false,
        },
{
    let n = tok.unicode_len();
    let mut i: usize = 0;
    while i < n
        invariant
            i <= n,
            n == tok@.len(),
            forall|x: int| 0 <= x < i ==> tok@[x] != '=',
        ensures
            i <= n,
            forall|x: int| 0 <= x < i ==> tok@[x] != '=',
            i < n ==> tok@[i as int] == '=',
        decreases n - i,
    {
        if tok.get_char(i) == '=' {
            break ;
        }
        i = i + 1;
    }
    proof {
        lemma_find_eq_value(tok@, i as int);
    }
    if i < n {
        let key = tok.substring_char(0, i).to_owned();
        let value = tok.substring_char(i + 1, n).to_owned();
        proof {
            assert(tok@.subrange(0, i as int) =~= tok@.take(i as int));
            assert(tok@.subrange(i + 1, n as int) =~= tok@.skip(i + 1));
        }
        (key, Some(value))
    } else {
        proof {
            assert(tok@.take(i as int) =~= tok@);
        }
        (tok.to_owned(), None)
    }
}

/// Parses a code block's meta string into its (key, optional value) tags,
/// in order of appearance.
pub fn parse_meta_tags(meta: &str) -> (r: Vec<(String, Option<String>)>)
    ensures
        r@.len() == spec_meta_pairs(meta@).len(),
        forall|k: int|
            0 <= k < r@.len() ==> {
                &&& (#[trigger] r@[k]).0@ == spec_meta_pairs(meta@)[k].0
                &&& match (r@[k].1, spec_meta_pairs(meta@)[k].1) {
                    (Option::Some(v), Option::Some(sv)) => v@ == sv,
                    (Option::None, Option::None) => true,
                    _ => false,
                }
            },
{
    let ghost tokens = spec_split_ws(meta@);
    let mut r: Vec<(String, Option<String>)> = Vec::new();
    let n = meta.unicode_len();
    let mut pos: usize = 0;
    proof {
        assert(meta@.skip(0) =~= meta@);
    }
    while pos < n
        invariant
            pos <= n,
            n == meta@.len(),
            tokens == spec_split_ws(meta@),
            r@.len() <= tokens.len(),
            tokens.skip(r@.len() as int) =~= spec_split_ws(meta@.skip(pos as int)),
            forall|k: int|
                0 <= k < r@.len() ==> {
                    &&& (#[trigger] r@[k]).0@ == spec_split_eq(tokens[k]).0
                    &&& match (r@[k].1, spec_split_eq(tokens[k]).1) {
                        (Option::Some(v), Option::Some(sv)) => v@ == sv,
                        (Option::None, Option::None) => true,
                        _ => false,
                    }
                },
        decreases n - pos,
    {
        let c = meta.get_char(pos);
        if is_ws_char(c) {
            proof {
                assert(meta@.skip(pos as int)[0] == meta@[pos as int]);
                assert(meta@.skip(pos as int).skip(1) =~= meta@.skip(pos + 1));
            }
            pos = pos + 1;
        } else {
            // scan the token
            let mut e: usize = pos;
            while e < n
                invariant
                    pos <= e <= n,
                    n == meta@.len(),
                    forall|x: int| pos <= x < e ==> !is_ws(meta@[x]),
                ensures
                    pos <= e <= n,
                    forall|x: int| pos <= x < e ==> !is_ws(meta@[x]),
                    e < n ==> is_ws(meta@[e as int]),
                decreases n - e,
            {
                if is_ws_char(meta.get_char(e)) {
                    break ;
                }
                e = e + 1;
            }
            let ghost suffix = meta@.skip(pos as int);
            proof {
                assert(forall|x: int| 0 <= x < e - pos ==> suffix[x] == meta@[x + pos]);
                if e < n {
                    assert(suffix[e - pos] == meta@[e as int]);
                }
                lemma_token_len_value(suffix, e - pos);
                assert(suffix[0] == meta@[pos as int]);
                assert(!is_ws(suffix[0]));
                assert(spec_token_len(suffix) == 1 + spec_token_len(suffix.skip(1)));
                assert(spec_split_ws(suffix) == seq![suffix.take(e - pos)] + spec_split_ws(
                    suffix.skip(e - pos),
                ));
                assert(suffix.take(e - pos) =~= meta@.subrange(pos as int, e as int));
                assert(suffix.skip(e - pos) =~= meta@.skip(e as int));
            }
            let tok = meta.substring_char(pos, e);
            let pair = split_token(tok);
            let ghost k0 = r@.len() as int;
            r.push(pair);
            proof {
                assert(tokens.skip(k0)[0] == tokens[k0]);
                assert(tokens[k0] =~= tok@);
                assert(tokens.skip(k0).skip(1) =~= tokens.skip(k0 + 1));
            }
            pos = e;
        }
    }
    proof {
        assert(meta@.skip(n as int) =~= Seq::<char>::empty());
        assert(spec_split_ws(Seq::<char>::empty()) =~= Seq::<Seq<char>>::empty());
        assert(tokens.skip(r@.len() as int).len() == 0);
        assert(r@.len() == tokens.len());
        assert(forall|k: int|
            0 <= k < tokens.len() ==> #[trigger] spec_meta_pairs(meta@)[k] == spec_split_eq(
                tokens[k],
            ));
    }
    r
}

/// Whether the tags hold a key.
pub open spec fn spec_has_tag(pairs: Seq<(Seq<char>, Option<Seq<char>>)>, key: Seq<char>) -> bool {
    exists|i: int| 0 <= i < pairs.len() && (#[trigger] pairs[i]).0 == key
}

/// The last value bound to a key, if the key occurs.
pub open spec fn spec_tag_value(
    pairs: Seq<(Seq<char>, Option<Seq<char>>)>,
    key: Seq<char>,
) -> Option<Option<Seq<char>>>
    decreases pairs.len(),
{
    if pairs.len() == 0 {
        Option::None
    } else if pairs.last().0 == key {
        Option::Some(pairs.last().1)
    } else {
        spec_tag_value(pairs.drop_last(), key)
    }
}

/// Whether the parsed tags hold a key.
pub fn has_tag(pairs: &Vec<(String, Option<String>)>, key: &str) -> (r: bool)
    ensures
        r == (exists|i: int| 0 <= i < pairs@.len() && (#[trigger] pairs@[i]).0@ == key@),
{
    let n = pairs.len();
    let mut i: usize = 0;
    while i < n
        invariant
            i <= n,
            n == pairs@.len(),
            forall|x: int| 0 <= x < i ==> (#[trigger] pairs@[x]).0@ != key@,
        decreases n - i,
    {
        if str_eq(pairs[i].0.as_str(), key) {
            return true;
        }
        i = i + 1;
    }
    false
}

/// The last value bound to a key among the parsed tags.
pub fn tag_value<'a>(pairs: &'a Vec<(String, Option<String>)>, key: &str) -> (r: Option<
    &'a Option<String>,
>)
    ensures
        match r {
            Option::Some(v) => exists|i: int|
                0 <= i < pairs@.len() && (#[trigger] pairs@[i]).0@ == key@ && pairs@[i].1 == *v
                    && (forall|j: int| i < j < pairs@.len() ==> (#[trigger] pairs@[j]).0@ != key@),
            Option::None => forall|i: int| 0 <= i < pairs@.len() ==> (#[trigger] pairs@[i]).0@ != key@,
        },
{
    let n = pairs.len();
    let mut i: usize = n;
    while i > 0
        invariant
            i <= n,
            n == pairs@.len(),
            forall|j: int| i <= j < n ==> (#[trigger] pairs@[j]).0@ != key@,
        decreases i,
    {
        i = i - 1;
        if str_eq(pairs[i].0.as_str(), key) {
            return Some(&pairs[i].1);
        }
    }
    None
}

// ---------------------------------------------------------------------------
// The metadata block convention
// ---------------------------------------------------------------------------

/// The node is a code block tagged as the post's metadata.
pub open spec fn spec_is_blogmeta(n: MdNode) -> bool {
    match n {
        MdNode::Code { meta: Option::Some(m), .. } => m@ == "blogmeta"@,
        _ => false,
    }
}

/// The metadata blocks a subtree holds, in document order.
pub open spec fn spec_node_meta_blocks(n: MdNode) -> Seq<Seq<char>>
    decreases n, 1int,
{
    match n {
        MdNode::Code { value, meta, .. } => if spec_is_blogmeta(n) {
            seq![value@]
        } else {
            Seq::empty()
        },
        MdNode::BlockQuote(c) => spec_meta_blocks(c@),
        MdNode::FootnoteDefinition { children, .. } => spec_meta_blocks(children@),
        MdNode::List { children, .. } => spec_meta_blocks(children@),
        MdNode::Emphasis(c) => spec_meta_blocks(c@),
        MdNode::MdLink { children, .. } => spec_meta_blocks(children@),
        MdNode::Strong(c) => spec_meta_blocks(c@),
        MdNode::Heading { children, .. } => spec_meta_blocks(children@),
        MdNode::ListItem { children, .. } => spec_meta_blocks(children@),
        MdNode::Paragraph(c) => spec_meta_blocks(c@),
        _ => Seq::empty(),
    }
}

pub open spec fn spec_meta_blocks(nodes: Seq<MdNode>) -> Seq<Seq<char>>
    decreases nodes, 0int,
{
    if nodes.len() == 0 {
        Seq::empty()
    } else {
        spec_node_meta_blocks(nodes[0]) + spec_meta_blocks(nodes.skip(1))
    }
}

/// Collects every metadata block of the given trees, in document order.
pub fn retrieve_meta(nodes: &Vec<MdNode>, meta_list: &mut Vec<String>)
    ensures
        final(meta_list).deep_view() =~= old(meta_list).deep_view() + spec_meta_blocks(nodes@),
    decreases nodes@, 3int,
{
    let ghost list0 = old(meta_list).deep_view();
    let n = nodes.len();
    let mut i: usize = 0;
    proof {
        assert(nodes@.take(0) =~= Seq::<MdNode>::empty());
        assert(list0 + spec_meta_blocks(nodes@.take(0)) =~= list0);
    }
    while i < n
        invariant
            i <= n,
            n == nodes@.len(),
            meta_list.deep_view() =~= list0 + spec_meta_blocks(nodes@.take(i as int)),
        decreases n - i,
    {
        retrieve_meta_node(&nodes[i], meta_list);
        proof {
            lemma_meta_blocks_snoc(nodes@, i as int);
        }
        i = i + 1;
    }
    proof {
        assert(nodes@.take(n as int) =~= nodes@);
    }
}

/// Collects one subtree's metadata blocks.
fn retrieve_meta_node(n: &MdNode, meta_list: &mut Vec<String>)
    ensures
        final(meta_list).deep_view() =~= old(meta_list).deep_view() + spec_node_meta_blocks(*n),
    decreases *n, 4int,
{
    let ghost list0 = old(meta_list).deep_view();
    match n {
        MdNode::Code { value, meta, .. } => {
            match meta {
                Some(m) => {
                    if str_eq(m.as_str(), "blogmeta") {
                        meta_list.push(value.clone());
                        proof {
                            assert(meta_list.deep_view() =~= list0.push(value@));
                            assert(spec_node_meta_blocks(*n) =~= seq![value@]);
                            assert(list0 + seq![value@] =~= list0.push(value@));
                        }
                    } else {
                        proof {
                            assert(spec_node_meta_blocks(*n) =~= Seq::<Seq<char>>::empty());
                            assert(list0 + Seq::<Seq<char>>::empty() =~= list0);
                        }
                    }
                },
                None => {
                    proof {
                        assert(spec_node_meta_blocks(*n) =~= Seq::<Seq<char>>::empty());
                        assert(list0 + Seq::<Seq<char>>::empty() =~= list0);
                    }
                },
            }
        },
        MdNode::BlockQuote(c) => {
            retrieve_meta(c, meta_list);
            proof {
                assert(spec_node_meta_blocks(*n) =~= spec_meta_blocks(c@));
            }
        },
        MdNode::FootnoteDefinition { children, .. } => {
            retrieve_meta(children, meta_list);
            proof {
                assert(spec_node_meta_blocks(*n) =~= spec_meta_blocks(children@));
            }
        },
        MdNode::List { children, .. } => {
            retrieve_meta(children, meta_list);
            proof {
                assert(spec_node_meta_blocks(*n) =~= spec_meta_blocks(children@));
            }
        },
        MdNode::Emphasis(c) => {
            retrieve_meta(c, meta_list);
            proof {
                assert(spec_node_meta_blocks(*n) =~= spec_meta_blocks(c@));
            }
        },
        MdNode::MdLink { children, .. } => {
            retrieve_meta(children, meta_list);
            proof {
                assert(spec_node_meta_blocks(*n) =~= spec_meta_blocks(children@));
            }
        },
        MdNode::Strong(c) => {
            retrieve_meta(c, meta_list);
            proof {
                assert(spec_node_meta_blocks(*n) =~= spec_meta_blocks(c@));
            }
        },
        MdNode::Heading { children, .. } => {
            retrieve_meta(children, meta_list);
            proof {
                assert(spec_node_meta_blocks(*n) =~= spec_meta_blocks(children@));
            }
        },
        MdNode::ListItem { children, .. } => {
            retrieve_meta(children, meta_list);
            proof {
                assert(spec_node_meta_blocks(*n) =~= spec_meta_blocks(children@));
            }
        },
        MdNode::Paragraph(c) => {
            retrieve_meta(c, meta_list);
            proof {
                assert(spec_node_meta_blocks(*n) =~= spec_meta_blocks(c@));
            }
        },
        _ => {
            proof {
                assert(spec_node_meta_blocks(*n) =~= Seq::<Seq<char>>::empty());
                assert(list0 + Seq::<Seq<char>>::empty() =~= list0);
            }
        },
    }
}

proof fn lemma_meta_blocks_snoc(nodes: Seq<MdNode>, i: int)
    requires
        0 <= i < nodes.len(),
    ensures
        spec_meta_blocks(nodes.take(i + 1)) == spec_meta_blocks(nodes.take(i))
            + spec_node_meta_blocks(nodes[i]),
    decreases i,
{
    if i == 0 {
        assert(nodes.take(1)[0] == nodes[0]);
        assert(nodes.take(1).skip(1) =~= Seq::<MdNode>::empty());
        assert(nodes.take(0) =~= Seq::<MdNode>::empty());
        assert(spec_meta_blocks(nodes.take(1)) =~= spec_meta_blocks(nodes.take(0))
            + spec_node_meta_blocks(nodes[0]));
    } else {
        lemma_meta_blocks_snoc(nodes.skip(1), i - 1);
        assert(nodes.take(i + 1)[0] == nodes[0]);
        assert(nodes.take(i + 1).skip(1) =~= nodes.skip(1).take(i));
        assert(nodes.take(i)[0] == nodes[0]);
        assert(nodes.take(i).skip(1) =~= nodes.skip(1).take(i - 1));
        assert(nodes.skip(1)[i - 1] == nodes[i]);
        assert(spec_meta_blocks(nodes.take(i + 1)) =~= spec_meta_blocks(nodes.take(i))
            + spec_node_meta_blocks(nodes[i]));
    }
}

/// Why a post's metadata could not be extracted.
pub enum MetaError {
    NoMeta,
    MultipleMeta,
}

/// Extracts the single metadata block a post must define: none or several
/// are content errors.
pub fn extract_blog_meta(nodes: &Vec<MdNode>) -> (r: Result<String, MetaError>)
    ensures
        match r {
            Ok(s) => spec_meta_blocks(nodes@).len() == 1 && s@ == spec_meta_blocks(nodes@)[0],
            Err(e) => match e {
                MetaError::NoMeta => spec_meta_blocks(nodes@).len() == 0,
                MetaError::MultipleMeta => spec_meta_blocks(nodes@).len() > 1,
            },
        },
{
    let mut meta_list: Vec<String> = Vec::new();
    retrieve_meta(nodes, &mut meta_list);
    proof {
        assert(meta_list.deep_view() =~= spec_meta_blocks(nodes@));
    }
    if meta_list.len() == 1 {
        let s = meta_list.remove(0);
        proof {
            assert(s@ == spec_meta_blocks(nodes@)[0]);
        }
        Ok(s)
    } else if meta_list.len() == 0 {
        Err(MetaError::NoMeta)
    } else {
        Err(MetaError::MultipleMeta)
    }
}

/// A parsed blog post: its metadata and its content trees (the metadata
/// block already removed).
pub struct BlogPost {
    pub metadata: BlogMeta,
    pub content: Vec<MdNode>,
}

// ---------------------------------------------------------------------------
// Stripping non-renderable nodes
// ---------------------------------------------------------------------------

/// `output` is `input` with every metadata code block removed, at every
/// depth, everything else kept in order.
pub open spec fn strips_to(input: Seq<MdNode>, output: Seq<MdNode>) -> bool
    decreases input, 0int,
{
    if input.len() == 0 {
        output.len() == 0
    } else if spec_is_blogmeta(input[0]) {
        strips_to(input.skip(1), output)
    } else {
        output.len() >= 1 && node_strips_to(input[0], output[0]) && strips_to(
            input.skip(1),
            output.skip(1),
        )
    }
}

/// One kept node: the same construct with its children stripped.
pub open spec fn node_strips_to(a: MdNode, b: MdNode) -> bool
    decreases a, 1int,
{
    match a {
        MdNode::BlockQuote(c) => match b {
            MdNode::BlockQuote(d) => strips_to(c@, d@),
            _ => false,
        },
        MdNode::FootnoteDefinition { identifier, label, children } => match b {
            MdNode::FootnoteDefinition { identifier: i2, label: l2, children: c2 } => {
                &&& i2@ == identifier@
                &&& l2.deep_view() == label.deep_view()
                &&& strips_to(children@, c2@)
            },
            _ => false,
        },
        MdNode::List { ordered, start, children } => match b {
            MdNode::List { ordered: o2, start: s2, children: c2 } => {
                &&& o2 == ordered
                &&& s2 == start
                &&& strips_to(children@, c2@)
            },
            _ => false,
        },
        MdNode::Emphasis(c) => match b {
            MdNode::Emphasis(d) => strips_to(c@, d@),
            _ => false,
        },
        MdNode::MdLink { url, title, children } => match b {
            MdNode::MdLink { url: u2, title: t2, children: c2 } => {
                &&& u2@ == url@
                &&& t2.deep_view() == title.deep_view()
                &&& strips_to(children@, c2@)
            },
            _ => false,
        },
        MdNode::Strong(c) => match b {
            MdNode::Strong(d) => strips_to(c@, d@),
            _ => false,
        },
        MdNode::Heading { depth, children } => match b {
            MdNode::Heading { depth: d2, children: c2 } => d2 == depth && strips_to(children@, c2@),
            _ => false,
        },
        MdNode::ListItem { checked, children } => match b {
            MdNode::ListItem { checked: k2, children: c2 } => k2 == checked && strips_to(
                children@,
                c2@,
            ),
            _ => false,
        },
        MdNode::Paragraph(c) => match b {
            MdNode::Paragraph(d) => strips_to(c@, d@),
            _ => false,
        },
        _ => b == a,
    }
}

/// Removes every metadata code block, at every depth.
pub fn remove_non_renderable_nodes(nodes: Vec<MdNode>) -> (r: Vec<MdNode>)
    ensures
        strips_to(nodes@, r@),
    decreases nodes@, 3int,
{
    let mut rest = nodes;
    if rest.len() == 0 {
        let r: Vec<MdNode> = Vec::new();
        proof {
            assert(strips_to(rest@, r@));
        }
        return r;
    }
    let ghost nodes0 = rest@;
    let node = rest.remove(0);
    let ghost node_g = node;
    proof {
        assert(node_g == nodes0[0]);
        assert(rest@ =~= nodes0.skip(1));
        assert(decreases_to!(nodes0 => nodes0.skip(1)));
        assert(decreases_to!(nodes0 => nodes0[0]));
    }
    let is_meta = match &node {
        MdNode::Code { meta, .. } => match meta {
            Some(m) => str_eq(m.as_str(), "blogmeta"),
            None => false,
        },
        _ => false,
    };
    proof {
        assert(is_meta == spec_is_blogmeta(node_g));
    }
    if is_meta {
        let tail = remove_non_renderable_nodes(rest);
        proof {
            assert(strips_to(nodes0, tail@));
        }
        tail
    } else {
        let stripped = strip_node(node);
        let ghost stripped_g = stripped;
        let mut tail = remove_non_renderable_nodes(rest);
        let ghost tail_g = tail@;
        let mut out: Vec<MdNode> = Vec::new();
        out.push(stripped);
        out.append(&mut tail);
        proof {
            assert(out@.len() >= 1);
            assert(out@[0] == stripped_g);
            assert(out@.skip(1) =~= tail_g);
            assert(strips_to(nodes0.skip(1), tail_g));
            assert(strips_to(nodes0, out@));
        }
        out
    }
}

/// Extends a strip correspondence by one kept node.
proof fn lemma_strips_snoc_keep(input: Seq<MdNode>, output: Seq<MdNode>, i: int, b: MdNode)
    requires
        0 <= i < input.len(),
        strips_to(input.take(i), output),
        !spec_is_blogmeta(input[i]),
        node_strips_to(input[i], b),
    ensures
        strips_to(input.take(i + 1), output.push(b)),
    decreases i,
{
    assert(input.take(i + 1).len() == i + 1);
    assert(input.take(i + 1)[0] == input[0]);
    if i == 0 {
        assert(input.take(0).len() == 0);
        assert(output.len() == 0);
        assert(output.push(b)[0] == b);
        assert(input.take(1).skip(1) =~= Seq::<MdNode>::empty());
        assert(output.push(b).skip(1) =~= Seq::<MdNode>::empty());
        assert(strips_to(input.take(1).skip(1), output.push(b).skip(1)));
        assert(!spec_is_blogmeta(input.take(1)[0]));
        assert(node_strips_to(input.take(1)[0], output.push(b)[0]));
        assert(strips_to(input.take(i + 1), output.push(b)));
    } else {
        let hd = input.take(i)[0];
        assert(hd == input[0]);
        if spec_is_blogmeta(input[0]) {
            assert(strips_to(input.take(i).skip(1), output));
            assert(input.take(i).skip(1) =~= input.skip(1).take(i - 1));
            assert(input.skip(1)[i - 1] == input[i]);
            lemma_strips_snoc_keep(input.skip(1), output, i - 1, b);
            assert(input.take(i + 1).skip(1) =~= input.skip(1).take(i));
            assert(strips_to(input.take(i + 1).skip(1), output.push(b)));
            assert(strips_to(input.take(i + 1), output.push(b)));
        } else {
            assert(output.len() >= 1);
            assert(node_strips_to(input[0], output[0]));
            assert(strips_to(input.take(i).skip(1), output.skip(1)));
            assert(input.take(i).skip(1) =~= input.skip(1).take(i - 1));
            assert(input.skip(1)[i - 1] == input[i]);
            lemma_strips_snoc_keep(input.skip(1), output.skip(1), i - 1, b);
            assert(input.take(i + 1).skip(1) =~= input.skip(1).take(i));
            assert(output.push(b)[0] == output[0]);
            assert(output.push(b).skip(1) =~= output.skip(1).push(b));
            assert(strips_to(input.take(i + 1).skip(1), output.push(b).skip(1)));
            assert(strips_to(input.take(i + 1), output.push(b)));
        }
    }
}

/// Extends a strip correspondence past one removed metadata block.
proof fn lemma_strips_snoc_drop(input: Seq<MdNode>, output: Seq<MdNode>, i: int)
    requires
        0 <= i < input.len(),
        strips_to(input.take(i), output),
        spec_is_blogmeta(input[i]),
    ensures
        strips_to(input.take(i + 1), output),
    decreases i,
{
    assert(input.take(i + 1).len() == i + 1);
    assert(input.take(i + 1)[0] == input[0]);
    if i == 0 {
        assert(input.take(1).skip(1) =~= Seq::<MdNode>::empty());
        assert(spec_is_blogmeta(input.take(1)[0]));
        assert(strips_to(input.take(1).skip(1), output));
        assert(strips_to(input.take(i + 1), output));
    } else {
        assert(input.take(i)[0] == input[0]);
        if spec_is_blogmeta(input[0]) {
            assert(strips_to(input.take(i).skip(1), output));
            assert(input.take(i).skip(1) =~= input.skip(1).take(i - 1));
            assert(input.skip(1)[i - 1] == input[i]);
            lemma_strips_snoc_drop(input.skip(1), output, i - 1);
            assert(input.take(i + 1).skip(1) =~= input.skip(1).take(i));
            assert(strips_to(input.take(i + 1), output));
        } else {
            assert(output.len() >= 1);
            assert(node_strips_to(input[0], output[0]));
            assert(strips_to(input.take(i).skip(1), output.skip(1)));
            assert(input.take(i).skip(1) =~= input.skip(1).take(i - 1));
            assert(input.skip(1)[i - 1] == input[i]);
            lemma_strips_snoc_drop(input.skip(1), output.skip(1), i - 1);
            assert(input.take(i + 1).skip(1) =~= input.skip(1).take(i));
            assert(strips_to(input.take(i + 1), output));
        }
    }
}

/// Strips one kept node's children.
fn strip_node(node: MdNode) -> (r: MdNode)
    ensures
        node_strips_to(node, r),
    decreases node, 4int,
{
    match node {
        MdNode::BlockQuote(c) => MdNode::BlockQuote(remove_non_renderable_nodes(c)),
        MdNode::FootnoteDefinition { identifier, label, children } => {
            MdNode::FootnoteDefinition {
                identifier,
                label,
                children: remove_non_renderable_nodes(children),
            }
        },
        MdNode::List { ordered, start, children } => {
            MdNode::List { ordered, start, children: remove_non_renderable_nodes(children) }
        },
        MdNode::Emphasis(c) => MdNode::Emphasis(remove_non_renderable_nodes(c)),
        MdNode::MdLink { url, title, children } => {
            MdNode::MdLink { url, title, children: remove_non_renderable_nodes(children) }
        },
        MdNode::Strong(c) => MdNode::Strong(remove_non_renderable_nodes(c)),
        MdNode::Heading { depth, children } => {
            MdNode::Heading { depth, children: remove_non_renderable_nodes(children) }
        },
        MdNode::ListItem { checked, children } => {
            MdNode::ListItem { checked, children: remove_non_renderable_nodes(children) }
        },
        MdNode::Paragraph(c) => MdNode::Paragraph(remove_non_renderable_nodes(c)),
        other => other,
    }
}

// ---------------------------------------------------------------------------
// Rendering a post's content
// ---------------------------------------------------------------------------

/// Why content could not be rendered: these mark malformed authored content
/// and abort the document's build.
pub enum ContentError {
    UnsupportedNode,
    UnknownImageUrl { url: String },
    IllegalHeadingDepth { depth: u8 },
    UnknownCodeFormat { format: String },
    InfoWithoutPage,
    UnknownCategory { category: String },
    DateOutOfRange,
}

/// The error kinds that mark malformed node content (as opposed to a bad
/// category reference or date).
pub open spec fn is_node_content_error(e: ContentError) -> bool {
    ||| e is UnsupportedNode
    ||| e is UnknownImageUrl
    ||| e is IllegalHeadingDepth
    ||| e is UnknownCodeFormat
    ||| e is InfoWithoutPage
}

/// The last binding of `key` in view space, from a scan that found the last
/// match.
proof fn lemma_tag_value_some(
    pairs: Seq<(Seq<char>, Option<Seq<char>>)>,
    key: Seq<char>,
    i: int,
)
    requires
        0 <= i < pairs.len(),
        pairs[i].0 == key,
        forall|j: int| i < j < pairs.len() ==> (#[trigger] pairs[j]).0 != key,
    ensures
        spec_tag_value(pairs, key) == Option::Some(pairs[i].1),
    decreases pairs.len(),
{
    if i == pairs.len() - 1 {
    } else {
        assert(pairs.last().0 != key);
        assert(pairs.drop_last()[i] == pairs[i]);
        assert(forall|j: int|
            i < j < pairs.drop_last().len() ==> #[trigger] pairs.drop_last()[j] == pairs[j]);
        lemma_tag_value_some(pairs.drop_last(), key, i);
    }
}

proof fn lemma_tag_value_none(pairs: Seq<(Seq<char>, Option<Seq<char>>)>, key: Seq<char>)
    requires
        forall|j: int| 0 <= j < pairs.len() ==> (#[trigger] pairs[j]).0 != key,
    ensures
        spec_tag_value(pairs, key) is None,
    decreases pairs.len(),
{
    if pairs.len() > 0 {
        assert(forall|j: int|
            0 <= j < pairs.drop_last().len() ==> #[trigger] pairs.drop_last()[j] == pairs[j]);
        lemma_tag_value_none(pairs.drop_last(), key);
    }
}

/// The `info` tag, if present, carries a page id.
pub open spec fn spec_info_ok(m: Seq<char>) -> bool {
    match spec_tag_value(spec_meta_pairs(m), "info"@) {
        Option::Some(v) => v is Some,
        Option::None => true,
    }
}

/// No `format` tag with a value: those name structured block formats, which
/// arrive pre-parsed as their own node kinds.
pub open spec fn spec_format_absent(m: Seq<char>) -> bool {
    match spec_tag_value(spec_meta_pairs(m), "format"@) {
        Option::Some(v) => v is None,
        Option::None => true,
    }
}

/// The last index of `c` in `s`, or -1.
pub open spec fn spec_rfind(s: Seq<char>, c: char) -> int
    decreases s.len(),
{
    if s.len() == 0 {
        -1
    } else if s.last() == c {
        s.len() - 1
    } else {
        spec_rfind(s.drop_last(), c)
    }
}

/// The file name after the last slash.
pub open spec fn spec_last_component(url: Seq<char>) -> Seq<char> {
    url.skip(spec_rfind(url, '/') + 1)
}

/// The file name with its extension removed, keeping a leading dot.
pub open spec fn spec_file_stem(name: Seq<char>) -> Seq<char> {
    let d = spec_rfind(name, '.');
    if d <= 0 {
        name
    } else {
        name.take(d)
    }
}

proof fn lemma_rfind_value(s: Seq<char>, c: char, i: int)
    requires
        -1 <= i < s.len(),
        i >= 0 ==> s[i] == c,
        forall|x: int| i < x < s.len() ==> s[x] != c,
    ensures
        spec_rfind(s, c) == i,
    decreases s.len(),
{
    if s.len() == 0 {
    } else if s.last() == c {
        assert(i == s.len() - 1);
    } else {
        assert(i < s.len() - 1);
        assert(forall|x: int| i < x < s.drop_last().len() ==> s.drop_last()[x] == s[x]);
        if i >= 0 {
            assert(s.drop_last()[i] == s[i]);
        }
        lemma_rfind_value(s.drop_last(), c, i);
    }
}

/// The last index of `c` in `s`, as an option.
fn rfind_char(s: &str, c: char) -> (r: Option<usize>)
    ensures
        match r {
            Option::Some(i) => i < s@.len() && spec_rfind(s@, c) == i,
            Option::None => spec_rfind(s@, c) == -1,
        },
{
    let n = s.unicode_len();
    let mut i: usize = n;
    while i > 0
        invariant
            i <= n,
            n == s@.len(),
            forall|x: int| i <= x < n ==> s@[x] != c,
        decreases i,
    {
        i = i - 1;
        if s.get_char(i) == c {
            proof {
                lemma_rfind_value(s@, c, i as int);
            }
            return Some(i);
        }
    }
    proof {
        lemma_rfind_value(s@, c, -1);
    }
    None
}

/// The resource id an image url resolves to: `resource:` plus the file stem
/// of the url's last component.
pub open spec fn spec_resource_id(url: Seq<char>) -> Seq<char> {
    "resource:"@ + spec_file_stem(spec_last_component(url))
}

/// Computes the resource id for an image url.
fn resource_id_of(url: &str) -> (r: String)
    ensures
        r@ == spec_resource_id(url@),
{
    let n = url.unicode_len();
    let start = match rfind_char(url, '/') {
        Some(i) => i + 1,
        None => 0,
    };
    let name = url.substring_char(start, n);
    proof {
        assert(name@ =~= spec_last_component(url@));
    }
    let m = name.unicode_len();
    let stem = match rfind_char(name, '.') {
        Some(d) if d > 0 => name.substring_char(0, d),
        _ => name,
    };
    proof {
        assert(stem@ =~= spec_file_stem(name@));
    }
    let mut r = "resource:".to_owned();
    r.append(stem);
    r
}

/// Copies an optional string.
fn clone_opt_string(o: &Option<String>) -> (r: Option<String>)
    ensures
        r == *o,
{
    match o {
        Some(s) => Some(s.clone()),
        None => None,
    }
}

/// How many generated ids rendering a subtree draws from the counter: one
/// per tab of each tabbed block.
pub open spec fn spec_tab_count(n: MdNode) -> nat
    decreases n, 1int,
{
    match n {
        MdNode::BlockQuote(c) => spec_list_tab_count(c@),
        MdNode::FootnoteDefinition { children, .. } => spec_list_tab_count(children@),
        MdNode::List { children, .. } => spec_list_tab_count(children@),
        MdNode::Emphasis(c) => spec_list_tab_count(c@),
        MdNode::MdLink { children, .. } => spec_list_tab_count(children@),
        MdNode::Strong(c) => spec_list_tab_count(c@),
        MdNode::Heading { children, .. } => spec_list_tab_count(children@),
        MdNode::ListItem { children, .. } => spec_list_tab_count(children@),
        MdNode::Paragraph(c) => spec_list_tab_count(c@),
        MdNode::QueryResponseMultiBlock { data, .. } => data.0@.len(),
        _ => 0,
    }
}

pub open spec fn spec_list_tab_count(items: Seq<MdNode>) -> nat
    decreases items, 0int,
{
    if items.len() == 0 {
        0
    } else {
        spec_tab_count(items[0]) + spec_list_tab_count(items.skip(1))
    }
}

/// The subtree holds only supported constructs with well-formed details, so
/// it can be rendered.
pub open spec fn spec_content_ok(n: MdNode) -> bool
    decreases n, 1int,
{
    match n {
        MdNode::BlockQuote(c) => spec_list_content_ok(c@),
        MdNode::FootnoteDefinition { children, .. } => spec_list_content_ok(children@),
        MdNode::List { children, .. } => spec_list_content_ok(children@),
        MdNode::Break => true,
        MdNode::InlineCode(_) => true,
        MdNode::Emphasis(c) => spec_list_content_ok(c@),
        MdNode::FootnoteReference { .. } => true,
        MdNode::Html(_) => true,
        MdNode::Image { url, .. } => begins(url@, "../resource"@),
        MdNode::MdLink { children, .. } => spec_list_content_ok(children@),
        MdNode::Strong(c) => spec_list_content_ok(c@),
        MdNode::Text(_) => true,
        MdNode::Code { meta, .. } => match meta {
            Option::Some(m) => spec_format_absent(m@) && spec_info_ok(m@),
            Option::None => true,
        },
        MdNode::Heading { depth, children } => 1 <= depth <= 6 && spec_list_content_ok(children@),
        MdNode::ThematicBreak => true,
        MdNode::ListItem { children, .. } => spec_list_content_ok(children@),
        MdNode::Paragraph(c) => spec_list_content_ok(c@),
        MdNode::QueryResponseBlock { meta, .. } => match meta {
            Option::Some(m) => spec_info_ok(m@),
            Option::None => true,
        },
        MdNode::QueryResponseMultiBlock { meta, .. } => match meta {
            Option::Some(m) => spec_info_ok(m@),
            Option::None => true,
        },
        MdNode::Unsupported => false,
    }
}

pub open spec fn spec_list_content_ok(items: Seq<MdNode>) -> bool
    decreases items, 0int,
{
    if items.len() == 0 {
        true
    } else {
        spec_content_ok(items[0]) && spec_list_content_ok(items.skip(1))
    }
}

/// Reads a code block's meta tags: whether it folds, whether it is
/// preformatted, and which page its info link names. Fails exactly on an
/// `info` tag without a page, or (unless `allow_format` is set for the
/// pre-parsed structured blocks) a `format` tag naming a block format.
fn meta_flags(m: &str, allow_format: bool) -> (r: Result<
    (bool, bool, Option<String>),
    ContentError,
>)
    ensures
        match r {
            Ok(flags) => {
                &&& (allow_format || spec_format_absent(m@))
                &&& spec_info_ok(m@)
                &&& flags.0 == spec_has_tag(spec_meta_pairs(m@), "fold"@)
                &&& flags.1 == spec_has_tag(spec_meta_pairs(m@), "preformatted"@)
                &&& match (flags.2, spec_tag_value(spec_meta_pairs(m@), "info"@)) {
                    (Option::Some(v), Option::Some(sv)) => sv == Option::Some(v@),
                    (Option::None, Option::None) => true,
                    _ => false,
                }
            },
            Err(e) => match e {
                ContentError::UnknownCodeFormat { .. } => !allow_format && !spec_format_absent(m@),
                ContentError::InfoWithoutPage => !spec_info_ok(m@),
                _ => false,
            },
        },
        r is Ok <==> ((allow_format || spec_format_absent(m@)) && spec_info_ok(m@)),
{
    let pairs = parse_meta_tags(m);
    let ghost sp = spec_meta_pairs(m@);
    proof {
        assert(pairs@.len() == sp.len());
    }
    if !allow_format {
        match tag_value(&pairs, "format") {
            Some(v) => {
                match v {
                    Some(f) => {
                        proof {
                            let i = choose|i: int|
                                0 <= i < pairs@.len() && (#[trigger] pairs@[i]).0@ == "format"@
                                    && pairs@[i].1 == Option::Some(*f) && (forall|j: int|
                                    i < j < pairs@.len() ==> (#[trigger] pairs@[j]).0@
                                        != "format"@);
                            assert(sp[i].0 == "format"@);
                            assert(forall|j: int| i < j < sp.len() ==> (#[trigger] sp[j]).0 != "format"@)
                                by {
                                assert(forall|j: int|
                                    i < j < sp.len() ==> (#[trigger] sp[j]).0 == pairs@[j].0@);
                            }
                            lemma_tag_value_some(sp, "format"@, i);
                            assert(sp[i].1 is Some);
                        }
                        return Err(ContentError::UnknownCodeFormat { format: f.clone() });
                    },
                    None => {
                        proof {
                            let i = choose|i: int|
                                0 <= i < pairs@.len() && (#[trigger] pairs@[i]).0@ == "format"@
                                    && pairs@[i].1 == Option::<String>::None && (forall|j: int|
                                    i < j < pairs@.len() ==> (#[trigger] pairs@[j]).0@
                                        != "format"@);
                            assert(sp[i].0 == "format"@);
                            assert(forall|j: int| i < j < sp.len() ==> (#[trigger] sp[j]).0 != "format"@)
                                by {
                                assert(forall|j: int|
                                    i < j < sp.len() ==> (#[trigger] sp[j]).0 == pairs@[j].0@);
                            }
                            lemma_tag_value_some(sp, "format"@, i);
                            assert(sp[i].1 is None);
                        }
                    },
                }
            },
            None => {
                proof {
                    assert(forall|j: int| 0 <= j < sp.len() ==> (#[trigger] sp[j]).0 != "format"@)
                        by {
                        assert(forall|j: int|
                            0 <= j < sp.len() ==> (#[trigger] sp[j]).0 == pairs@[j].0@);
                    }
                    lemma_tag_value_none(sp, "format"@);
                }
            },
        }
    }
    let fold = has_tag(&pairs, "fold");
    let pre = has_tag(&pairs, "preformatted");
    proof {
        assert(forall|j: int| 0 <= j < sp.len() ==> (#[trigger] sp[j]).0 == pairs@[j].0@);
        if fold {
            let i = choose|i: int| 0 <= i < pairs@.len() && (#[trigger] pairs@[i]).0@ == "fold"@;
            assert(sp[i].0 == "fold"@);
        }
        if spec_has_tag(sp, "fold"@) {
            let i = choose|i: int| 0 <= i < sp.len() && (#[trigger] sp[i]).0 == "fold"@;
            assert(pairs@[i].0@ == "fold"@);
        }
        if pre {
            let i = choose|i: int|
                0 <= i < pairs@.len() && (#[trigger] pairs@[i]).0@ == "preformatted"@;
            assert(sp[i].0 == "preformatted"@);
        }
        if spec_has_tag(sp, "preformatted"@) {
            let i = choose|i: int| 0 <= i < sp.len() && (#[trigger] sp[i]).0 == "preformatted"@;
            assert(pairs@[i].0@ == "preformatted"@);
        }
    }
    let info: Option<String> = match tag_value(&pairs, "info") {
        Some(v) => {
            match v {
                Some(page) => {
                    proof {
                        let i = choose|i: int|
                            0 <= i < pairs@.len() && (#[trigger] pairs@[i]).0@ == "info"@
                                && pairs@[i].1 == Option::Some(*page) && (forall|j: int|
                                i < j < pairs@.len() ==> (#[trigger] pairs@[j]).0@ != "info"@);
                        assert(sp[i].0 == "info"@);
                        assert(forall|j: int| i < j < sp.len() ==> (#[trigger] sp[j]).0 != "info"@);
                        lemma_tag_value_some(sp, "info"@, i);
                        assert(sp[i].1 == Option::Some(page@));
                    }
                    Some(page.clone())
                },
                None => {
                    proof {
                        let i = choose|i: int|
                            0 <= i < pairs@.len() && (#[trigger] pairs@[i]).0@ == "info"@
                                && pairs@[i].1 == Option::<String>::None && (forall|j: int|
                                i < j < pairs@.len() ==> (#[trigger] pairs@[j]).0@ != "info"@);
                        assert(sp[i].0 == "info"@);
                        assert(forall|j: int| i < j < sp.len() ==> (#[trigger] sp[j]).0 != "info"@);
                        lemma_tag_value_some(sp, "info"@, i);
                        assert(sp[i].1 is None);
                    }
                    return Err(ContentError::InfoWithoutPage);
                },
            }
        },
        None => {
            proof {
                assert(forall|j: int| 0 <= j < sp.len() ==> (#[trigger] sp[j]).0 != "info"@);
                lemma_tag_value_none(sp, "info"@);
            }
            None
        },
    };
    Ok((fold, pre, info))
}

impl QueryResponse {
    /// Renders the example as a code box: titled query and response halves
    /// separated by a rule.
    pub fn render(
        self,
        lang: Option<String>,
        info: Option<String>,
        fold: bool,
        preformatted: bool,
    ) -> (r: crate::html::Component)
        ensures
            crate::component::classed_element(r.content, "div"@, "code-box"@),
    {
        let mut members: Vec<HtmlNode> = Vec::new();
        match self.q_title {
            Some(q_title) => {
                members.push(
                    HtmlNode::Element(html_bold(HtmlNode::Text(HtmlPlaintext(q_title)))),
                );
                members.push(HtmlNode::Element(html_break()));
            },
            None => {},
        }
        members.push(HtmlNode::Text(HtmlPlaintext(self.query)));
        members.push(HtmlNode::Element(html_horizontal_rule()));
        match self.r_title {
            Some(r_title) => {
                members.push(
                    HtmlNode::Element(html_bold(HtmlNode::Text(HtmlPlaintext(r_title)))),
                );
                members.push(HtmlNode::Element(html_break()));
            },
            None => {},
        }
        members.push(HtmlNode::Text(HtmlPlaintext(self.response)));
        code_box(lang, info, fold, preformatted, HtmlNode::Group(members))
    }
}

impl QueryResponseMulti {
    /// Renders the examples as a tab box, one tab per example.
    pub fn render(
        self,
        lang: Option<String>,
        info: Option<String>,
        fold: bool,
        preformatted: bool,
        counter: &mut u64,
    ) -> (r: crate::html::Component)
        requires
            *old(counter) + self.0@.len() <= u64::MAX,
        ensures
            *old(counter) <= *final(counter) <= *old(counter) + self.0@.len(),
            crate::component::classed_element(r.content, "div"@, "tab-box"@),
    {
        let ghost len0 = self.0@.len();
        let mut tabs: Vec<(String, HtmlNode)> = Vec::new();
        let mut rest = self.0;
        let n = rest.len();
        let mut i: usize = 0;
        while i < n
            invariant
                i <= n,
                n == len0,
                rest@.len() == n - i,
                tabs@.len() == i,
            decreases n - i,
        {
            proof {
                assert(rest@.len() > 0);
            }
            let (tab_title, qr) = rest.remove(0);
            let rendered = qr.render(
                clone_opt_string(&lang),
                clone_opt_string(&info),
                fold,
                preformatted,
            );
            tabs.push((tab_title, HtmlNode::Component(rendered)));
            i = i + 1;
        }
        tab_box(tabs, counter)
    }
}

/// The rendered node is a wrapper element of the given tag holding one
/// sibling group with one member per content child.
pub open spec fn is_wrap_group(
    out: HtmlNode,
    tag: Seq<char>,
    inline: bool,
    children: Seq<MdNode>,
) -> bool
    decreases children, 2int,
{
    match out {
        HtmlNode::Element(e) => {
            &&& e.tag.name@ == tag
            &&& e.enable_inline == inline
            &&& e.attributes@.len() == 0
            &&& e.content@.len() == 1
            &&& (match e.content@[0] {
                HtmlNode::Group(g) => spec_rendered_list_shape(children, g@),
                _ => false,
            })
        },
        _ => false,
    }
}

/// The outputs mirror the inputs member for member.
pub open spec fn spec_rendered_list_shape(children: Seq<MdNode>, outs: Seq<HtmlNode>) -> bool
    decreases children, 0int,
{
    if children.len() == 0 {
        outs.len() == 0
    } else {
        &&& outs.len() > 0
        &&& spec_rendered_shape(children[0], outs[0])
        &&& spec_rendered_list_shape(children.skip(1), outs.skip(1))
    }
}

/// The outputs are the inputs rendered and each wrapped in its own `li`.
pub open spec fn spec_rendered_li_list(children: Seq<MdNode>, outs: Seq<HtmlNode>) -> bool
    decreases children, 0int,
{
    if children.len() == 0 {
        outs.len() == 0
    } else {
        &&& outs.len() > 0
        &&& (match outs[0] {
            HtmlNode::Element(li) => {
                &&& li.tag.name@ == "li"@
                &&& li.attributes@.len() == 0
                &&& li.content@.len() == 1
                &&& spec_rendered_shape(children[0], li.content@[0])
            },
            _ => false,
        })
        &&& spec_rendered_li_list(children.skip(1), outs.skip(1))
    }
}

/// What each content construct renders to, recursively down the tree.
pub open spec fn spec_rendered_shape(node: MdNode, out: HtmlNode) -> bool
    decreases node, 1int,
{
    match node {
        MdNode::BlockQuote(c) => is_wrap_group(out, "blockquote"@, true, c@),
        MdNode::FootnoteDefinition { identifier, children, .. } => match out {
            HtmlNode::Component(cm) => {
                &&& cm.content.tag.name@ == "div"@
                &&& cm.content.attributes@.len() == 2
                &&& crate::component::attr_is(
                    cm.content.attributes@[0],
                    "id"@,
                    Option::Some("footnote-"@ + identifier@),
                )
                &&& cm.content.content@.len() == 1
                &&& (match cm.content.content@[0] {
                    HtmlNode::Group(members) => members@.len() == 4 && (match members@[3] {
                        HtmlNode::Group(g) => spec_rendered_list_shape(children@, g@),
                        _ => false,
                    }),
                    _ => false,
                })
            },
            _ => false,
        },
        MdNode::List { children, .. } => match out {
            HtmlNode::Component(cm) => {
                &&& crate::component::classed_element(cm.content, "div"@, "html_list"@)
                &&& cm.content.content@.len() == 1
                &&& (match cm.content.content@[0] {
                    HtmlNode::Element(inner) => inner.content@.len() == children@.len()
                        && spec_rendered_li_list(children@, inner.content@),
                    _ => false,
                })
            },
            _ => false,
        },
        MdNode::Break => match out {
            HtmlNode::Element(e) => e.tag.name@ == "br"@ && e.enable_inline,
            _ => false,
        },
        MdNode::InlineCode(v) => match out {
            HtmlNode::Element(e) => e.tag.name@ == "code"@ && e.content@ =~= seq![
                HtmlNode::Text(HtmlPlaintext(v)),
            ],
            _ => false,
        },
        MdNode::Emphasis(c) => is_wrap_group(out, "i"@, true, c@),
        MdNode::FootnoteReference { identifier, .. } => match out {
            HtmlNode::Component(cm) => cm.content.tag.name@ == "sup"@
                && cm.content.attributes@.len() == 2 && crate::component::attr_is(
                cm.content.attributes@[0],
                "id"@,
                Option::Some("footnote_ref-"@ + identifier@),
            ),
            _ => false,
        },
        MdNode::Html(v) => out == HtmlNode::Raw(crate::html::RawHtml(v)),
        MdNode::Image { url, alt, title } => match out {
            HtmlNode::Component(cm) => crate::component::classed_element(
                cm.content,
                "div"@,
                "image-box"@,
            ) && cm.content.content@.len() == 1 && (match cm.content.content@[0] {
                HtmlNode::Image(img) => {
                    &&& crate::routes::link_view(img.source) == crate::routes::LinkView::ID(
                        spec_resource_id(url@),
                    )
                    &&& img.alt_text@ == alt@
                    &&& img.title == title
                },
                _ => false,
            }),
            _ => false,
        },
        MdNode::MdLink { url, title, children } => match out {
            HtmlNode::LinkText(l) => {
                &&& (if begins(url@, "intralink:"@) {
                    crate::routes::link_view(l.link) == crate::routes::LinkView::ID(url@.skip(10))
                } else {
                    crate::routes::link_view(l.link) == (crate::routes::LinkView::Custom {
                        link_title: Seq::<char>::empty(),
                        destination: url@,
                    })
                })
                &&& l.title == title
                &&& (match l.content {
                    Option::Some(c) => match *c {
                        HtmlNode::Group(g) => spec_rendered_list_shape(children@, g@),
                        _ => false,
                    },
                    Option::None => false,
                })
            },
            _ => false,
        },
        MdNode::Strong(c) => is_wrap_group(out, "strong"@, true, c@),
        MdNode::Text(v) => out == HtmlNode::Text(HtmlPlaintext(v)),
        MdNode::Code { .. } => match out {
            HtmlNode::Component(cm) => crate::component::classed_element(
                cm.content,
                "div"@,
                "code-box"@,
            ),
            _ => false,
        },
        MdNode::Heading { depth, children } => match out {
            HtmlNode::Element(e) => {
                &&& e.tag.name@ == crate::component::spec_heading_tag(depth as int)
                &&& e.attributes@.len() == 1
                &&& crate::component::attr_is(
                    e.attributes@[0],
                    "class"@,
                    Option::Some("heading"@),
                )
                &&& e.content@.len() == 1
                &&& (match e.content@[0] {
                    HtmlNode::Group(g) => spec_rendered_list_shape(children@, g@),
                    _ => false,
                })
            },
            _ => false,
        },
        MdNode::ThematicBreak => match out {
            HtmlNode::Element(e) => e.tag.name@ == "hr"@ && e.enable_inline,
            _ => false,
        },
        MdNode::ListItem { checked, children } => match out {
            HtmlNode::Group(g) => match checked {
                Option::Some(_) => g@.len() == 2 && (match g@[1] {
                    HtmlNode::Group(inner) => spec_rendered_list_shape(children@, inner@),
                    _ => false,
                }),
                Option::None => spec_rendered_list_shape(children@, g@),
            },
            _ => false,
        },
        MdNode::Paragraph(c) => is_wrap_group(out, "p"@, false, c@),
        MdNode::QueryResponseBlock { .. } => match out {
            HtmlNode::Component(cm) => crate::component::classed_element(
                cm.content,
                "div"@,
                "code-box"@,
            ),
            _ => false,
        },
        MdNode::QueryResponseMultiBlock { .. } => match out {
            HtmlNode::Component(cm) => crate::component::classed_element(
                cm.content,
                "div"@,
                "tab-box"@,
            ),
            _ => false,
        },
        MdNode::Unsupported => false,
    }
}

/// A member-for-member mirror gives each member's shape.
pub proof fn lemma_rendered_list_shape_index(children: Seq<MdNode>, outs: Seq<HtmlNode>, k: int)
    requires
        spec_rendered_list_shape(children, outs),
        0 <= k < children.len(),
    ensures
        outs.len() == children.len(),
        spec_rendered_shape(children[k], outs[k]),
    decreases k,
{
    lemma_rendered_list_shape_len(children, outs);
    if k == 0 {
    } else {
        assert(children.skip(1)[k - 1] == children[k]);
        assert(outs.skip(1)[k - 1] == outs[k]);
        lemma_rendered_list_shape_index(children.skip(1), outs.skip(1), k - 1);
    }
}

pub proof fn lemma_rendered_list_shape_len(children: Seq<MdNode>, outs: Seq<HtmlNode>)
    requires
        spec_rendered_list_shape(children, outs),
    ensures
        outs.len() == children.len(),
    decreases children.len(),
{
    if children.len() > 0 {
        lemma_rendered_list_shape_len(children.skip(1), outs.skip(1));
    }
}

/// A pointwise li-wrapping of mirrored members makes an li list.
proof fn lemma_rendered_li_list_intro(children: Seq<MdNode>, outs: Seq<HtmlNode>)
    requires
        outs.len() == children.len(),
        forall|k: int|
            0 <= k < children.len() ==> match #[trigger] outs[k] {
                HtmlNode::Element(li) => {
                    &&& li.tag.name@ == "li"@
                    &&& li.attributes@.len() == 0
                    &&& li.content@.len() == 1
                    &&& spec_rendered_shape(children[k], li.content@[0])
                },
                _ => false,
            },
    ensures
        spec_rendered_li_list(children, outs),
    decreases children.len(),
{
    if children.len() > 0 {
        assert(forall|k: int|
            0 <= k < children.skip(1).len() ==> #[trigger] children.skip(1)[k] == children[k + 1]
                && outs.skip(1)[k] == outs[k + 1]);
        lemma_rendered_li_list_intro(children.skip(1), outs.skip(1));
    }
}

/// Renders one content node into its renderable form. Succeeds exactly when
/// the subtree is well-formed content.
pub fn render(node: MdNode, counter: &mut u64) -> (r: Result<HtmlNode, ContentError>)
    requires
        *old(counter) + spec_tab_count(node) <= u64::MAX,
    ensures
        *old(counter) <= *final(counter) <= *old(counter) + spec_tab_count(node),
        r is Ok <==> spec_content_ok(node),
        match r {
            Ok(out) => spec_rendered_shape(node, out),
            Err(e) => is_node_content_error(e),
        },
    decreases node, 3int,
{
    match node {
        MdNode::BlockQuote(c) => {
            let members = render_list(c, counter)?;
            Ok(HtmlNode::Element(html_blockquote(HtmlNode::Group(members))))
        },
        MdNode::FootnoteDefinition { identifier, label, children } => {
            let members = render_list(children, counter)?;
            let label_text: &str = match &label {
                Some(l) => l.as_str(),
                None => identifier.as_str(),
            };
            Ok(
                HtmlNode::Component(
                    footnote(identifier.as_str(), label_text, HtmlNode::Group(members)),
                ),
            )
        },
        MdNode::List { ordered, start, children } => {
            let members = render_list(children, counter)?;
            let ghost members_g = members@;
            let comp = html_list(members, ordered, start);
            proof {
                match comp.content.content@[0] {
                    HtmlNode::Element(inner) => {
                        assert forall|k: int| 0 <= k < children@.len() implies match #[trigger] inner.content@[k] {
                            HtmlNode::Element(li) => {
                                &&& li.tag.name@ == "li"@
                                &&& li.attributes@.len() == 0
                                &&& li.content@.len() == 1
                                &&& spec_rendered_shape(children@[k], li.content@[0])
                            },
                            _ => false,
                        } by {
                            assert(crate::component::is_li_of(inner.content@[k], members_g[k]));
                            lemma_rendered_list_shape_index(children@, members_g, k);
                        }
                        lemma_rendered_li_list_intro(children@, inner.content@);
                    },
                    _ => {
                        assert(false);
                    },
                }
            }
            Ok(HtmlNode::Component(comp))
        },
        MdNode::Break => Ok(HtmlNode::Element(html_break())),
        MdNode::InlineCode(value) => Ok(
            HtmlNode::Element(html_code(HtmlNode::Text(HtmlPlaintext(value)))),
        ),
        MdNode::Emphasis(c) => {
            let members = render_list(c, counter)?;
            Ok(HtmlNode::Element(html_italics(HtmlNode::Group(members))))
        },
        MdNode::FootnoteReference { identifier, label } => {
            let label_text: &str = match &label {
                Some(l) => l.as_str(),
                None => identifier.as_str(),
            };
            Ok(HtmlNode::Component(footnote_ref(identifier.as_str(), label_text)))
        },
        MdNode::Html(value) => Ok(HtmlNode::Raw(html_raw(value))),
        MdNode::Image { url, alt, title } => {
            let n = url.unicode_len();
            let prefix_ok = if n >= 11 {
                let head = url.substring_char(0, 11);
                str_eq(head, "../resource")
            } else {
                false
            };
            proof {
                reveal_strlit("../resource");
                assert(url@.subrange(0, 11) =~= url@.take(11));
                assert(prefix_ok == begins(url@, "../resource"@));
            }
            if !prefix_ok {
                return Err(ContentError::UnknownImageUrl { url });
            }
            let rid = resource_id_of(url.as_str());
            Ok(HtmlNode::Component(image_box(Link::ID(rid), alt, title)))
        },
        MdNode::MdLink { url, title, children } => {
            let members = render_list(children, counter)?;
            let n = url.unicode_len();
            let is_intralink = if n >= 10 {
                let head = url.substring_char(0, 10);
                str_eq(head, "intralink:")
            } else {
                false
            };
            proof {
                reveal_strlit("intralink:");
                assert(url@.subrange(0, 10) =~= url@.take(10));
                assert(is_intralink == begins(url@, "intralink:"@));
            }
            if is_intralink {
                let id = url.substring_char(10, n).to_owned();
                Ok(
                    HtmlNode::LinkText(
                        html_link_content(Link::ID(id), title, HtmlNode::Group(members)),
                    ),
                )
            } else {
                Ok(
                    HtmlNode::LinkText(
                        html_link_content(
                            Link::Custom { link_title: String::new(), destination: HRef(url) },
                            title,
                            HtmlNode::Group(members),
                        ),
                    ),
                )
            }
        },
        MdNode::Strong(c) => {
            let members = render_list(c, counter)?;
            Ok(HtmlNode::Element(html_strong(HtmlNode::Group(members))))
        },
        MdNode::Text(value) => Ok(HtmlNode::Text(html_text(value))),
        MdNode::Code { value, lang, meta } => {
            match meta {
                Some(m) => {
                    let (fold, pre, info) = meta_flags(m.as_str(), false)?;
                    Ok(
                        HtmlNode::Component(
                            code_box(lang, info, fold, pre, HtmlNode::Text(HtmlPlaintext(value))),
                        ),
                    )
                },
                None => Ok(
                    HtmlNode::Component(
                        code_box(lang, None, false, false, HtmlNode::Text(HtmlPlaintext(value))),
                    ),
                ),
            }
        },
        MdNode::Heading { depth, children } => {
            if depth < 1 || depth > 6 {
                return Err(ContentError::IllegalHeadingDepth { depth });
            }
            let members = render_list(children, counter)?;
            Ok(
                HtmlNode::Element(
                    html_heading(depth as usize, HtmlNode::Group(members)),
                ),
            )
        },
        MdNode::ThematicBreak => Ok(HtmlNode::Element(html_horizontal_rule())),
        MdNode::ListItem { checked, children } => {
            let members = render_list(children, counter)?;
            match checked {
                Some(is_checked) => {
                    let mut pair: Vec<HtmlNode> = Vec::new();
                    pair.push(HtmlNode::Element(html_checkbox(is_checked, false)));
                    pair.push(HtmlNode::Group(members));
                    Ok(HtmlNode::Group(pair))
                },
                None => Ok(HtmlNode::Group(members)),
            }
        },
        MdNode::Paragraph(c) => {
            let members = render_list(c, counter)?;
            Ok(HtmlNode::Element(html_paragraph(HtmlNode::Group(members))))
        },
        MdNode::QueryResponseBlock { lang, meta, data } => {
            let (fold, pre, info) = match meta {
                Some(m) => meta_flags(m.as_str(), true)?,
                None => (false, false, None),
            };
            Ok(HtmlNode::Component(data.render(lang, info, fold, pre)))
        },
        MdNode::QueryResponseMultiBlock { lang, meta, data } => {
            let (fold, pre, info) = match meta {
                Some(m) => meta_flags(m.as_str(), true)?,
                None => (false, false, None),
            };
            Ok(HtmlNode::Component(data.render(lang, info, fold, pre, counter)))
        },
        MdNode::Unsupported => Err(ContentError::UnsupportedNode),
    }
}

/// Renders a list of content nodes in order.
pub fn render_list(nodes: Vec<MdNode>, counter: &mut u64) -> (r: Result<
    Vec<HtmlNode>,
    ContentError,
>)
    requires
        *old(counter) + spec_list_tab_count(nodes@) <= u64::MAX,
    ensures
        *old(counter) <= *final(counter) <= *old(counter) + spec_list_tab_count(nodes@),
        r is Ok <==> spec_list_content_ok(nodes@),
        match r {
            Ok(v) => v@.len() == nodes@.len() && spec_rendered_list_shape(nodes@, v@),
            Err(e) => is_node_content_error(e),
        },
    decreases nodes@, 2int,
{
    let mut rest = nodes;
    if rest.len() == 0 {
        let out: Vec<HtmlNode> = Vec::new();
        return Ok(out);
    }
    let ghost nodes0 = rest@;
    let head = rest.remove(0);
    let ghost head_g = head;
    proof {
        assert(head_g == nodes0[0]);
        assert(rest@ =~= nodes0.skip(1));
        assert(decreases_to!(nodes0 => nodes0[0]));
        assert(decreases_to!(nodes0 => nodes0.skip(1)));
    }
    let rendered = match render(head, counter) {
        Ok(h) => h,
        Err(e) => {
            return Err(e);
        },
    };
    let tail = match render_list(rest, counter) {
        Ok(t) => t,
        Err(e) => {
            return Err(e);
        },
    };
    let ghost rendered_g = rendered;
    let ghost tail_g = tail@;
    let mut out: Vec<HtmlNode> = Vec::new();
    out.push(rendered);
    let mut tail2 = tail;
    out.append(&mut tail2);
    proof {
        assert(out@[0] == rendered_g);
        assert(out@.skip(1) =~= tail_g);
        assert(spec_rendered_list_shape(nodes0, out@));
    }
    Ok(out)
}

impl BlogPost {
    /// Assembles the post's whole renderable tree: the byline (date,
    /// category, author), then the rendered content, inside the post
    /// wrapper. Fails exactly when the post names an unknown category or
    /// holds malformed content.
    pub fn render_content(
        self,
        context: &WebsiteRenderContext,
        counter: &mut u64,
    ) -> (r: Result<HtmlNode, ContentError>)
        requires
            self.metadata.wf(),
            *old(counter) + spec_list_tab_count(self.content@) <= u64::MAX,
        ensures
            *old(counter) <= *final(counter) <= *old(counter) + spec_list_tab_count(
                self.content@,
            ),
            r is Ok <==> (spec_list_content_ok(self.content@) && (exists|i: int|
                0 <= i < crate::category::spec_descendants_list(context.categories@).len() && (
                #[trigger] crate::category::spec_descendants_list(
                    context.categories@,
                )[i]).id_string@ == self.metadata.category@)),
            match r {
                Ok(n) => match n {
                    HtmlNode::Group(top) => top@.len() == 1 && (match top@[0] {
                        HtmlNode::Component(cm) => crate::component::classed_element(
                            cm.content,
                            "div"@,
                            "blogpost"@,
                        ) && cm.content.content@.len() == 1 && (match cm.content.content@[0] {
                            HtmlNode::Group(body) => body@.len() == 1 + self.content@.len()
                                && spec_rendered_list_shape(self.content@, body@.skip(1)),
                            _ => false,
                        }),
                        _ => false,
                    }),
                    _ => false,
                },
                Err(e) => match e {
                    ContentError::UnknownCategory { category } => category@
                        == self.metadata.category@ && (forall|i: int|
                        0 <= i < crate::category::spec_descendants_list(
                            context.categories@,
                        ).len() ==> (#[trigger] crate::category::spec_descendants_list(
                            context.categories@,
                        )[i]).id_string@ != self.metadata.category@),
                    ContentError::DateOutOfRange => false,
                    _ => !spec_list_content_ok(self.content@),
                },
            },
    {
        let category = match context.resolve_category(self.metadata.category.as_str()) {
            Some(c) => c,
            None => {
                return Err(ContentError::UnknownCategory { category: self.metadata.category });
            },
        };
        let mut date_span = html_span(
            HtmlNode::Text(HtmlPlaintext(format_date_iso(self.metadata.date))),
        );
        let mut ds_attrs: Vec<HtmlAttribute> = Vec::new();
        ds_attrs.push(
            HtmlAttribute { name: "title", value: Some("publication date".to_owned()) },
        );
        date_span.attributes = ds_attrs;
        let category_node: HtmlNode = if category.unlisted {
            let mut cat_span = html_span(HtmlNode::Text(HtmlPlaintext(category.title.clone())));
            let mut cs_attrs: Vec<HtmlAttribute> = Vec::new();
            cs_attrs.push(HtmlAttribute { name: "title", value: Some("category".to_owned()) });
            cat_span.attributes = cs_attrs;
            HtmlNode::Element(cat_span)
        } else {
            HtmlNode::LinkText(
                html_link(
                    Link::ID(self.metadata.category.clone()),
                    Some("category".to_owned()),
                ),
            )
        };
        let mut author_span = html_span(
            HtmlNode::Text(HtmlPlaintext(self.metadata.author.clone())),
        );
        let mut as_attrs: Vec<HtmlAttribute> = Vec::new();
        as_attrs.push(HtmlAttribute { name: "title", value: Some("author".to_owned()) });
        author_span.attributes = as_attrs;
        let mut byline_items: Vec<HtmlNode> = Vec::new();
        byline_items.push(HtmlNode::Element(date_span));
        byline_items.push(HtmlNode::Text(HtmlPlaintext(" - in ".to_owned())));
        byline_items.push(category_node);
        byline_items.push(HtmlNode::Text(HtmlPlaintext(" - ".to_owned())));
        byline_items.push(HtmlNode::Element(author_span));
        let byline = HtmlNode::Element(
            html_span(HtmlNode::Element(html_italics(HtmlNode::Group(byline_items)))),
        );
        let members = match render_list(self.content, counter) {
            Ok(m) => m,
            Err(e) => {
                return Err(e);
            },
        };
        let ghost members_g = members@;
        let mut post_contents: Vec<HtmlNode> = Vec::new();
        post_contents.push(byline);
        let mut members2 = members;
        post_contents.append(&mut members2);
        proof {
            assert(post_contents@.skip(1) =~= members_g);
        }
        let wrapped = blogpost(HtmlNode::Group(post_contents));
        let mut top: Vec<HtmlNode> = Vec::new();
        top.push(HtmlNode::Component(wrapped));
        Ok(HtmlNode::Group(top))
    }
}

} // verus!

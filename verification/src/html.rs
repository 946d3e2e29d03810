//! The renderable tree: a closed set of node kinds — escaped text, raw
//! passthrough text, elements with ordered attributes and children, sibling
//! groups, links, images and styled components — each deciding inline-versus-
//! block layout and serializing itself with consistent indentation.

use vstd::prelude::*;
use crate::context::{spec_link_title, WebsiteRenderContext};
use crate::css::StyleRule;
use crate::routes::{link_view, Link, LinkView};
use crate::strutil::str_eq;
use crate::tables::{SegTable, TitleTable};

verus! {

/// How serialization lays text out: pretty-printed at a nesting depth, or
/// verbatim.
pub enum HtmlFormat {
    Indent(usize),
    Preformatted,
}

impl Clone for HtmlFormat {
    fn clone(&self) -> (r: Self)
        ensures
            r == *self,
    {
        match self {
            HtmlFormat::Indent(d) => HtmlFormat::Indent(*d),
            HtmlFormat::Preformatted => HtmlFormat::Preformatted,
        }
    }
}

impl Copy for HtmlFormat {

}

impl HtmlFormat {
    pub fn is_preformat(self) -> (r: bool)
        ensures
            r == (self is Preformatted),
    {
        if let HtmlFormat::Preformatted = self {
            true
        } else {
            false
        }
    }
}

// ---------------------------------------------------------------------------
// Tags
// ---------------------------------------------------------------------------

/// The ASCII-lowercase counterpart of a character.
pub open spec fn spec_lower_char(c: char) -> char {
    if c == 'A' { 'a' }
    else if c == 'B' { 'b' }
    else if c == 'C' { 'c' }
    else if c == 'D' { 'd' }
    else if c == 'E' { 'e' }
    else if c == 'F' { 'f' }
    else if c == 'G' { 'g' }
    else if c == 'H' { 'h' }
    else if c == 'I' { 'i' }
    else if c == 'J' { 'j' }
    else if c == 'K' { 'k' }
    else if c == 'L' { 'l' }
    else if c == 'M' { 'm' }
    else if c == 'N' { 'n' }
    else if c == 'O' { 'o' }
    else if c == 'P' { 'p' }
    else if c == 'Q' { 'q' }
    else if c == 'R' { 'r' }
    else if c == 'S' { 's' }
    else if c == 'T' { 't' }
    else if c == 'U' { 'u' }
    else if c == 'V' { 'v' }
    else if c == 'W' { 'w' }
    else if c == 'X' { 'x' }
    else if c == 'Y' { 'y' }
    else if c == 'Z' { 'z' }
    else { c }
}

/// ASCII-lowercasing of a whole name.
pub open spec fn spec_lower(s: Seq<char>) -> Seq<char> {
    s.map_values(|c: char| spec_lower_char(c))
}

/// The fixed registry of void element names, matched case-insensitively.
pub open spec fn spec_is_void_name(lower: Seq<char>) -> bool {
    ||| lower =~= "!doctype"@
    ||| lower =~= "area"@
    ||| lower =~= "base"@
    ||| lower =~= "br"@
    ||| lower =~= "col"@
    ||| lower =~= "embed"@
    ||| lower =~= "hr"@
    ||| lower =~= "img"@
    ||| lower =~= "input"@
    ||| lower =~= "link"@
    ||| lower =~= "meta"@
    ||| lower =~= "source"@
    ||| lower =~= "track"@
    ||| lower =~= "wbr"@
}

fn lower_char(c: char) -> (r: char)
    ensures
        r == spec_lower_char(c),
{
    match c {
        'A' => 'a',
        'B' => 'b',
        'C' => 'c',
        'D' => 'd',
        'E' => 'e',
        'F' => 'f',
        'G' => 'g',
        'H' => 'h',
        'I' => 'i',
        'J' => 'j',
        'K' => 'k',
        'L' => 'l',
        'M' => 'm',
        'N' => 'n',
        'O' => 'o',
        'P' => 'p',
        'Q' => 'q',
        'R' => 'r',
        'S' => 's',
        'T' => 't',
        'U' => 'u',
        'V' => 'v',
        'W' => 'w',
        'X' => 'x',
        'Y' => 'y',
        'Z' => 'z',
        other => other,
    }
}

/// An element tag: its authored name and whether it is a void element.
pub struct Tag {
    pub name: &'static str,
    pub is_void: bool,
}

impl Tag {
    /// Classifies a tag by name: the fixed registry of void element names is
    /// matched case-insensitively, everything else is a normal element.
    pub fn from_name(name: &'static str) -> (t: Tag)
        ensures
            t.name == name,
            t.is_void == spec_is_void_name(spec_lower(name@)),
    {
        let n = name.unicode_len();
        let mut lower = String::new();
        let mut i: usize = 0;
        proof {
            assert(lower@ =~= spec_lower(name@).take(0));
        }
        while i < n
            invariant
                i <= n,
                n == name@.len(),
                lower@ =~= spec_lower(name@).take(i as int),
            decreases n - i,
        {
            crate::strutil::push_char(&mut lower, lower_char(name.get_char(i)));
            proof {
                assert(spec_lower(name@)[i as int] == spec_lower_char(name@[i as int]));
                assert(lower@ =~= spec_lower(name@).take(i + 1));
            }
            i = i + 1;
        }
        proof {
            assert(spec_lower(name@).take(n as int) =~= spec_lower(name@));
        }
        let l = lower.as_str();
        let is_void = str_eq(l, "!doctype") || str_eq(l, "area") || str_eq(l, "base") || str_eq(
            l,
            "br",
        ) || str_eq(l, "col") || str_eq(l, "embed") || str_eq(l, "hr") || str_eq(l, "img")
            || str_eq(l, "input") || str_eq(l, "link") || str_eq(l, "meta") || str_eq(l, "source")
            || str_eq(l, "track") || str_eq(l, "wbr");
        Tag { name, is_void }
    }
}

// ---------------------------------------------------------------------------
// Attributes
// ---------------------------------------------------------------------------

/// A value accepted in an attribute position: a marker for a bare attribute,
/// a string, or an optional string.
pub trait AttributeValue: Sized {
    spec fn spec_value(self) -> Option<Seq<char>>;

    fn into_optional_string(self) -> (r: Option<String>)
        ensures
            match (r, self.spec_value()) {
                (Option::Some(s), Option::Some(v)) => s@ == v,
                (Option::None, Option::None) => true,
                _ => false,
            },
    ;
}

impl AttributeValue for () {
    open spec fn spec_value(self) -> Option<Seq<char>> {
        Option::None
    }

    fn into_optional_string(self) -> (r: Option<String>) {
        None
    }
}

impl AttributeValue for String {
    open spec fn spec_value(self) -> Option<Seq<char>> {
        Option::Some(self@)
    }

    fn into_optional_string(self) -> (r: Option<String>) {
        Some(self)
    }
}

impl AttributeValue for &str {
    open spec fn spec_value(self) -> Option<Seq<char>> {
        Option::Some(self@)
    }

    fn into_optional_string(self) -> (r: Option<String>) {
        Some(self.to_owned())
    }
}

impl AttributeValue for Option<String> {
    open spec fn spec_value(self) -> Option<Seq<char>> {
        match self {
            Option::Some(s) => Option::Some(s@),
            Option::None => Option::None,
        }
    }

    fn into_optional_string(self) -> (r: Option<String>) {
        self
    }
}

impl AttributeValue for Option<&str> {
    open spec fn spec_value(self) -> Option<Seq<char>> {
        match self {
            Option::Some(s) => Option::Some(s@),
            Option::None => Option::None,
        }
    }

    fn into_optional_string(self) -> (r: Option<String>) {
        match self {
            Some(s) => Some(s.to_owned()),
            None => None,
        }
    }
}

impl AttributeValue for crate::routes::HRef {
    open spec fn spec_value(self) -> Option<Seq<char>> {
        Option::Some(self.0@)
    }

    fn into_optional_string(self) -> (r: Option<String>) {
        Some(self.0)
    }
}

/// One attribute: its name and its optional value. A `None` value and an
/// empty value are both emitted as a bare name.
pub struct HtmlAttribute {
    pub name: &'static str,
    pub value: Option<String>,
}

/// The priority rank of an attribute name: the fixed priority names come
/// first in their given order, everything else shares the last rank and is
/// ordered lexicographically.
pub open spec fn spec_attr_rank(name: Seq<char>) -> int {
    if name =~= "id"@ { 0 }
    else if name =~= "name"@ { 1 }
    else if name =~= "class"@ { 2 }
    else if name =~= "src"@ { 3 }
    else if name =~= "for"@ { 4 }
    else if name =~= "type"@ { 5 }
    else if name =~= "href"@ { 6 }
    else if name =~= "value"@ { 7 }
    else if name =~= "title"@ { 8 }
    else if name =~= "alt"@ { 9 }
    else if name =~= "role"@ { 10 }
    else { 11 }
}

/// Strict lexicographic order on names, by code point.
pub open spec fn spec_lex_lt(a: Seq<char>, b: Seq<char>) -> bool
    decreases a.len(),
{
    if b.len() == 0 {
        false
    } else if a.len() == 0 {
        true
    } else if (a[0] as u32) < (b[0] as u32) {
        true
    } else if (a[0] as u32) > (b[0] as u32) {
        false
    } else {
        spec_lex_lt(a.skip(1), b.skip(1))
    }
}

/// The strict emission order on attribute names: by priority rank, then
/// lexicographically among the unranked.
pub open spec fn spec_attr_lt(a: Seq<char>, b: Seq<char>) -> bool {
    spec_attr_rank(a) < spec_attr_rank(b) || (spec_attr_rank(a) == spec_attr_rank(b)
        && spec_lex_lt(a, b))
}

fn attr_rank(name: &str) -> (r: u32)
    ensures
        r == spec_attr_rank(name@),
{
    if str_eq(name, "id") { 0 }
    else if str_eq(name, "name") { 1 }
    else if str_eq(name, "class") { 2 }
    else if str_eq(name, "src") { 3 }
    else if str_eq(name, "for") { 4 }
    else if str_eq(name, "type") { 5 }
    else if str_eq(name, "href") { 6 }
    else if str_eq(name, "value") { 7 }
    else if str_eq(name, "title") { 8 }
    else if str_eq(name, "alt") { 9 }
    else if str_eq(name, "role") { 10 }
    else { 11 }
}

fn lex_lt(a: &str, b: &str) -> (r: bool)
    ensures
        r == spec_lex_lt(a@, b@),
{
    let na = a.unicode_len();
    let nb = b.unicode_len();
    let mut i: usize = 0;
    proof {
        assert(a@.skip(0) =~= a@);
        assert(b@.skip(0) =~= b@);
    }
    loop
        invariant
            i <= na,
            i <= nb,
            na == a@.len(),
            nb == b@.len(),
            spec_lex_lt(a@, b@) == spec_lex_lt(a@.skip(i as int), b@.skip(i as int)),
        decreases na - i,
    {
        proof {
            if i < na {
                assert(a@.skip(i as int)[0] == a@[i as int]);
            }
            if i < nb {
                assert(b@.skip(i as int)[0] == b@[i as int]);
            }
        }
        if i >= nb {
            return false;
        }
        if i >= na {
            return true;
        }
        let ca = a.get_char(i) as u32;
        let cb = b.get_char(i) as u32;
        if ca < cb {
            return true;
        }
        if ca > cb {
            return false;
        }
        proof {
            assert(a@.skip(i as int).skip(1) =~= a@.skip(i + 1));
            assert(b@.skip(i as int).skip(1) =~= b@.skip(i + 1));
        }
        i = i + 1;
    }
}

fn attr_lt(a: &str, b: &str) -> (r: bool)
    ensures
        r == spec_attr_lt(a@, b@),
{
    let ra = attr_rank(a);
    let rb = attr_rank(b);
    if ra < rb {
        true
    } else if ra > rb {
        false
    } else {
        lex_lt(a, b)
    }
}

// ---------------------------------------------------------------------------
// The node kinds
// ---------------------------------------------------------------------------

/// Raw passthrough text, emitted byte for byte without escaping.
pub struct RawHtml(pub String);

/// Plain text, HTML-escaped on emission.
pub struct HtmlPlaintext(pub String);

/// An element: a tag, attributes kept in emission order, ordered children,
/// and the inline / preformatted layout flags.
pub struct HtmlElement {
    pub tag: Tag,
    pub attributes: Vec<HtmlAttribute>,
    pub content: Vec<HtmlNode>,
    pub enable_inline: bool,
    pub preformatted_content: bool,
}

/// A link with resolved-on-render title and destination; its displayed
/// content is either given or derived from the link's title.
pub struct LinkText {
    pub link: Link,
    pub title: Option<String>,
    pub content: Option<Box<HtmlNode>>,
}

/// A block-level button navigating to a link.
pub struct LinkButton(pub Link);

/// An inline image referencing a resource.
pub struct Image {
    pub source: Link,
    pub alt_text: String,
    pub title: Option<String>,
}

/// An element together with the style rules it wants registered.
pub struct Component {
    pub content: HtmlElement,
    pub style: Vec<StyleRule>,
}

/// A renderable node: the closed set of kinds the serializer understands.
pub enum HtmlNode {
    Text(HtmlPlaintext),
    Raw(RawHtml),
    Element(HtmlElement),
    Group(Vec<HtmlNode>),
    LinkText(LinkText),
    LinkButton(LinkButton),
    Image(Image),
    Component(Component),
}

// ---------------------------------------------------------------------------
// Element construction
// ---------------------------------------------------------------------------

/// `e` already holds an attribute with this name.
pub open spec fn spec_has_attr(attrs: Seq<HtmlAttribute>, name: Seq<char>) -> bool {
    exists|i: int| 0 <= i < attrs.len() && (#[trigger] attrs[i]).name@ == name
}

/// The attributes stand in strict emission order (which also makes their
/// names pairwise distinct).
pub open spec fn spec_attrs_ordered(attrs: Seq<HtmlAttribute>) -> bool {
    forall|i: int, j: int|
        0 <= i < j < attrs.len() ==> spec_attr_lt(
            (#[trigger] attrs[i]).name@,
            (#[trigger] attrs[j]).name@,
        )
}

impl HtmlElement {
    /// The element's attributes as (name, value) pairs in emission order.
    pub open spec fn spec_attrs(self) -> Seq<HtmlAttribute> {
        self.attributes@
    }

    pub open spec fn wf_attrs(self) -> bool {
        spec_attrs_ordered(self.attributes@)
    }

    pub fn new(tag: Tag) -> (r: HtmlElement)
        ensures
            r.tag == tag,
            r.attributes@ =~= Seq::<HtmlAttribute>::empty(),
            r.content@ =~= Seq::<HtmlNode>::empty(),
            r.enable_inline == false,
            r.preformatted_content == false,
            r.wf_attrs(),
    {
        HtmlElement {
            tag,
            attributes: Vec::new(),
            content: Vec::new(),
            enable_inline: false,
            preformatted_content: false,
        }
    }

    /// Sets an attribute; setting the same name twice is a programming error
    /// and is ruled out by the caller.
    pub fn attribute<S: AttributeValue>(self, attribute_name: &'static str, value: S) -> (r:
        HtmlElement)
        requires
            self.wf_attrs(),
            !spec_has_attr(self.attributes@, attribute_name@),
        ensures
            r.wf_attrs(),
            r.tag == self.tag,
            r.content == self.content,
            r.enable_inline == self.enable_inline,
            r.preformatted_content == self.preformatted_content,
            exists|p: int|
                {
                    &&& 0 <= p <= self.attributes@.len()
                    &&& r.attributes@.len() == self.attributes@.len() + 1
                    &&& (#[trigger] r.attributes@[p]).name == attribute_name
                    &&& match (r.attributes@[p].value, value.spec_value()) {
                        (Option::Some(s), Option::Some(v)) => s@ == v,
                        (Option::None, Option::None) => true,
                        _ => false,
                    }
                    &&& forall|x: int| 0 <= x < p ==> r.attributes@[x] == self.attributes@[x]
                    &&& forall|x: int|
                        p < x < r.attributes@.len() ==> r.attributes@[x] == self.attributes@[x - 1]
                },
            spec_has_attr(r.attributes@, attribute_name@),
    {
        let mut this = self;
        let v = value.into_optional_string();
        let n = this.attributes.len();
        let mut p: usize = 0;
        while p < n
            invariant
                p <= n,
                n == this.attributes@.len(),
                forall|x: int|
                    0 <= x < p ==> spec_attr_lt(
                        (#[trigger] this.attributes@[x]).name@,
                        attribute_name@,
                    ),
            ensures
                p <= n,
                forall|x: int|
                    0 <= x < p ==> spec_attr_lt(
                        (#[trigger] this.attributes@[x]).name@,
                        attribute_name@,
                    ),
                p < n ==> !spec_attr_lt((this.attributes@[p as int]).name@, attribute_name@),
            decreases n - p,
        {
            if !attr_lt(this.attributes[p].name, attribute_name) {
                break ;
            }
            p = p + 1;
        }
        let ghost pre = this.attributes@;
        let attr = HtmlAttribute { name: attribute_name, value: v };
        this.attributes.insert(p, attr);
        proof {
            assert(this.attributes@ == pre.insert(p as int, attr));
            assert(this.attributes@[p as int] == attr);
            assert(forall|x: int| 0 <= x < p ==> this.attributes@[x] == pre[x]);
            assert(forall|x: int|
                p < x < this.attributes@.len() ==> this.attributes@[x] == pre[x - 1]);
            assert(spec_attrs_ordered(this.attributes@)) by {
                assert forall|i: int, j: int|
                    0 <= i < j < this.attributes@.len() implies spec_attr_lt(
                    (#[trigger] this.attributes@[i]).name@,
                    (#[trigger] this.attributes@[j]).name@,
                ) by {
                    assert(forall|x: int| 0 <= x < n ==> pre[x] == #[trigger] self.attributes@[x]);
                    if i == p {
                        // the new attribute comes before everything at and
                        // after the insertion point
                        assert(this.attributes@[j] == pre[j - 1]);
                        assert(p <= j - 1 < n);
                        assert(!spec_attr_lt(pre[p as int].name@, attribute_name@));
                        assert(pre[p as int].name@ != attribute_name@) by {
                            assert(self.attributes@[p as int].name@ != attribute_name@);
                        }
                        lemma_attr_order_total(pre[p as int].name@, attribute_name@);
                        assert(spec_attr_lt(attribute_name@, pre[p as int].name@));
                        if j - 1 > p {
                            assert(spec_attr_lt(
                                (self.attributes@[p as int]).name@,
                                (self.attributes@[j - 1]).name@,
                            ));
                            lemma_attr_lt_trans(
                                attribute_name@,
                                pre[p as int].name@,
                                pre[j - 1].name@,
                            );
                        }
                    } else if j == p {
                        assert(this.attributes@[i] == pre[i]);
                        assert(spec_attr_lt(pre[i].name@, attribute_name@));
                    } else if i < p && j > p {
                        assert(this.attributes@[i] == pre[i]);
                        assert(this.attributes@[j] == pre[j - 1]);
                        assert(spec_attr_lt(pre[i].name@, attribute_name@));
                        if j - 1 == p {
                            assert(!spec_attr_lt(pre[p as int].name@, attribute_name@));
                            assert(pre[p as int].name@ != attribute_name@) by {
                                assert(self.attributes@[p as int].name@ != attribute_name@);
                            }
                            lemma_attr_order_total(pre[p as int].name@, attribute_name@);
                            lemma_attr_lt_trans(pre[i].name@, attribute_name@, pre[j - 1].name@);
                        } else {
                            assert(spec_attr_lt(
                                (self.attributes@[i]).name@,
                                (self.attributes@[j - 1]).name@,
                            ));
                        }
                    } else if j < p {
                        assert(this.attributes@[i] == pre[i]);
                        assert(this.attributes@[j] == pre[j]);
                        assert(spec_attr_lt(
                            (self.attributes@[i]).name@,
                            (self.attributes@[j]).name@,
                        ));
                    } else {
                        assert(this.attributes@[i] == pre[i - 1]);
                        assert(this.attributes@[j] == pre[j - 1]);
                        assert(spec_attr_lt(
                            (self.attributes@[i - 1]).name@,
                            (self.attributes@[j - 1]).name@,
                        ));
                    }
                }
            }
        }
        this
    }

    /// Sets an attribute when a value is given; no value, no attribute.
    pub fn attribute_opt<S: AttributeValue>(
        self,
        attribute_name: &'static str,
        value_opt: Option<S>,
    ) -> (r: HtmlElement)
        requires
            self.wf_attrs(),
            !spec_has_attr(self.attributes@, attribute_name@),
        ensures
            r.wf_attrs(),
            r.tag == self.tag,
            r.content == self.content,
            r.enable_inline == self.enable_inline,
            r.preformatted_content == self.preformatted_content,
            value_opt is None ==> r == self,
            value_opt is Some ==> exists|p: int|
                {
                    &&& 0 <= p <= self.attributes@.len()
                    &&& r.attributes@.len() == self.attributes@.len() + 1
                    &&& (#[trigger] r.attributes@[p]).name == attribute_name
                    &&& match (r.attributes@[p].value, value_opt.unwrap().spec_value()) {
                        (Option::Some(s), Option::Some(v)) => s@ == v,
                        (Option::None, Option::None) => true,
                        _ => false,
                    }
                    &&& forall|x: int| 0 <= x < p ==> r.attributes@[x] == self.attributes@[x]
                    &&& forall|x: int|
                        p < x < r.attributes@.len() ==> r.attributes@[x] == self.attributes@[x - 1]
                },
    {
        match value_opt {
            Some(value) => self.attribute(attribute_name, value),
            None => self,
        }
    }

    /// Appends a child. Void elements cannot take content; handing one
    /// content is a programming error and is ruled out by the caller.
    pub fn content(self, content: HtmlNode) -> (r: HtmlElement)
        requires
            !self.tag.is_void,
        ensures
            r.tag == self.tag,
            r.attributes == self.attributes,
            r.enable_inline == self.enable_inline,
            r.preformatted_content == self.preformatted_content,
            r.content@ == self.content@.push(content),
    {
        let mut this = self;
        this.content.push(content);
        this
    }

    /// Appends a child when one is given.
    pub fn content_opt(self, content_opt: Option<HtmlNode>) -> (r: HtmlElement)
        requires
            !self.tag.is_void,
        ensures
            r.tag == self.tag,
            r.attributes == self.attributes,
            r.enable_inline == self.enable_inline,
            r.preformatted_content == self.preformatted_content,
            r.content@ == match content_opt {
                Option::Some(c) => self.content@.push(c),
                Option::None => self.content@,
            },
    {
        match content_opt {
            Some(content) => self.content(content),
            None => self,
        }
    }

    /// Marks the element as inline-capable (or not).
    pub fn inline(self, can_inline: bool) -> (r: HtmlElement)
        ensures
            r == (HtmlElement { enable_inline: can_inline, ..self }),
    {
        let mut this = self;
        this.enable_inline = can_inline;
        this
    }

    /// Forces all descendants into verbatim layout.
    pub fn preformatted_content(self, preformatted: bool) -> (r: HtmlElement)
        ensures
            r == (HtmlElement { preformatted_content: preformatted, ..self }),
    {
        let mut this = self;
        this.preformatted_content = preformatted;
        this
    }
}

/// The emission order is total: two names are ordered one way or the other,
/// unless they are the same name.
pub proof fn lemma_attr_order_total(a: Seq<char>, b: Seq<char>)
    ensures
        spec_attr_lt(a, b) || spec_attr_lt(b, a) || a == b,
    decreases a.len(),
{
    lemma_lex_total(a, b);
    if spec_attr_rank(a) == spec_attr_rank(b) && spec_attr_rank(a) < 11 {
        assert(a =~= b);
    }
}

pub proof fn lemma_lex_total(a: Seq<char>, b: Seq<char>)
    ensures
        spec_lex_lt(a, b) || spec_lex_lt(b, a) || a == b,
    decreases a.len(),
{
    if b.len() == 0 {
        if a.len() == 0 {
            assert(a =~= b);
        }
    } else if a.len() == 0 {
    } else if (a[0] as u32) < (b[0] as u32) {
    } else if (a[0] as u32) > (b[0] as u32) {
    } else {
        lemma_lex_total(a.skip(1), b.skip(1));
        assert(a[0] == b[0]) by {
            crate::strutil::lemma_char_code_injective(a[0], b[0]);
        }
        if a.skip(1) == b.skip(1) {
            assert(a =~= seq![a[0]] + a.skip(1));
            assert(b =~= seq![b[0]] + b.skip(1));
        }
    }
}

/// The emission order is transitive.
pub proof fn lemma_attr_lt_trans(a: Seq<char>, b: Seq<char>, c: Seq<char>)
    requires
        spec_attr_lt(a, b),
        spec_attr_lt(b, c),
    ensures
        spec_attr_lt(a, c),
{
    if spec_attr_rank(a) == spec_attr_rank(b) && spec_attr_rank(b) == spec_attr_rank(c) {
        lemma_lex_trans(a, b, c);
    }
}

pub proof fn lemma_lex_trans(a: Seq<char>, b: Seq<char>, c: Seq<char>)
    requires
        spec_lex_lt(a, b),
        spec_lex_lt(b, c),
    ensures
        spec_lex_lt(a, c),
    decreases a.len() + b.len() + c.len(),
{
    if b.len() == 0 {
    } else if a.len() == 0 {
        assert(c.len() > 0);
    } else {
        assert(c.len() > 0);
        if (a[0] as u32) < (b[0] as u32) {
            if (b[0] as u32) <= (c[0] as u32) {
            }
        } else {
            assert((a[0] as u32) == (b[0] as u32));
            if (b[0] as u32) < (c[0] as u32) {
            } else {
                assert((b[0] as u32) == (c[0] as u32));
                lemma_lex_trans(a.skip(1), b.skip(1), c.skip(1));
            }
        }
    }
}

// ---------------------------------------------------------------------------
// Inline determination
// ---------------------------------------------------------------------------

/// A node is inline iff it can be emitted without forcing block layout:
/// leaf text without a line break, an inline-capable element or styled
/// component all of whose children are inline, a group all of whose members
/// are inline, a link whose displayed content is inline, or an image.
/// Block-level link buttons never are.
pub open spec fn spec_is_inline(n: HtmlNode, titles: TitleTable) -> bool
    decreases n,
{
    match n {
        HtmlNode::Text(t) => !t.0@.contains('\n'),
        HtmlNode::Raw(r) => !r.0@.contains('\n'),
        HtmlNode::Element(e) => e.enable_inline && spec_all_inline(e.content@, titles),
        HtmlNode::Group(g) => spec_all_inline(g@, titles),
        HtmlNode::LinkText(l) => match l.content {
            Option::Some(c) => spec_is_inline(*c, titles),
            Option::None => !spec_link_title(l.link, titles).unwrap().contains('\n'),
        },
        HtmlNode::LinkButton(_) => false,
        HtmlNode::Image(_) => true,
        HtmlNode::Component(c) => c.content.enable_inline && spec_all_inline(
            c.content.content@,
            titles,
        ),
    }
}

/// Every member of a sibling list is inline.
pub open spec fn spec_all_inline(items: Seq<HtmlNode>, titles: TitleTable) -> bool
    decreases items,
{
    if items.len() == 0 {
        true
    } else {
        spec_is_inline(items[0], titles) && spec_all_inline(items.skip(1), titles)
    }
}

/// Inline composition: a sibling group is inline exactly when every member
/// is, so turning any one member block-level turns the group block-level.
pub proof fn lemma_inline_composition(items: Seq<HtmlNode>, titles: TitleTable)
    ensures
        spec_all_inline(items, titles) <==> (forall|i: int|
            0 <= i < items.len() ==> spec_is_inline(#[trigger] items[i], titles)),
    decreases items.len(),
{
    if items.len() > 0 {
        lemma_inline_composition(items.skip(1), titles);
        assert(forall|i: int| 0 <= i < items.skip(1).len() ==> items.skip(1)[i] == items[i + 1]);
        if spec_is_inline(items[0], titles) && spec_all_inline(items.skip(1), titles) {
            assert(forall|i: int|
                1 <= i < items.len() ==> spec_is_inline(#[trigger] items[i], titles)) by {
                assert(forall|i: int|
                    1 <= i < items.len() ==> items[i] == items.skip(1)[i - 1]);
            }
        }
        if forall|i: int| 0 <= i < items.len() ==> spec_is_inline(#[trigger] items[i], titles) {
            assert(forall|i: int|
                0 <= i < items.skip(1).len() ==> spec_is_inline(
                    #[trigger] items.skip(1)[i],
                    titles,
                ));
        }
    }
}

/// Every contentless link in the tree can resolve the title it displays.
pub open spec fn spec_titles_ok(n: HtmlNode, titles: TitleTable) -> bool
    decreases n,
{
    match n {
        HtmlNode::Text(_) => true,
        HtmlNode::Raw(_) => true,
        HtmlNode::Element(e) => spec_list_titles_ok(e.content@, titles),
        HtmlNode::Group(g) => spec_list_titles_ok(g@, titles),
        HtmlNode::LinkText(l) => match l.content {
            Option::Some(c) => spec_titles_ok(*c, titles),
            Option::None => spec_link_title(l.link, titles) is Some,
        },
        HtmlNode::LinkButton(_) => true,
        HtmlNode::Image(_) => true,
        HtmlNode::Component(c) => spec_list_titles_ok(c.content.content@, titles),
    }
}

pub open spec fn spec_list_titles_ok(items: Seq<HtmlNode>, titles: TitleTable) -> bool
    decreases items,
{
    if items.len() == 0 {
        true
    } else {
        spec_titles_ok(items[0], titles) && spec_list_titles_ok(items.skip(1), titles)
    }
}

impl HtmlNode {
    /// Whether this node can be laid out inline. Contexts matter: a link
    /// without explicit content displays its resolved title, so the caller
    /// guarantees those titles resolve.
    pub fn is_inline(&self, context: &WebsiteRenderContext) -> (r: bool)
        requires
            spec_titles_ok(*self, context.document_titles),
        ensures
            r == spec_is_inline(*self, context.document_titles),
        decreases *self,
    {
        match self {
            HtmlNode::Text(t) => !contains_newline(t.0.as_str()),
            HtmlNode::Raw(r) => !contains_newline(r.0.as_str()),
            HtmlNode::Element(e) => e.enable_inline && all_inline(&e.content, context),
            HtmlNode::Group(g) => all_inline(g, context),
            HtmlNode::LinkText(l) => match &l.content {
                Some(c) => c.is_inline(context),
                None => {
                    let title = match context.resolve_link_title(&l.link) {
                        Ok(t) => t,
                        Err(_) => {
                            proof {
                                assert(false);
                            }
                            String::new()
                        },
                    };
                    !contains_newline(title.as_str())
                },
            },
            HtmlNode::LinkButton(_) => false,
            HtmlNode::Image(_) => true,
            HtmlNode::Component(c) => c.content.enable_inline && all_inline(
                &c.content.content,
                context,
            ),
        }
    }
}

/// Whether every node of a sibling list is inline.
pub fn all_inline(items: &Vec<HtmlNode>, context: &WebsiteRenderContext) -> (r: bool)
    requires
        spec_list_titles_ok(items@, context.document_titles),
    ensures
        r == spec_all_inline(items@, context.document_titles),
    decreases items@,
{
    let n = items.len();
    let mut i: usize = 0;
    proof {
        assert(items@.skip(0) =~= items@);
    }
    while i < n
        invariant
            i <= n,
            n == items@.len(),
            spec_list_titles_ok(items@, context.document_titles),
            spec_all_inline(items@, context.document_titles) == spec_all_inline(
                items@.skip(i as int),
                context.document_titles,
            ),
        decreases n - i,
    {
        proof {
            lemma_list_titles_ok_index(items@, context.document_titles, i as int);
            assert(items@.skip(i as int)[0] == items@[i as int]);
            assert(items@.skip(i as int).skip(1) =~= items@.skip(i + 1));
        }
        if !items[i].is_inline(context) {
            return false;
        }
        i = i + 1;
    }
    proof {
        assert(items@.skip(n as int) =~= Seq::<HtmlNode>::empty());
    }
    true
}

/// Title resolvability descends to each member of a sibling list.
pub proof fn lemma_list_titles_ok_index(items: Seq<HtmlNode>, titles: TitleTable, i: int)
    requires
        spec_list_titles_ok(items, titles),
        0 <= i < items.len(),
    ensures
        spec_titles_ok(items[i], titles),
    decreases i,
{
    if i == 0 {
    } else {
        assert(items.skip(1)[i - 1] == items[i]);
        lemma_list_titles_ok_index(items.skip(1), titles, i - 1);
    }
}

// ---------------------------------------------------------------------------
// Serialization, as a mathematical function of the tree and the context
// ---------------------------------------------------------------------------

/// The registration handle of the style every link button registers.
pub const LINK_BUTTON_STYLE_HANDLE: u64 = 1;

/// The href a link resolves to: a custom link's literal destination, an id
/// link's shortest relative path from the current page.
pub open spec fn spec_href_of(l: Link, routes: SegTable, current: Seq<char>) -> Seq<char> {
    match link_view(l) {
        LinkView::Custom { destination, .. } => destination,
        LinkView::ID(id) => crate::routes::spec_relative_href(
            routes.spec_get(current).unwrap(),
            routes.spec_get(id).unwrap(),
        ),
    }
}

/// A link's route references resolve: custom links always do, id links need
/// the current page and the target in the route table.
pub open spec fn spec_link_routes_ok(l: Link, routes: SegTable, current: Seq<char>) -> bool {
    match link_view(l) {
        LinkView::Custom { .. } => true,
        LinkView::ID(id) => routes.spec_contains(current) && routes.spec_contains(id),
    }
}

/// Every link in the tree can be resolved: titles for displayed link text,
/// routes for each href.
pub open spec fn spec_links_ok(
    n: HtmlNode,
    titles: TitleTable,
    routes: SegTable,
    current: Seq<char>,
) -> bool
    decreases n, 2int,
{
    match n {
        HtmlNode::Text(_) => true,
        HtmlNode::Raw(_) => true,
        HtmlNode::Element(e) => spec_list_links_ok(e.content@, titles, routes, current),
        HtmlNode::Group(g) => spec_list_links_ok(g@, titles, routes, current),
        HtmlNode::LinkText(l) => {
            &&& spec_link_title(l.link, titles) is Some
            &&& spec_link_routes_ok(l.link, routes, current)
            &&& match l.content {
                Option::Some(c) => spec_links_ok(*c, titles, routes, current),
                Option::None => true,
            }
        },
        HtmlNode::LinkButton(b) => {
            &&& spec_link_title(b.0, titles) is Some
            &&& spec_link_routes_ok(b.0, routes, current)
        },
        HtmlNode::Image(img) => spec_link_routes_ok(img.source, routes, current),
        HtmlNode::Component(c) => spec_list_links_ok(c.content.content@, titles, routes, current),
    }
}

pub open spec fn spec_list_links_ok(
    items: Seq<HtmlNode>,
    titles: TitleTable,
    routes: SegTable,
    current: Seq<char>,
) -> bool
    decreases items, 1int,
{
    if items.len() == 0 {
        true
    } else {
        spec_links_ok(items[0], titles, routes, current) && spec_list_links_ok(
            items.skip(1),
            titles,
            routes,
            current,
        )
    }
}

/// Link resolvability implies title resolvability.
pub proof fn lemma_links_ok_titles_ok(
    n: HtmlNode,
    titles: TitleTable,
    routes: SegTable,
    current: Seq<char>,
)
    requires
        spec_links_ok(n, titles, routes, current),
    ensures
        spec_titles_ok(n, titles),
    decreases n, 2int,
{
    match n {
        HtmlNode::Element(e) => {
            lemma_list_links_ok_titles_ok(e.content@, titles, routes, current);
        },
        HtmlNode::Group(g) => {
            lemma_list_links_ok_titles_ok(g@, titles, routes, current);
        },
        HtmlNode::LinkText(l) => {
            match l.content {
                Option::Some(c) => {
                    lemma_links_ok_titles_ok(*c, titles, routes, current);
                },
                Option::None => {},
            }
        },
        HtmlNode::Component(c) => {
            lemma_list_links_ok_titles_ok(c.content.content@, titles, routes, current);
        },
        _ => {},
    }
}

pub proof fn lemma_list_links_ok_titles_ok(
    items: Seq<HtmlNode>,
    titles: TitleTable,
    routes: SegTable,
    current: Seq<char>,
)
    requires
        spec_list_links_ok(items, titles, routes, current),
    ensures
        spec_list_titles_ok(items, titles),
    decreases items, 1int,
{
    if items.len() > 0 {
        lemma_links_ok_titles_ok(items[0], titles, routes, current);
        lemma_list_links_ok_titles_ok(items.skip(1), titles, routes, current);
    }
}

/// One attribute's text: ` name="escaped-value"`, or the bare ` name` when
/// the value is absent or empty.
pub open spec fn spec_attr_pair(name: Seq<char>, v: Option<Seq<char>>) -> Seq<char> {
    match v {
        Option::Some(s) => if s.len() > 0 {
            seq![' '] + name + seq!['=', '"'] + crate::escape::escape_attr_chars(s) + seq!['"']
        } else {
            seq![' '] + name
        },
        Option::None => seq![' '] + name,
    }
}

/// All attributes, in stored (emission) order.
pub open spec fn spec_attrs_text(attrs: Seq<HtmlAttribute>) -> Seq<char>
    decreases attrs.len(),
{
    if attrs.len() == 0 {
        Seq::empty()
    } else {
        spec_attr_pair(
            attrs[0].name@,
            match attrs[0].value {
                Option::Some(s) => Option::Some(s@),
                Option::None => Option::None,
            },
        ) + spec_attrs_text(attrs.skip(1))
    }
}

/// The position of the first line feed, or the length if there is none.
pub open spec fn spec_find_nl(txt: Seq<char>) -> int
    decreases txt.len(),
{
    if txt.len() == 0 {
        0
    } else if txt[0] == '\n' {
        0
    } else {
        1 + spec_find_nl(txt.skip(1))
    }
}

/// One trailing carriage return removed, as a line iterator does.
pub open spec fn spec_strip_cr(line: Seq<char>) -> Seq<char> {
    if line.len() > 0 && line.last() == '\r' {
        line.drop_last()
    } else {
        line
    }
}

/// Pretty text layout: the text's lines joined by a newline plus the current
/// indent prefix, with a trailing line terminator dropped.
pub open spec fn spec_pretty_text(txt: Seq<char>, prefix: Seq<char>) -> Seq<char>
    decreases txt.len(),
{
    if txt.len() == 0 {
        Seq::empty()
    } else {
        let i = spec_find_nl(txt);
        if i < 0 || i >= txt.len() {
            spec_strip_cr(txt)
        } else if i == txt.len() - 1 {
            spec_strip_cr(txt.take(i))
        } else {
            spec_strip_cr(txt.take(i)) + seq!['\n'] + prefix + spec_pretty_text(
                txt.skip(i + 1),
                prefix,
            )
        }
    }
}

/// Four spaces: one level of indentation.
pub open spec fn spec_sp4() -> Seq<char> {
    seq![' ', ' ', ' ', ' ']
}

/// The indent prefix a format starts serialization with: four spaces per
/// depth level, nothing in verbatim layout.
pub open spec fn spec_format_prefix(format: HtmlFormat) -> Seq<char> {
    match format {
        HtmlFormat::Indent(d) => Seq::new((4 * d) as nat, |i: int| ' '),
        HtmlFormat::Preformatted => Seq::empty(),
    }
}

/// Escaped plain text under the ambient layout.
pub open spec fn spec_render_text(txt: Seq<char>, pre: bool, prefix: Seq<char>) -> Seq<char> {
    if pre {
        crate::escape::escaped_text(txt)
    } else {
        spec_pretty_text(crate::escape::escaped_text(txt), prefix)
    }
}

/// The serialized form of an element, over its parts.
pub open spec fn spec_render_element(
    tag: Tag,
    attrs: Seq<HtmlAttribute>,
    children: Seq<HtmlNode>,
    enable_inline: bool,
    preformatted: bool,
    pre: bool,
    prefix: Seq<char>,
    titles: TitleTable,
    routes: SegTable,
    current: Seq<char>,
) -> Seq<char>
    decreases children, 1int,
{
    let open_tag = seq!['<'] + tag.name@ + spec_attrs_text(attrs) + seq!['>'];
    let close_tag = seq!['<', '/'] + tag.name@ + seq!['>'];
    if tag.is_void {
        open_tag
    } else if children.len() == 0 {
        open_tag + close_tag
    } else {
        let will_inline = enable_inline && spec_all_inline(children, titles);
        if !pre && !will_inline && !preformatted {
            open_tag + seq!['\n'] + prefix + spec_sp4() + spec_render_list(
                children,
                false,
                prefix + spec_sp4(),
                titles,
                routes,
                current,
            ) + seq!['\n'] + prefix + close_tag
        } else {
            open_tag + spec_render_list(
                children,
                pre || preformatted,
                prefix,
                titles,
                routes,
                current,
            ) + close_tag
        }
    }
}

/// The members of a sibling list, concatenated with nothing between them.
pub open spec fn spec_render_list(
    items: Seq<HtmlNode>,
    pre: bool,
    prefix: Seq<char>,
    titles: TitleTable,
    routes: SegTable,
    current: Seq<char>,
) -> Seq<char>
    decreases items, 0int,
{
    if items.len() == 0 {
        Seq::empty()
    } else {
        spec_render(items[0], pre, prefix, titles, routes, current) + spec_render_list(
            items.skip(1),
            pre,
            prefix,
            titles,
            routes,
            current,
        )
    }
}

/// The members of a sibling list with a newline and the indent prefix
/// between consecutive members.
pub open spec fn spec_render_sep(
    items: Seq<HtmlNode>,
    prefix: Seq<char>,
    titles: TitleTable,
    routes: SegTable,
    current: Seq<char>,
) -> Seq<char>
    decreases items, 0int,
{
    if items.len() == 0 {
        Seq::empty()
    } else if items.len() == 1 {
        spec_render(items[0], false, prefix, titles, routes, current)
    } else {
        spec_render(items[0], false, prefix, titles, routes, current) + seq!['\n'] + prefix
            + spec_render_sep(items.skip(1), prefix, titles, routes, current)
    }
}

/// The serialized form of an anchor element around one child, as links and
/// link buttons emit it.
pub open spec fn spec_render_anchor(
    attrs_text: Seq<char>,
    child_text_block: Seq<char>,
    child_text_flat: Seq<char>,
    child_inline: bool,
    pre: bool,
    prefix: Seq<char>,
) -> Seq<char> {
    let open_tag = seq!['<', 'a'] + attrs_text + seq!['>'];
    let close_tag = seq!['<', '/', 'a', '>'];
    if !pre && !child_inline {
        open_tag + seq!['\n'] + prefix + spec_sp4() + child_text_block + seq!['\n'] + prefix
            + close_tag
    } else {
        open_tag + child_text_flat + close_tag
    }
}

/// What serializing a node appends to the output, given the ambient layout
/// (verbatim, or pretty with an indent prefix) and the context's titles,
/// routes and current page. Defined for trees whose links resolve.
pub open spec fn spec_render(
    n: HtmlNode,
    pre: bool,
    prefix: Seq<char>,
    titles: TitleTable,
    routes: SegTable,
    current: Seq<char>,
) -> Seq<char>
    decreases n, 2int,
{
    match n {
        HtmlNode::Text(t) => spec_render_text(t.0@, pre, prefix),
        HtmlNode::Raw(r) => r.0@,
        HtmlNode::Element(e) => spec_render_element(
            e.tag,
            e.attributes@,
            e.content@,
            e.enable_inline,
            e.preformatted_content,
            pre,
            prefix,
            titles,
            routes,
            current,
        ),
        HtmlNode::Group(g) => if pre || spec_all_inline(g@, titles) {
            spec_render_list(g@, pre, prefix, titles, routes, current)
        } else {
            spec_render_sep(g@, prefix, titles, routes, current)
        },
        HtmlNode::LinkText(l) => {
            let href = spec_href_of(l.link, routes, current);
            let attrs_text = spec_attr_pair("href"@, Option::Some(href)) + (match l.title {
                Option::Some(t) => spec_attr_pair("title"@, Option::Some(t@)),
                Option::None => Seq::<char>::empty(),
            });
            match l.content {
                Option::Some(c) => spec_render_anchor(
                    attrs_text,
                    spec_render(*c, false, prefix + spec_sp4(), titles, routes, current),
                    spec_render(*c, pre, prefix, titles, routes, current),
                    spec_is_inline(*c, titles),
                    pre,
                    prefix,
                ),
                Option::None => {
                    let ttl = spec_link_title(l.link, titles).unwrap();
                    spec_render_anchor(
                        attrs_text,
                        spec_render_text(ttl, false, prefix + spec_sp4()),
                        spec_render_text(ttl, pre, prefix),
                        !ttl.contains('\n'),
                        pre,
                        prefix,
                    )
                },
            }
        },
        HtmlNode::LinkButton(b) => {
            let href = spec_href_of(b.0, routes, current);
            let ttl = spec_link_title(b.0, titles).unwrap();
            let attrs_text = spec_attr_pair("class"@, Option::Some("link-button"@))
                + spec_attr_pair("href"@, Option::Some(href));
            spec_render_anchor(
                attrs_text,
                spec_render_text(ttl, false, prefix + spec_sp4()),
                spec_render_text(ttl, pre, prefix),
                !ttl.contains('\n'),
                pre,
                prefix,
            )
        },
        HtmlNode::Image(img) => {
            let href = spec_href_of(img.source, routes, current);
            seq!['<', 'i', 'm', 'g'] + spec_attr_pair("src"@, Option::Some(href)) + (
            match img.title {
                Option::Some(t) => spec_attr_pair("title"@, Option::Some(t@)),
                Option::None => Seq::<char>::empty(),
            }) + spec_attr_pair("alt"@, Option::Some(img.alt_text@)) + seq!['>']
        },
        HtmlNode::Component(c) => spec_render_element(
            c.content.tag,
            c.content.attributes@,
            c.content.content@,
            c.content.enable_inline,
            c.content.preformatted_content,
            pre,
            prefix,
            titles,
            routes,
            current,
        ),
    }
}

/// The style-registration handles a node's serialization runs through, in
/// traversal order.
pub open spec fn spec_style_handles(n: HtmlNode) -> Seq<u64>
    decreases n, 1int,
{
    match n {
        HtmlNode::Text(_) => Seq::empty(),
        HtmlNode::Raw(_) => Seq::empty(),
        HtmlNode::Element(e) => if e.tag.is_void {
            Seq::empty()
        } else {
            spec_style_handles_list(e.content@)
        },
        HtmlNode::Group(g) => spec_style_handles_list(g@),
        HtmlNode::LinkText(l) => match l.content {
            Option::Some(c) => spec_style_handles(*c),
            Option::None => Seq::empty(),
        },
        HtmlNode::LinkButton(_) => seq![LINK_BUTTON_STYLE_HANDLE],
        HtmlNode::Image(_) => Seq::empty(),
        HtmlNode::Component(c) => c.style@.map_values(|r: StyleRule| r.handle) + (
        if c.content.tag.is_void {
            Seq::<u64>::empty()
        } else {
            spec_style_handles_list(c.content.content@)
        }),
    }
}

pub open spec fn spec_style_handles_list(items: Seq<HtmlNode>) -> Seq<u64>
    decreases items, 0int,
{
    if items.len() == 0 {
        Seq::empty()
    } else {
        spec_style_handles(items[0]) + spec_style_handles_list(items.skip(1))
    }
}

/// What a run of registrations does to the sequence of registered handles:
/// each new handle is appended, each already-present one is skipped.
pub open spec fn spec_register_handles(hs: Seq<u64>, new: Seq<u64>) -> Seq<u64>
    decreases new.len(),
{
    if new.len() == 0 {
        hs
    } else {
        spec_register_handles(
            if hs.contains(new[0]) {
                hs
            } else {
                hs.push(new[0])
            },
            new.skip(1),
        )
    }
}

/// Registration of a concatenation is registration of the parts in turn.
pub proof fn lemma_register_handles_concat(hs: Seq<u64>, s1: Seq<u64>, s2: Seq<u64>)
    ensures
        spec_register_handles(hs, s1 + s2) == spec_register_handles(
            spec_register_handles(hs, s1),
            s2,
        ),
    decreases s1.len(),
{
    if s1.len() == 0 {
        assert(s1 + s2 =~= s2);
    } else {
        assert((s1 + s2)[0] == s1[0]);
        assert((s1 + s2).skip(1) =~= s1.skip(1) + s2);
        let step = if hs.contains(s1[0]) {
            hs
        } else {
            hs.push(s1[0])
        };
        lemma_register_handles_concat(step, s1.skip(1), s2);
    }
}

/// Whether a string holds a line break.
pub fn contains_newline(s: &str) -> (r: bool)
    ensures
        r == s@.contains('\n'),
{
    let n = s.unicode_len();
    let mut i: usize = 0;
    while i < n
        invariant
            i <= n,
            n == s@.len(),
            forall|x: int| 0 <= x < i ==> s@[x] != '\n',
        decreases n - i,
    {
        if s.get_char(i) == '\n' {
            return true;
        }
        i = i + 1;
    }
    proof {
        if s@.contains('\n') {
            let x = choose|x: int| 0 <= x < s@.len() && s@[x] == '\n';
        }
    }
    false
}

} // verus!

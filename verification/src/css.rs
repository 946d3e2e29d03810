//! The style registry: imports and style rules are collected during
//! rendering, deduplicated in first-registration order, and written once as
//! the shared stylesheet. Rules are keyed by a registration handle standing
//! for the identity of the rule's generator, and two distinct rules may not
//! share a (media query, selector) pair.

use vstd::prelude::*;
use crate::strutil::push_char;

verus! {

/// The CSS conditional wrapper under which a rule applies.
pub enum CSSQuery {
    Plain,
    Media(&'static str),
}

impl Clone for CSSQuery {
    fn clone(&self) -> (r: Self)
        ensures
            r == *self,
    {
        match self {
            CSSQuery::Plain => CSSQuery::Plain,
            CSSQuery::Media(m) => CSSQuery::Media(m),
        }
    }
}

impl Copy for CSSQuery {

}

/// The mathematical content of a query.
pub enum QueryView {
    Plain,
    Media(Seq<char>),
}

pub open spec fn query_view(q: CSSQuery) -> QueryView {
    match q {
        CSSQuery::Plain => QueryView::Plain,
        CSSQuery::Media(m) => QueryView::Media(m@),
    }
}

/// One style rule: a registration handle standing for the identity of the
/// generator that produced it, the query scope, the selector, and the
/// declarations.
pub struct StyleRule {
    pub handle: u64,
    pub query: CSSQuery,
    pub selector: &'static str,
    pub declarations: Vec<&'static str>,
}

/// The (scope, selector) pair that identifies a rule in the output.
pub open spec fn spec_rule_key(r: StyleRule) -> (QueryView, Seq<char>) {
    (query_view(r.query), r.selector@)
}

// ---------------------------------------------------------------------------
// Trusted view of indexmap's insertion-ordered sets
// ---------------------------------------------------------------------------

#[verifier::external_type_specification]
#[verifier::external_body]
#[verifier::reject_recursive_types(T)]
#[verifier::reject_recursive_types(S)]
pub struct ExIndexSet<T, S>(indexmap::IndexSet<T, S>);

/// The elements an import set holds, in insertion order.
pub uninterp spec fn import_set_elems(s: indexmap::IndexSet<String>) -> Seq<Seq<char>>;

/// The elements a handle set holds, in insertion order.
pub uninterp spec fn handle_set_elems(s: indexmap::IndexSet<u64>) -> Seq<u64>;

/// Relies on indexmap's `IndexSet::new`: creates an empty set.
#[verifier::external_body]
fn import_set_new() -> (r: indexmap::IndexSet<String>)
    ensures
        import_set_elems(r) == Seq::<Seq<char>>::empty(),
{
    indexmap::IndexSet::new()
}

/// Relies on indexmap's `IndexSet::insert`: a new value is appended at the
/// end, an existing one is left in place with its insertion order unchanged,
/// and the call reports whether the value was new.
#[verifier::external_body]
fn import_set_insert(s: &mut indexmap::IndexSet<String>, v: String) -> (r: bool)
    ensures
        r == !import_set_elems(*old(s)).contains(v@),
        import_set_elems(*final(s)) == if import_set_elems(*old(s)).contains(v@) {
            import_set_elems(*old(s))
        } else {
            import_set_elems(*old(s)).push(v@)
        },
{
    s.insert(v)
}

/// Relies on indexmap's `IndexSet::len`: the number of elements held.
#[verifier::external_body]
fn import_set_len(s: &indexmap::IndexSet<String>) -> (r: usize)
    ensures
        r == import_set_elems(*s).len(),
{
    s.len()
}

/// Relies on indexmap's `IndexSet::get_index`: the element at a valid
/// position in insertion order.
#[verifier::external_body]
fn import_set_get(s: &indexmap::IndexSet<String>, i: usize) -> (r: &String)
    requires
        i < import_set_elems(*s).len(),
    ensures
        r@ == import_set_elems(*s)[i as int],
{
    s.get_index(i).unwrap()
}

/// Relies on indexmap's `IndexSet::new`: creates an empty set.
#[verifier::external_body]
fn handle_set_new() -> (r: indexmap::IndexSet<u64>)
    ensures
        handle_set_elems(r) == Seq::<u64>::empty(),
{
    indexmap::IndexSet::new()
}

/// Relies on indexmap's `IndexSet::insert`: a new value is appended at the
/// end, an existing one is left in place, and the call reports whether the
/// value was new.
#[verifier::external_body]
fn handle_set_insert(s: &mut indexmap::IndexSet<u64>, v: u64) -> (r: bool)
    ensures
        r == !handle_set_elems(*old(s)).contains(v),
        handle_set_elems(*final(s)) == if handle_set_elems(*old(s)).contains(v) {
            handle_set_elems(*old(s))
        } else {
            handle_set_elems(*old(s)).push(v)
        },
{
    s.insert(v)
}

// ---------------------------------------------------------------------------
// The registry
// ---------------------------------------------------------------------------

/// What one registration does to the rule list: a rule under a handle that is
/// already present changes nothing, any other rule is appended.
pub open spec fn spec_register(rules: Seq<StyleRule>, rule: StyleRule) -> Seq<StyleRule> {
    if rules.map_values(|r: StyleRule| r.handle).contains(rule.handle) {
        rules
    } else {
        rules.push(rule)
    }
}

/// Registering the same rule twice yields the same registry as registering it
/// once: the second registration is a no-op, and the first-seen rule keeps
/// its position.
pub proof fn lemma_register_idempotent(rules: Seq<StyleRule>, rule: StyleRule)
    ensures
        spec_register(spec_register(rules, rule), rule) == spec_register(rules, rule),
{
    let once = spec_register(rules, rule);
    if rules.map_values(|r: StyleRule| r.handle).contains(rule.handle) {
    } else {
        assert(once == rules.push(rule));
        assert(once.map_values(|r: StyleRule| r.handle)[rules.len() as int] == rule.handle);
        assert(once.map_values(|r: StyleRule| r.handle).contains(rule.handle));
    }
}

/// Why writing the stylesheet failed: two distinct registered rules claimed
/// the same (query, selector) pair.
pub enum CSSError {
    DuplicateSelector { selector: &'static str },
}

pub struct CSSBuilder {
    pub imports: indexmap::IndexSet<String>,
    pub handles: indexmap::IndexSet<u64>,
    pub rules: Vec<StyleRule>,
}

impl CSSBuilder {
    /// The imports collected so far, in first-registration order.
    pub open spec fn spec_imports(self) -> Seq<Seq<char>> {
        import_set_elems(self.imports)
    }

    /// The rules collected so far, in first-registration order.
    pub open spec fn spec_rules(self) -> Seq<StyleRule> {
        self.rules@
    }

    /// The registry holds each import and each rule handle once.
    pub open spec fn wf(self) -> bool {
        &&& handle_set_elems(self.handles) == self.rules@.map_values(|r: StyleRule| r.handle)
        &&& forall|i: int, j: int|
            0 <= i < j < self.spec_imports().len() ==> self.spec_imports()[i]
                != self.spec_imports()[j]
        &&& forall|i: int, j: int|
            0 <= i < j < self.rules@.len() ==> (#[trigger] self.rules@[i]).handle
                != (#[trigger] self.rules@[j]).handle
    }

    pub fn new() -> (r: CSSBuilder)
        ensures
            r.wf(),
            r.spec_imports() == Seq::<Seq<char>>::empty(),
            r.spec_rules() =~= Seq::<StyleRule>::empty(),
    {
        let r = CSSBuilder {
            imports: import_set_new(),
            handles: handle_set_new(),
            rules: Vec::new(),
        };
        proof {
            assert(handle_set_elems(r.handles) =~= r.rules@.map_values(|ru: StyleRule| ru.handle));
        }
        r
    }

    /// Adds an import; adding the same text again is a no-op.
    pub fn import(&mut self, source: String)
        requires
            old(self).wf(),
        ensures
            final(self).wf(),
            final(self).spec_rules() == old(self).spec_rules(),
            final(self).spec_imports() == if old(self).spec_imports().contains(source@) {
                old(self).spec_imports()
            } else {
                old(self).spec_imports().push(source@)
            },
    {
        let ghost pre = import_set_elems(self.imports);
        proof {
            assert(pre == old(self).spec_imports());
        }
        let was_new = import_set_insert(&mut self.imports, source);
        proof {
            assert(final(self).spec_rules() == old(self).spec_rules());
            assert(handle_set_elems(self.handles) == self.rules@.map_values(
                |r: StyleRule| r.handle,
            ));
            if !pre.contains(source@) {
                assert(self.spec_imports() == pre.push(source@));
                assert forall|i: int, j: int|
                    0 <= i < j < self.spec_imports().len() implies self.spec_imports()[i]
                    != self.spec_imports()[j] by {
                    if j < pre.len() {
                        assert(old(self).spec_imports()[i] != old(self).spec_imports()[j]);
                    } else {
                        assert(self.spec_imports()[j] == source@);
                        assert(self.spec_imports()[i] == pre[i]);
                        assert(!pre.contains(source@));
                        assert(pre[i] != source@);
                    }
                }
            } else {
                assert(self.spec_imports() == pre);
                assert(forall|i: int, j: int|
                    0 <= i < j < pre.len() ==> old(self).spec_imports()[i] != old(
                        self,
                    ).spec_imports()[j]);
            }
        }
    }

    /// Registers a style rule under its generator's handle. Registering the
    /// same handle again is a no-op: the first-seen rule keeps its position
    /// and content.
    pub fn register(&mut self, rule: StyleRule)
        requires
            old(self).wf(),
        ensures
            final(self).wf(),
            final(self).spec_imports() == old(self).spec_imports(),
            final(self).spec_rules() =~= spec_register(old(self).spec_rules(), rule),
    {
        let ghost pre_handles = handle_set_elems(self.handles);
        let ghost pre_rules = self.rules@;
        proof {
            assert(pre_handles == pre_rules.map_values(|r: StyleRule| r.handle));
            assert(forall|x: int|
                0 <= x < pre_rules.len() ==> pre_handles[x] == (#[trigger] pre_rules[x]).handle);
        }
        let was_new = handle_set_insert(&mut self.handles, rule.handle);
        if was_new {
            self.rules.push(rule);
            proof {
                assert(self.spec_imports() == old(self).spec_imports());
                assert(handle_set_elems(self.handles) =~= self.rules@.map_values(
                    |r: StyleRule| r.handle,
                )) by {
                    assert(forall|x: int|
                        0 <= x < pre_rules.len() ==> #[trigger] self.rules@[x] == pre_rules[x]);
                    assert(self.rules@[pre_rules.len() as int] == rule);
                }
                assert forall|i: int, j: int|
                    0 <= i < j < self.rules@.len() implies (#[trigger] self.rules@[i]).handle
                    != (#[trigger] self.rules@[j]).handle by {
                    if j < pre_rules.len() {
                        assert((old(self).rules@[i]).handle != (old(self).rules@[j]).handle);
                    } else {
                        assert(self.rules@[j] == rule);
                        assert(self.rules@[i] == pre_rules[i]);
                        assert(pre_handles[i] == pre_rules[i].handle);
                        assert(!pre_handles.contains(rule.handle));
                    }
                }
                assert(forall|i: int, j: int|
                    0 <= i < j < self.spec_imports().len() ==> self.spec_imports()[i]
                        != self.spec_imports()[j]) by {
                    assert(self.spec_imports() == old(self).spec_imports());
                    assert(forall|i: int, j: int|
                        0 <= i < j < old(self).spec_imports().len() ==> old(self).spec_imports()[i]
                            != old(self).spec_imports()[j]);
                }
            }
        } else {
            proof {
                assert(pre_handles.contains(rule.handle));
                let x = choose|x: int| 0 <= x < pre_handles.len() && pre_handles[x] == rule.handle;
                assert(pre_rules.map_values(|r: StyleRule| r.handle)[x] == pre_rules[x].handle);
                assert(pre_rules.map_values(|r: StyleRule| r.handle).contains(rule.handle));
                assert(handle_set_elems(self.handles) == pre_handles);
                assert(self.rules@ == pre_rules);
                assert(self.spec_imports() == old(self).spec_imports());
                assert(forall|i: int, j: int|
                    0 <= i < j < old(self).spec_imports().len() ==> old(self).spec_imports()[i]
                        != old(self).spec_imports()[j]);
                assert(forall|i: int, j: int|
                    0 <= i < j < old(self).rules@.len() ==> (#[trigger] old(self).rules@[i]).handle
                        != (#[trigger] old(self).rules@[j]).handle);
            }
        }
    }
}

// ---------------------------------------------------------------------------
// Stylesheet serialization
// ---------------------------------------------------------------------------

/// `n` spaces.
pub open spec fn spec_spaces(n: nat) -> Seq<char> {
    Seq::new(n, |i: int| ' ')
}

/// `@import <text>;` on a line of its own.
pub open spec fn spec_import_line(im: Seq<char>) -> Seq<char> {
    seq!['@', 'i', 'm', 'p', 'o', 'r', 't', ' '] + im + seq![';', '\n']
}

pub open spec fn spec_import_lines(ims: Seq<Seq<char>>) -> Seq<char>
    decreases ims.len(),
{
    if ims.len() == 0 {
        Seq::empty()
    } else {
        spec_import_line(ims[0]) + spec_import_lines(ims.skip(1))
    }
}

/// All import lines, separated from the rules by a blank line if any exist.
pub open spec fn spec_imports_block(ims: Seq<Seq<char>>) -> Seq<char> {
    if ims.len() == 0 {
        Seq::empty()
    } else {
        spec_import_lines(ims) + seq!['\n']
    }
}

/// Each declaration on its own line, indented by `pad` spaces and closed by a
/// semicolon.
pub open spec fn spec_decl_lines(decls: Seq<Seq<char>>, pad: nat) -> Seq<char>
    decreases decls.len(),
{
    if decls.len() == 0 {
        Seq::empty()
    } else {
        spec_spaces(pad) + decls[0] + seq![';', '\n'] + spec_decl_lines(decls.skip(1), pad)
    }
}

/// The serialized form of one rule: the selector block, wrapped in an
/// `@media` block when the rule is scoped, followed by a blank line.
pub open spec fn spec_rule_text(r: StyleRule) -> Seq<char> {
    match query_view(r.query) {
        QueryView::Plain => r.selector@ + seq![' ', '{', '\n'] + spec_decl_lines(
            r.declarations.deep_view(),
            4,
        ) + seq!['}', '\n', '\n'],
        QueryView::Media(m) => seq!['@', 'm', 'e', 'd', 'i', 'a', ' '] + m + seq![' ', '{', '\n']
            + spec_spaces(4) + r.selector@ + seq![' ', '{', '\n'] + spec_decl_lines(
            r.declarations.deep_view(),
            8,
        ) + spec_spaces(4) + seq!['}', '\n'] + seq!['}', '\n'] + seq!['\n'],
    }
}

pub open spec fn spec_rules_text(rs: Seq<StyleRule>) -> Seq<char>
    decreases rs.len(),
{
    if rs.len() == 0 {
        Seq::empty()
    } else {
        spec_rule_text(rs[0]) + spec_rules_text(rs.skip(1))
    }
}

/// The whole stylesheet: imports first, then every rule in first-registration
/// order.
pub open spec fn spec_stylesheet_text(ims: Seq<Seq<char>>, rs: Seq<StyleRule>) -> Seq<char> {
    spec_imports_block(ims) + spec_rules_text(rs)
}

/// No two rules claim the same (query, selector) pair.
pub open spec fn spec_no_dup_keys(rs: Seq<StyleRule>) -> bool {
    forall|i: int, j: int|
        0 <= i < j < rs.len() ==> spec_rule_key(#[trigger] rs[i]) != spec_rule_key(
            #[trigger] rs[j],
        )
}

pub proof fn lemma_import_lines_snoc(ims: Seq<Seq<char>>, i: int)
    requires
        0 <= i < ims.len(),
    ensures
        spec_import_lines(ims.take(i + 1)) == spec_import_lines(ims.take(i)) + spec_import_line(
            ims[i],
        ),
    decreases i,
{
    if i == 0 {
        assert(ims.take(1)[0] == ims[0]);
        assert(ims.take(1).skip(1) =~= Seq::<Seq<char>>::empty());
        assert(ims.take(0) =~= Seq::<Seq<char>>::empty());
        assert(spec_import_lines(ims.take(1)) =~= spec_import_lines(ims.take(0))
            + spec_import_line(ims[0]));
    } else {
        lemma_import_lines_snoc(ims.skip(1), i - 1);
        assert(ims.take(i + 1)[0] == ims[0]);
        assert(ims.take(i + 1).skip(1) =~= ims.skip(1).take(i));
        assert(ims.take(i)[0] == ims[0]);
        assert(ims.take(i).skip(1) =~= ims.skip(1).take(i - 1));
        assert(ims.skip(1)[i - 1] == ims[i]);
        assert(spec_import_lines(ims.take(i + 1)) =~= spec_import_lines(ims.take(i))
            + spec_import_line(ims[i]));
    }
}

pub proof fn lemma_decl_lines_snoc(ds: Seq<Seq<char>>, i: int, pad: nat)
    requires
        0 <= i < ds.len(),
    ensures
        spec_decl_lines(ds.take(i + 1), pad) == spec_decl_lines(ds.take(i), pad) + (spec_spaces(pad)
            + ds[i] + seq![';', '\n']),
    decreases i,
{
    if i == 0 {
        assert(ds.take(1)[0] == ds[0]);
        assert(ds.take(1).skip(1) =~= Seq::<Seq<char>>::empty());
        assert(ds.take(0) =~= Seq::<Seq<char>>::empty());
        assert(spec_decl_lines(ds.take(1), pad) =~= spec_decl_lines(ds.take(0), pad) + (spec_spaces(
            pad,
        ) + ds[0] + seq![';', '\n']));
    } else {
        lemma_decl_lines_snoc(ds.skip(1), i - 1, pad);
        assert(ds.take(i + 1)[0] == ds[0]);
        assert(ds.take(i + 1).skip(1) =~= ds.skip(1).take(i));
        assert(ds.take(i)[0] == ds[0]);
        assert(ds.take(i).skip(1) =~= ds.skip(1).take(i - 1));
        assert(ds.skip(1)[i - 1] == ds[i]);
        assert(spec_decl_lines(ds.take(i + 1), pad) =~= spec_decl_lines(ds.take(i), pad) + (
        spec_spaces(pad) + ds[i] + seq![';', '\n']));
    }
}

pub proof fn lemma_rules_text_snoc(rs: Seq<StyleRule>, i: int)
    requires
        0 <= i < rs.len(),
    ensures
        spec_rules_text(rs.take(i + 1)) == spec_rules_text(rs.take(i)) + spec_rule_text(rs[i]),
    decreases i,
{
    if i == 0 {
        assert(rs.take(1)[0] == rs[0]);
        assert(rs.take(1).skip(1) =~= Seq::<StyleRule>::empty());
        assert(rs.take(0) =~= Seq::<StyleRule>::empty());
        assert(spec_rules_text(rs.take(1)) =~= spec_rules_text(rs.take(0)) + spec_rule_text(
            rs[0],
        ));
    } else {
        lemma_rules_text_snoc(rs.skip(1), i - 1);
        assert(rs.take(i + 1)[0] == rs[0]);
        assert(rs.take(i + 1).skip(1) =~= rs.skip(1).take(i));
        assert(rs.take(i)[0] == rs[0]);
        assert(rs.take(i).skip(1) =~= rs.skip(1).take(i - 1));
        assert(rs.skip(1)[i - 1] == rs[i]);
        assert(spec_rules_text(rs.take(i + 1)) =~= spec_rules_text(rs.take(i)) + spec_rule_text(
            rs[i],
        ));
    }
}

/// Appends `n` spaces.
fn push_spaces(out: &mut String, n: usize)
    ensures
        final(out)@ == old(out)@ + spec_spaces(n as nat),
{
    let mut c: usize = 0;
    proof {
        assert(old(out)@ + spec_spaces(0) =~= old(out)@);
    }
    while c < n
        invariant
            c <= n,
            out@ == old(out)@ + spec_spaces(c as nat),
        decreases n - c,
    {
        push_char(out, ' ');
        proof {
            assert(old(out)@ + spec_spaces((c + 1) as nat) =~= (old(out)@ + spec_spaces(
                c as nat,
            )).push(' '));
        }
        c = c + 1;
    }
}

/// Appends the serialized form of one rule.
fn write_rule(out: &mut String, rule: &StyleRule)
    ensures
        final(out)@ == old(out)@ + spec_rule_text(*rule),
{
    match rule.query {
        CSSQuery::Plain => {},
        CSSQuery::Media(m) => {
            push_char(out, '@');
            push_char(out, 'm');
            push_char(out, 'e');
            push_char(out, 'd');
            push_char(out, 'i');
            push_char(out, 'a');
            push_char(out, ' ');
            out.append(m);
            push_char(out, ' ');
            push_char(out, '{');
            push_char(out, '\n');
            push_spaces(out, 4);
        },
    }
    out.append(rule.selector);
    push_char(out, ' ');
    push_char(out, '{');
    push_char(out, '\n');
    let pad: usize = match rule.query {
        CSSQuery::Plain => 4,
        CSSQuery::Media(_) => 8,
    };
    let ghost decls = rule.declarations.deep_view();
    let n_decls = rule.declarations.len();
    let mut d: usize = 0;
    let ghost pre_decls = out@;
    proof {
        assert(decls.take(0) =~= Seq::<Seq<char>>::empty());
        assert(pre_decls + spec_decl_lines(decls.take(0), pad as nat) =~= pre_decls);
    }
    while d < n_decls
        invariant
            d <= n_decls,
            n_decls == decls.len(),
            decls == rule.declarations.deep_view(),
            pad == match rule.query {
                CSSQuery::Plain => 4int,
                CSSQuery::Media(_) => 8int,
            },
            out@ == pre_decls + spec_decl_lines(decls.take(d as int), pad as nat),
        decreases n_decls - d,
    {
        push_spaces(out, pad);
        out.append(rule.declarations[d]);
        push_char(out, ';');
        push_char(out, '\n');
        proof {
            lemma_decl_lines_snoc(decls, d as int, pad as nat);
            assert(decls[d as int] == rule.declarations@[d as int]@);
            assert(out@ =~= pre_decls + spec_decl_lines(decls.take(d as int), pad as nat) + (
            spec_spaces(pad as nat) + decls[d as int] + seq![';', '\n']));
        }
        d = d + 1;
    }
    proof {
        assert(decls.take(n_decls as int) =~= decls);
    }
    match rule.query {
        CSSQuery::Plain => {
            push_char(out, '}');
            push_char(out, '\n');
        },
        CSSQuery::Media(_) => {
            push_spaces(out, 4);
            push_char(out, '}');
            push_char(out, '\n');
            push_char(out, '}');
            push_char(out, '\n');
        },
    }
    push_char(out, '\n');
    proof {
        assert(final(out)@ =~= old(out)@ + spec_rule_text(*rule));
    }
}

/// Whether two rules would claim the same (query, selector) pair.
fn rule_key_eq(a: &StyleRule, b: &StyleRule) -> (r: bool)
    ensures
        r == (spec_rule_key(*a) == spec_rule_key(*b)),
{
    let query_eq = match (&a.query, &b.query) {
        (CSSQuery::Plain, CSSQuery::Plain) => true,
        (CSSQuery::Media(m1), CSSQuery::Media(m2)) => crate::strutil::str_eq(m1, m2),
        _ => false,
    };
    query_eq && crate::strutil::str_eq(a.selector, b.selector)
}

impl CSSBuilder {
    /// Serializes the stylesheet: every import as an `@import` line, a blank
    /// separator, then every rule in first-registration order. Fails exactly
    /// when two registered rules claim the same (query, selector) pair,
    /// naming the selector; the rules before the offending one have then
    /// already been written.
    pub fn write(self, out: &mut String) -> (r: Result<(), CSSError>)
        ensures
            match r {
                Ok(_) => {
                    &&& spec_no_dup_keys(self.spec_rules())
                    &&& final(out)@ == old(out)@ + spec_stylesheet_text(
                        self.spec_imports(),
                        self.spec_rules(),
                    )
                },
                Err(e) => match e {
                    CSSError::DuplicateSelector { selector } => {
                        &&& !spec_no_dup_keys(self.spec_rules())
                        &&& (exists|j: int|
                            {
                                &&& 0 <= j < self.spec_rules().len()
                                &&& selector@ == (#[trigger] self.spec_rules()[j]).selector@
                                &&& (exists|i: int|
                                    0 <= i < j && spec_rule_key(#[trigger] self.spec_rules()[i])
                                        == spec_rule_key(self.spec_rules()[j]))
                                &&& final(out)@ == old(out)@ + spec_imports_block(
                                    self.spec_imports(),
                                ) + spec_rules_text(self.spec_rules().take(j))
                            })
                    },
                },
            },
    {
        let ghost ims = import_set_elems(self.imports);
        let n_imports = import_set_len(&self.imports);
        let mut i: usize = 0;
        proof {
            assert(ims.take(0) =~= Seq::<Seq<char>>::empty());
            assert(old(out)@ + spec_import_lines(ims.take(0)) =~= old(out)@);
        }
        while i < n_imports
            invariant
                i <= n_imports,
                n_imports == ims.len(),
                ims == import_set_elems(self.imports),
                out@ == old(out)@ + spec_import_lines(ims.take(i as int)),
            decreases n_imports - i,
        {
            push_char(out, '@');
            push_char(out, 'i');
            push_char(out, 'm');
            push_char(out, 'p');
            push_char(out, 'o');
            push_char(out, 'r');
            push_char(out, 't');
            push_char(out, ' ');
            let im = import_set_get(&self.imports, i);
            out.append(im.as_str());
            push_char(out, ';');
            push_char(out, '\n');
            proof {
                lemma_import_lines_snoc(ims, i as int);
                assert(out@ =~= old(out)@ + spec_import_lines(ims.take(i as int))
                    + spec_import_line(ims[i as int]));
            }
            i = i + 1;
        }
        if n_imports > 0 {
            push_char(out, '\n');
        }
        proof {
            assert(ims.take(n_imports as int) =~= ims);
            assert(out@ =~= old(out)@ + spec_imports_block(ims));
        }
        let n_rules = self.rules.len();
        let mut j: usize = 0;
        proof {
            assert(self.rules@.take(0) =~= Seq::<StyleRule>::empty());
            assert(out@ + spec_rules_text(self.rules@.take(0)) =~= out@);
        }
        while j < n_rules
            invariant
                j <= n_rules,
                n_rules == self.rules@.len(),
                ims == import_set_elems(self.imports),
                out@ == old(out)@ + spec_imports_block(ims) + spec_rules_text(
                    self.rules@.take(j as int),
                ),
                spec_no_dup_keys(self.rules@.take(j as int)),
            decreases n_rules - j,
        {
            // The same (query, selector) pair may not be claimed twice.
            let mut k: usize = 0;
            while k < j
                invariant
                    k <= j,
                    j < n_rules,
                    n_rules == self.rules@.len(),
                    ims == import_set_elems(self.imports),
                    out@ == old(out)@ + spec_imports_block(ims) + spec_rules_text(
                        self.rules@.take(j as int),
                    ),
                    forall|x: int|
                        0 <= x < k ==> spec_rule_key(#[trigger] self.rules@[x]) != spec_rule_key(
                            self.rules@[j as int],
                        ),
                decreases j - k,
            {
                if rule_key_eq(&self.rules[k], &self.rules[j]) {
                    proof {
                        assert(spec_rule_key(self.spec_rules()[k as int]) == spec_rule_key(
                            self.spec_rules()[j as int],
                        ));
                        assert(!spec_no_dup_keys(self.rules@));
                        assert(ims == self.spec_imports());
                        assert(out@ == old(out)@ + spec_imports_block(self.spec_imports())
                            + spec_rules_text(self.spec_rules().take(j as int)));
                    }
                    return Err(CSSError::DuplicateSelector { selector: self.rules[j].selector });
                }
                k = k + 1;
            }
            let ghost pre_rule = out@;
            write_rule(out, &self.rules[j]);
            proof {
                lemma_rules_text_snoc(self.rules@, j as int);
                assert(out@ =~= old(out)@ + spec_imports_block(ims) + spec_rules_text(
                    self.rules@.take(j + 1),
                ));
                assert(spec_no_dup_keys(self.rules@.take(j + 1))) by {
                    assert(forall|x: int| 0 <= x < j + 1 ==> self.rules@.take(j + 1)[x] == self.rules@[x]);
                }
            }
            j = j + 1;
        }
        proof {
            assert(self.rules@.take(n_rules as int) =~= self.rules@);
            assert(out@ =~= old(out)@ + spec_stylesheet_text(ims, self.rules@));
        }
        Ok(())
    }

    /// Escapes arbitrary text into a CSS identifier: NUL becomes the
    /// replacement character; C0 controls and a leading digit (also a digit
    /// after a leading hyphen) become hex escapes; a lone hyphen is escaped;
    /// letters, digits, hyphen, underscore and non-ASCII characters pass
    /// through; everything else is backslash-escaped.
    pub fn escape_identifier(identifier: &str) -> (r: String)
        ensures
            r@ == spec_css_escape(identifier@),
    {
        let n = identifier.unicode_len();
        let mut out = String::new();
        let first_is_hyphen = if n > 0 {
            identifier.get_char(0) == '-'
        } else {
            false
        };
        let single = n == 1;
        let mut i: usize = 0;
        proof {
            assert(spec_css_escape(identifier@) =~= out@ + spec_css_escape_from(identifier@, 0));
        }
        while i < n
            invariant
                i <= n,
                n == identifier@.len(),
                n > 0 ==> first_is_hyphen == (identifier@[0] == '-'),
                single == (n == 1),
                spec_css_escape(identifier@) == out@ + spec_css_escape_from(
                    identifier@,
                    i as int,
                ),
            decreases n - i,
        {
            let ghost pre = out@;
            let c = identifier.get_char(i);
            let v = c as u32;
            if c == '\u{0}' {
                push_char(&mut out, '\u{FFFD}');
            } else if (1 <= v && v <= 0x1f) || (i == 0 && 0x30 <= v && v <= 0x39) || (i == 1
                && 0x30 <= v && v <= 0x39 && first_is_hyphen) {
                push_char(&mut out, '\\');
                if v < 16 {
                    push_char(&mut out, hex_digit_char(v));
                } else {
                    push_char(&mut out, hex_digit_char(v / 16));
                    push_char(&mut out, hex_digit_char(v % 16));
                }
                push_char(&mut out, ' ');
            } else if c == '-' && single {
                push_char(&mut out, '\\');
                push_char(&mut out, '-');
            } else if c == '-' {
                push_char(&mut out, '-');
            } else if v >= 0x80 || c == '_' || (0x30 <= v && v <= 0x39) || (0x41 <= v && v <= 0x5a)
                || (0x61 <= v && v <= 0x7a) {
                push_char(&mut out, c);
            } else {
                push_char(&mut out, '\\');
                push_char(&mut out, c);
            }
            proof {
                assert(identifier@[i as int] == c);
                assert(v == c as u32);
                assert(out@ =~= pre + spec_css_escape_char(
                    c,
                    i as int,
                    identifier@.len() > 0 && identifier@[0] == '-',
                    identifier@.len() == 1,
                ));
                assert(spec_css_escape_from(identifier@, i as int) == spec_css_escape_char(
                    c,
                    i as int,
                    identifier@.len() > 0 && identifier@[0] == '-',
                    identifier@.len() == 1,
                ) + spec_css_escape_from(identifier@, i + 1));
            }
            i = i + 1;
        }
        proof {
            assert(spec_css_escape_from(identifier@, n as int) =~= Seq::<char>::empty());
            assert(out@ + Seq::<char>::empty() =~= out@);
        }
        out
    }
}

/// The lowercase hexadecimal digit for a value below sixteen.
pub open spec fn hex_digit(d: int) -> char {
    if d == 0 { '0' }
    else if d == 1 { '1' }
    else if d == 2 { '2' }
    else if d == 3 { '3' }
    else if d == 4 { '4' }
    else if d == 5 { '5' }
    else if d == 6 { '6' }
    else if d == 7 { '7' }
    else if d == 8 { '8' }
    else if d == 9 { '9' }
    else if d == 10 { 'a' }
    else if d == 11 { 'b' }
    else if d == 12 { 'c' }
    else if d == 13 { 'd' }
    else if d == 14 { 'e' }
    else { 'f' }
}

fn hex_digit_char(d: u32) -> (c: char)
    requires
        d < 16,
    ensures
        c == hex_digit(d as int),
{
    match d {
        0 => '0',
        1 => '1',
        2 => '2',
        3 => '3',
        4 => '4',
        5 => '5',
        6 => '6',
        7 => '7',
        8 => '8',
        9 => '9',
        10 => 'a',
        11 => 'b',
        12 => 'c',
        13 => 'd',
        14 => 'e',
        _ => 'f',
    }
}

/// The lowercase hexadecimal rendering of a value up to two digits wide.
pub open spec fn spec_hex_short(v: int) -> Seq<char> {
    if v < 16 {
        seq![hex_digit(v)]
    } else {
        seq![hex_digit(v / 16), hex_digit(v % 16)]
    }
}

/// How one identifier character is escaped, given its position, whether the
/// identifier starts with a hyphen, and whether it is a single character.
pub open spec fn spec_css_escape_char(c: char, idx: int, first_hyphen: bool, single: bool) -> Seq<
    char,
> {
    let v = c as u32;
    if v == 0 {
        seq!['\u{FFFD}']
    } else if (1 <= v && v <= 0x1f) || (idx == 0 && 0x30 <= v && v <= 0x39) || (idx == 1 && 0x30
        <= v && v <= 0x39 && first_hyphen) {
        seq!['\\'] + spec_hex_short(v as int) + seq![' ']
    } else if c == '-' && single {
        seq!['\\', '-']
    } else if c == '-' {
        seq!['-']
    } else if v >= 0x80 || c == '_' || (0x30 <= v && v <= 0x39) || (0x41 <= v && v <= 0x5a) || (
    0x61 <= v && v <= 0x7a) {
        seq![c]
    } else {
        seq!['\\', c]
    }
}

/// The escaped identifier from position `i` on.
pub open spec fn spec_css_escape_from(s: Seq<char>, i: int) -> Seq<char>
    decreases s.len() - i,
{
    if i < 0 || i >= s.len() {
        Seq::empty()
    } else {
        spec_css_escape_char(s[i], i, s.len() > 0 && s[0] == '-', s.len() == 1)
            + spec_css_escape_from(s, i + 1)
    }
}

/// The whole identifier, escaped.
pub open spec fn spec_css_escape(s: Seq<char>) -> Seq<char> {
    spec_css_escape_from(s, 0)
}

} // verus!

//! PII field path resolution from API schema documents.
//!
//! A [`Document`] models the `components/schemas` section of an OpenAPI
//! document: named schemas whose bodies are objects, arrays or scalar
//! ("other") schemas, with `$ref` references kept as raw strings. The
//! resolver walks every component schema and collects the set of
//! dot-notation paths (`ssn`, `user.address.zip`, `orders[].card_number`)
//! whose schema carries the `x-pii: true` vendor extension.
//!
//! The walk tracks the set of component names currently on the descent
//! stack, so it terminates on any document, including cyclic `$ref` graphs:
//! a reference back into a name already being walked is treated as
//! unresolvable and skipped, as is a reference whose target is itself a
//! reference or absent.

use vstd::prelude::*;
use crate::text::{path_array, path_join, spec_has_prefix, spec_has_suffix, spec_path_array, spec_path_join,
    str_eq, str_has_prefix, str_has_suffix};

verus! {

broadcast use vstd::set::group_set_axioms;

/// The `$ref` prefix that designates a local component schema.
pub const REF_PREFIX: &'static str = "#/components/schemas/";

/// A schema or a `$ref` to one, as found in a property, an array-items
/// position, or a component entry.
pub enum SchemaRef {
    /// An inline schema.
    Inline(Box<Schema>),
    /// A raw `$ref` string, e.g. `#/components/schemas/Account`.
    Reference(String),
}

/// The structural kind of a schema.
pub enum SchemaNode {
    /// An object schema with its named properties, in document order.
    Object(Vec<(String, SchemaRef)>),
    /// An array schema with its optional items schema.
    Array(Option<SchemaRef>),
    /// Any other kind (scalars, compositions): the walk does not descend.
    Other,
}

/// A single schema: whether it carries `x-pii: true`, and its structure.
pub struct Schema {
    /// True when the schema carries the `x-pii: true` vendor extension.
    pub pii: bool,
    /// The structural kind of the schema.
    pub node: SchemaNode,
}

/// The component schemas of an API document, in document order.
pub struct Document {
    /// The `components/schemas` entries: `(name, schema-or-ref)`.
    pub schemas: Vec<(String, SchemaRef)>,
}

/// Structural size of a schema-or-ref, used as the second component of the
/// walk's termination measure.
pub open spec fn ref_size(r: SchemaRef) -> nat
    decreases r,
{
    match r {
        SchemaRef::Inline(b) => 1 + schema_size(*b),
        SchemaRef::Reference(_) => 1,
    }
}

/// Structural size of a schema.
pub open spec fn schema_size(s: Schema) -> nat
    decreases s,
{
    match s.node {
        SchemaNode::Object(props) => 1 + props_size(props@),
        SchemaNode::Array(opt) => match opt {
            Some(r) => 1 + ref_size(r),
            None => 1,
        },
        SchemaNode::Other => 1,
    }
}

/// Structural size of a property list.
pub open spec fn props_size(props: Seq<(String, SchemaRef)>) -> nat
    decreases props,
{
    if props.len() == 0 {
        0
    } else {
        props_size(props.drop_last()) + 1 + ref_size(props.last().1)
    }
}

/// The set of component names a document declares.
pub open spec fn doc_key_set(schemas: Seq<(String, SchemaRef)>) -> Set<Seq<char>>
    decreases schemas.len(),
{
    if schemas.len() == 0 {
        Set::empty()
    } else {
        doc_key_set(schemas.drop_first()).insert(schemas[0].0@)
    }
}

/// The first component entry named `name`, if any.
pub open spec fn doc_lookup(schemas: Seq<(String, SchemaRef)>, name: Seq<char>) -> Option<
    SchemaRef,
>
    decreases schemas.len(),
{
    if schemas.len() == 0 {
        None
    } else if schemas[0].0@ == name {
        Some(schemas[0].1)
    } else {
        doc_lookup(schemas.drop_first(), name)
    }
}

/// The component name designated by a `$ref` string, when it has the local
/// component prefix.
pub open spec fn spec_ref_target(refstr: Seq<char>) -> Option<Seq<char>> {
    if spec_has_prefix(refstr, "#/components/schemas/"@) {
        Some(refstr.subrange("#/components/schemas/"@.len() as int, refstr.len() as int))
    } else {
        None
    }
}

/// The set of component names a document declares is finite.
pub proof fn lemma_doc_key_set_finite(schemas: Seq<(String, SchemaRef)>)
    ensures
        doc_key_set(schemas).finite(),
    decreases schemas.len(),
{
    if schemas.len() > 0 {
        lemma_doc_key_set_finite(schemas.drop_first());
    }
}

/// A name that a lookup finds is among the document's component names.
pub proof fn lemma_doc_lookup_in_keys(schemas: Seq<(String, SchemaRef)>, name: Seq<char>)
    requires
        doc_lookup(schemas, name) is Some,
    ensures
        doc_key_set(schemas).contains(name),
    decreases schemas.len(),
{
    if schemas.len() > 0 && schemas[0].0@ != name {
        lemma_doc_lookup_in_keys(schemas.drop_first(), name);
    }
}

/// Number of component names not yet on the descent stack: the first
/// component of the walk's termination measure.
pub open spec fn names_left(doc: Document, stack: Set<Seq<char>>) -> nat {
    doc_key_set(doc.schemas@).difference(stack).len()
}

/// The path set contributed by the `x-pii` mark of one schema at one path.
pub open spec fn pii_mark(s: Schema, path: Seq<char>) -> Set<Seq<char>> {
    if s.pii {
        Set::empty().insert(path)
    } else {
        Set::empty()
    }
}

/// The PII paths found by walking one schema under a path prefix, with the
/// given component names already on the descent stack.
pub open spec fn walk_schema_paths(
    doc: Document,
    schema: Schema,
    prefix: Seq<char>,
    stack: Set<Seq<char>>,
) -> Set<Seq<char>>
    decreases names_left(doc, stack), schema_size(schema),
{
    match schema.node {
        SchemaNode::Object(props) => walk_props_paths(doc, props@, prefix, stack),
        SchemaNode::Array(opt) => match opt {
            Some(r) => walk_ref_paths(doc, r, spec_path_array(prefix), stack),
            None => Set::empty(),
        },
        SchemaNode::Other => Set::empty(),
    }
}

/// The PII paths found by walking a list of object properties.
pub open spec fn walk_props_paths(
    doc: Document,
    props: Seq<(String, SchemaRef)>,
    prefix: Seq<char>,
    stack: Set<Seq<char>>,
) -> Set<Seq<char>>
    decreases names_left(doc, stack), props_size(props),
{
    if props.len() == 0 {
        Set::empty()
    } else {
        walk_props_paths(doc, props.drop_last(), prefix, stack) + walk_ref_paths(
            doc,
            props.last().1,
            spec_path_join(prefix, props.last().0@),
            stack,
        )
    }
}

/// The PII paths found by resolving a schema-or-ref at a path and walking
/// the resolved schema. An unresolvable reference (wrong prefix, absent
/// target, chained reference, or a cycle back into a name on the stack)
/// contributes nothing.
pub open spec fn walk_ref_paths(
    doc: Document,
    r: SchemaRef,
    path: Seq<char>,
    stack: Set<Seq<char>>,
) -> Set<Seq<char>>
    decreases names_left(doc, stack), ref_size(r),
    via walk_ref_paths_decreases
{
    match r {
        SchemaRef::Inline(b) => pii_mark(*b, path) + walk_schema_paths(doc, *b, path, stack),
        SchemaRef::Reference(refstr) => match spec_ref_target(refstr@) {
            Some(name) => if !stack.contains(name) {
                match doc_lookup(doc.schemas@, name) {
                    Some(SchemaRef::Inline(b)) => pii_mark(*b, path) + walk_schema_paths(
                        doc,
                        *b,
                        path,
                        stack.insert(name),
                    ),
                    _ => Set::empty(),
                }
            } else {
                Set::empty()
            },
            None => Set::empty(),
        },
    }
}

#[via_fn]
proof fn walk_ref_paths_decreases(
    doc: Document,
    r: SchemaRef,
    path: Seq<char>,
    stack: Set<Seq<char>>,
) {
    match r {
        SchemaRef::Inline(_) => {},
        SchemaRef::Reference(refstr) => match spec_ref_target(refstr@) {
            Some(name) => if !stack.contains(name) {
                match doc_lookup(doc.schemas@, name) {
                    Some(SchemaRef::Inline(_)) => {
                        let keys = doc_key_set(doc.schemas@);
                        lemma_doc_key_set_finite(doc.schemas@);
                        lemma_doc_lookup_in_keys(doc.schemas@, name);
                        assert(keys.difference(stack.insert(name)) =~= keys.difference(
                            stack,
                        ).remove(name));
                        assert(keys.difference(stack).contains(name));
                    },
                    _ => {},
                }
            },
            None => {},
        },
    }
}

/// The full resolver result: the PII paths found by walking every inline
/// component schema from an empty prefix and an empty descent stack.
pub open spec fn spec_resolve_pii_paths(doc: Document, entries: Seq<(String, SchemaRef)>) -> Set<
    Seq<char>,
>
    decreases entries.len(),
{
    if entries.len() == 0 {
        Set::empty()
    } else {
        spec_resolve_pii_paths(doc, entries.drop_last()) + (match entries.last().1 {
            SchemaRef::Inline(b) => walk_schema_paths(doc, *b, Seq::empty(), Set::empty()),
            SchemaRef::Reference(_) => Set::empty(),
        })
    }
}

/// A set of dot-notation field paths that are marked as PII in the schema.
///
/// Example paths: `ssn`, `user.address.zip`, `orders[].card_number`. The
/// view is a set: order and repetition of insertions do not matter.
pub struct PiiFieldPaths {
    items: Vec<String>,
}

impl View for PiiFieldPaths {
    type V = Set<Seq<char>>;

    closed spec fn view(&self) -> Set<Seq<char>> {
        self.items.deep_view().to_set()
    }
}

impl PiiFieldPaths {
    /// The paths in insertion order, as the pipeline consumes them.
    pub closed spec fn spec_seq(&self) -> Seq<Seq<char>> {
        self.items.deep_view()
    }

    /// Creates an empty path set.
    pub fn new() -> (r: PiiFieldPaths)
        ensures
            r@ == Set::<Seq<char>>::empty(),
            r.spec_seq() == Seq::<Seq<char>>::empty(),
    {
        let r = PiiFieldPaths { items: Vec::new() };
        proof {
            assert(r.spec_seq() =~= Seq::<Seq<char>>::empty());
            assert(r@ =~= Set::<Seq<char>>::empty());
        }
        r
    }

    /// The number of stored paths.
    pub fn count(&self) -> (n: usize)
        ensures
            n == self.spec_seq().len(),
    {
        self.items.len()
    }

    /// The path at position `i`, in insertion order.
    pub fn get(&self, i: usize) -> (r: &String)
        requires
            i < self.spec_seq().len(),
        ensures
            r@ == self.spec_seq()[i as int],
    {
        &self.items[i]
    }

    /// Whether no path is stored.
    pub fn is_empty(&self) -> (r: bool)
        ensures
            r == (self.spec_seq().len() == 0),
            r == (self@ =~= Set::<Seq<char>>::empty()),
    {
        proof {
            if self.spec_seq().len() > 0 {
                assert(self@.contains(self.spec_seq()[0]));
            } else {
                assert(self@ =~= Set::<Seq<char>>::empty());
            }
        }
        self.items.is_empty()
    }

    /// Whether `path` is in the set.
    pub fn contains(&self, path: &str) -> (r: bool)
        ensures
            r == self@.contains(path@),
    {
        let n = self.items.len();
        let mut i: usize = 0;
        while i < n
            invariant
                0 <= i <= n,
                n == self.spec_seq().len(),
                forall|k: int| 0 <= k < i ==> self.spec_seq()[k] != path@,
            decreases n - i,
        {
            if str_eq(self.items[i].as_str(), path) {
                proof {
                    assert(self.spec_seq()[i as int] == path@);
                    assert(self.spec_seq().contains(path@));
                }
                return true;
            }
            i += 1;
        }
        proof {
            assert(!self.spec_seq().contains(path@));
        }
        false
    }

    /// Inserts `path`; a path already present is ignored.
    pub fn insert(&mut self, path: String)
        ensures
            final(self)@ == old(self)@.insert(path@),
            final(self).spec_seq() == (if old(self)@.contains(path@) {
                old(self).spec_seq()
            } else {
                old(self).spec_seq().push(path@)
            }),
    {
        if self.contains(path.as_str()) {
            proof {
                assert(old(self)@.insert(path@) =~= old(self)@);
            }
            return ;
        }
        self.items.push(path);
        proof {
            let oldseq = old(self).spec_seq();
            assert(self.spec_seq() =~= oldseq.push(path@));
            assert forall|x: Seq<char>|
                self@.contains(x) <==> old(self)@.insert(path@).contains(x) by {
                if self.spec_seq().contains(x) {
                    let i = choose|i: int|
                        0 <= i < self.spec_seq().len() && self.spec_seq()[i] == x;
                    if i < oldseq.len() {
                        assert(oldseq[i] == x);
                        assert(oldseq.contains(x));
                    } else {
                        assert(x == path@);
                    }
                }
                if oldseq.contains(x) {
                    let i = choose|i: int| 0 <= i < oldseq.len() && oldseq[i] == x;
                    assert(self.spec_seq()[i] == x);
                    assert(self.spec_seq().contains(x));
                }
                if x == path@ {
                    assert(self.spec_seq()[oldseq.len() as int] == x);
                    assert(self.spec_seq().contains(x));
                }
            }
            assert(self@ =~= old(self)@.insert(path@));
        }
    }
}

/// Whether `name` is one of the component names currently on the descent
/// stack.
fn stack_contains(stack: &Vec<String>, name: &str) -> (r: bool)
    ensures
        r == stack.deep_view().to_set().contains(name@),
{
    let n = stack.len();
    let mut i: usize = 0;
    while i < n
        invariant
            0 <= i <= n,
            n == stack.deep_view().len(),
            forall|k: int| 0 <= k < i ==> stack.deep_view()[k] != name@,
        decreases n - i,
    {
        if str_eq(stack[i].as_str(), name) {
            proof {
                assert(stack.deep_view()[i as int] == name@);
                assert(stack.deep_view().contains(name@));
            }
            return true;
        }
        i += 1;
    }
    proof {
        assert(!stack.deep_view().contains(name@));
    }
    false
}

/// The first component entry named `name`, if any.
fn lookup_component<'a>(doc: &'a Document, name: &str) -> (r: Option<&'a SchemaRef>)
    ensures
        r matches Some(sr) ==> doc_lookup(doc.schemas@, name@) == Some(*sr),
        r is None ==> doc_lookup(doc.schemas@, name@) is None,
{
    let n = doc.schemas.len();
    proof {
        assert(doc.schemas@.skip(0) =~= doc.schemas@);
    }
    let mut i: usize = 0;
    while i < n
        invariant
            0 <= i <= n,
            n == doc.schemas@.len(),
            doc_lookup(doc.schemas@, name@) == doc_lookup(doc.schemas@.skip(i as int), name@),
        decreases n - i,
    {
        let pair = &doc.schemas[i];
        proof {
            assert(doc.schemas@.skip(i as int)[0] == doc.schemas@[i as int]);
        }
        if str_eq(pair.0.as_str(), name) {
            return Some(&pair.1);
        }
        proof {
            assert(doc.schemas@.skip(i as int).drop_first() =~= doc.schemas@.skip(i as int + 1));
        }
        i += 1;
    }
    proof {
        assert(doc.schemas@.skip(n as int) =~= Seq::<(String, SchemaRef)>::empty());
    }
    None
}

/// The component name a `$ref` string designates, when it has the local
/// component prefix.
fn ref_target<'a>(refstr: &'a str) -> (r: Option<&'a str>)
    ensures
        r matches Some(nm) ==> spec_ref_target(refstr@) == Some(nm@),
        r is None ==> spec_ref_target(refstr@) is None,
{
    if str_has_prefix(refstr, REF_PREFIX) {
        let plen = REF_PREFIX.unicode_len();
        let slen = refstr.unicode_len();
        Some(refstr.substring_char(plen, slen))
    } else {
        None
    }
}

/// An entry of a property list contributes less than the whole list to the
/// termination measure.
proof fn lemma_props_size_index(props: Seq<(String, SchemaRef)>, k: int)
    requires
        0 <= k < props.len(),
    ensures
        ref_size(props[k].1) <= props_size(props),
    decreases props.len(),
{
    if k == props.len() - 1 {
    } else {
        lemma_props_size_index(props.drop_last(), k);
        assert(props.drop_last()[k] == props[k]);
    }
}

/// Resolve `r` at `path` and walk the resolved schema, accumulating into
/// `out` exactly the paths that [`walk_ref_paths`] denotes.
fn walk_ref(
    doc: &Document,
    r: &SchemaRef,
    path: &str,
    stack: &mut Vec<String>,
    out: &mut PiiFieldPaths,
)
    ensures
        final(stack).deep_view() == old(stack).deep_view(),
        final(out)@ == old(out)@ + walk_ref_paths(
            *doc,
            *r,
            path@,
            old(stack).deep_view().to_set(),
        ),
    decreases names_left(*doc, old(stack).deep_view().to_set()), ref_size(*r),
{
    let ghost stackset = stack.deep_view().to_set();
    match r {
        SchemaRef::Inline(b) => {
            if b.pii {
                out.insert(path.to_owned());
            }
            walk_schema(doc, b, path, stack, out);
            proof {
                assert(final(out)@ =~= old(out)@ + walk_ref_paths(*doc, *r, path@, stackset));
            }
        },
        SchemaRef::Reference(refstr) => {
            match ref_target(refstr.as_str()) {
                None => {
                    proof {
                        assert(final(out)@ =~= old(out)@ + walk_ref_paths(
                            *doc,
                            *r,
                            path@,
                            stackset,
                        ));
                    }
                },
                Some(name) => {
                    if stack_contains(stack, name) {
                        proof {
                            assert(final(out)@ =~= old(out)@ + walk_ref_paths(
                                *doc,
                                *r,
                                path@,
                                stackset,
                            ));
                        }
                    } else {
                        match lookup_component(doc, name) {
                            Some(target) => match target {
                                SchemaRef::Inline(b) => {
                                    if b.pii {
                                        out.insert(path.to_owned());
                                    }
                                    stack.push(name.to_owned());
                                    proof {
                                        assert(stack.deep_view() =~= old(
                                            stack,
                                        ).deep_view().push(name@));
                                        lemma_push_to_set(old(stack).deep_view(), name@);
                                        lemma_doc_key_set_finite(doc.schemas@);
                                        lemma_doc_lookup_in_keys(doc.schemas@, name@);
                                        let keys = doc_key_set(doc.schemas@);
                                        assert(keys.difference(stackset.insert(name@)) =~= keys
                                            .difference(stackset).remove(name@));
                                        assert(keys.difference(stackset).contains(name@));
                                    }
                                    walk_schema(doc, b, path, stack, out);
                                    let ghost mid = stack@;
                                    let ghost middv = stack.deep_view();
                                    stack.pop();
                                    proof {
                                        assert(middv == old(stack).deep_view().push(name@));
                                        assert(stack@ == mid.drop_last());
                                        assert forall|ix: int|
                                            0 <= ix < stack.deep_view().len() implies
                                            stack.deep_view()[ix] == old(
                                            stack,
                                        ).deep_view()[ix] by {
                                            assert(stack.deep_view()[ix] == stack@[ix]@);
                                            assert(stack@[ix] == mid[ix]);
                                            assert(middv[ix] == mid[ix]@);
                                        }
                                        assert(stack.deep_view() =~= old(stack).deep_view());
                                        assert(final(out)@ =~= old(out)@ + walk_ref_paths(
                                            *doc,
                                            *r,
                                            path@,
                                            stackset,
                                        ));
                                    }
                                },
                                SchemaRef::Reference(_) => {
                                    proof {
                                        assert(final(out)@ =~= old(out)@ + walk_ref_paths(
                                            *doc,
                                            *r,
                                            path@,
                                            stackset,
                                        ));
                                    }
                                },
                            },
                            None => {
                                proof {
                                    assert(final(out)@ =~= old(out)@ + walk_ref_paths(
                                        *doc,
                                        *r,
                                        path@,
                                        stackset,
                                    ));
                                }
                            },
                        }
                    }
                },
            }
        },
    }
}

/// Pushing a name onto the stack inserts it into the stack's name set.
proof fn lemma_push_to_set(s: Seq<Seq<char>>, x: Seq<char>)
    ensures
        s.push(x).to_set() == s.to_set().insert(x),
{
    assert forall|y: Seq<char>| s.push(x).to_set().contains(y) <==> s.to_set().insert(x).contains(
        y,
    ) by {
        if s.push(x).contains(y) {
            let i = choose|i: int| 0 <= i < s.push(x).len() && s.push(x)[i] == y;
            if i < s.len() {
                assert(s[i] == y);
                assert(s.contains(y));
            } else {
                assert(y == x);
            }
        }
        if s.contains(y) {
            let i = choose|i: int| 0 <= i < s.len() && s[i] == y;
            assert(s.push(x)[i] == y);
            assert(s.push(x).contains(y));
        }
        if y == x {
            assert(s.push(x)[s.len() as int] == y);
            assert(s.push(x).contains(y));
        }
    }
    assert(s.push(x).to_set() =~= s.to_set().insert(x));
}

/// Walk one schema under `prefix`, accumulating into `out` exactly the
/// paths that [`walk_schema_paths`] denotes.
fn walk_schema(
    doc: &Document,
    schema: &Schema,
    prefix: &str,
    stack: &mut Vec<String>,
    out: &mut PiiFieldPaths,
)
    ensures
        final(stack).deep_view() == old(stack).deep_view(),
        final(out)@ == old(out)@ + walk_schema_paths(
            *doc,
            *schema,
            prefix@,
            old(stack).deep_view().to_set(),
        ),
    decreases names_left(*doc, old(stack).deep_view().to_set()), schema_size(*schema),
{
    let ghost stackset = stack.deep_view().to_set();
    match &schema.node {
        SchemaNode::Object(props) => {
            let n = props.len();
            let mut k: usize = 0;
            while k < n
                invariant
                    0 <= k <= n,
                    n == props@.len(),
                    schema.node == SchemaNode::Object(*props),
                    stack.deep_view() == old(stack).deep_view(),
                    stackset == old(stack).deep_view().to_set(),
                    out@ == old(out)@ + walk_props_paths(*doc, props@.take(k as int), prefix@,
                        stackset,
                    ),
                decreases n - k,
            {
                let pair = &props[k];
                let path = path_join(prefix, pair.0.as_str());
                proof {
                    lemma_props_size_index(props@, k as int);
                }
                walk_ref(doc, &pair.1, path.as_str(), stack, out);
                proof {
                    assert(props@.take(k as int + 1).drop_last() =~= props@.take(k as int));
                    assert(props@.take(k as int + 1).last() == props@[k as int]);
                    assert(out@ =~= old(out)@ + walk_props_paths(
                        *doc,
                        props@.take(k as int + 1),
                        prefix@,
                        stackset,
                    ));
                }
                k += 1;
            }
            proof {
                assert(props@.take(n as int) =~= props@);
            }
        },
        SchemaNode::Array(opt) => {
            match opt {
                Some(r) => {
                    let path = path_array(prefix);
                    walk_ref(doc, r, path.as_str(), stack, out);
                    proof {
                        assert(final(out)@ =~= old(out)@ + walk_schema_paths(
                            *doc,
                            *schema,
                            prefix@,
                            stackset,
                        ));
                    }
                },
                None => {
                    proof {
                        assert(final(out)@ =~= old(out)@ + walk_schema_paths(
                            *doc,
                            *schema,
                            prefix@,
                            stackset,
                        ));
                    }
                },
            }
        },
        SchemaNode::Other => {
            proof {
                assert(final(out)@ =~= old(out)@ + walk_schema_paths(
                    *doc,
                    *schema,
                    prefix@,
                    stackset,
                ));
            }
        },
    }
}

/// Walk a document and collect all dot-notation paths to properties marked
/// `x-pii: true`.
///
/// The walk starts at every inline schema in `components/schemas` and
/// recurses into object properties and array items, resolving local `$ref`
/// references; array positions are rendered with the `[]` suffix. The
/// result is a pure function of the document, so resolving the same
/// document twice yields equal sets, and the descent-stack bound makes the
/// walk terminate on every document, cyclic reference graphs included.
pub fn resolve_pii_paths(doc: &Document) -> (r: PiiFieldPaths)
    ensures
        r@ == spec_resolve_pii_paths(*doc, doc.schemas@),
{
    let mut out = PiiFieldPaths::new();
    let mut stack: Vec<String> = Vec::new();
    proof {
        assert(stack.deep_view() =~= Seq::<Seq<char>>::empty());
    }
    let n = doc.schemas.len();
    let mut k: usize = 0;
    while k < n
        invariant
            0 <= k <= n,
            n == doc.schemas@.len(),
            stack.deep_view() == Seq::<Seq<char>>::empty(),
            out@ == spec_resolve_pii_paths(*doc, doc.schemas@.take(k as int)),
        decreases n - k,
    {
        let pair = &doc.schemas[k];
        match &pair.1 {
            SchemaRef::Inline(b) => {
                proof {
                    assert(stack.deep_view().to_set() =~= Set::<Seq<char>>::empty());
                    reveal_strlit("");
                    assert(""@ =~= Seq::<char>::empty());
                }
                walk_schema(doc, b, "", &mut stack, &mut out);
            },
            SchemaRef::Reference(_) => {},
        }
        proof {
            assert(doc.schemas@.take(k as int + 1).drop_last() =~= doc.schemas@.take(k as int));
            assert(doc.schemas@.take(k as int + 1).last() == doc.schemas@[k as int]);
            assert(out@ =~= spec_resolve_pii_paths(*doc, doc.schemas@.take(k as int + 1)));
        }
        k += 1;
    }
    proof {
        assert(doc.schemas@.take(n as int) =~= doc.schemas@);
    }
    out
}

/// The schema name derived from an object-store key: the configured prefix
/// is stripped when present, then one of the `.yaml`, `.yml`, `.json`
/// extensions.
pub open spec fn spec_schema_name(key: Seq<char>, prefix: Seq<char>) -> Seq<char> {
    let base = if spec_has_prefix(key, prefix) {
        key.subrange(prefix.len() as int, key.len() as int)
    } else {
        key
    };
    if spec_has_suffix(base, ".yaml"@) {
        base.subrange(0, base.len() - ".yaml"@.len())
    } else if spec_has_suffix(base, ".yml"@) {
        base.subrange(0, base.len() - ".yml"@.len())
    } else if spec_has_suffix(base, ".json"@) {
        base.subrange(0, base.len() - ".json"@.len())
    } else {
        base
    }
}

/// Derive a schema name from an object-store key.
///
/// Strips the configured prefix and any file extension (`.yaml`, `.yml`,
/// `.json`).
pub fn schema_name_from_key(key: &str, prefix: &str) -> (r: String)
    ensures
        r@ == spec_schema_name(key@, prefix@),
{
    let base: &str = if str_has_prefix(key, prefix) {
        key.substring_char(prefix.unicode_len(), key.unicode_len())
    } else {
        key
    };
    if str_has_suffix(base, ".yaml") {
        let cut = base.unicode_len() - ".yaml".unicode_len();
        base.substring_char(0, cut).to_owned()
    } else if str_has_suffix(base, ".yml") {
        let cut = base.unicode_len() - ".yml".unicode_len();
        base.substring_char(0, cut).to_owned()
    } else if str_has_suffix(base, ".json") {
        let cut = base.unicode_len() - ".json".unicode_len();
        base.substring_char(0, cut).to_owned()
    } else {
        base.to_owned()
    }
}

} // verus!

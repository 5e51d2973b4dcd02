//! In-memory cache of parsed schema documents, keyed by schema name.
//!
//! The cache maps schema names to a [`CachedSchema`]: the parsed document
//! together with its pre-computed PII path set. The whole table is replaced
//! at once by [`SchemaCache::replace_all`]; no entry is ever mutated in
//! place, so a reader always sees one consistent table.

use vstd::prelude::*;
use crate::schema::{resolve_pii_paths, spec_resolve_pii_paths, Document, PiiFieldPaths};
use crate::text::str_eq;

verus! {

/// Errors from the schema cache.
pub enum CacheError {
    /// The requested schema name has no entry in the cache.
    UnknownSchema(String),
}

/// A single cached entry: the parsed document and its derived PII paths.
pub struct CachedSchema {
    /// The parsed schema document.
    pub api: Document,
    /// Pre-computed set of dot-notation paths that are marked `x-pii: true`.
    pub pii_paths: PiiFieldPaths,
}

impl CachedSchema {
    /// The cached paths are exactly what the resolver derives from the
    /// cached document.
    pub open spec fn consistent(&self) -> bool {
        self.pii_paths@ == spec_resolve_pii_paths(self.api, self.api.schemas@)
    }
}

/// The name-to-document table that a list of `(name, document)` entries
/// denotes; a later entry for the same name wins, as in a map built by
/// repeated insertion.
pub open spec fn doc_table(input: Seq<(String, Document)>) -> Map<Seq<char>, Document>
    decreases input.len(),
{
    if input.len() == 0 {
        Map::empty()
    } else {
        doc_table(input.drop_last()).insert(input.last().0@, input.last().1)
    }
}

/// The map denoted by the cache's entry list.
pub open spec fn assoc_map(entries: Seq<(String, CachedSchema)>) -> Map<Seq<char>, CachedSchema>
    decreases entries.len(),
{
    if entries.len() == 0 {
        Map::empty()
    } else {
        assoc_map(entries.drop_last()).insert(entries.last().0@, entries.last().1)
    }
}

/// Cache of schemas keyed by schema name, replaced as a whole on refresh.
pub struct SchemaCache {
    entries: Vec<(String, CachedSchema)>,
}

impl View for SchemaCache {
    type V = Map<Seq<char>, CachedSchema>;

    closed spec fn view(&self) -> Map<Seq<char>, CachedSchema> {
        assoc_map(self.entries@)
    }
}

/// The domain of a denoted table is finite.
proof fn lemma_doc_table_finite(s: Seq<(String, Document)>)
    ensures
        doc_table(s).dom().finite(),
    decreases s.len(),
{
    if s.len() > 0 {
        lemma_doc_table_finite(s.drop_last());
    }
}

/// The domain of a denoted entry map is finite.
proof fn lemma_assoc_map_finite(entries: Seq<(String, CachedSchema)>)
    ensures
        assoc_map(entries).dom().finite(),
    decreases entries.len(),
{
    if entries.len() > 0 {
        lemma_assoc_map_finite(entries.drop_last());
    }
}

/// A name is in the denoted map exactly when some entry carries it.
proof fn lemma_assoc_contains(entries: Seq<(String, CachedSchema)>, nm: Seq<char>)
    ensures
        assoc_map(entries).contains_key(nm) <==> (exists|i: int|
            0 <= i < entries.len() && entries[i].0@ == nm),
    decreases entries.len(),
{
    if entries.len() > 0 {
        lemma_assoc_contains(entries.drop_last(), nm);
        if entries.last().0@ == nm {
            assert(entries[entries.len() - 1].0@ == nm);
        } else if assoc_map(entries).contains_key(nm) {
            let i = choose|i: int| 0 <= i < entries.drop_last().len()
                && entries.drop_last()[i].0@ == nm;
            assert(entries[i].0@ == nm);
        } else {
            assert forall|i: int| 0 <= i < entries.len() implies entries[i].0@ != nm by {
                if i < entries.len() - 1 {
                    assert(entries.drop_last()[i] == entries[i]);
                }
            }
        }
    }
}

/// Under unique keys, the denoted map sends each entry's name to that
/// entry's value.
proof fn lemma_assoc_at(entries: Seq<(String, CachedSchema)>, i: int)
    requires
        forall|a: int, b: int|
            0 <= a < b < entries.len() ==> entries[a].0@ != entries[b].0@,
        0 <= i < entries.len(),
    ensures
        assoc_map(entries).contains_key(entries[i].0@),
        assoc_map(entries)[entries[i].0@] == entries[i].1,
    decreases entries.len(),
{
    if i == entries.len() - 1 {
    } else {
        assert(entries.drop_last()[i] == entries[i]);
        lemma_assoc_at(entries.drop_last(), i);
        assert(entries.last().0@ != entries[i].0@);
    }
}

impl SchemaCache {
    /// Keys are unique and every entry pairs a document with its own
    /// resolver output.
    pub closed spec fn wf(&self) -> bool {
        (forall|a: int, b: int|
            0 <= a < b < self.entries@.len() ==> self.entries@[a].0@ != self.entries@[b].0@)
            && (forall|i: int|
            0 <= i < self.entries@.len() ==> (#[trigger] self.entries@[i].1).consistent())
    }

    /// The number of entries.
    pub closed spec fn spec_len(&self) -> nat {
        self.entries@.len()
    }

    /// Create a new, empty cache.
    pub fn new() -> (r: SchemaCache)
        ensures
            r.wf(),
            r@ == Map::<Seq<char>, CachedSchema>::empty(),
            r.spec_len() == 0,
    {
        let r = SchemaCache { entries: Vec::new() };
        proof {
            assert(r@ =~= Map::<Seq<char>, CachedSchema>::empty());
        }
        r
    }

    /// Return the number of schemas currently cached.
    pub fn len(&self) -> (n: usize)
        ensures
            n == self.spec_len(),
    {
        self.entries.len()
    }

    /// Return `true` if no schemas are cached.
    pub fn is_empty(&self) -> (r: bool)
        ensures
            r == (self.spec_len() == 0),
    {
        self.entries.is_empty()
    }

    /// Look up a schema by name.
    ///
    /// Returns the cached entry for `name`, or `UnknownSchema` exactly when
    /// the name is absent from the current table.
    pub fn get(&self, name: &str) -> (r: Result<&CachedSchema, CacheError>)
        requires
            self.wf(),
        ensures
            self@.contains_key(name@) ==> (r matches Ok(cs) && *cs == self@[name@]
                && cs.consistent()),
            !self@.contains_key(name@) ==> (r matches Err(e) && e matches
                CacheError::UnknownSchema(n) && n@ == name@),
    {
        let n = self.entries.len();
        let mut i: usize = 0;
        while i < n
            invariant
                0 <= i <= n,
                n == self.entries@.len(),
                forall|k: int| 0 <= k < i ==> self.entries@[k].0@ != name@,
                self.wf(),
            decreases n - i,
        {
            let pair = &self.entries[i];
            if str_eq(pair.0.as_str(), name) {
                proof {
                    lemma_assoc_contains(self.entries@, name@);
                    lemma_assoc_at(self.entries@, i as int);
                }
                return Ok(&pair.1);
            }
            i += 1;
        }
        proof {
            lemma_assoc_contains(self.entries@, name@);
        }
        Err(CacheError::UnknownSchema(name.to_owned()))
    }

    /// Atomically replace the entire schema table.
    ///
    /// For each named document the PII path set is computed once and cached
    /// beside it; the new table is exactly the map the input list denotes
    /// (later duplicates win), and readers never see a mixture of old and
    /// new entries.
    pub fn replace_all(&mut self, schemas: Vec<(String, Document)>)
        ensures
            final(self).wf(),
            final(self)@.dom() == doc_table(schemas@).dom(),
            forall|nm: Seq<char>| #[trigger] doc_table(schemas@).contains_key(nm)
                ==> final(self)@[nm].api == doc_table(schemas@)[nm]
                    && final(self)@[nm].pii_paths@ == spec_resolve_pii_paths(
                    doc_table(schemas@)[nm],
                    doc_table(schemas@)[nm].schemas@,
                ),
            final(self).spec_len() == doc_table(schemas@).dom().len(),
    {
        let ghost orig = schemas@;
        let mut input = schemas;
        let mut entries: Vec<(String, CachedSchema)> = Vec::new();
        while input.len() > 0
            invariant
                input@ == orig.take(input@.len() as int),
                input@.len() <= orig.len(),
                forall|a: int, b: int|
                    0 <= a < b < entries@.len() ==> entries@[a].0@ != entries@[b].0@,
                forall|i: int|
                    0 <= i < entries@.len() ==> (#[trigger] entries@[i].1).consistent(),
                assoc_map(entries@).dom() == doc_table(orig.skip(input@.len() as int)).dom(),
                forall|nm: Seq<char>| #[trigger] doc_table(orig.skip(input@.len() as int))
                    .contains_key(nm)
                    ==> assoc_map(entries@)[nm].api == doc_table(
                        orig.skip(input@.len() as int),
                    )[nm] && assoc_map(entries@)[nm].consistent(),
                entries@.len() == doc_table(orig.skip(input@.len() as int)).dom().len(),
            decreases input@.len(),
        {
            let ghost m = input@.len() as int;
            let pair = match input.pop() {
                Some(p) => p,
                None => {
                    proof {
                        assert(false);
                    }
                    return ;
                },
            };
            proof {
                assert(orig.skip(m - 1) =~= seq![orig[m - 1]] + orig.skip(m));
                assert(orig.skip(m - 1).drop_first() =~= orig.skip(m));
                assert(orig.skip(m - 1)[0] == orig[m - 1]);
                assert(pair == orig[m - 1]);
                lemma_doc_table_cons(orig.skip(m - 1));
                assert(input@ =~= orig.take(m - 1));
            }
            let (name, doc) = pair;
            if contains_name(&entries, name.as_str()) {
                proof {
                    lemma_assoc_contains(entries@, name@);
                    assert(doc_table(orig.skip(m - 1)) == doc_table(orig.skip(m)));
                }
                continue ;
            }
            let pii_paths = resolve_pii_paths(&doc);
            let cached = CachedSchema { api: doc, pii_paths };
            let ghost before = entries@;
            entries.push((name, cached));
            proof {
                assert(entries@.drop_last() =~= before);
                assert(assoc_map(entries@) == assoc_map(before).insert(
                    entries@.last().0@,
                    entries@.last().1,
                ));
                lemma_assoc_contains(before, entries@.last().0@);
                assert(!assoc_map(before).contains_key(entries@.last().0@));
                assert(assoc_map(entries@).dom() =~= doc_table(
                    orig.skip(input@.len() as int),
                ).dom());
                lemma_assoc_map_finite(before);
                lemma_doc_table_finite(orig.skip(m));
                assert(assoc_map(entries@).dom().len() == assoc_map(before).dom().len() + 1);
                assert forall|a: int, b: int|
                    0 <= a < b < entries@.len() implies entries@[a].0@ != entries@[b].0@ by {
                    if b < entries@.len() - 1 {
                        assert(before[a] == entries@[a]);
                        assert(before[b] == entries@[b]);
                    } else {
                        assert(before[a] == entries@[a]);
                    }
                }
            }
        }
        proof {
            assert(orig.skip(0) =~= orig);
        }
        self.entries = entries;
        proof {
            assert forall|nm: Seq<char>| #[trigger] doc_table(orig).contains_key(nm) implies
                self@[nm].api == doc_table(orig)[nm] && self@[nm].pii_paths@
                == spec_resolve_pii_paths(doc_table(orig)[nm], doc_table(orig)[nm].schemas@) by {
                assert(self@[nm].consistent());
            }
        }
    }
}

/// Whether some entry of `entries` carries `name`.
fn contains_name(entries: &Vec<(String, CachedSchema)>, name: &str) -> (r: bool)
    ensures
        r == (exists|i: int| 0 <= i < entries@.len() && entries@[i].0@ == name@),
{
    let n = entries.len();
    let mut i: usize = 0;
    while i < n
        invariant
            0 <= i <= n,
            n == entries@.len(),
            forall|k: int| 0 <= k < i ==> entries@[k].0@ != name@,
        decreases n - i,
    {
        let pair = &entries[i];
        if str_eq(pair.0.as_str(), name) {
            return true;
        }
        i += 1;
    }
    false
}

/// Extending an entry list at the front only adds the new name when it is
/// not already bound by the rest.
proof fn lemma_doc_table_cons(s: Seq<(String, Document)>)
    requires
        s.len() > 0,
    ensures
        doc_table(s) == (if doc_table(s.drop_first()).contains_key(s[0].0@) {
            doc_table(s.drop_first())
        } else {
            doc_table(s.drop_first()).insert(s[0].0@, s[0].1)
        }),
    decreases s.len(),
{
    if s.len() == 1 {
        assert(s.drop_first() =~= Seq::<(String, Document)>::empty());
        assert(s.drop_last() =~= Seq::<(String, Document)>::empty());
        assert(doc_table(Seq::<(String, Document)>::empty()) =~= Map::<Seq<char>, Document>::empty());
        assert(s.last() == s[0]);
        assert(doc_table(s) =~= Map::<Seq<char>, Document>::empty().insert(s[0].0@, s[0].1));
        assert(doc_table(s.drop_first()).insert(s[0].0@, s[0].1) =~= doc_table(s));
    } else {
        let head = s.drop_last();
        lemma_doc_table_cons(head);
        assert(head.drop_first() =~= s.drop_first().drop_last());
        assert(head[0] == s[0]);
        assert(s.drop_first().last() == s.last());
        let rest = s.drop_first();
        if doc_table(rest.drop_last()).contains_key(s[0].0@) {
            assert(doc_table(rest).contains_key(s[0].0@));
            assert(doc_table(s) =~= doc_table(rest));
        } else if s[0].0@ == rest.last().0@ {
            assert(doc_table(rest).contains_key(s[0].0@));
            assert(doc_table(s) =~= doc_table(rest));
        } else {
            assert(!doc_table(rest).contains_key(s[0].0@));
            assert(doc_table(s) =~= doc_table(rest).insert(s[0].0@, s[0].1));
        }
    }
}

} // verus!

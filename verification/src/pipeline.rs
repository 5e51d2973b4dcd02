//! The encryption pipeline: walking a JSON document along the PII paths of
//! a schema and replacing each matching string leaf with an encrypted
//! token, plus the request-level decisions of the encrypt and health
//! endpoints.

use vstd::prelude::*;
use vstd::utf8::encode_utf8;
use crate::cache::SchemaCache;
use crate::cipher::{encrypt_field, gcmsiv_ct_of, token_render, CipherError, KEY_LEN, NONCE_LEN};
use crate::dek::DekStore;
use crate::error::ServiceError;
use crate::protocol::{ErrorResponse, HealthResponse};
use crate::text::{spec_has_suffix, str_eq, str_has_suffix};

verus! {

/// A JSON value: the tagged variant the pipeline traverses.
///
/// Numbers are carried as their literal text, which keeps them intact on
/// the way through the pipeline; the pipeline itself only ever rewrites
/// string leaves.
#[derive(Debug, PartialEq, Eq)]
pub enum JsonValue {
    /// The JSON `null`.
    Null,
    /// A boolean.
    Bool(bool),
    /// A number, as its literal text.
    Number(String),
    /// A string.
    String(String),
    /// An array of values.
    Array(Vec<JsonValue>),
    /// An object: named members in document order.
    Object(Vec<(String, JsonValue)>),
}

/// Segments of a dot-notation PII field path.
#[derive(Debug, Clone, PartialEq, Eq)]
pub enum PathSegment {
    /// Navigate into an object property by name.
    Key(String),
    /// Expand into every element of a JSON array.
    ArrayItem,
}

/// The mathematical shape of a path segment.
pub enum SegView {
    /// Navigate into an object property by name.
    Key(Seq<char>),
    /// Expand into every element of a JSON array.
    Item,
}

impl View for PathSegment {
    type V = SegView;

    open spec fn view(&self) -> SegView {
        match self {
            PathSegment::Key(k) => SegView::Key(k@),
            PathSegment::ArrayItem => SegView::Item,
        }
    }
}

/// The views of a segment list.
pub open spec fn views_of(segs: Seq<PathSegment>) -> Seq<SegView> {
    segs.map_values(|p: PathSegment| p@)
}

/// Index of the first `.` in `s`, if any.
pub open spec fn spec_find_dot(s: Seq<char>) -> Option<int>
    decreases s.len(),
{
    if s.len() == 0 {
        None
    } else if s[0] == '.' {
        Some(0)
    } else {
        match spec_find_dot(s.drop_first()) {
            Some(i) => Some(i + 1),
            None => None,
        }
    }
}

/// The segments one dot-separated part contributes: a key, plus an
/// array-item marker when the part carries the `[]` suffix.
pub open spec fn spec_segments_of_part(part: Seq<char>) -> Seq<SegView> {
    if spec_has_suffix(part, "[]"@) {
        seq![SegView::Key(part.subrange(0, part.len() - "[]"@.len())), SegView::Item]
    } else {
        seq![SegView::Key(part)]
    }
}

/// A found dot index is a position in the string.
pub proof fn lemma_find_dot_bounds(s: Seq<char>)
    ensures
        spec_find_dot(s) matches Some(i) ==> 0 <= i < s.len(),
    decreases s.len(),
{
    if s.len() > 0 && s[0] != '.' {
        lemma_find_dot_bounds(s.drop_first());
    }
}

/// The segment list a dot-notation path denotes.
pub open spec fn spec_parse_path(path: Seq<char>) -> Seq<SegView>
    decreases path.len(),
{
    match spec_find_dot(path) {
        None => spec_segments_of_part(path),
        Some(i) => {
            proof {
                lemma_find_dot_bounds(path);
            }
            spec_segments_of_part(path.subrange(0, i)) + spec_parse_path(
                path.subrange(i + 1, path.len() as int),
            )
        },
    }
}

/// If the first dot of `s` is observed at `i`, the spec index agrees.
proof fn lemma_find_dot_at(s: Seq<char>, i: int)
    requires
        0 <= i < s.len(),
        s[i] == '.',
        forall|k: int| 0 <= k < i ==> s[k] != '.',
    ensures
        spec_find_dot(s) == Some(i),
    decreases s.len(),
{
    if i > 0 {
        lemma_find_dot_at(s.drop_first(), i - 1);
    }
}

/// If `s` holds no dot, the spec index agrees.
proof fn lemma_find_dot_none(s: Seq<char>)
    requires
        forall|k: int| 0 <= k < s.len() ==> s[k] != '.',
    ensures
        spec_find_dot(s) is None,
    decreases s.len(),
{
    if s.len() > 0 {
        lemma_find_dot_none(s.drop_first());
    }
}

/// Push the segments of one part onto `segs`.
fn push_part(segs: &mut Vec<PathSegment>, part: &str)
    ensures
        views_of(final(segs)@) == views_of(old(segs)@) + spec_segments_of_part(part@),
{
    if str_has_suffix(part, "[]") {
        let cut = part.unicode_len() - "[]".unicode_len();
        let key = part.substring_char(0, cut);
        segs.push(PathSegment::Key(key.to_owned()));
        segs.push(PathSegment::ArrayItem);
        proof {
            assert(views_of(segs@) =~= views_of(old(segs)@) + spec_segments_of_part(part@));
        }
    } else {
        segs.push(PathSegment::Key(part.to_owned()));
        proof {
            assert(views_of(segs@) =~= views_of(old(segs)@) + spec_segments_of_part(part@));
        }
    }
}

/// Parse a dot-notation PII path into a list of [`PathSegment`]s.
///
/// Array fields use the `[]` suffix before the dot separator, e.g.
/// `orders[].card_number` becomes the key `orders`, an array-item marker,
/// and the key `card_number`.
pub fn parse_path(path: &str) -> (r: Vec<PathSegment>)
    ensures
        views_of(r@) == spec_parse_path(path@),
{
    let len = path.unicode_len();
    let mut segs: Vec<PathSegment> = Vec::new();
    let mut start: usize = 0;
    let mut more = true;
    proof {
        assert(path@.subrange(0, len as int) =~= path@);
        assert(views_of(segs@) =~= Seq::<SegView>::empty());
    }
    while more
        invariant
            0 <= start <= len,
            len == path@.len(),
            more ==> views_of(segs@) + spec_parse_path(
                path@.subrange(start as int, len as int),
            ) == spec_parse_path(path@),
            !more ==> views_of(segs@) == spec_parse_path(path@),
        decreases len - start + (if more { 1int } else { 0int }),
    {
        let ghost rest = path@.subrange(start as int, len as int);
        let mut j = start;
        while j < len && path.get_char(j) != '.'
            invariant
                start <= j <= len,
                len == path@.len(),
                forall|k: int| start <= k < j ==> path@[k] != '.',
            decreases len - j,
        {
            j += 1;
        }
        let part = path.substring_char(start, j);
        proof {
            assert(part@ =~= rest.subrange(0, j - start));
            if j < len {
                assert(rest[j - start] == path@[j as int]);
                assert forall|k: int| 0 <= k < j - start implies rest[k] != '.' by {
                    assert(rest[k] == path@[start + k]);
                }
                lemma_find_dot_at(rest, j - start);
                assert(rest.subrange(j - start + 1, rest.len() as int) =~= path@.subrange(
                    j + 1,
                    len as int,
                ));
            } else {
                assert forall|k: int| 0 <= k < rest.len() implies rest[k] != '.' by {
                    assert(rest[k] == path@[start + k]);
                }
                lemma_find_dot_none(rest);
                assert(part@ =~= rest);
            }
        }
        push_part(&mut segs, part);
        if j < len {
            start = j + 1;
        } else {
            more = false;
        }
    }
    segs
}

/// Whether `t` is an encrypted-field token for plaintext `pt` under `key`:
/// the rendering of a token whose ciphertext is the AEAD output for some
/// 12-byte nonce.
pub open spec fn is_token_for(t: Seq<char>, key: Seq<u8>, pt: Seq<u8>) -> bool {
    exists|n: Seq<u8>| n.len() == NONCE_LEN && t == token_render(n, gcmsiv_ct_of(key, n, pt))
}

/// Index of the first member of `entries` named `k`, if any.
pub open spec fn obj_first_index(entries: Seq<(String, JsonValue)>, k: Seq<char>) -> Option<int>
    decreases entries.len(),
{
    if entries.len() == 0 {
        None
    } else if entries[0].0@ == k {
        Some(0)
    } else {
        match obj_first_index(entries.drop_first(), k) {
            Some(i) => Some(i + 1),
            None => None,
        }
    }
}

/// If the first member named `k` is observed at `j`, the spec index agrees.
proof fn lemma_obj_first_at(entries: Seq<(String, JsonValue)>, k: Seq<char>, j: int)
    requires
        0 <= j < entries.len(),
        entries[j].0@ == k,
        forall|i: int| 0 <= i < j ==> entries[i].0@ != k,
    ensures
        obj_first_index(entries, k) == Some(j),
    decreases entries.len(),
{
    if j > 0 {
        lemma_obj_first_at(entries.drop_first(), k, j - 1);
    }
}

/// If no member is named `k`, the spec index agrees.
proof fn lemma_obj_first_none(entries: Seq<(String, JsonValue)>, k: Seq<char>)
    requires
        forall|i: int| 0 <= i < entries.len() ==> entries[i].0@ != k,
    ensures
        obj_first_index(entries, k) is None,
    decreases entries.len(),
{
    if entries.len() > 0 {
        lemma_obj_first_none(entries.drop_first(), k);
    }
}

/// Whether following `segs` through `v` reaches at least one string leaf:
/// exactly the positions at which the pipeline would encrypt. A path that
/// reaches no string leaf is a no-op on `v`.
pub open spec fn reaches_leaf(v: JsonValue, segs: Seq<SegView>) -> bool
    decreases segs.len(),
{
    if segs.len() == 0 {
        v is String
    } else {
        match segs[0] {
            SegView::Key(k) => match v {
                JsonValue::Object(entries) => match obj_first_index(entries@, k) {
                    Some(j) => reaches_leaf(entries@[j].1, segs.drop_first()),
                    None => false,
                },
                _ => false,
            },
            SegView::Item => match v {
                JsonValue::Array(items) => exists|i: int|
                    0 <= i < items@.len() && reaches_leaf(
                        #[trigger] items@[i],
                        segs.drop_first(),
                    ),
                _ => false,
            },
        }
    }
}

/// Whether any of `paths` reaches a string leaf of `v`.
pub open spec fn any_leaf_reached(v: JsonValue, paths: Seq<Seq<char>>) -> bool {
    exists|i: int|
        0 <= i < paths.len() && reaches_leaf(v, spec_parse_path(#[trigger] paths[i]))
}

/// Whether following the path from segment `idx` on reaches a string leaf
/// of `value`.
#[verifier::loop_isolation(false)]
fn leaf_reached(value: &JsonValue, segs: &Vec<PathSegment>, idx: usize) -> (r: bool)
    requires
        idx <= segs@.len(),
    ensures
        r == reaches_leaf(*value, views_of(segs@).skip(idx as int)),
    decreases segs@.len() - idx,
{
    let ghost tail = views_of(segs@).skip(idx as int);
    if idx == segs.len() {
        return match value {
            JsonValue::String(_) => true,
            _ => false,
        };
    }
    proof {
        assert(idx < segs@.len());
        assert(tail[0] == segs@[idx as int]@);
        assert(tail.drop_first() =~= views_of(segs@).skip(idx as int + 1));
    }
    let seg = &segs[idx];
    match seg {
        PathSegment::Key(k) => {
            match value {
                JsonValue::Object(entries) => {
                    let n = entries.len();
                    let mut i: usize = 0;
                    while i < n
                        invariant
                            0 <= i <= n,
                            n == entries@.len(),
                            forall|t: int| 0 <= t < i ==> entries@[t].0@ != k@,
                        decreases n - i,
                    {
                        let pair = &entries[i];
                        if str_eq(pair.0.as_str(), k.as_str()) {
                            proof {
                                lemma_obj_first_at(entries@, k@, i as int);
                            }
                            let r = leaf_reached(&pair.1, segs, idx + 1);
                            return r;
                        }
                        i += 1;
                    }
                    proof {
                        lemma_obj_first_none(entries@, k@);
                    }
                    false
                },
                _ => false,
            }
        },
        PathSegment::ArrayItem => {
            match value {
                JsonValue::Array(items) => {
                    let n = items.len();
                    let mut i: usize = 0;
                    while i < n
                        invariant
                            0 <= i <= n,
                            n == items@.len(),
                            forall|t: int|
                                0 <= t < i ==> !reaches_leaf(
                                    #[trigger] items@[t],
                                    views_of(segs@).skip(idx as int + 1),
                                ),
                        decreases n - i,
                    {
                        let item = &items[i];
                        if leaf_reached(item, segs, idx + 1) {
                            proof {
                                assert(reaches_leaf(items@[i as int], tail.drop_first()));
                            }
                            return true;
                        }
                        i += 1;
                    }
                    proof {
                        if reaches_leaf(*value, tail) {
                            let t = choose|t: int|
                                0 <= t < items@.len() && reaches_leaf(
                                    items@[t],
                                    tail.drop_first(),
                                );
                            assert(false);
                        }
                    }
                    false
                },
                _ => false,
            }
        },
    }
}

/// A path that reaches no string leaf of a value relates that value to
/// itself: the pipeline's one-step relation holds with nothing rewritten.
pub proof fn lemma_unmatched_identity(v: JsonValue, segs: Seq<SegView>, key: Seq<u8>)
    requires
        !reaches_leaf(v, segs),
    ensures
        encrypted_at(v, v, segs, key),
    decreases segs.len(),
{
    if segs.len() == 0 {
    } else {
        match segs[0] {
            SegView::Key(k) => {
                match v {
                    JsonValue::Object(entries) => {
                        match obj_first_index(entries@, k) {
                            Some(j) => {
                                lemma_unmatched_identity(entries@[j].1, segs.drop_first(), key);
                            },
                            None => {},
                        }
                    },
                    _ => {},
                }
            },
            SegView::Item => {
                match v {
                    JsonValue::Array(items) => {
                        assert forall|t: int| 0 <= t < items@.len() implies encrypted_at(
                            items@[t],
                            #[trigger] items@[t],
                            segs.drop_first(),
                            key,
                        ) by {
                            assert(!reaches_leaf(items@[t], segs.drop_first()));
                            lemma_unmatched_identity(items@[t], segs.drop_first(), key);
                        }
                    },
                    _ => {},
                }
            },
        }
    }
}

/// How a JSON value may change when the pipeline follows `segs` through it
/// under `key`: every string leaf at the end of a matching descent becomes
/// a token for its UTF-8 bytes, and everything else is untouched. A path
/// that does not match the document's shape leaves it unchanged.
pub open spec fn encrypted_at(
    oldv: JsonValue,
    newv: JsonValue,
    segs: Seq<SegView>,
    key: Seq<u8>,
) -> bool
    decreases segs.len(),
{
    if segs.len() == 0 {
        match oldv {
            JsonValue::String(s) => match newv {
                JsonValue::String(t) => is_token_for(t@, key, encode_utf8(s@)),
                _ => false,
            },
            _ => newv == oldv,
        }
    } else {
        match segs[0] {
            SegView::Key(k) => match oldv {
                JsonValue::Object(entries) => match newv {
                    JsonValue::Object(newentries) => {
                        &&& newentries@.len() == entries@.len()
                        &&& (forall|i: int|
                            0 <= i < entries@.len() ==> (#[trigger] newentries@[i]).0@
                                == entries@[i].0@)
                        &&& (match obj_first_index(entries@, k) {
                            None => newv == oldv,
                            Some(j) => (forall|i: int|
                                0 <= i < entries@.len() && i != j ==> (#[trigger] newentries@[i]).1
                                    == entries@[i].1) && encrypted_at(
                                entries@[j].1,
                                newentries@[j].1,
                                segs.drop_first(),
                                key,
                            ),
                        })
                    },
                    _ => false,
                },
                _ => newv == oldv,
            },
            SegView::Item => match oldv {
                JsonValue::Array(items) => match newv {
                    JsonValue::Array(newitems) => newitems@.len() == items@.len() && (forall|
                        i: int,
                    |
                        0 <= i < items@.len() ==> encrypted_at(
                            items@[i],
                            #[trigger] newitems@[i],
                            segs.drop_first(),
                            key,
                        )),
                    _ => false,
                },
                _ => newv == oldv,
            },
        }
    }
}

/// Recursively navigate `value` from segment `idx` on and encrypt every
/// string leaf found at the end of the path.
#[verifier::loop_isolation(false)]
fn encrypt_at(
    value: &mut JsonValue,
    segs: &Vec<PathSegment>,
    idx: usize,
    dek: &[u8],
) -> (r: Result<(), CipherError>)
    requires
        dek@.len() == KEY_LEN,
        idx <= segs@.len(),
    ensures
        r is Ok ==> encrypted_at(
            *old(value),
            *final(value),
            views_of(segs@).skip(idx as int),
            dek@,
        ),
        r matches Err(e) ==> e is AeadFailure,
        !reaches_leaf(*old(value), views_of(segs@).skip(idx as int)) ==> r is Ok,
    decreases segs@.len() - idx,
{
    let ghost tail = views_of(segs@).skip(idx as int);
    if idx == segs.len() {
        match value {
            JsonValue::String(s) => {
                let encrypted = match encrypt_field(s.as_str().as_bytes(), dek) {
                    Ok(f) => f,
                    Err(e) => {
                        return Err(e);
                    },
                };
                let token = encrypted.to_string_repr();
                proof {
                    assert(encrypted.nonce@.len() == NONCE_LEN);
                    assert(token@ == token_render(
                        encrypted.nonce@,
                        gcmsiv_ct_of(dek@, encrypted.nonce@, encode_utf8(old(value)->String_0@)),
                    ));
                }
                *value = JsonValue::String(token);
            },
            _ => {},
        }
        return Ok(());
    }
    proof {
        assert(idx < segs@.len());
        assert(tail[0] == segs@[idx as int]@);
        assert(tail.drop_first() =~= views_of(segs@).skip(idx as int + 1));
    }
    let seg = &segs[idx];
    match seg {
        PathSegment::Key(k) => {
            match value {
                JsonValue::Object(entries) => {
                    let n = entries.len();
                    let mut i: usize = 0;
                    while i < n
                        invariant
                            0 <= i <= n,
                            n == entries@.len(),
                            *old(value) == JsonValue::Object(*entries),
                            forall|t: int| 0 <= t < i ==> entries@[t].0@ != k@,
                        decreases n - i,
                    {
                        let found = {
                            let pair = &entries[i];
                            str_eq(pair.0.as_str(), k.as_str())
                        };
                        if found {
                            proof {
                                lemma_obj_first_at(entries@, k@, i as int);
                            }
                            let ghost ovec = *entries;
                            let ghost oentries = entries@;
                            let pair = &mut entries[i];
                            let res = encrypt_at(&mut pair.1, segs, idx + 1, dek);
                            proof {
                                if !(res is Ok) {
                                    assert(reaches_leaf(
                                        oentries[i as int].1,
                                        tail.drop_first(),
                                    ));
                                    assert(reaches_leaf(*old(value), tail));
                                }
                                if res is Ok {
                                    assert(*old(value) == JsonValue::Object(ovec));
                                    assert(ovec@ == oentries);
                                    assert(entries@.len() == oentries.len());
                                    assert(entries@[i as int].0@ == k@);
                                    assert(forall|t: int|
                                        0 <= t < oentries.len() && t != i ==> entries@[t]
                                            == oentries[t]);
                                    assert(obj_first_index(oentries, k@) == Some(i as int));
                                    assert(encrypted_at(
                                        oentries[i as int].1,
                                        entries@[i as int].1,
                                        tail.drop_first(),
                                        dek@,
                                    ));
                                    assert(tail[0] == SegView::Key(k@));
                                    assert(encrypted_at(
                                        *old(value),
                                        JsonValue::Object(*entries),
                                        tail,
                                        dek@,
                                    ));
                                }
                            }
                            return res;
                        }
                        i += 1;
                    }
                    proof {
                        lemma_obj_first_none(entries@, k@);
                    }
                    Ok(())
                },
                _ => Ok(()),
            }
        },
        PathSegment::ArrayItem => {
            match value {
                JsonValue::Array(items) => {
                    let ghost orig = items@;
                    let ghost ovec0 = *items;
                    let n = items.len();
                    let mut i: usize = 0;
                    while i < n
                        invariant
                            0 <= i <= n,
                            n == items@.len(),
                            n == orig.len(),
                            *old(value) == JsonValue::Array(ovec0),
                            ovec0@ == orig,
                            forall|t: int|
                                0 <= t < i ==> encrypted_at(
                                    orig[t],
                                    #[trigger] items@[t],
                                    views_of(segs@).skip(idx as int + 1),
                                    dek@,
                                ),
                            forall|t: int| i <= t < n ==> items@[t] == orig[t],
                        decreases n - i,
                    {
                        let item = &mut items[i];
                        let res = encrypt_at(item, segs, idx + 1, dek);
                        if let Err(e) = res {
                            proof {
                                assert(reaches_leaf(
                                    orig[i as int],
                                    views_of(segs@).skip(idx as int + 1),
                                ));
                                assert(reaches_leaf(*old(value), tail));
                            }
                            return Err(e);
                        }
                        i += 1;
                    }
                    Ok(())
                },
                _ => Ok(()),
            }
        },
    }
}

/// How a JSON value may change when the pipeline follows each path of
/// `paths` in turn: the composition of one [`encrypted_at`] step per path.
pub open spec fn encrypted_along(
    oldv: JsonValue,
    newv: JsonValue,
    paths: Seq<Seq<char>>,
    key: Seq<u8>,
) -> bool
    decreases paths.len(),
{
    if paths.len() == 0 {
        newv == oldv
    } else {
        exists|mid: JsonValue|
            #[trigger] encrypted_at(oldv, mid, spec_parse_path(paths[0]), key) && encrypted_along(
                mid,
                newv,
                paths.drop_first(),
                key,
            )
    }
}

/// A chain of steps extends on the right by one more step.
proof fn lemma_along_snoc(
    oldv: JsonValue,
    midv: JsonValue,
    newv: JsonValue,
    paths: Seq<Seq<char>>,
    p: Seq<char>,
    key: Seq<u8>,
)
    requires
        encrypted_along(oldv, midv, paths, key),
        encrypted_at(midv, newv, spec_parse_path(p), key),
    ensures
        encrypted_along(oldv, newv, paths.push(p), key),
    decreases paths.len(),
{
    if paths.len() == 0 {
        assert(paths.push(p)[0] == p);
        assert(paths.push(p).drop_first() =~= Seq::<Seq<char>>::empty());
        assert(encrypted_along(newv, newv, paths.push(p).drop_first(), key));
        assert(encrypted_at(oldv, newv, spec_parse_path(paths.push(p)[0]), key));
    } else {
        let mid0 = choose|mid0: JsonValue|
            #[trigger] encrypted_at(oldv, mid0, spec_parse_path(paths[0]), key)
                && encrypted_along(mid0, midv, paths.drop_first(), key);
        lemma_along_snoc(mid0, midv, newv, paths.drop_first(), p, key);
        assert(paths.push(p)[0] == paths[0]);
        assert(paths.push(p).drop_first() =~= paths.drop_first().push(p));
        assert(encrypted_at(oldv, mid0, spec_parse_path(paths.push(p)[0]), key));
        assert(encrypted_along(mid0, newv, paths.push(p).drop_first(), key));
    }
}

/// Encrypt all PII string fields in `payload` according to `pii_paths`.
///
/// On success the result relates to the input by one traversal step per
/// path, in order. A path set none of whose paths reaches a string leaf of
/// the payload is a no-op: success is then owed and the payload is left
/// exactly as it was. The only possible failure is an internal failure of
/// the encryption primitive (or its random source) at a reached leaf; on
/// failure the caller discards the payload, so no half-transformed
/// document escapes.
pub fn encrypt_pii_fields(
    payload: &mut JsonValue,
    pii_paths: &crate::schema::PiiFieldPaths,
    dek: &[u8],
) -> (r: Result<(), CipherError>)
    requires
        dek@.len() == KEY_LEN,
    ensures
        r is Ok ==> encrypted_along(
            *old(payload),
            *final(payload),
            pii_paths.spec_seq(),
            dek@,
        ),
        r matches Err(e) ==> e is AeadFailure,
        !any_leaf_reached(*old(payload), pii_paths.spec_seq()) ==> (r is Ok && *final(payload)
            == *old(payload)),
{
    let n = pii_paths.count();
    let mut i: usize = 0;
    proof {
        assert(pii_paths.spec_seq().take(0) =~= Seq::<Seq<char>>::empty());
    }
    while i < n
        invariant
            0 <= i <= n,
            n == pii_paths.spec_seq().len(),
            dek@.len() == KEY_LEN,
            encrypted_along(*old(payload), *payload, pii_paths.spec_seq().take(i as int), dek@),
            !any_leaf_reached(*old(payload), pii_paths.spec_seq()) ==> *payload == *old(
                payload,
            ),
        decreases n - i,
    {
        let ghost before = *payload;
        let path = pii_paths.get(i);
        let segs = parse_path(path.as_str());
        proof {
            assert(views_of(segs@).skip(0) =~= views_of(segs@));
        }
        if leaf_reached(payload, &segs, 0) {
            proof {
                if !any_leaf_reached(*old(payload), pii_paths.spec_seq()) {
                    assert(*payload == *old(payload));
                    assert(reaches_leaf(
                        *old(payload),
                        spec_parse_path(pii_paths.spec_seq()[i as int]),
                    ));
                    assert(any_leaf_reached(*old(payload), pii_paths.spec_seq()));
                }
            }
            let res = encrypt_at(payload, &segs, 0, dek);
            if let Err(e) = res {
                return Err(e);
            }
            proof {
                lemma_along_snoc(
                    *old(payload),
                    before,
                    *payload,
                    pii_paths.spec_seq().take(i as int),
                    pii_paths.spec_seq()[i as int],
                    dek@,
                );
                assert(pii_paths.spec_seq().take(i as int).push(pii_paths.spec_seq()[i as int])
                    =~= pii_paths.spec_seq().take(i as int + 1));
            }
        } else {
            proof {
                lemma_unmatched_identity(*payload, views_of(segs@), dek@);
                assert(encrypted_at(
                    before,
                    *payload,
                    spec_parse_path(pii_paths.spec_seq()[i as int]),
                    dek@,
                ));
                lemma_along_snoc(
                    *old(payload),
                    before,
                    *payload,
                    pii_paths.spec_seq().take(i as int),
                    pii_paths.spec_seq()[i as int],
                    dek@,
                );
                assert(pii_paths.spec_seq().take(i as int).push(pii_paths.spec_seq()[i as int])
                    =~= pii_paths.spec_seq().take(i as int + 1));
            }
        }
        i += 1;
    }
    proof {
        assert(pii_paths.spec_seq().take(n as int) =~= pii_paths.spec_seq());
    }
    Ok(())
}

/// The schema-identifying header of a request, as the transport found it.
pub enum SchemaHeader {
    /// The header was absent.
    Missing,
    /// The header was present but not valid ASCII text.
    NonAscii,
    /// The header's text.
    Value(String),
}

/// Decide one encrypt request.
///
/// The header must name a cached schema and a DEK must be installed; then
/// every PII path of that schema is applied to the payload in turn. Each
/// rejection is exact: a missing or non-ASCII header and an unknown schema
/// are bad requests with the messages shown, an uninitialised DEK makes
/// the service unavailable, and a cipher failure surfaces as an
/// encryption failure. A request whose schema paths reach no string leaf
/// of the payload succeeds and returns the payload unchanged. On an error
/// the payload is discarded, never returned half-encrypted.
pub fn process_encrypt(
    header_name: &str,
    header: SchemaHeader,
    cache: &SchemaCache,
    store: &DekStore,
    payload: JsonValue,
) -> (r: Result<JsonValue, ServiceError>)
    requires
        cache.wf(),
        store.wf(),
    ensures
        header is Missing ==> (r matches Err(e) && e matches ServiceError::BadRequest(m) && m@
            == "missing "@ + header_name@ + " header"@),
        header is NonAscii ==> (r matches Err(e) && e matches ServiceError::BadRequest(m) && m@
            == header_name@ + " header contains non-ASCII characters"@),
        header matches SchemaHeader::Value(nm) ==> (!cache@.contains_key(nm@) ==> (r matches
            Err(e) && e matches ServiceError::BadRequest(m) && m@ == "unknown schema: "@ + nm@)),
        header matches SchemaHeader::Value(nm) ==> ((cache@.contains_key(nm@)
            && !store.spec_is_ready()) ==> (r matches Err(e) && e matches
            ServiceError::Unavailable(m) && m@ == "DEK not yet initialised"@)),
        header matches SchemaHeader::Value(nm) ==> ((cache@.contains_key(nm@)
            && store.spec_is_ready()) ==> (r matches Ok(v) ==> encrypted_along(
            payload,
            v,
            cache@[nm@].pii_paths.spec_seq(),
            store.spec_dek().unwrap(),
        ))),
        header matches SchemaHeader::Value(nm) ==> ((cache@.contains_key(nm@)
            && store.spec_is_ready()) ==> (r matches Err(e2) ==> (e2 matches
            ServiceError::EncryptionFailure(m2) && m2@ == "encryption failed"@))),
        header matches SchemaHeader::Value(nm) ==> ((cache@.contains_key(nm@)
            && store.spec_is_ready() && !any_leaf_reached(
            payload,
            cache@[nm@].pii_paths.spec_seq(),
        )) ==> (r matches Ok(v2) && v2 == payload)),
{
    let name = match header {
        SchemaHeader::Missing => {
            let mut m = "missing ".to_owned();
            m.append(header_name);
            m.append(" header");
            proof {
                assert(m@ =~= "missing "@ + header_name@ + " header"@);
            }
            return Err(ServiceError::BadRequest(m));
        },
        SchemaHeader::NonAscii => {
            let mut m = header_name.to_owned();
            m.append(" header contains non-ASCII characters");
            proof {
                assert(m@ =~= header_name@ + " header contains non-ASCII characters"@);
            }
            return Err(ServiceError::BadRequest(m));
        },
        SchemaHeader::Value(nm) => nm,
    };
    let cached = match cache.get(name.as_str()) {
        Ok(c) => c,
        Err(_) => {
            let mut m = "unknown schema: ".to_owned();
            m.append(name.as_str());
            proof {
                assert(m@ =~= "unknown schema: "@ + name@);
            }
            return Err(ServiceError::BadRequest(m));
        },
    };
    let mut dek = match store.current() {
        Ok(d) => d,
        Err(_) => {
            return Err(ServiceError::Unavailable("DEK not yet initialised".to_owned()));
        },
    };
    if dek.0.len() != KEY_LEN {
        dek.zeroize();
        return Err(ServiceError::EncryptionFailure("encryption failed".to_owned()));
    }
    let mut value = payload;
    let res = encrypt_pii_fields(&mut value, &cached.pii_paths, dek.0.as_slice());
    dek.zeroize();
    match res {
        Ok(()) => Ok(value),
        Err(_) => Err(ServiceError::EncryptionFailure("encryption failed".to_owned())),
    }
}

/// Decide the health endpoint's response.
///
/// The service is `ok` (status 200) when a DEK is ready and at least one
/// schema is cached, and `degraded` (status 503) otherwise; the body
/// always reports both readiness facts.
pub fn health_status(dek_ready: bool, schemas_loaded: usize) -> (r: (u16, HealthResponse))
    ensures
        (dek_ready && schemas_loaded > 0) ==> (r.0 == 200 && r.1.status@ == "ok"@),
        !(dek_ready && schemas_loaded > 0) ==> (r.0 == 503 && r.1.status@ == "degraded"@),
        r.1.dek_ready == dek_ready,
        r.1.schemas_loaded == schemas_loaded,
{
    if dek_ready && schemas_loaded > 0 {
        (200, HealthResponse { status: "ok".to_owned(), dek_ready, schemas_loaded })
    } else {
        (503, HealthResponse { status: "degraded".to_owned(), dek_ready, schemas_loaded })
    }
}

/// The catch-all response for an unknown route.
pub fn not_found() -> (r: (u16, ErrorResponse))
    ensures
        r.0 == 404,
        r.1.code@ == "not_found"@,
        r.1.message@ == "the requested resource does not exist"@,
{
    (404, ErrorResponse::new("not_found", "the requested resource does not exist"))
}

/// The response code and body for a service error: the error's HTTP
/// status, its machine tag, and its message.
pub fn error_response(e: &ServiceError) -> (r: (u16, ErrorResponse))
    ensures
        r.0 == e.spec_http_status(),
        r.1.message@ == e.spec_message(),
        e matches ServiceError::BadRequest(_) ==> r.1.code@ == "bad_request"@,
        e matches ServiceError::Unavailable(_) ==> r.1.code@ == "service_unavailable"@,
        e matches ServiceError::EncryptionFailure(_) ==> r.1.code@ == "internal_error"@,
        e matches ServiceError::Internal(_) ==> r.1.code@ == "internal_error"@,
{
    match e {
        ServiceError::BadRequest(m) => (400, ErrorResponse::new("bad_request", m.as_str())),
        ServiceError::Unavailable(m) => (
            503,
            ErrorResponse::new("service_unavailable", m.as_str()),
        ),
        ServiceError::EncryptionFailure(m) => (
            500,
            ErrorResponse::new("internal_error", m.as_str()),
        ),
        ServiceError::Internal(m) => (500, ErrorResponse::new("internal_error", m.as_str())),
    }
}

} // verus!

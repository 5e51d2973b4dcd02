//! Small verified helpers for character-level string work: equality,
//! prefix and suffix tests, and the dot-notation path builders shared by the
//! schema resolver and the encryption pipeline.

use vstd::prelude::*;

verus! {

/// True when `p` is a prefix of `s`.
pub open spec fn spec_has_prefix(s: Seq<char>, p: Seq<char>) -> bool {
    p.len() <= s.len() && s.subrange(0, p.len() as int) == p
}

/// True when `suf` is a suffix of `s`.
pub open spec fn spec_has_suffix(s: Seq<char>, suf: Seq<char>) -> bool {
    suf.len() <= s.len() && s.subrange(s.len() - suf.len(), s.len() as int) == suf
}

/// Character-for-character string equality.
pub fn str_eq(a: &str, b: &str) -> (r: bool)
    ensures
        r == (a@ == b@),
{
    let alen = a.unicode_len();
    let blen = b.unicode_len();
    if alen != blen {
        return false;
    }
    let mut i: usize = 0;
    while i < alen
        invariant
            0 <= i <= alen,
            alen == a@.len(),
            alen == b@.len(),
            forall|k: int| 0 <= k < i ==> a@[k] == b@[k],
        decreases alen - i,
    {
        if a.get_char(i) != b.get_char(i) {
            return false;
        }
        i += 1;
    }
    proof {
        assert(a@ =~= b@);
    }
    true
}

/// Whether `s` starts with `p`.
pub fn str_has_prefix(s: &str, p: &str) -> (r: bool)
    ensures
        r == spec_has_prefix(s@, p@),
{
    let slen = s.unicode_len();
    let plen = p.unicode_len();
    if plen > slen {
        return false;
    }
    let mut i: usize = 0;
    while i < plen
        invariant
            0 <= i <= plen <= slen,
            slen == s@.len(),
            plen == p@.len(),
            forall|k: int| 0 <= k < i ==> s@[k] == p@[k],
        decreases plen - i,
    {
        if s.get_char(i) != p.get_char(i) {
            proof {
                assert(s@.subrange(0, p@.len() as int)[i as int] == s@[i as int]);
            }
            return false;
        }
        i += 1;
    }
    proof {
        assert(s@.subrange(0, p@.len() as int) =~= p@);
    }
    true
}

/// Whether `s` ends with `suf`.
pub fn str_has_suffix(s: &str, suf: &str) -> (r: bool)
    ensures
        r == spec_has_suffix(s@, suf@),
{
    let slen = s.unicode_len();
    let flen = suf.unicode_len();
    if flen > slen {
        return false;
    }
    let base = slen - flen;
    let mut i: usize = 0;
    while i < flen
        invariant
            0 <= i <= flen <= slen,
            base == slen - flen,
            slen == s@.len(),
            flen == suf@.len(),
            forall|k: int| 0 <= k < i ==> s@[base + k] == suf@[k],
        decreases flen - i,
    {
        if s.get_char(base + i) != suf.get_char(i) {
            proof {
                assert(s@.subrange(s@.len() - suf@.len(), s@.len() as int)[i as int]
                    == s@[base + i]);
            }
            return false;
        }
        i += 1;
    }
    proof {
        assert(s@.subrange(s@.len() - suf@.len(), s@.len() as int) =~= suf@);
    }
    true
}

/// The dot-notation path formed by descending from `prefix` into the object
/// property `name`.
pub open spec fn spec_path_join(prefix: Seq<char>, name: Seq<char>) -> Seq<char> {
    if prefix.len() == 0 {
        name
    } else {
        prefix + "."@ + name
    }
}

/// The dot-notation path formed by descending from `prefix` into the
/// elements of an array.
pub open spec fn spec_path_array(prefix: Seq<char>) -> Seq<char> {
    if prefix.len() == 0 {
        "[]"@
    } else {
        prefix + "[]"@
    }
}

/// Builds the object-property path: `name` under an empty prefix, else
/// `prefix.name`.
pub fn path_join(prefix: &str, name: &str) -> (r: String)
    ensures
        r@ == spec_path_join(prefix@, name@),
{
    if prefix.is_empty() {
        return name.to_owned();
    }
    let mut r = prefix.to_owned();
    r.append(".");
    r.append(name);
    proof {
        assert(r@ =~= spec_path_join(prefix@, name@));
    }
    r
}

/// Builds the array-element path: `[]` under an empty prefix, else
/// `prefix[]`.
pub fn path_array(prefix: &str) -> (r: String)
    ensures
        r@ == spec_path_array(prefix@),
{
    if prefix.is_empty() {
        return "[]".to_owned();
    }
    let mut r = prefix.to_owned();
    r.append("[]");
    proof {
        assert(r@ =~= spec_path_array(prefix@));
    }
    r
}

} // verus!

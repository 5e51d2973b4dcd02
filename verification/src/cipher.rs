//! AES-256-GCM-SIV encryption and decryption of individual string fields,
//! together with the textual token codec.
//!
//! The canonical textual form of an encrypted field is
//! `v1.<base64url(nonce)>.<base64url(ciphertext+tag)>`, with both base64url
//! segments unpadded. The `v1` prefix allows a future algorithm or
//! key-version migration without breaking existing ciphertext.

use vstd::prelude::*;
use aes_gcm_siv::aead::{Aead, Generate, KeyInit};
use base64::Engine;

verus! {

/// Byte length of an AES-256 key.
pub const KEY_LEN: usize = 32;

/// Byte length of an AES-GCM-SIV nonce.
pub const NONCE_LEN: usize = 12;

/// Byte length of the authentication tag appended to the ciphertext.
pub const TAG_LEN: usize = 16;

/// Largest plaintext (in bytes) that the AEAD construction accepts.
pub const P_MAX: u64 = 68719476736;

/// The unpadded base64url encoding of a byte string, as computed by the
/// `base64` crate's `URL_SAFE_NO_PAD` engine.
pub uninterp spec fn b64url_of(bytes: Seq<u8>) -> Seq<char>;

/// The ciphertext-with-tag that AES-256-GCM-SIV produces for the given key,
/// nonce and plaintext. The construction is deterministic: the result is a
/// function of exactly these three inputs.
pub uninterp spec fn gcmsiv_ct_of(key: Seq<u8>, nonce: Seq<u8>, pt: Seq<u8>) -> Seq<u8>;

/// True when no character of `s` is the `.` separator.
pub open spec fn has_no_dot(s: Seq<char>) -> bool {
    forall|i: int| 0 <= i < s.len() ==> s[i] != '.'
}

/// The canonical textual rendering of a token with the given nonce and
/// ciphertext bytes.
pub open spec fn token_render(nonce: Seq<u8>, ct: Seq<u8>) -> Seq<char> {
    "v1."@ + b64url_of(nonce) + "."@ + b64url_of(ct)
}

/// Every rendered token starts with the `v1.` version prefix, whatever its
/// nonce and ciphertext are.
pub proof fn lemma_token_render_prefix(nonce: Seq<u8>, ct: Seq<u8>)
    ensures
        token_render(nonce, ct).len() >= 3,
        token_render(nonce, ct).subrange(0, 3) == "v1."@,
{
    reveal_strlit("v1.");
    assert(token_render(nonce, ct).subrange(0, 3) =~= "v1."@);
}

/// Relies on `base64::engine::general_purpose::URL_SAFE_NO_PAD.encode`:
/// the unpadded base64url encoding of the input. Every output character is
/// drawn from the url-safe alphabet (`A-Z a-z 0-9 - _`), which does not
/// contain `.`.
#[verifier::external_body]
fn b64url_encode(bytes: &[u8]) -> (s: String)
    ensures
        s@ == b64url_of(bytes@),
        has_no_dot(s@),
{
    base64::engine::general_purpose::URL_SAFE_NO_PAD.encode(bytes)
}

/// Relies on `base64::engine::general_purpose::URL_SAFE_NO_PAD.decode`:
/// with the `NO_PAD` config (padding mode `RequireNone`, trailing bits
/// rejected) decoding succeeds exactly on canonical unpadded encodings, and
/// inverts the encoder on them.
#[verifier::external_body]
fn b64url_decode(s: &str) -> (r: Option<Vec<u8>>)
    ensures
        r matches Some(v) ==> s@ == b64url_of(v@),
        r is None ==> forall|b: Seq<u8>| s@ != b64url_of(b),
        r matches Some(v) ==> forall|b: Seq<u8>| s@ == b64url_of(b) ==> v@ == b,
{
    base64::engine::general_purpose::URL_SAFE_NO_PAD.decode(s).ok()
}

/// Relies on `aes_gcm_siv::Nonce::try_generate` (the `Generate` impl backed
/// by the operating system's secure random source): on success the result is
/// a fresh 12-byte nonce. Nothing can be promised about the value drawn.
#[verifier::external_body]
fn random_nonce() -> (r: Option<Vec<u8>>)
    ensures
        r matches Some(v) ==> v@.len() == NONCE_LEN,
{
    let nonce: Option<aes_gcm_siv::Nonce> = aes_gcm_siv::Nonce::try_generate().ok();
    nonce.map(|n| n.as_slice().to_vec())
}

/// Relies on `aes_gcm_siv::Aes256GcmSiv::{new_from_slice, encrypt}`: with a
/// 32-byte key and 12-byte nonce, encryption succeeds whenever the plaintext
/// is at most `P_MAX` bytes, and appends the 16-byte tag to the ciphertext.
#[verifier::external_body]
fn aead_encrypt(key: &[u8], nonce: &[u8], pt: &[u8]) -> (r: Option<Vec<u8>>)
    requires
        key@.len() == KEY_LEN,
        nonce@.len() == NONCE_LEN,
    ensures
        r matches Some(c) ==> c@ == gcmsiv_ct_of(key@, nonce@, pt@)
            && c@.len() == pt@.len() + TAG_LEN,
        r is None ==> pt@.len() > P_MAX,
{
    let cipher = match aes_gcm_siv::Aes256GcmSiv::new_from_slice(key) {
        Ok(c) => c,
        Err(_) => return None,
    };
    let n = match <&aes_gcm_siv::Nonce>::try_from(nonce) {
        Ok(n) => n,
        Err(_) => return None,
    };
    cipher.encrypt(n, pt).ok()
}

/// Relies on `aes_gcm_siv::Aes256GcmSiv::{new_from_slice, decrypt}`: with a
/// 32-byte key and 12-byte nonce, decryption returns a plaintext exactly when
/// the input is the encryption of that plaintext under the same key and
/// nonce; a failed tag check yields `None`.
#[verifier::external_body]
fn aead_decrypt(key: &[u8], nonce: &[u8], ct: &[u8]) -> (r: Option<Vec<u8>>)
    requires
        key@.len() == KEY_LEN,
        nonce@.len() == NONCE_LEN,
    ensures
        r matches Some(p) ==> ct@ == gcmsiv_ct_of(key@, nonce@, p@),
        r is None ==> forall|p: Seq<u8>|
            !(p.len() <= P_MAX && p.len() + TAG_LEN == ct@.len()
                && ct@ == gcmsiv_ct_of(key@, nonce@, p)),
        r matches Some(q) ==> forall|p: Seq<u8>|
            (p.len() <= P_MAX && p.len() + TAG_LEN == ct@.len()
                && ct@ == gcmsiv_ct_of(key@, nonce@, p)) ==> q@ == p,
{
    let cipher = match aes_gcm_siv::Aes256GcmSiv::new_from_slice(key) {
        Ok(c) => c,
        Err(_) => return None,
    };
    let n = match <&aes_gcm_siv::Nonce>::try_from(nonce) {
        Ok(n) => n,
        Err(_) => return None,
    };
    cipher.decrypt(n, ct).ok()
}

/// Errors produced by the cipher layer.
#[derive(Debug)]
pub enum CipherError {
    /// The DEK is the wrong length (must be [`KEY_LEN`] bytes).
    InvalidKeyLength,
    /// AES-GCM-SIV encryption or decryption failed.
    AeadFailure,
    /// The encrypted field string does not match the expected format.
    InvalidFormat,
}

/// A parsed, encrypted field value.
///
/// The string representation is `v1.<base64url(nonce)>.<base64url(ciphertext+tag)>`.
#[derive(Debug, Clone, PartialEq, Eq)]
pub struct EncryptedField {
    /// Raw nonce bytes; always [`NONCE_LEN`] bytes long.
    pub nonce: Vec<u8>,
    /// Raw ciphertext + authentication tag bytes.
    pub ciphertext: Vec<u8>,
}

impl EncryptedField {
    /// Structural well-formedness: the nonce has the fixed AEAD nonce length.
    pub open spec fn wf(&self) -> bool {
        self.nonce@.len() == NONCE_LEN
    }

    /// Encode this value to its canonical string representation.
    ///
    /// The result always starts with `v1.`; the two base64url segments are
    /// free of the `.` separator, which is what lets [`Self::from_str`]
    /// recover the token exactly.
    pub fn to_string_repr(&self) -> (s: String)
        ensures
            s@ == token_render(self.nonce@, self.ciphertext@),
            s@.len() >= 3 && s@.subrange(0, 3) == "v1."@,
            has_no_dot(b64url_of(self.nonce@)),
            has_no_dot(b64url_of(self.ciphertext@)),
    {
        proof {
            reveal_strlit("v1.");
            reveal_strlit(".");
        }
        let mut s = "v1.".to_owned();
        let e1 = b64url_encode(self.nonce.as_slice());
        s.append(e1.as_str());
        s.append(".");
        let e2 = b64url_encode(self.ciphertext.as_slice());
        s.append(e2.as_str());
        proof {
            assert(s@ =~= token_render(self.nonce@, self.ciphertext@));
            assert(s@.subrange(0, 3) =~= "v1."@);
        }
        s
    }

    /// Parse an encrypted field string back into an [`EncryptedField`].
    ///
    /// Succeeds exactly on well-formed tokens: three dot-separated segments,
    /// the first exactly `v1`, the remaining two canonical unpadded base64url,
    /// and a decoded nonce of [`NONCE_LEN`] bytes; every rejection is the
    /// invalid-format error. Together with [`Self::to_string_repr`] this
    /// makes decoding a rendered token yield the original token.
    pub fn from_str(s: &str) -> (r: Result<EncryptedField, CipherError>)
        ensures
            r matches Ok(f) ==> f.wf() && s@ == token_render(f.nonce@, f.ciphertext@),
            r matches Err(e) ==> e is InvalidFormat,
            forall|n: Seq<u8>, c: Seq<u8>|
                (n.len() == NONCE_LEN && has_no_dot(b64url_of(n)) && s@ == token_render(n, c))
                ==> (r matches Ok(f) && f.nonce@ == n && f.ciphertext@ == c),
    {
        proof {
            reveal_strlit("v1.");
            reveal_strlit(".");
        }
        let len = s.unicode_len();
        // Find the first `.`; the version segment must be exactly `v1`.
        let mut i: usize = 0;
        while i < len && s.get_char(i) != '.'
            invariant
                0 <= i <= len,
                len == s@.len(),
                forall|k: int| 0 <= k < i ==> s@[k] != '.',
            decreases len - i,
        {
            i += 1;
        }
        if i >= len {
            proof {
                assert forall|n: Seq<u8>, c: Seq<u8>|
                    !(n.len() == NONCE_LEN && has_no_dot(b64url_of(n))
                        && s@ == token_render(n, c)) by {
                    if s@ == token_render(n, c) {
                        assert(s@[2] == '.');
                    }
                }
            }
            return Err(CipherError::InvalidFormat);
        }
        if !(i == 2 && s.get_char(0) == 'v' && s.get_char(1) == '1') {
            proof {
                assert forall|n: Seq<u8>, c: Seq<u8>|
                    !(n.len() == NONCE_LEN && has_no_dot(b64url_of(n))
                        && s@ == token_render(n, c)) by {
                    if s@ == token_render(n, c) {
                        assert(s@[0] == 'v');
                        assert(s@[1] == '1');
                        assert(s@[2] == '.');
                    }
                }
            }
            return Err(CipherError::InvalidFormat);
        }
        // Find the second `.`.
        let mut j: usize = 3;
        while j < len && s.get_char(j) != '.'
            invariant
                3 <= j <= len,
                len == s@.len(),
                forall|k: int| 3 <= k < j ==> s@[k] != '.',
            decreases len - j,
        {
            j += 1;
        }
        if j >= len {
            proof {
                assert forall|n: Seq<u8>, c: Seq<u8>|
                    !(n.len() == NONCE_LEN && has_no_dot(b64url_of(n))
                        && s@ == token_render(n, c)) by {
                    if n.len() == NONCE_LEN && has_no_dot(b64url_of(n))
                        && s@ == token_render(n, c) {
                        let e1 = b64url_of(n);
                        assert(s@[3 + e1.len() as int] == '.');
                    }
                }
            }
            return Err(CipherError::InvalidFormat);
        }
        let seg1 = s.substring_char(3, j);
        let seg2 = s.substring_char(j + 1, len);
        proof {
            lemma_segments(s@, j as int, seg1@, seg2@);
        }
        let nonce = match b64url_decode(seg1) {
            Some(v) => v,
            None => {
                proof {
                    assert forall|n: Seq<u8>, c: Seq<u8>|
                        !(n.len() == NONCE_LEN && has_no_dot(b64url_of(n))
                            && s@ == token_render(n, c)) by {
                        if n.len() == NONCE_LEN && has_no_dot(b64url_of(n))
                            && s@ == token_render(n, c) {
                            lemma_first_segment(s@, j as int, n, c);
                            assert(seg1@ == b64url_of(n));
                        }
                    }
                }
                return Err(CipherError::InvalidFormat);
            },
        };
        if nonce.len() != NONCE_LEN {
            proof {
                assert forall|n: Seq<u8>, c: Seq<u8>|
                    !(n.len() == NONCE_LEN && has_no_dot(b64url_of(n))
                        && s@ == token_render(n, c)) by {
                    if n.len() == NONCE_LEN && has_no_dot(b64url_of(n))
                        && s@ == token_render(n, c) {
                        lemma_first_segment(s@, j as int, n, c);
                        assert(seg1@ == b64url_of(n));
                    }
                }
            }
            return Err(CipherError::InvalidFormat);
        }
        let ciphertext = match b64url_decode(seg2) {
            Some(v) => v,
            None => {
                proof {
                    assert forall|n: Seq<u8>, c: Seq<u8>|
                        !(n.len() == NONCE_LEN && has_no_dot(b64url_of(n))
                            && s@ == token_render(n, c)) by {
                        if n.len() == NONCE_LEN && has_no_dot(b64url_of(n))
                            && s@ == token_render(n, c) {
                            lemma_first_segment(s@, j as int, n, c);
                            assert(seg2@ == b64url_of(c));
                        }
                    }
                }
                return Err(CipherError::InvalidFormat);
            },
        };
        let f = EncryptedField { nonce, ciphertext };
        proof {
            assert forall|n: Seq<u8>, c: Seq<u8>|
                (n.len() == NONCE_LEN && has_no_dot(b64url_of(n)) && s@ == token_render(n, c))
                implies (f.nonce@ == n && f.ciphertext@ == c) by {
                lemma_first_segment(s@, j as int, n, c);
                assert(seg1@ == b64url_of(n));
                assert(seg2@ =~= b64url_of(c));
            }
            assert(s@ =~= token_render(f.nonce@, f.ciphertext@));
        }
        Ok(f)
    }
}

/// Relates the two substrings taken after the dot scan to subranges of `s`.
proof fn lemma_segments(s: Seq<char>, j: int, seg1: Seq<char>, seg2: Seq<char>)
    requires
        0 <= 3 <= j < s.len(),
        seg1 == s.subrange(3, j),
        seg2 == s.subrange(j + 1, s.len() as int),
    ensures
        seg1.len() == j - 3,
        seg2.len() == s.len() - j - 1,
{
}

/// If `s` renders the token `(n, c)`, the first dot after the version prefix
/// sits exactly at the end of the nonce segment, so the scanned segment
/// boundaries recover the two base64url segments.
proof fn lemma_first_segment(s: Seq<char>, j: int, n: Seq<u8>, c: Seq<u8>)
    requires
        s == token_render(n, c),
        has_no_dot(b64url_of(n)),
        "v1."@.len() == 3,
        "."@.len() == 1,
        "."@[0] == '.',
        3 <= j <= s.len(),
        j < s.len() ==> s[j] == '.',
        forall|k: int| 3 <= k < j ==> s[k] != '.',
    ensures
        j == 3 + b64url_of(n).len(),
        s.subrange(3, j) == b64url_of(n),
        s.subrange(j + 1, s.len() as int) == b64url_of(c),
{
    let e1 = b64url_of(n);
    let e2 = b64url_of(c);
    assert(s.len() == 3 + e1.len() + 1 + e2.len());
    assert(s[3 + e1.len() as int] == '.');
    assert forall|k: int| 3 <= k < 3 + e1.len() implies s[k] != '.' by {
        assert(s[k] == e1[k - 3]);
    }
    if j < 3 + e1.len() {
        assert(s[j] == '.');
        assert(false);
    }
    if j > 3 + e1.len() {
        assert(false);
    }
    assert(s.subrange(3, j) =~= e1);
    assert(s.subrange(j + 1, s.len() as int) =~= e2);
}

/// Encrypt a plaintext field using AES-256-GCM-SIV with a fresh random
/// 96-bit nonce drawn from the operating system's secure source.
///
/// On success the ciphertext is exactly the AEAD output for the key, the
/// drawn nonce and the plaintext, with the 16-byte tag appended; decrypting
/// the result under the same key therefore returns the plaintext.
pub fn encrypt_field(plaintext: &[u8], dek: &[u8]) -> (r: Result<EncryptedField, CipherError>)
    ensures
        dek@.len() != KEY_LEN ==> (r matches Err(e) && e is InvalidKeyLength),
        r matches Ok(f) ==> dek@.len() == KEY_LEN && f.wf()
            && f.ciphertext@ == gcmsiv_ct_of(dek@, f.nonce@, plaintext@)
            && f.ciphertext@.len() == plaintext@.len() + TAG_LEN,
        dek@.len() == KEY_LEN ==> ((r matches Ok(f2)) || (r matches Err(e2)
            && e2 is AeadFailure)),
{
    if dek.len() != KEY_LEN {
        return Err(CipherError::InvalidKeyLength);
    }
    let nonce = match random_nonce() {
        Some(n) => n,
        None => {
            return Err(CipherError::AeadFailure);
        },
    };
    let ciphertext = match aead_encrypt(dek, nonce.as_slice(), plaintext) {
        Some(c) => c,
        None => {
            return Err(CipherError::AeadFailure);
        },
    };
    Ok(EncryptedField { nonce, ciphertext })
}

/// Decrypt an [`EncryptedField`] back to plaintext bytes.
///
/// Succeeds exactly when the ciphertext authenticates under the key and
/// nonce; in particular, decrypting what [`encrypt_field`] produced under the
/// same key returns the original plaintext.
pub fn decrypt_field(field: &EncryptedField, dek: &[u8]) -> (r: Result<Vec<u8>, CipherError>)
    requires
        field.wf(),
    ensures
        dek@.len() != KEY_LEN ==> (r matches Err(e) && e is InvalidKeyLength),
        dek@.len() == KEY_LEN ==> ((r matches Ok(p2)) || (r matches Err(e2)
            && e2 is AeadFailure)),
        r matches Ok(p) ==> dek@.len() == KEY_LEN
            && field.ciphertext@ == gcmsiv_ct_of(dek@, field.nonce@, p@),
        forall|p: Seq<u8>|
            (dek@.len() == KEY_LEN && p.len() <= P_MAX
                && p.len() + TAG_LEN == field.ciphertext@.len()
                && field.ciphertext@ == gcmsiv_ct_of(dek@, field.nonce@, p))
            ==> (r matches Ok(q) && q@ == p),
{
    if dek.len() != KEY_LEN {
        return Err(CipherError::InvalidKeyLength);
    }
    match aead_decrypt(dek, field.nonce.as_slice(), field.ciphertext.as_slice()) {
        Some(p) => Ok(p),
        None => Err(CipherError::AeadFailure),
    }
}

} // verus!

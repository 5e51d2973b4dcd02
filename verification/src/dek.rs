//! Store for the decrypted Data Encryption Key.
//!
//! The store holds at most one plaintext DEK. Key material lives in a
//! [`DekBytes`] buffer whose only textual rendering is a redaction marker
//! and whose bytes are overwritten with zeroes once its holder is done with
//! it. Handlers receive short-lived copies from [`DekStore::current`],
//! use them for one request, and zero them.

use vstd::prelude::*;
use vstd::slice::slice_to_vec;
use crate::cipher::KEY_LEN;

verus! {

/// Errors produced by the DEK layer.
#[derive(Debug)]
pub enum DekError {
    /// The DEK has not yet been fetched and decrypted.
    NotInitialised,
    /// The decrypted key material has an unexpected length (must be
    /// [`KEY_LEN`] bytes); the offending length is carried.
    InvalidLength(usize),
}

/// Key buffer holding the plaintext DEK.
///
/// Holders call [`DekBytes::zeroize`] when they are done with a buffer, so
/// that the bytes are overwritten with zeroes and the window during which
/// key material lives in memory stays short; the store does the same with
/// a replaced key.
pub struct DekBytes(pub Vec<u8>);

impl DekBytes {
    /// The buffer has the fixed AES-256 key length.
    pub open spec fn wf(&self) -> bool {
        self.0@.len() == KEY_LEN
    }

    /// The only textual rendering of a key buffer: a redaction marker,
    /// never the key material.
    pub fn debug_string(&self) -> (s: String)
        ensures
            s@ == "DekBytes([REDACTED])"@,
    {
        "DekBytes([REDACTED])".to_owned()
    }

    /// Overwrite the key material with zeroes, in place.
    pub fn zeroize(&mut self)
        ensures
            final(self).0@.len() == old(self).0@.len(),
            forall|i: int| 0 <= i < final(self).0@.len() ==> final(self).0@[i] == 0,
    {
        let n = self.0.len();
        let mut i: usize = 0;
        while i < n
            invariant
                0 <= i <= n,
                n == self.0@.len(),
                forall|k: int| 0 <= k < i ==> self.0@[k] == 0,
            decreases n - i,
        {
            self.0[i] = 0;
            i += 1;
        }
    }
}

/// Store for the current Data Encryption Key.
///
/// At most one key is installed; installing a new one replaces (and thereby
/// zeroes) the previous buffer.
pub struct DekStore {
    inner: Option<DekBytes>,
}

impl DekStore {
    /// The bytes of the installed key, if one is installed.
    pub closed spec fn spec_dek(&self) -> Option<Seq<u8>> {
        match self.inner {
            Some(d) => Some(d.0@),
            None => None,
        }
    }

    /// Whether a key is installed.
    pub open spec fn spec_is_ready(&self) -> bool {
        self.spec_dek() is Some
    }

    /// Any installed key has the fixed AES-256 key length. Constructors
    /// establish this and [`Self::store`] preserves it, since only
    /// [`KEY_LEN`]-byte keys are ever accepted.
    pub open spec fn wf(&self) -> bool {
        match self.spec_dek() {
            Some(k) => k.len() == KEY_LEN,
            None => true,
        }
    }

    /// Create a new, empty store.
    pub fn new() -> (r: DekStore)
        ensures
            !r.spec_is_ready(),
            r.wf(),
    {
        DekStore { inner: None }
    }

    /// Returns `true` if a DEK is currently cached.
    pub fn is_ready(&self) -> (r: bool)
        ensures
            r == self.spec_is_ready(),
    {
        match &self.inner {
            Some(_) => true,
            None => false,
        }
    }

    /// Store (or replace) the current DEK.
    ///
    /// Exactly [`KEY_LEN`] bytes are accepted; a slice of any other length
    /// is rejected with its length, and the previously stored key (if any)
    /// is left intact. On success the stored key is exactly `key_bytes`,
    /// and any previous buffer is zeroed before being replaced.
    pub fn store(&mut self, key_bytes: &[u8]) -> (r: Result<(), DekError>)
        ensures
            key_bytes@.len() == KEY_LEN ==> (r is Ok && final(self).spec_dek() == Some(
                key_bytes@,
            )),
            key_bytes@.len() != KEY_LEN ==> (r matches Err(e) && e matches
                DekError::InvalidLength(l) && l == key_bytes@.len() && final(self).spec_dek()
                == old(self).spec_dek()),
            old(self).wf() ==> final(self).wf(),
    {
        if key_bytes.len() != KEY_LEN {
            return Err(DekError::InvalidLength(key_bytes.len()));
        }
        match &mut self.inner {
            Some(prev) => prev.zeroize(),
            None => {},
        }
        let buf = slice_to_vec(key_bytes);
        self.inner = Some(DekBytes(buf));
        Ok(())
    }

    /// Borrow a copy of the current DEK bytes.
    ///
    /// The copy is short-lived; callers use it for one encryption and then
    /// zero it. Fails exactly when no DEK has been stored yet.
    pub fn current(&self) -> (r: Result<DekBytes, DekError>)
        ensures
            self.spec_is_ready() ==> (r matches Ok(d) && Some(d.0@) == self.spec_dek()),
            !self.spec_is_ready() ==> (r matches Err(e) && e matches DekError::NotInitialised),
    {
        match &self.inner {
            Some(d) => Ok(DekBytes(slice_to_vec(d.0.as_slice()))),
            None => Err(DekError::NotInitialised),
        }
    }
}

impl Default for DekStore {
    /// An empty store, with no key installed.
    fn default() -> (r: Self)
        ensures
            !r.spec_is_ready(),
            r.wf(),
    {
        DekStore::new()
    }
}

} // verus!

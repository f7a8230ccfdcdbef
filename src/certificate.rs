use vstd::prelude::*;

verus! {

/// How a registry derives the key under which a certificate is stored.
#[derive(Clone, Copy, Debug, PartialEq, Eq, Structural)]
pub enum KeyMode {
    /// The key is the certificate's timestamp.
    ByTimestamp,
    /// The key is the certificate's hash; a later write of the same hash replaces the entry.
    ByHash,
    /// A single slot: every write replaces the one resident certificate.
    Singleton,
}

/// A recorded certificate: an opaque content hash, an optional identifier and a timestamp.
#[derive(Debug, PartialEq, Eq)]
pub struct Certificate {
    pub hash: String,
    pub id: Option<String>,
    pub timestamp: u64,
}

/// The key material of a look-up.
#[derive(Debug)]
pub enum Key {
    Timestamp(u64),
    Hash(String),
    Slot,
}

/// Errors reported by the registry.
#[derive(Clone, Copy, Debug, PartialEq, Eq, Structural)]
pub enum CertifyError {
    /// No resident certificate is stored under the requested key.
    CertificateNotFound,
    /// The caller failed authentication; nothing was changed.
    Unauthorized,
}

fn clone_opt_string(s: &Option<String>) -> (r: Option<String>)
    ensures
        r == *s,
{
    match s {
        Some(v) => Some(v.clone()),
        None => None,
    }
}

impl Clone for Certificate {
    fn clone(&self) -> (r: Self)
        ensures
            r == *self,
    {
        Certificate { hash: self.hash.clone(), id: clone_opt_string(&self.id), timestamp: self.timestamp }
    }
}

impl Certificate {
    /// Builds a certificate from its three fields.
    pub fn new(hash: String, id: Option<String>, timestamp: u64) -> (r: Certificate)
        ensures
            r.hash == hash,
            r.id == id,
            r.timestamp == timestamp,
    {
        Certificate { hash, id, timestamp }
    }
}

/// Whether two certificates are stored under the same key in the given mode.
pub open spec fn same_key(mode: KeyMode, a: Certificate, b: Certificate) -> bool {
    match mode {
        KeyMode::ByTimestamp => a.timestamp == b.timestamp,
        KeyMode::ByHash => a.hash@ == b.hash@,
        KeyMode::Singleton => true,
    }
}

/// Whether a look-up key designates the given certificate in the given mode.
/// A key of another mode designates nothing.
pub open spec fn key_selects(mode: KeyMode, k: Key, c: Certificate) -> bool {
    match (mode, k) {
        (KeyMode::ByTimestamp, Key::Timestamp(t)) => c.timestamp == t,
        (KeyMode::ByHash, Key::Hash(h)) => c.hash@ == h@,
        (KeyMode::Singleton, Key::Slot) => true,
        _ => false,
    }
}

/// Whether `a` and `b` hold the same key (exec form of `same_key`).
pub(crate) fn has_same_key(mode: KeyMode, a: &Certificate, b: &Certificate) -> (r: bool)
    ensures
        r == same_key(mode, *a, *b),
{
    match mode {
        KeyMode::ByTimestamp => a.timestamp == b.timestamp,
        KeyMode::ByHash => a.hash == b.hash,
        KeyMode::Singleton => true,
    }
}

/// Whether `k` selects `c` (exec form of `key_selects`).
pub(crate) fn selects(mode: KeyMode, k: &Key, c: &Certificate) -> (r: bool)
    ensures
        r == key_selects(mode, *k, *c),
{
    match (mode, k) {
        (KeyMode::ByTimestamp, Key::Timestamp(t)) => c.timestamp == *t,
        (KeyMode::ByHash, Key::Hash(h)) => c.hash == *h,
        (KeyMode::Singleton, Key::Slot) => true,
        _ => false,
    }
}

} // verus!

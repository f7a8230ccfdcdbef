use vstd::prelude::*;

use crate::certificate::{
    has_same_key, key_selects, same_key, selects, Certificate,
    CertifyError, Key, KeyMode,
};

verus! {

/// Most certificates that a timestamp- or hash-keyed registry keeps.
pub const MAX_CAPACITY: usize = 20;

/// How many certificates a registry of the given mode may hold.
pub open spec fn capacity(mode: KeyMode) -> nat {
    match mode {
        KeyMode::Singleton => 1,
        _ => MAX_CAPACITY as nat,
    }
}

/// No two resident certificates share a key.
pub open spec fn keys_distinct(mode: KeyMode, s: Seq<Certificate>) -> bool {
    forall|i: int, j: int|
        0 <= i < s.len() && 0 <= j < s.len() && i != j ==> !same_key(
            mode,
            #[trigger] s[i],
            #[trigger] s[j],
        )
}

/// A resident sequence of certificates that a registry of the given mode may hold.
pub open spec fn well_formed(mode: KeyMode, s: Seq<Certificate>) -> bool {
    keys_distinct(mode, s) && s.len() <= capacity(mode)
}

/// Some resident certificate is stored under the key of `c`.
pub open spec fn has_key(mode: KeyMode, s: Seq<Certificate>, c: Certificate) -> bool {
    exists|i: int| 0 <= i < s.len() && same_key(mode, #[trigger] s[i], c)
}

/// The position of the resident certificate stored under the key of `c`.
pub open spec fn key_index(mode: KeyMode, s: Seq<Certificate>, c: Certificate) -> int {
    choose|i: int| 0 <= i < s.len() && same_key(mode, #[trigger] s[i], c)
}

/// `c` stored under its key: it replaces the certificate of the same key, or is appended.
pub open spec fn insert(mode: KeyMode, s: Seq<Certificate>, c: Certificate) -> Seq<Certificate> {
    if has_key(mode, s, c) {
        s.update(key_index(mode, s, c), c)
    } else {
        s.push(c)
    }
}

/// The position of the oldest certificate: the smallest timestamp, the first such position
/// among equal ones.
pub open spec fn oldest_index(s: Seq<Certificate>) -> int
    decreases s.len(),
{
    if s.len() <= 1 {
        0
    } else {
        let i = oldest_index(s.drop_last());
        if s.last().timestamp < s[i].timestamp {
            s.len() - 1
        } else {
            i
        }
    }
}

/// Drops the oldest certificate when there are more than `MAX_CAPACITY`.
pub open spec fn evict(s: Seq<Certificate>) -> Seq<Certificate> {
    if s.len() > MAX_CAPACITY {
        s.remove(oldest_index(s))
    } else {
        s
    }
}

/// The resident certificates after `c` has been written.
pub open spec fn after_write(mode: KeyMode, s: Seq<Certificate>, c: Certificate) -> Seq<
    Certificate,
> {
    match mode {
        KeyMode::Singleton => seq![c],
        _ => evict(insert(mode, s, c)),
    }
}

/// The oldest position holds the smallest timestamp, and every earlier one a larger timestamp.
pub proof fn lemma_oldest_index(s: Seq<Certificate>)
    requires
        s.len() >= 1,
    ensures
        0 <= oldest_index(s) < s.len(),
        forall|j: int| 0 <= j < s.len() ==> s[oldest_index(s)].timestamp <= #[trigger] s[j].timestamp,
        forall|j: int| 0 <= j < oldest_index(s) ==> s[oldest_index(s)].timestamp < #[trigger] s[j].timestamp,
    decreases s.len(),
{
    if s.len() > 1 {
        let t = s.drop_last();
        lemma_oldest_index(t);
        assert forall|j: int| 0 <= j < t.len() implies t[j] == s[j] by {}
    }
}

/// Writing keeps the keys distinct and the size within capacity.
pub proof fn lemma_after_write_well_formed(mode: KeyMode, s: Seq<Certificate>, c: Certificate)
    requires
        well_formed(mode, s),
    ensures
        well_formed(mode, after_write(mode, s, c)),
{
    if mode != KeyMode::Singleton {
        let t = insert(mode, s, c);
        assert(keys_distinct(mode, t));
        if t.len() > MAX_CAPACITY {
            lemma_oldest_index(t);
            let u = t.remove(oldest_index(t));
            assert forall|i: int, j: int|
                0 <= i < u.len() && 0 <= j < u.len() && i != j implies !same_key(
                mode,
                #[trigger] u[i],
                #[trigger] u[j],
            ) by {
                let o = oldest_index(t);
                let ii = if i < o { i } else { i + 1 };
                let jj = if j < o { j } else { j + 1 };
                assert(u[i] == t[ii]);
                assert(u[j] == t[jj]);
            }
        }
    }
}

/// Index of the resident certificate stored under the key of `c`, if any.
fn find_key(mode: KeyMode, v: &Vec<Certificate>, c: &Certificate) -> (r: Option<usize>)
    ensures
        r is None ==> !has_key(mode, v@, *c),
        r matches Some(i) ==> i < v@.len() && same_key(mode, v@[i as int], *c),
{
    let mut i: usize = 0;
    while i < v.len()
        invariant
            i <= v@.len(),
            forall|j: int| 0 <= j < i ==> !same_key(mode, #[trigger] v@[j], *c),
        decreases v@.len() - i,
    {
        if has_same_key(mode, &v[i], c) {
            return Some(i);
        }
        i = i + 1;
    }
    None
}

/// Index of the oldest certificate: the first one with the smallest timestamp.
fn find_oldest(v: &Vec<Certificate>) -> (r: usize)
    requires
        v@.len() >= 1,
    ensures
        r as int == oldest_index(v@),
{
    let mut best: usize = 0;
    let mut i: usize = 1;
    while i < v.len()
        invariant
            1 <= i <= v@.len(),
            best as int == oldest_index(v@.subrange(0, i as int)),
            best < i,
        decreases v@.len() - i,
    {
        proof {
            let p = v@.subrange(0, i as int + 1);
            assert(p.drop_last() =~= v@.subrange(0, i as int));
        }
        if v[i].timestamp < v[best].timestamp {
            best = i;
        }
        i = i + 1;
    }
    assert(v@.subrange(0, i as int) =~= v@);
    best
}

/// Writes `c` into `v` under its key, then evicts the oldest certificate if over capacity.
fn write_entry(mode: KeyMode, v: &mut Vec<Certificate>, c: Certificate)
    requires
        well_formed(mode, old(v)@),
    ensures
        final(v)@ == after_write(mode, old(v)@, c),
        well_formed(mode, final(v)@),
{
    proof {
        lemma_after_write_well_formed(mode, v@, c);
    }
    match mode {
        KeyMode::Singleton => {
            v.clear();
            v.push(c);
            assert(v@ =~= seq![c]);
        },
        _ => {
            let ghost s = v@;
            match find_key(mode, v, &c) {
                Some(i) => {
                    proof {
                        let k = key_index(mode, s, c);
                        assert(has_key(mode, s, c));
                        assert(0 <= k < s.len() && same_key(mode, s[k], c));
                        assert(k == i as int);
                    }
                    v.remove(i);
                    v.insert(i, c);
                    assert(v@ =~= s.update(i as int, c));
                },
                None => {
                    v.push(c);
                },
            }
            assert(v@ == insert(mode, s, c));
            if v.len() > MAX_CAPACITY {
                proof {
                    lemma_oldest_index(v@);
                }
                let o = find_oldest(v);
                v.remove(o);
            }
        },
    }
}

/// A bounded registry of certificates, keyed by timestamp, by hash or in a single slot.
pub struct Certify {
    mode: KeyMode,
    entries: Vec<Certificate>,
}

impl View for Certify {
    type V = Seq<Certificate>;

    /// The resident certificates, in their stored order.
    closed spec fn view(&self) -> Seq<Certificate> {
        self.entries@
    }
}

impl Certify {
    /// The keying mode fixed at construction.
    pub closed spec fn key_mode(&self) -> KeyMode {
        self.mode
    }

    /// The registry's invariant: distinct keys, size within capacity.
    pub open spec fn wf(&self) -> bool {
        well_formed(self.key_mode(), self@)
    }

    /// An empty registry of the given mode.
    pub fn new(mode: KeyMode) -> (r: Certify)
        ensures
            r.key_mode() == mode,
            r@ == Seq::<Certificate>::empty(),
            r.wf(),
    {
        Certify { mode, entries: Vec::new() }
    }

    /// A registry of the given mode holding `entries` as stored, or `None` when two of
    /// them share a key or there are more than the mode's capacity.
    pub fn from_entries(mode: KeyMode, entries: Vec<Certificate>) -> (r: Option<Certify>)
        ensures
            r is Some <==> well_formed(mode, entries@),
            r matches Some(g) ==> g.key_mode() == mode && g@ == entries@ && g.wf(),
    {
        let cap: usize = match mode {
            KeyMode::Singleton => 1,
            _ => MAX_CAPACITY,
        };
        if entries.len() > cap {
            return None;
        }
        let mut i: usize = 0;
        while i < entries.len()
            invariant
                i <= entries@.len(),
                forall|a: int, b: int|
                    0 <= a < i && 0 <= b < entries@.len() && a != b ==> !same_key(
                        mode,
                        #[trigger] entries@[a],
                        #[trigger] entries@[b],
                    ),
            decreases entries@.len() - i,
        {
            let mut j: usize = 0;
            while j < entries.len()
                invariant
                    i < entries@.len(),
                    j <= entries@.len(),
                    forall|a: int, b: int|
                        0 <= a < i && 0 <= b < entries@.len() && a != b ==> !same_key(
                            mode,
                            #[trigger] entries@[a],
                            #[trigger] entries@[b],
                        ),
                    forall|b: int|
                        0 <= b < j && b != i ==> !same_key(mode, entries@[i as int], #[trigger] entries@[b]),
                decreases entries@.len() - j,
            {
                if j != i && has_same_key(mode, &entries[i], &entries[j]) {
                    return None;
                }
                j = j + 1;
            }
            i = i + 1;
        }
        Some(Certify { mode, entries })
    }

    /// The keying mode fixed at construction.
    pub fn mode(&self) -> (r: KeyMode)
        ensures
            r == self.key_mode(),
    {
        self.mode
    }

    /// How many certificates are resident.
    pub fn len(&self) -> (r: usize)
        ensures
            r == self@.len(),
    {
        self.entries.len()
    }

    /// A copy of the resident certificates, in their stored order.
    pub fn entries(&self) -> (r: Vec<Certificate>)
        ensures
            r@ == self@,
    {
        let mut out: Vec<Certificate> = Vec::new();
        let mut i: usize = 0;
        while i < self.entries.len()
            invariant
                i <= self.entries@.len(),
                out@ == self.entries@.subrange(0, i as int),
            decreases self.entries@.len() - i,
        {
            out.push(self.entries[i].clone());
            assert(out@ =~= self.entries@.subrange(0, i as int + 1));
            i = i + 1;
        }
        assert(self.entries@.subrange(0, i as int) =~= self.entries@);
        out
    }

    /// Records a certificate for an authenticated caller. `authorized` is the outcome of
    /// authenticating the caller. Without it the registry is left unchanged and
    /// `Unauthorized` is returned. Otherwise the certificate is stored under its key,
    /// replacing any certificate of the same key; when that leaves more than the mode's
    /// capacity, the oldest certificate is evicted. The recorded certificate is returned.
    pub fn certify(
        &mut self,
        authorized: bool,
        hash: String,
        id: Option<String>,
        timestamp: u64,
    ) -> (r: Result<Certificate, CertifyError>)
        requires
            old(self).wf(),
        ensures
            final(self).wf(),
            final(self).key_mode() == old(self).key_mode(),
            final(self)@.len() <= capacity(old(self).key_mode()),
            !authorized ==> r == Err::<Certificate, CertifyError>(CertifyError::Unauthorized)
                && *final(self) == *old(self),
            authorized ==> r == Ok::<Certificate, CertifyError>(
                (Certificate { hash, id, timestamp }),
            ) && final(self)@ == after_write(
                old(self).key_mode(),
                old(self)@,
                (Certificate { hash, id, timestamp }),
            ),
    {
        if !authorized {
            return Err(CertifyError::Unauthorized);
        }
        let c = Certificate::new(hash, id, timestamp);
        let stored = c.clone();
        write_entry(self.mode, &mut self.entries, stored);
        Ok(c)
    }

    /// The resident certificate that `key` designates, or `CertificateNotFound` when there
    /// is none (a key of another mode designates none).
    pub fn verify(&self, key: &Key) -> (r: Result<Certificate, CertifyError>)
        requires
            self.wf(),
        ensures
            r is Ok <==> exists|i: int| 0 <= i < self@.len() && key_selects(self.key_mode(), *key, #[trigger] self@[i]),
            r matches Ok(c) ==> exists|i: int| 0 <= i < self@.len() && key_selects(self.key_mode(), *key, #[trigger] self@[i]) && c == self@[i],
            r matches Err(e) ==> e == CertifyError::CertificateNotFound,
    {
        let mut i: usize = 0;
        while i < self.entries.len()
            invariant
                i <= self.entries@.len(),
                forall|j: int| 0 <= j < i ==> !key_selects(self.mode, *key, #[trigger] self.entries@[j]),
            decreases self.entries@.len() - i,
        {
            if selects(self.mode, key, &self.entries[i]) {
                assert(key_selects(self.key_mode(), *key, self@[i as int]));
                return Ok(self.entries[i].clone());
            }
            i = i + 1;
        }
        Err(CertifyError::CertificateNotFound)
    }
}

} // verus!

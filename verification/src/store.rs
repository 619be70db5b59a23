//! Storage engine: the mapping from identifiers to stored entries. It owns
//! insert, fetch and delete, and enforces the lifecycle rules: a collision
//! is reported only against a live entry, an expired entry is never served
//! and is dropped as soon as an operation touches it, a burn-after-reading
//! entry is handed out exactly once (the fetch and the deletion are one
//! call, so no later fetch can observe it), and a password-protected entry
//! is gated by its stored digest.
use vstd::prelude::*;

use std::collections::HashMap;

use crate::errors::StorageError;
use crate::password;
use crate::password::spec_digest;

verus! {

broadcast use vstd::std_specs::hash::group_hash_axioms;

/// The salted one-way digest under which a password is stored; the
/// password itself is never persisted.
#[derive(Clone, Copy, Debug, PartialEq, Eq, Structural)]
pub struct PasswordDigest {
    pub salt: u64,
    pub digest: u64,
}

/// One stored paste together with its creation timestamp. Immutable once
/// created; it leaves the store by explicit delete, by burning on its
/// first successful fetch, or once its expiry has lapsed.
#[derive(Debug)]
pub struct StoredEntry {
    pub text: String,
    pub extension: Option<String>,
    /// Seconds from creation after which the entry is no longer servable;
    /// strictly positive when present.
    pub expires: Option<u32>,
    /// Whether the entry is deleted upon its first successful fetch.
    pub burn_after_reading: bool,
    /// Owner token permitting later deletion.
    pub uid: Option<u64>,
    pub password: Option<PasswordDigest>,
    pub title: Option<String>,
    /// Time at which the entry was inserted (seconds).
    pub created: u64,
}

impl StoredEntry {
    /// An owned copy, equal to `self` field for field.
    pub fn duplicate(&self) -> (r: StoredEntry)
        ensures
            r == *self,
    {
        StoredEntry {
            text: self.text.clone(),
            extension: match &self.extension {
                None => None,
                Some(e) => Some(e.clone()),
            },
            expires: self.expires,
            burn_after_reading: self.burn_after_reading,
            uid: self.uid,
            password: self.password,
            title: match &self.title {
                None => None,
                Some(t) => Some(t.clone()),
            },
            created: self.created,
        }
    }
}

/// Whether a stored entry has lapsed at time `now`.
pub open spec fn is_expired(e: StoredEntry, now: u64) -> bool {
    match e.expires {
        Some(k) => (e.created as int) + (k as int) <= (now as int),
        None => false,
    }
}

/// Whether `id` denotes a live (present and unexpired) entry.
pub open spec fn is_live(m: Map<u32, StoredEntry>, id: u32, now: u64) -> bool {
    m.contains_key(id) && !is_expired(m[id], now)
}

/// The view of an optionally supplied password.
pub open spec fn opt_pw(p: Option<&str>) -> Option<Seq<char>> {
    match p {
        Some(s) => Some(s@),
        None => None,
    }
}

/// Whether a supplied password verifies against the entry's stored digest.
/// An unprotected entry accepts any supply.
pub open spec fn password_accepted(e: StoredEntry, pw: Option<Seq<char>>) -> bool {
    match e.password {
        None => true,
        Some(d) => match pw {
            Some(p) => spec_digest(d.salt, p) == d.digest,
            None => false,
        },
    }
}

/// The entry with its creation timestamp set.
pub open spec fn stamped(e: StoredEntry, now: u64) -> StoredEntry {
    StoredEntry { created: now, ..e }
}

/// What `fetch` returns: not-found for absent or lapsed entries (the two
/// are indistinguishable), then the password gate, then the entry itself.
pub open spec fn fetch_result(
    m: Map<u32, StoredEntry>,
    id: u32,
    pw: Option<Seq<char>>,
    now: u64,
) -> Result<StoredEntry, StorageError> {
    if !m.contains_key(id) || is_expired(m[id], now) {
        Err(StorageError::NotFound)
    } else if m[id].password is Some && pw is None {
        Err(StorageError::PasswordRequired)
    } else if !password_accepted(m[id], pw) {
        Err(StorageError::PasswordMismatch)
    } else {
        Ok(m[id])
    }
}

/// The store after `fetch`: a lapsed entry is dropped, a burn-after-reading
/// entry is dropped by the successful fetch, everything else is unchanged.
pub open spec fn fetch_state(
    m: Map<u32, StoredEntry>,
    id: u32,
    pw: Option<Seq<char>>,
    now: u64,
) -> Map<u32, StoredEntry> {
    if m.contains_key(id) && is_expired(m[id], now) {
        m.remove(id)
    } else if fetch_result(m, id, pw, now) is Ok && m[id].burn_after_reading {
        m.remove(id)
    } else {
        m
    }
}

/// What `delete` returns: not-found for absent or lapsed entries, forbidden
/// unless the supplied owner token matches the stored one.
pub open spec fn delete_result(
    m: Map<u32, StoredEntry>,
    id: u32,
    uid: u64,
    now: u64,
) -> Result<(), StorageError> {
    if !m.contains_key(id) || is_expired(m[id], now) {
        Err(StorageError::NotFound)
    } else if m[id].uid == Some(uid) {
        Ok(())
    } else {
        Err(StorageError::Forbidden)
    }
}

/// The store after `delete`: the entry is gone on success, a lapsed entry
/// is dropped, everything else is unchanged.
pub open spec fn delete_state(
    m: Map<u32, StoredEntry>,
    id: u32,
    uid: u64,
    now: u64,
) -> Map<u32, StoredEntry> {
    if m.contains_key(id) && (is_expired(m[id], now) || delete_result(m, id, uid, now) is Ok) {
        m.remove(id)
    } else {
        m
    }
}

/// Fetching immediately after a successful insert, at the same time and
/// with an accepted password, returns exactly the entry that was inserted.
pub proof fn lemma_fetch_after_insert(
    m: Map<u32, StoredEntry>,
    id: u32,
    e: StoredEntry,
    pw: Option<Seq<char>>,
    now: u64,
)
    requires
        !is_live(m, id, now),
        e.expires matches Some(k) ==> k > 0,
        password_accepted(stamped(e, now), pw),
    ensures
        fetch_result(m.insert(id, stamped(e, now)), id, pw, now) == Ok::<
            StoredEntry,
            StorageError,
        >(stamped(e, now)),
{
}

/// A burn-after-reading entry is observable exactly once: after the one
/// successful fetch the identifier is gone, and any later fetch, with any
/// password and at any time, reports not-found. Fetch and deletion are a
/// single call on the store, so among racing readers behind the store's
/// lock exactly one wins.
pub proof fn lemma_burned_entry_fetched_once(
    m: Map<u32, StoredEntry>,
    id: u32,
    pw: Option<Seq<char>>,
    pw2: Option<Seq<char>>,
    now: u64,
    now2: u64,
)
    requires
        fetch_result(m, id, pw, now) is Ok,
        m[id].burn_after_reading,
    ensures
        !fetch_state(m, id, pw, now).contains_key(id),
        fetch_result(fetch_state(m, id, pw, now), id, pw2, now2) == Err::<
            StoredEntry,
            StorageError,
        >(StorageError::NotFound),
{
}

/// An entry that expires `k` seconds after creation is served on every
/// fetch strictly before the deadline (under an accepted password) and
/// reported not-found on every fetch at or after it.
pub proof fn lemma_expiry_boundary(
    m: Map<u32, StoredEntry>,
    id: u32,
    k: u32,
    pw: Option<Seq<char>>,
    now: u64,
)
    requires
        m.contains_key(id),
        m[id].expires == Some(k),
    ensures
        (now as int) < (m[id].created as int) + (k as int) && password_accepted(m[id], pw)
            ==> fetch_result(m, id, pw, now) == Ok::<StoredEntry, StorageError>(m[id]),
        (now as int) >= (m[id].created as int) + (k as int) ==> fetch_result(m, id, pw, now)
            == Err::<StoredEntry, StorageError>(StorageError::NotFound),
{
}

/// A password-protected live entry demands its password: a fetch without
/// one is told so, one whose digest verifies receives the entry, and one
/// whose digest does not verify is rejected and leaves the store unchanged,
/// so no number of rejected attempts ever succeeds.
pub proof fn lemma_password_gate(
    m: Map<u32, StoredEntry>,
    id: u32,
    d: PasswordDigest,
    p: Seq<char>,
    now: u64,
)
    requires
        is_live(m, id, now),
        m[id].password == Some(d),
    ensures
        fetch_result(m, id, None, now) == Err::<StoredEntry, StorageError>(
            StorageError::PasswordRequired,
        ),
        spec_digest(d.salt, p) == d.digest ==> fetch_result(m, id, Some(p), now) == Ok::<
            StoredEntry,
            StorageError,
        >(m[id]),
        spec_digest(d.salt, p) != d.digest ==> fetch_result(m, id, Some(p), now) == Err::<
            StoredEntry,
            StorageError,
        >(StorageError::PasswordMismatch) && fetch_state(m, id, Some(p), now) == m,
{
}

/// In-memory key/value store of paste entries. Each operation is a single
/// call on `&mut self`, so the read and the conditional deletion that a
/// burn-after-reading fetch performs are one atomic unit; a process shares
/// the store behind one lock.
pub struct Database {
    map: HashMap<u32, StoredEntry>,
}

impl View for Database {
    type V = Map<u32, StoredEntry>;

    closed spec fn view(&self) -> Map<u32, StoredEntry> {
        self.map@
    }
}

impl Database {
    /// An empty store.
    pub fn new() -> (r: Database)
        ensures
            r@ == Map::<u32, StoredEntry>::empty(),
    {
        Database { map: HashMap::new() }
    }

    /// Number of records held, lapsed ones included.
    pub fn len(&self) -> (n: usize)
        ensures
            n == self@.len(),
    {
        self.map.len()
    }

    fn expired_at(e: &StoredEntry, now: u64) -> (r: bool)
        ensures
            r == is_expired(*e, now),
    {
        match e.expires {
            Some(k) => now >= e.created && now - e.created >= (k as u64),
            None => false,
        }
    }

    /// Whether `id` denotes a live entry at time `now`.
    pub fn is_live_at(&self, id: u32, now: u64) -> (r: bool)
        ensures
            r == is_live(self@, id, now),
    {
        match self.map.get(&id) {
            Some(rec) => !Self::expired_at(rec, now),
            None => false,
        }
    }

    /// Persists the entry under `id` with creation time `now`, unless a
    /// live entry already occupies the identifier. A lapsed record under
    /// the same identifier is overwritten.
    pub fn insert(&mut self, id: u32, entry: StoredEntry, now: u64) -> (r: Result<
        (),
        StorageError,
    >)
        ensures
            is_live(old(self)@, id, now) ==> r == Err::<(), StorageError>(StorageError::Collision)
                && final(self)@ == old(self)@,
            !is_live(old(self)@, id, now) ==> r == Ok::<(), StorageError>(()) && final(self)@ == old(
                self,
            )@.insert(id, stamped(entry, now)),
    {
        let live = match self.map.get(&id) {
            Some(rec) => !Self::expired_at(rec, now),
            None => false,
        };
        if live {
            return Err(StorageError::Collision);
        }
        let mut e = entry;
        e.created = now;
        self.map.insert(id, e);
        Ok(())
    }

    /// Retrieves the entry under `id`, validating expiry lazily against
    /// `now` and gating on the password; a successful fetch of a
    /// burn-after-reading entry removes it in the same call.
    pub fn fetch(&mut self, id: u32, password: Option<&str>, now: u64) -> (r: Result<
        StoredEntry,
        StorageError,
    >)
        ensures
            r == fetch_result(old(self)@, id, opt_pw(password), now),
            final(self)@ == fetch_state(old(self)@, id, opt_pw(password), now),
    {
        match self.map.get(&id) {
            None => Err(StorageError::NotFound),
            Some(rec) => {
                if Self::expired_at(rec, now) {
                    self.map.remove(&id);
                    return Err(StorageError::NotFound);
                }
                match &rec.password {
                    Some(d) => match password {
                        None => {
                            return Err(StorageError::PasswordRequired);
                        },
                        Some(p) => {
                            if !password::verify(d.salt, d.digest, p) {
                                return Err(StorageError::PasswordMismatch);
                            }
                        },
                    },
                    None => {},
                }
                let out = rec.duplicate();
                if out.burn_after_reading {
                    self.map.remove(&id);
                }
                Ok(out)
            },
        }
    }

    /// Removes the entry under `id` if the supplied owner token matches the
    /// stored one.
    pub fn delete(&mut self, id: u32, uid: u64, now: u64) -> (r: Result<(), StorageError>)
        ensures
            r == delete_result(old(self)@, id, uid, now),
            final(self)@ == delete_state(old(self)@, id, uid, now),
    {
        match self.map.get(&id) {
            None => Err(StorageError::NotFound),
            Some(rec) => {
                if Self::expired_at(rec, now) {
                    self.map.remove(&id);
                    return Err(StorageError::NotFound);
                }
                let allowed = match rec.uid {
                    Some(u) => u == uid,
                    None => false,
                };
                if allowed {
                    self.map.remove(&id);
                    Ok(())
                } else {
                    Err(StorageError::Forbidden)
                }
            },
        }
    }
}

} // verus!

//! Entry service: the façade over codec, storage engine and render cache
//! that the transport layer calls. Creation validates the request, caps
//! the expiry, digests the password, draws fresh identifiers and retries a
//! bounded number of times on collision. Reading fetches under the
//! lifecycle rules and memoizes rendered markup in the cache, invalidating
//! it whenever the store drops an entry.
use vstd::prelude::*;

use crate::cache::{has_key, kv, without_id, Cache, CacheKey};
use crate::errors::{storage_to_service, DecodeError, ServiceError, StorageError};
use crate::id;
use crate::id::{decoded_val, valid_encoding};
use crate::password;
use crate::render;
use crate::store;
use crate::store::{Database, PasswordDigest, StoredEntry};

verus! {

/// Bound on insert attempts before creation reports the identifier space
/// as exhausted.
pub const MAX_INSERT_TRIES: usize = 10;

/// A request to create one paste, as the transport layer hands it in.
#[derive(Debug)]
pub struct Entry {
    pub text: String,
    pub extension: Option<String>,
    pub expires: Option<u32>,
    pub burn_after_reading: Option<bool>,
    pub password: Option<String>,
    pub title: Option<String>,
}

/// The URL path a freshly created paste redirects to.
#[derive(Debug)]
pub struct RedirectResponse {
    pub path: String,
}

/// What a successful creation hands back: the identifier, the ownership
/// token permitting later deletion, and the URL path of the paste.
#[derive(Debug)]
pub struct CreatedEntry {
    pub id: u32,
    pub uid: u64,
    pub path: String,
}

/// A successfully read paste, rendered.
#[derive(Debug)]
pub struct RenderedPaste {
    pub markup: String,
    pub title: Option<String>,
}

/// Whether the request is valid: an expiry, when present, is positive.
pub open spec fn valid_entry(e: Entry) -> bool {
    match e.expires {
        Some(k) => k > 0,
        None => true,
    }
}

/// The expiry actually stored: the requested one capped by the configured
/// maximum; with none requested, the maximum itself.
pub open spec fn effective_expires(req: Option<u32>, max: Option<u32>) -> Option<u32> {
    match max {
        None => req,
        Some(m) => match req {
            None => Some(m),
            Some(v) => if v < m {
                Some(v)
            } else {
                Some(m)
            },
        },
    }
}

/// The stored form of a request: the expiry capped, the password replaced
/// by its salted digest, the owner token attached.
pub open spec fn stored_from(
    e: Entry,
    uid: u64,
    salt: u64,
    max: Option<u32>,
    now: u64,
) -> StoredEntry {
    StoredEntry {
        text: e.text,
        extension: e.extension,
        expires: effective_expires(e.expires, max),
        burn_after_reading: e.burn_after_reading == Some(true),
        uid: Some(uid),
        password: match e.password {
            None => None,
            Some(p) => Some(
                (PasswordDigest { salt, digest: password::spec_digest(salt, p@) }),
            ),
        },
        title: e.title,
        created: now,
    }
}

/// The URL path of a paste: a slash, the encoded identifier, and the
/// extension after a dot where one was given.
pub open spec fn url_path_spec(idv: u32, ext: Option<String>) -> Seq<char> {
    seq!['/'] + id::spec_encode(idv) + (match ext {
        None => Seq::<char>::empty(),
        Some(e) => seq!['.'] + e@,
    })
}

/// Builds the URL path of a paste.
pub fn to_url_path(idv: u32, extension: &Option<String>) -> (r: String)
    ensures
        r@ == url_path_spec(idv, *extension),
{
    let mut out = String::new();
    out.append("/");
    let enc = id::encode(idv);
    out.append(enc.as_str());
    match extension {
        None => {},
        Some(e) => {
            out.append(".");
            out.append(e.as_str());
        },
    }
    proof {
        reveal_strlit("/");
        reveal_strlit(".");
        assert(out@ =~= url_path_spec(idv, *extension));
    }
    out
}

/// The position of the first dot in the path segment, scanning from `k`;
/// -1 where there is none.
pub open spec fn first_dot(s: Seq<char>, k: int) -> int
    decreases s.len() - k,
{
    if k < 0 || k >= s.len() {
        -1
    } else if s[k] == '.' {
        k
    } else {
        first_dot(s, k + 1)
    }
}

/// The identifier part of a path segment: everything before the first dot,
/// or the whole segment.
pub open spec fn parsed_id_part(s: Seq<char>) -> Seq<char> {
    let d = first_dot(s, 0);
    if d == -1 {
        s
    } else {
        s.subrange(0, d)
    }
}

/// The extension hint of a path segment: everything after the first dot,
/// if there is one.
pub open spec fn parsed_ext(s: Seq<char>) -> Option<Seq<char>> {
    let d = first_dot(s, 0);
    if d == -1 {
        None
    } else {
        Some(s.subrange(d + 1, s.len() as int))
    }
}

/// Splits a path segment into its identifier and its optional extension
/// hint; fails with `Malformed` exactly where the identifier part is not a
/// well-formed encoding.
pub fn parse_path(path: &str) -> (r: Result<(u32, Option<String>), DecodeError>)
    ensures
        match r {
            Ok((v, ext)) => valid_encoding(parsed_id_part(path@)) && v as int == decoded_val(
                parsed_id_part(path@),
            ) && (match (ext, parsed_ext(path@)) {
                (None, None) => true,
                (Some(e), Some(pe)) => e@ == pe,
                _ => false,
            }),
            Err(e) => e == DecodeError::Malformed && !valid_encoding(parsed_id_part(path@)),
        },
{
    let ghost s = path@;
    let n = path.unicode_len();
    let mut d: usize = n;
    let mut i: usize = 0;
    while i < n
        invariant
            n == s.len(),
            s == path@,
            0 <= i <= n,
            d == n || d < i,
            d == n ==> first_dot(s, 0) == first_dot(s, i as int),
            d < n ==> first_dot(s, 0) == d as int,
        decreases n - i,
    {
        if d == n {
            let c = path.get_char(i);
            if c == '.' {
                d = i;
            }
        }
        i = i + 1;
    }
    if d == n {
        proof {
            assert(first_dot(s, n as int) == -1);
            assert(parsed_id_part(s) == s);
        }
        match id::decode(path) {
            Ok(v) => Ok((v, None)),
            Err(_) => Err(DecodeError::Malformed),
        }
    } else {
        let id_str = path.substring_char(0, d);
        let ext_str = path.substring_char(d + 1, n);
        proof {
            assert(id_str@ =~= parsed_id_part(s));
            assert(ext_str@ =~= parsed_ext(s)->Some_0);
        }
        match id::decode(id_str) {
            Ok(v) => Ok((v, Some(ext_str.to_owned()))),
            Err(_) => Err(DecodeError::Malformed),
        }
    }
}

impl RedirectResponse {
    /// The redirect for a freshly created paste.
    pub fn new(created: &CreatedEntry) -> (r: RedirectResponse)
        ensures
            r.path@ == created.path@,
    {
        RedirectResponse { path: created.path.clone() }
    }
}

/// The position of the first candidate identifier not occupied by a live
/// entry, scanning from `k`; -1 where every candidate collides.
pub open spec fn first_free_from(
    m: Map<u32, StoredEntry>,
    ids: Seq<u32>,
    now: u64,
    k: int,
) -> int
    decreases ids.len() - k,
{
    if k < 0 || k >= ids.len() {
        -1
    } else if !store::is_live(m, ids[k], now) {
        k
    } else {
        first_free_from(m, ids, now, k + 1)
    }
}

proof fn lemma_first_free(m: Map<u32, StoredEntry>, ids: Seq<u32>, now: u64, j: int)
    requires
        0 <= j <= ids.len(),
    ensures
        first_free_from(m, ids, now, j) == -1 || (j <= first_free_from(m, ids, now, j)
            < ids.len() && !store::is_live(m, ids[first_free_from(m, ids, now, j)], now)),
    decreases ids.len() - j,
{
    if j < ids.len() && store::is_live(m, ids[j], now) {
        lemma_first_free(m, ids, now, j + 1);
    }
}

/// The façade combining codec, storage engine and render cache. It holds
/// no state of its own beyond the two injected services and the configured
/// expiry cap; a process shares one instance behind a lock.
pub struct Service {
    db: Database,
    cache: Cache,
    max_expiration: Option<u32>,
}

impl Service {
    /// The stored entries.
    pub closed spec fn store_view(&self) -> Map<u32, StoredEntry> {
        self.db@
    }

    /// The render cache contents, least recently used first.
    pub closed spec fn cache_view(&self) -> Seq<(CacheKey, String)> {
        self.cache@
    }

    /// The configured cap on requested expiries.
    pub closed spec fn spec_max_expiration(&self) -> Option<u32> {
        self.max_expiration
    }

    /// The service invariant: the cache is well formed and holds only
    /// markup derived from entries presently in the store, so a cached
    /// value is never stale.
    pub closed spec fn inv(&self) -> bool {
        &&& self.cache.wf()
        &&& forall|i: int|
            0 <= i < self.cache@.len() ==> {
                let e = #[trigger] self.cache@[i];
                self.db@.contains_key(e.0.id) && e.1@ == render::render_spec(
                    self.db@[e.0.id].text@,
                )
            }
    }

    /// A fresh service over an empty store and an empty cache of the given
    /// capacity, capping requested expiries at `max_expiration`. The cap,
    /// when present, must be strictly positive, as a stored expiry is.
    pub fn new(cache_capacity: usize, max_expiration: Option<u32>) -> (r: Service)
        requires
            cache_capacity >= 1,
            max_expiration matches Some(m) ==> m > 0,
        ensures
            r.inv(),
            r.store_view() == Map::<u32, StoredEntry>::empty(),
            r.cache_view() == Seq::<(CacheKey, String)>::empty(),
            r.spec_max_expiration() == max_expiration,
    {
        Service { db: Database::new(), cache: Cache::new(cache_capacity), max_expiration }
    }

    /// Creates a paste from the request under the first of the candidate
    /// identifiers that does not collide with a live entry; with no free
    /// candidate the identifier space counts as exhausted. Deterministic in
    /// its arguments: `create` draws the candidates and tokens at random
    /// and delegates here.
    pub fn create_with_ids(
        &mut self,
        entry: Entry,
        ids: &Vec<u32>,
        uid: u64,
        salt: u64,
        now: u64,
    ) -> (r: Result<CreatedEntry, ServiceError>)
        requires
            old(self).inv(),
        ensures
            final(self).inv(),
            final(self).spec_max_expiration() == old(self).spec_max_expiration(),
            !valid_entry(entry) ==> r == Err::<CreatedEntry, ServiceError>(
                ServiceError::ValidationError,
            ) && final(self).store_view() == old(self).store_view() && final(self).cache_view()
                == old(self).cache_view(),
            valid_entry(entry) && first_free_from(old(self).store_view(), ids@, now, 0) == -1
                ==> r == Err::<CreatedEntry, ServiceError>(ServiceError::IdSpaceExhausted)
                && final(self).store_view() == old(self).store_view() && final(self).cache_view()
                == old(self).cache_view(),
            valid_entry(entry) && first_free_from(old(self).store_view(), ids@, now, 0) >= 0
                ==> ({
                let k = first_free_from(old(self).store_view(), ids@, now, 0);
                &&& r matches Ok(c) && c.id == ids@[k] && c.uid == uid && c.path@
                    == url_path_spec(ids@[k], entry.extension)
                &&& final(self).store_view() == old(self).store_view().insert(
                    ids@[k],
                    stored_from(entry, uid, salt, old(self).spec_max_expiration(), now),
                )
                &&& final(self).cache_view() == without_id(old(self).cache_view(), ids@[k])
            }),
    {
        let ghost e0 = entry;
        let ghost ov = old(self).store_view();
        let invalid = match entry.expires {
            Some(k) => k == 0,
            None => false,
        };
        if invalid {
            return Err(ServiceError::ValidationError);
        }
        let expires = match self.max_expiration {
            None => entry.expires,
            Some(m) => match entry.expires {
                None => Some(m),
                Some(v) => Some(if v < m { v } else { m }),
            },
        };
        let digest = match &entry.password {
            None => None,
            Some(p) => Some(PasswordDigest { salt, digest: password::digest(salt, p.as_str()) }),
        };
        let burn = match entry.burn_after_reading {
            Some(b) => b,
            None => false,
        };
        let ext_copy = match &entry.extension {
            None => None,
            Some(e) => Some(e.clone()),
        };
        let stored = StoredEntry {
            text: entry.text,
            extension: entry.extension,
            expires,
            burn_after_reading: burn,
            uid: Some(uid),
            password: digest,
            title: entry.title,
            created: now,
        };
        proof {
            assert(stored == stored_from(e0, uid, salt, old(self).spec_max_expiration(), now));
        }
        let n = ids.len();
        let mut win: usize = n;
        let mut t: usize = 0;
        while t < n
            invariant
                old(self).inv(),
                self.inv(),
                self.store_view() == ov,
                ov == old(self).store_view(),
                self.cache_view() == old(self).cache_view(),
                self.spec_max_expiration() == old(self).spec_max_expiration(),
                n == ids@.len(),
                0 <= t <= n,
                win == n || (0 <= win < t),
                win == n ==> forall|j: int| 0 <= j < t ==> store::is_live(ov, ids@[j], now),
                win == n ==> first_free_from(ov, ids@, now, 0) == first_free_from(
                    ov,
                    ids@,
                    now,
                    t as int,
                ),
                win < n ==> first_free_from(ov, ids@, now, 0) == win as int && !store::is_live(
                    ov,
                    ids@[win as int],
                    now,
                ),
            decreases n - t,
        {
            if win == n {
                if !self.db.is_live_at(ids[t], now) {
                    win = t;
                }
            }
            t = t + 1;
        }
        if win == n {
            proof {
                assert(first_free_from(ov, ids@, now, n as int) == -1);
            }
            return Err(ServiceError::IdSpaceExhausted);
        }
        let idw = ids[win];
        let res = self.db.insert(idw, stored, now);
        proof {
            assert(res is Ok);
        }
        self.cache.invalidate_id(idw);
        let path = to_url_path(idw, &ext_copy);
        proof {
            assert(ext_copy == e0.extension);
            let fin = self.cache_view();
            assert forall|i: int| 0 <= i < fin.len() implies {
                let e = #[trigger] fin[i];
                self.store_view().contains_key(e.0.id) && e.1@ == render::render_spec(
                    self.store_view()[e.0.id].text@,
                )
            } by {
                assert(fin[i].0.id != idw);
                let j = choose|j: int|
                    0 <= j < old(self).cache_view().len() && fin[i] == old(self).cache_view()[j];
                assert(old(self).store_view().contains_key(fin[i].0.id));
                assert(self.store_view()[fin[i].0.id] == old(self).store_view()[fin[i].0.id]);
            }
            assert(self.inv());
        }
        Ok(CreatedEntry { id: idw, uid, path })
    }

    /// Creates a paste: validates the request, draws an owner token, a
    /// digest salt and a bounded number of random candidate identifiers,
    /// and stores the entry under the first free one.
    pub fn create(&mut self, entry: Entry, now: u64) -> (r: Result<CreatedEntry, ServiceError>)
        requires
            old(self).inv(),
        ensures
            final(self).inv(),
            final(self).spec_max_expiration() == old(self).spec_max_expiration(),
            !valid_entry(entry) ==> r == Err::<CreatedEntry, ServiceError>(
                ServiceError::ValidationError,
            ) && final(self).store_view() == old(self).store_view() && final(self).cache_view()
                == old(self).cache_view(),
            valid_entry(entry) ==> match r {
                Ok(c) => !store::is_live(old(self).store_view(), c.id, now) && c.path@
                    == url_path_spec(c.id, entry.extension) && (exists|salt: u64|
                    final(self).store_view() == old(self).store_view().insert(
                        c.id,
                        stored_from(
                            entry,
                            c.uid,
                            salt,
                            old(self).spec_max_expiration(),
                            now,
                        ),
                    )) && final(self).cache_view() == without_id(old(self).cache_view(), c.id),
                Err(e) => e == ServiceError::IdSpaceExhausted && final(self).store_view() == old(
                    self,
                ).store_view() && final(self).cache_view() == old(self).cache_view(),
            },
            valid_entry(entry) && (forall|i: u32|
                !store::is_live(old(self).store_view(), i, now)) ==> r is Ok,
    {
        let uid = id::random_u64();
        let salt = id::random_u64();
        let mut ids: Vec<u32> = Vec::new();
        let mut t: usize = 0;
        while t < MAX_INSERT_TRIES
            invariant
                0 <= t <= MAX_INSERT_TRIES,
                ids@.len() == t,
            decreases MAX_INSERT_TRIES - t,
        {
            ids.push(id::generate());
            t = t + 1;
        }
        let ghost ov = old(self).store_view();
        let r = self.create_with_ids(entry, &ids, uid, salt, now);
        proof {
            lemma_first_free(ov, ids@, now, 0);
            if forall|i: u32| !store::is_live(ov, i, now) {
                assert(!store::is_live(ov, ids@[0], now));
                assert(first_free_from(ov, ids@, now, 0) == 0);
            }
        }
        r
    }

    /// Reads a paste: fetches it under the lifecycle rules, maps storage
    /// failures one to one, and obtains the markup from the render cache,
    /// rendering only on a miss. A fetch that removed the entry (burn or
    /// lapse) invalidates every cached rendering of the identifier. The
    /// markup is the plain-text rendering whatever the extension hint says;
    /// the hint only selects the cache variant, so a highlighting
    /// collaborator can be put behind the cache without touching the rest.
    pub fn read(
        &mut self,
        idv: u32,
        extension: Option<String>,
        password: Option<&str>,
        now: u64,
    ) -> (r: Result<RenderedPaste, ServiceError>)
        requires
            old(self).inv(),
        ensures
            final(self).inv(),
            final(self).spec_max_expiration() == old(self).spec_max_expiration(),
            final(self).store_view() == store::fetch_state(
                old(self).store_view(),
                idv,
                store::opt_pw(password),
                now,
            ),
            store::fetch_result(old(self).store_view(), idv, store::opt_pw(password), now)
                matches Ok(rec) ==> r matches Ok(p) && p.markup@ == render::render_spec(rec.text@)
                && p.title == rec.title,
            store::fetch_result(old(self).store_view(), idv, store::opt_pw(password), now)
                matches Err(e) ==> r == Err::<RenderedPaste, ServiceError>(storage_to_service(e)),
            store::fetch_result(old(self).store_view(), idv, store::opt_pw(password), now)
                matches Err(e) && e != StorageError::NotFound ==> final(self).cache_view() == old(
                self,
            ).cache_view(),
            (store::fetch_result(old(self).store_view(), idv, store::opt_pw(password), now)
                == Err::<StoredEntry, StorageError>(StorageError::NotFound) || (store::fetch_result(
                old(self).store_view(),
                idv,
                store::opt_pw(password),
                now,
            ) matches Ok(rec) && rec.burn_after_reading)) ==> final(self).cache_view()
                == without_id(old(self).cache_view(), idv),
            store::fetch_result(old(self).store_view(), idv, store::opt_pw(password), now)
                matches Ok(rec) && !rec.burn_after_reading ==> (r matches Ok(p) && has_key(
                final(self).cache_view(),
                kv((CacheKey { id: idv, extension })),
            ) && crate::cache::value_at(final(self).cache_view(), kv((CacheKey { id: idv, extension })))
                == p.markup@),
    {
        let ghost ov = old(self).store_view();
        let ghost pwv = store::opt_pw(password);
        match self.db.fetch(idv, password, now) {
            Err(e) => {
                match e {
                    StorageError::NotFound => {
                        self.cache.invalidate_id(idv);
                        proof {
                            self.lemma_inv_after_drop(*old(self), idv, pwv, now);
                        }
                        Err(ServiceError::NotFound)
                    },
                    _ => Err(e.to_service_error()),
                }
            },
            Ok(rec) => {
                let title = match &rec.title {
                    None => None,
                    Some(t) => Some(t.clone()),
                };
                if rec.burn_after_reading {
                    self.cache.invalidate_id(idv);
                    let markup = render::render_plain(rec.text.as_str());
                    proof {
                        self.lemma_inv_after_drop(*old(self), idv, pwv, now);
                    }
                    Ok(RenderedPaste { markup, title })
                } else {
                    let key = CacheKey { id: idv, extension };
                    let text = rec.text;
                    let f = || -> (s: String)
                        ensures
                            s@ == render::render_spec(text@),
                        { render::render_plain(text.as_str()) };
                    let ghost c0 = self.cache_view();
                    let markup = self.cache.get_or_compute(key, f);
                    proof {
                        assert(self.store_view() == ov);
                        assert(ov.contains_key(idv) && ov[idv].text@ == text@);
                        if has_key(c0, kv(key)) {
                            let w = crate::cache::index_of(c0, kv(key));
                            assert(0 <= w < c0.len() && kv(c0[w].0) == kv(key));
                            assert(c0[w].0.id == idv);
                            assert(markup@ == render::render_spec(ov[idv].text@));
                        }
                        let fin = self.cache_view();
                        assert forall|i: int| 0 <= i < fin.len() implies {
                            let e = #[trigger] fin[i];
                            self.store_view().contains_key(e.0.id) && e.1@
                                == render::render_spec(self.store_view()[e.0.id].text@)
                        } by {
                            if !(exists|j: int| 0 <= j < c0.len() && fin[i] == c0[j]) {
                                assert(fin[i] == ((key, markup)));
                            }
                        }
                        assert(self.inv());
                    }
                    Ok(RenderedPaste { markup, title })
                }
            },
        }
    }

    /// Deletes a paste under its owner token and drops every cached
    /// rendering of the identifier.
    pub fn delete(&mut self, idv: u32, uid: u64, now: u64) -> (r: Result<(), ServiceError>)
        requires
            old(self).inv(),
        ensures
            final(self).inv(),
            final(self).spec_max_expiration() == old(self).spec_max_expiration(),
            final(self).store_view() == store::delete_state(old(self).store_view(), idv, uid, now),
            final(self).cache_view() == without_id(old(self).cache_view(), idv),
            r == (match store::delete_result(old(self).store_view(), idv, uid, now) {
                Ok(()) => Ok::<(), ServiceError>(()),
                Err(e) => Err(storage_to_service(e)),
            }),
    {
        let res = self.db.delete(idv, uid, now);
        self.cache.invalidate_id(idv);
        proof {
            let fin = self.cache_view();
            assert forall|i: int| 0 <= i < fin.len() implies {
                let e = #[trigger] fin[i];
                self.store_view().contains_key(e.0.id) && e.1@ == render::render_spec(
                    self.store_view()[e.0.id].text@,
                )
            } by {
                assert(fin[i].0.id != idv);
                let j = choose|j: int|
                    0 <= j < old(self).cache_view().len() && fin[i] == old(self).cache_view()[j];
                assert(old(self).store_view().contains_key(fin[i].0.id));
            }
            assert(self.inv());
        }
        match res {
            Ok(()) => Ok(()),
            Err(e) => Err(e.to_service_error()),
        }
    }

    /// Reads a paste addressed by its URL path segment, an encoded
    /// identifier with an optional extension hint after a dot.
    pub fn read_paste(&mut self, path: &str, password: Option<&str>, now: u64) -> (r: Result<
        RenderedPaste,
        ServiceError,
    >)
        requires
            old(self).inv(),
        ensures
            final(self).inv(),
            final(self).spec_max_expiration() == old(self).spec_max_expiration(),
            !valid_encoding(parsed_id_part(path@)) ==> r == Err::<RenderedPaste, ServiceError>(
                ServiceError::Malformed,
            ) && final(self).store_view() == old(self).store_view() && final(self).cache_view()
                == old(self).cache_view(),
            valid_encoding(parsed_id_part(path@)) ==> ({
                let idv = decoded_val(parsed_id_part(path@)) as u32;
                let pw = store::opt_pw(password);
                &&& final(self).store_view() == store::fetch_state(
                    old(self).store_view(),
                    idv,
                    pw,
                    now,
                )
                &&& (store::fetch_result(old(self).store_view(), idv, pw, now) matches Ok(rec)
                    ==> r matches Ok(p) && p.markup@ == render::render_spec(rec.text@) && p.title
                    == rec.title)
                &&& (store::fetch_result(old(self).store_view(), idv, pw, now) matches Err(e)
                    ==> r == Err::<RenderedPaste, ServiceError>(storage_to_service(e)))
            }),
    {
        match parse_path(path) {
            Err(_) => Err(ServiceError::Malformed),
            Ok((idv, extension)) => {
                proof {
                    assert(idv == decoded_val(parsed_id_part(path@)) as u32);
                }
                self.read(idv, extension, password, now)
            },
        }
    }

    /// Deletes a paste addressed by its URL path segment under its owner
    /// token.
    pub fn delete_paste(&mut self, path: &str, uid: u64, now: u64) -> (r: Result<
        (),
        ServiceError,
    >)
        requires
            old(self).inv(),
        ensures
            final(self).inv(),
            final(self).spec_max_expiration() == old(self).spec_max_expiration(),
            !valid_encoding(parsed_id_part(path@)) ==> r == Err::<(), ServiceError>(
                ServiceError::Malformed,
            ) && final(self).store_view() == old(self).store_view() && final(self).cache_view()
                == old(self).cache_view(),
            valid_encoding(parsed_id_part(path@)) ==> ({
                let idv = decoded_val(parsed_id_part(path@)) as u32;
                &&& final(self).store_view() == store::delete_state(
                    old(self).store_view(),
                    idv,
                    uid,
                    now,
                )
                &&& final(self).cache_view() == without_id(old(self).cache_view(), idv)
                &&& r == (match store::delete_result(old(self).store_view(), idv, uid, now) {
                    Ok(()) => Ok::<(), ServiceError>(()),
                    Err(e) => Err(storage_to_service(e)),
                })
            }),
    {
        match parse_path(path) {
            Err(_) => Err(ServiceError::Malformed),
            Ok((idv, _)) => {
                proof {
                    assert(idv == decoded_val(parsed_id_part(path@)) as u32);
                }
                self.delete(idv, uid, now)
            },
        }
    }

    /// After a fetch that may have dropped the identifier, invalidating the
    /// identifier's cache entries restores the invariant.
    proof fn lemma_inv_after_drop(
        &self,
        prev: Service,
        idv: u32,
        pwv: Option<Seq<char>>,
        now: u64,
    )
        requires
            prev.inv(),
            self.store_view() == store::fetch_state(prev.store_view(), idv, pwv, now),
            self.cache_view() == without_id(prev.cache_view(), idv),
            self.cache.wf(),
        ensures
            self.inv(),
    {
        crate::cache::lemma_without_id_keeps(prev.cache_view(), idv);
        let fin = self.cache_view();
        assert forall|i: int| 0 <= i < fin.len() implies {
            let e = #[trigger] fin[i];
            self.store_view().contains_key(e.0.id) && e.1@ == render::render_spec(
                self.store_view()[e.0.id].text@,
            )
        } by {
            let j = choose|j: int|
                0 <= j < prev.cache_view().len() && fin[i] == prev.cache_view()[j];
            assert(prev.store_view().contains_key(fin[i].0.id));
            assert(fin[i].0.id != idv);
            assert(self.store_view().contains_key(fin[i].0.id));
            assert(self.store_view()[fin[i].0.id] == prev.store_view()[fin[i].0.id]);
        }
    }
}

} // verus!

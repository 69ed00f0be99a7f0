//! The decisions of the passphrase agent: its cache of passphrases by shrine uuid,
//! the answer to each request, and whether a new agent may start.
//!
//! Times are milliseconds since the Unix epoch, handed in by the caller.
use crate::encryption::{sealed_by, shrine_open, EncryptionAlgorithm, MAX_MESSAGE_LEN, NONCE_LEN, TAG_LEN};
use crate::holder::HolderView;
use crate::serialization::encode_holder;
use crate::shrine::local::{after_set, aes_close_owed, clear_close_owed};
use crate::values::SecretView;
use crate::shrine::local::{can_set, decode_file, lookup, open_clear, Metadata};
use crate::shrine::{new, ClosedShrine, OpenShrine, VERSION};
use crate::values::{Mode, Secret};
use crate::Error;
use vstd::prelude::*;
use vstd::utf8::encode_utf8;

verus! {

broadcast use crate::shrine::local::lemma_meta_algorithm;

/// How long an unused passphrase stays cached, in milliseconds.
pub const DEFAULT_TTL_MS: i64 = 900_000;

/// A cached passphrase with the time it was last used.
pub struct CachedPassword {
    pub uuid: u128,
    pub atime: i64,
    pub password: String,
}

/// The cache contents: uuid, last access time and passphrase of each entry.
pub type CacheView = Seq<(u128, i64, Seq<char>)>;

pub open spec fn cache_view(v: Seq<CachedPassword>) -> CacheView {
    v.map_values(|e: CachedPassword| (e.uuid, e.atime, e.password@))
}

pub open spec fn has_uuid(s: CacheView, u: u128) -> bool {
    exists|i: int| 0 <= i < s.len() && #[trigger] s[i].0 == u
}

pub open spec fn unique_uuids(s: CacheView) -> bool {
    forall|i: int, j: int|
        0 <= i < s.len() && 0 <= j < s.len() && i != j ==> #[trigger] s[i].0 != #[trigger] s[j].0
}

/// Access time and passphrase cached for `u`, if any.
pub open spec fn cached(s: CacheView, u: u128) -> Option<(i64, Seq<char>)> {
    if has_uuid(s, u) {
        let i = choose|i: int| 0 <= i < s.len() && #[trigger] s[i].0 == u;
        Some((s[i].1, s[i].2))
    } else {
        None
    }
}

/// An entry as a sweep at `now` leaves it: kept while used less than `ttl` ago.
pub open spec fn swept(e: Option<(i64, Seq<char>)>, now: i64, ttl: i64) -> Option<(i64, Seq<char>)> {
    match e {
        Some((a, p)) => if a > now - ttl {
            Some((a, p))
        } else {
            None
        },
        None => None,
    }
}

/// An entry after a read at `now`: its access time is refreshed.
pub open spec fn touched(e: Option<(i64, Seq<char>)>, now: i64) -> Option<(i64, Seq<char>)> {
    match e {
        Some((a, p)) => Some((now, p)),
        None => None,
    }
}

proof fn lemma_cached_at(s: CacheView, u: u128, i: int)
    requires
        unique_uuids(s),
        0 <= i < s.len(),
        s[i].0 == u,
    ensures
        cached(s, u) == Some((s[i].1, s[i].2)),
{
    assert(has_uuid(s, u));
    let j = choose|j: int| 0 <= j < s.len() && #[trigger] s[j].0 == u;
    assert(s[j].0 == u);
}

/// Passphrases by shrine uuid, with their last access times.
pub struct PasswordCache {
    entries: Vec<CachedPassword>,
}

impl View for PasswordCache {
    type V = CacheView;

    closed spec fn view(&self) -> CacheView {
        cache_view(self.entries@)
    }
}

fn position(v: &Vec<CachedPassword>, uuid: u128) -> (r: Option<usize>)
    ensures
        match r {
            Some(i) => i < v@.len() && v@[i as int].uuid == uuid,
            None => !has_uuid(cache_view(v@), uuid),
        },
{
    let mut i: usize = 0;
    while i < v.len()
        invariant
            i <= v@.len(),
            forall|j: int| 0 <= j < i ==> #[trigger] v@[j].uuid != uuid,
        decreases v@.len() - i,
    {
        if v[i].uuid == uuid {
            return Some(i);
        }
        i = i + 1;
    }
    assert forall|j: int| 0 <= j < cache_view(v@).len() implies #[trigger] cache_view(v@)[j].0
        != uuid by {
        assert(v@[j].uuid != uuid);
    }
    None
}

impl PasswordCache {
    #[verifier::type_invariant]
    closed spec fn inv(&self) -> bool {
        unique_uuids(self@)
    }

    /// An empty cache.
    pub fn new() -> (r: PasswordCache)
        ensures
            forall|u: u128| cached(r@, u) is None,
    {
        let r = PasswordCache { entries: Vec::new() };
        assert(r@ =~= Seq::empty());
        r
    }

    /// Stores `password` for `uuid`, used at `now`.
    pub fn set_password(&mut self, uuid: u128, password: String, now: i64)
        ensures
            cached(final(self)@, uuid) == Some((now, password@)),
            forall|u: u128| u != uuid ==> #[trigger] cached(final(self)@, u) == cached(old(self)@, u),
    {
        proof {
            use_type_invariant(&*self);
        }
        let ghost s = self@;
        let mut entries: Vec<CachedPassword> = Vec::new();
        std::mem::swap(&mut entries, &mut self.entries);
        assert(cache_view(entries@) == s);
        let entry = CachedPassword { uuid, atime: now, password };
        let ghost idx: int;
        match position(&entries, uuid) {
            Some(i) => {
                entries[i] = entry;
                proof {
                    idx = i as int;
                }
            },
            None => {
                entries.push(entry);
                proof {
                    idx = s.len() as int;
                }
            },
        }
        let ghost t = cache_view(entries@);
        assert(forall|j: int| 0 <= j < t.len() && j != idx ==> t[j] == s[j]);
        assert(t[idx] == (uuid, now, password@));
        assert(unique_uuids(t)) by {
            assert forall|a: int, b: int|
                0 <= a < t.len() && 0 <= b < t.len() && a != b implies #[trigger] t[a].0
                != #[trigger] t[b].0 by {
                if a != idx && b != idx {
                    assert(s[a].0 != s[b].0);
                } else if a == idx {
                    assert(t[b] == s[b]);
                } else {
                    assert(t[a] == s[a]);
                }
            }
        }
        proof {
            lemma_cached_at(t, uuid, idx);
            assert forall|u: u128| u != uuid implies #[trigger] cached(t, u) == cached(s, u) by {
                if has_uuid(s, u) {
                    let j = choose|j: int| 0 <= j < s.len() && #[trigger] s[j].0 == u;
                    lemma_cached_at(s, u, j);
                    assert(j != idx);
                    lemma_cached_at(t, u, j);
                }
                if has_uuid(t, u) {
                    let j = choose|j: int| 0 <= j < t.len() && #[trigger] t[j].0 == u;
                    assert(j != idx);
                    assert(s[j] == t[j]);
                }
            }
        }
        self.entries = entries;
    }

    /// The passphrase cached for `uuid`, whose access time becomes `now`.
    pub fn get_password(&mut self, uuid: u128, now: i64) -> (r: Option<String>)
        ensures
            r is Some <==> cached(old(self)@, uuid) is Some,
            match r {
                Some(p) => p@ == cached(old(self)@, uuid)->Some_0.1,
                None => true,
            },
            cached(final(self)@, uuid) == touched(cached(old(self)@, uuid), now),
            forall|u: u128| u != uuid ==> #[trigger] cached(final(self)@, u) == cached(old(self)@, u),
    {
        proof {
            use_type_invariant(&*self);
        }
        match position(&self.entries, uuid) {
            Some(i) => {
                proof {
                    lemma_cached_at(self@, uuid, i as int);
                }
                let password = self.entries[i].password.clone();
                let kept = password.clone();
                self.set_password(uuid, kept, now);
                Some(password)
            },
            None => None,
        }
    }

    /// Drops every cached passphrase.
    pub fn delete_passwords(&mut self)
        ensures
            forall|u: u128| #[trigger] cached(final(self)@, u) is None,
    {
        let mut empty: Vec<CachedPassword> = Vec::new();
        std::mem::swap(&mut empty, &mut self.entries);
        assert(self@ =~= Seq::empty());
    }

    /// Drops every passphrase not used within `ttl` before `now`.
    pub fn clean_expired_passwords(&mut self, now: i64, ttl: i64)
        ensures
            forall|u: u128| #[trigger] cached(final(self)@, u) == swept(cached(old(self)@, u), now, ttl),
    {
        proof {
            use_type_invariant(&*self);
        }
        let ghost s = self@;
        let mut entries: Vec<CachedPassword> = Vec::new();
        std::mem::swap(&mut entries, &mut self.entries);
        assert(cache_view(entries@) == s);
        let mut kept: Vec<CachedPassword> = Vec::new();
        let ghost mut from: Seq<int> = Seq::empty();
        while entries.len() > 0
            invariant
                s.len() == entries@.len() + kept@.len() + (s.len() - entries@.len() - kept@.len()),
                entries@.len() <= s.len(),
                forall|j: int|
                    0 <= j < entries@.len() ==> #[trigger] cache_view(entries@)[j] == s[j],
                from.len() == kept@.len(),
                forall|j: int|
                    0 <= j < from.len() ==> entries@.len() <= #[trigger] from[j] < s.len()
                        && cache_view(kept@)[j] == s[from[j]] && s[from[j]].1 > now - ttl,
                forall|j: int, k: int| 0 <= j < k < from.len() ==> from[j] > from[k],
                forall|m: int|
                    entries@.len() <= m < s.len() && s[m].1 > now - ttl ==> exists|j: int|
                        0 <= j < from.len() && #[trigger] from[j] == m,
            decreases entries@.len(),
        {
            let ghost before = entries@;
            let ghost old_from = from;
            let e = entries.pop().unwrap();
            let ghost m = entries@.len() as int;
            assert(cache_view(before)[m] == s[m]);
            assert(s[m] == (e.uuid, e.atime, e.password@));
            assert forall|j: int| 0 <= j < entries@.len() implies #[trigger] cache_view(entries@)[j]
                == s[j] by {
                assert(cache_view(before)[j] == s[j]);
                assert(entries@[j] == before[j]);
            }
            if (e.atime as i128) > (now as i128) - (ttl as i128) {
                let ghost kept_before = kept@;
                kept.push(e);
                proof {
                    from = from.push(m);
                    assert forall|j: int| 0 <= j < from.len() implies entries@.len() <= #[trigger] from[j]
                        < s.len() && cache_view(kept@)[j] == s[from[j]] && s[from[j]].1 > now - ttl by {
                        if j < old_from.len() {
                            assert(from[j] == old_from[j]);
                            assert(cache_view(kept@)[j] == cache_view(kept_before)[j]);
                        }
                    }
                    assert forall|mm: int|
                        entries@.len() <= mm < s.len() && s[mm].1 > now - ttl implies exists|j: int|
                        0 <= j < from.len() && #[trigger] from[j] == mm by {
                        if mm == m {
                            assert(from[from.len() - 1] == m);
                        } else {
                            let j = choose|j: int| 0 <= j < old_from.len() && #[trigger] old_from[j] == mm;
                            assert(from[j] == mm);
                        }
                    }
                }
            } else {
                assert forall|mm: int|
                    entries@.len() <= mm < s.len() && s[mm].1 > now - ttl implies exists|j: int|
                    0 <= j < from.len() && #[trigger] from[j] == mm by {
                    assert(mm != m);
                }
            }
        }
        let ghost t = cache_view(kept@);
        assert(unique_uuids(t)) by {
            assert forall|a: int, b: int|
                0 <= a < t.len() && 0 <= b < t.len() && a != b implies #[trigger] t[a].0
                != #[trigger] t[b].0 by {
                assert(t[a] == s[from[a]]);
                assert(t[b] == s[from[b]]);
                if a < b {
                    assert(from[a] > from[b]);
                } else {
                    assert(from[b] > from[a]);
                }
            }
        }
        proof {
            assert forall|u: u128| #[trigger] cached(t, u) == swept(cached(s, u), now, ttl) by {
                if has_uuid(s, u) {
                    let m = choose|m: int| 0 <= m < s.len() && #[trigger] s[m].0 == u;
                    lemma_cached_at(s, u, m);
                    if s[m].1 > now - ttl {
                        let j = choose|j: int| 0 <= j < from.len() && #[trigger] from[j] == m;
                        assert(t[j] == s[m]);
                        lemma_cached_at(t, u, j);
                    } else {
                        if has_uuid(t, u) {
                            let j = choose|j: int| 0 <= j < t.len() && #[trigger] t[j].0 == u;
                            assert(t[j] == s[from[j]]);
                            assert(from[j] == m);
                        }
                    }
                } else {
                    if has_uuid(t, u) {
                        let j = choose|j: int| 0 <= j < t.len() && #[trigger] t[j].0 == u;
                        assert(t[j] == s[from[j]]);
                        assert(s[from[j]].0 == u);
                    }
                }
            }
        }
        self.entries = kept;
    }
}

/// A sweep removes an entry last used `ttl` or more before it; a read at `t` keeps
/// the entry through every sweep before `t + ttl`, and no later.
pub proof fn law_cache_ttl(e: Option<(i64, Seq<char>)>, t: i64, now: i64, ttl: i64)
    ensures
        e is Some && e->Some_0.0 <= now - ttl ==> swept(e, now, ttl) is None,
        swept(touched(e, t), now, ttl) is Some <==> e is Some && now - ttl < t,
{
}

/// What the agent answers when a request cannot be served.
#[derive(Debug)]
pub enum ErrorResponse {
    /// No shrine file at that path.
    FileNotFound(String),
    /// No secret under that key.
    KeyNotFound { file: String, key: String },
    /// No passphrase is cached for the shrine's uuid.
    Unauthorized(u128),
    /// The cached passphrase does not open the shrine.
    Forbidden(u128),
    /// Reading the file failed.
    Read(String),
    /// Writing the file failed.
    Write(String),
    /// The file could not be used otherwise.
    Io(String),
}

/// The HTTP status of each answer.
pub open spec fn status_of(e: ErrorResponse) -> u16 {
    match e {
        ErrorResponse::FileNotFound(_) => 404,
        ErrorResponse::KeyNotFound { .. } => 404,
        ErrorResponse::Unauthorized(_) => 401,
        ErrorResponse::Forbidden(_) => 403,
        ErrorResponse::Read(_) => 500,
        ErrorResponse::Write(_) => 500,
        ErrorResponse::Io(_) => 500,
    }
}

impl ErrorResponse {
    pub fn status(&self) -> (r: u16)
        ensures
            r == status_of(*self),
    {
        match self {
            ErrorResponse::FileNotFound(_) => 404,
            ErrorResponse::KeyNotFound { .. } => 404,
            ErrorResponse::Unauthorized(_) => 401,
            ErrorResponse::Forbidden(_) => 403,
            ErrorResponse::Read(_) => 500,
            ErrorResponse::Write(_) => 500,
            ErrorResponse::Io(_) => 500,
        }
    }
}

/// The answer to a failed read of the file at `path`.
pub open spec fn read_failure(e: Error, path: Seq<char>, r: ErrorResponse) -> bool {
    match e {
        Error::FileNotFound(_) => r matches ErrorResponse::FileNotFound(p) && p@ == path,
        Error::IoRead(_) => r matches ErrorResponse::Read(p) && p@ == path,
        _ => r matches ErrorResponse::Io(p) && p@ == path,
    }
}

/// Opens the shrine file at `path` for a request, given what reading it gave; an
/// encrypted shrine is opened with the passphrase cached for its uuid, which counts
/// as a use at `now`.
pub fn open_shrine(cache: &mut PasswordCache, path: &str, file: Result<Vec<u8>, Error>, now: i64) -> (r:
    Result<OpenShrine, ErrorResponse>)
    ensures
        file matches Err(e) ==> (r matches Err(resp) && read_failure(e, path@, resp)),
        file is Ok && decode_file(file->Ok_0@) is None ==> (r matches Err(resp) && (resp
            matches ErrorResponse::Io(p) && p@ == path@)),
        file is Ok && decode_file(file->Ok_0@) is Some ==> opened(
            old(cache)@,
            final(cache)@,
            decode_file(file->Ok_0@)->Some_0.0,
            decode_file(file->Ok_0@)->Some_0.1,
            now,
            r,
        ),
        file is Err || decode_file(file->Ok_0@) is None || decode_file(
            file->Ok_0@,
        )->Some_0.0.encryption_algorithm == EncryptionAlgorithm::Plain ==> final(cache)@ == old(
            cache,
        )@,
{
    let bytes = match file {
        Ok(b) => b,
        Err(Error::FileNotFound(_)) => return Err(ErrorResponse::FileNotFound(path.to_owned())),
        Err(Error::IoRead(_)) => return Err(ErrorResponse::Read(path.to_owned())),
        Err(_) => return Err(ErrorResponse::Io(path.to_owned())),
    };
    let shrine = match new(bytes.as_slice()) {
        Ok(s) => s,
        Err(_) => return Err(ErrorResponse::Io(path.to_owned())),
    };
    let uuid = shrine.uuid();
    match shrine {
        ClosedShrine::LocalClear(s) => match s.open() {
            Ok(o) => Ok(OpenShrine::LocalClear(o)),
            Err(_) => Err(ErrorResponse::Forbidden(uuid)),
        },
        ClosedShrine::LocalAes(s) => {
            let password = match cache.get_password(uuid, now) {
                Some(p) => p,
                None => return Err(ErrorResponse::Unauthorized(uuid)),
            };
            match s.open(password) {
                Ok(o) => Ok(OpenShrine::LocalAes(o)),
                Err(_) => Err(ErrorResponse::Forbidden(uuid)),
            }
        },
    }
}

/// How opening a well-formed file with header `m` and payload `payload` ends, with
/// the cache before and after.
pub open spec fn opened(
    before: CacheView,
    after: CacheView,
    m: Metadata,
    payload: Seq<u8>,
    now: i64,
    r: Result<OpenShrine, ErrorResponse>,
) -> bool {
    &&& (r matches Ok(o) ==> o.meta() == m && o.consistent())
    &&& (r matches Err(resp) ==> (resp matches ErrorResponse::Unauthorized(u) && u == m.uuid) || (
    resp matches ErrorResponse::Forbidden(u) && u == m.uuid))
    &&& m.encryption_algorithm == EncryptionAlgorithm::Plain ==> (r is Ok <==> open_clear(
        m,
        payload,
    ) is Some) && (r matches Ok(o) ==> o is LocalClear && Some(o.holder()) == open_clear(
        m,
        payload,
    )) && (r matches Err(resp) ==> resp matches ErrorResponse::Forbidden(u) && u == m.uuid)
    &&& m.encryption_algorithm == EncryptionAlgorithm::Aes ==> {
        &&& cached(after, m.uuid) == touched(cached(before, m.uuid), now)
        &&& forall|v: u128| v != m.uuid ==> #[trigger] cached(after, v) == cached(before, v)
        &&& (cached(before, m.uuid) is None ==> (r matches Err(resp) && (resp
            matches ErrorResponse::Unauthorized(u) && u == m.uuid)))
        &&& (cached(before, m.uuid) is Some ==> opened_with(
            m,
            payload,
            cached(before, m.uuid)->Some_0.1,
            r,
        ))
    }
}

/// How opening an encrypted file with header `m` and payload `payload` with the
/// cached passphrase `p` ends.
pub open spec fn opened_with(m: Metadata, payload: Seq<u8>, p: Seq<char>, r: Result<OpenShrine, ErrorResponse>) -> bool {
    &&& (r matches Err(resp) ==> resp matches ErrorResponse::Forbidden(u) && u == m.uuid)
    &&& (r matches Ok(o) ==> o matches OpenShrine::LocalAes(s) && s.password() == p)
    &&& (encode_utf8(p).len() <= u32::MAX ==> match shrine_open(
        payload,
        encode_utf8(p),
        m.uuid,
        VERSION,
    ) {
        None => r is Err,
        Some(plain) => (r is Ok <==> open_clear(m, plain) is Some) && (r matches Ok(o) ==> Some(
            o.holder(),
        ) == open_clear(m, plain)),
    })
    &&& forall|plain: Seq<u8>|
        #[trigger] sealed_by(payload, plain, encode_utf8(p), m.uuid, VERSION) && plain.len()
            <= MAX_MESSAGE_LEN && encode_utf8(p).len() <= u32::MAX ==> (r is Ok <==> open_clear(
            m,
            plain,
        ) is Some) && (r matches Ok(o) ==> Some(o.holder()) == open_clear(m, plain))
}

/// Serves a read of `key` from the shrine file at `path`, given what reading it gave.
pub fn get_key(cache: &mut PasswordCache, path: &str, key: &str, file: Result<Vec<u8>, Error>, now: i64) -> (r:
    Result<Secret, ErrorResponse>)
    ensures
        file matches Err(e) ==> (r matches Err(resp) && read_failure(e, path@, resp)),
        file is Ok && decode_file(file->Ok_0@) is None ==> (r matches Err(resp) && (resp
            matches ErrorResponse::Io(p) && p@ == path@)),
        file is Ok && decode_file(file->Ok_0@) is Some ==> exists|o: Result<OpenShrine, ErrorResponse>|
            opened(
                old(cache)@,
                final(cache)@,
                decode_file(file->Ok_0@)->Some_0.0,
                decode_file(file->Ok_0@)->Some_0.1,
                now,
                o,
            ) && match o {
                Ok(s) => match lookup(s.holder(), key@) {
                    Some(v) => r matches Ok(x) && x@ == v,
                    None => r matches Err(resp) && (resp matches ErrorResponse::KeyNotFound {
                        file: f,
                        key: k,
                    } && f@ == path@ && k@ == key@),
                },
                Err(resp) => r == Err::<Secret, ErrorResponse>(resp),
            },
{
    let shrine = match open_shrine(cache, path, file, now) {
        Ok(s) => s,
        Err(resp) => return Err(resp),
    };
    match shrine.get(key) {
        Ok(secret) => Ok(secret.duplicate()),
        Err(_) => Err(ErrorResponse::KeyNotFound { file: path.to_owned(), key: key.to_owned() }),
    }
}

/// The file bytes hold the open shrine `s` (header `m`) with holder `h2`, closed as
/// its encryption asks; they are owed where closing and framing fit.
pub open spec fn stored(m: Metadata, s: OpenShrine, h2: HolderView, r: Result<Vec<u8>, ErrorResponse>) -> bool {
    match s {
        OpenShrine::LocalClear(_) => (clear_close_owed(m, h2) && encode_holder(h2).len()
            <= u32::MAX ==> r is Ok) && (r matches Ok(b) ==> decode_file(b@) == Some(
            (m, encode_holder(h2)),
        )),
        OpenShrine::LocalAes(a) => (aes_close_owed(m, h2, a.password()) && NONCE_LEN
            + encode_holder(h2).len() + TAG_LEN <= u32::MAX ==> r is Ok) && (r matches Ok(b)
            ==> decode_file(b@) is Some && decode_file(b@)->Some_0.0 == m && sealed_by(
            decode_file(b@)->Some_0.1,
            encode_holder(h2),
            encode_utf8(a.password()),
            m.uuid,
            VERSION,
        )),
    }
}

/// How a write of `value` under `key` into the open shrine `s` (header `m`) ends.
pub open spec fn written(
    m: Metadata,
    s: OpenShrine,
    path: Seq<char>,
    key: Seq<char>,
    value: Seq<u8>,
    mode: Mode,
    r: Result<Vec<u8>, ErrorResponse>,
) -> bool {
    &&& (r matches Err(resp) ==> resp matches ErrorResponse::Write(p) && p@ == path)
    &&& (!can_set(s.holder(), key) ==> r is Err)
    &&& (can_set(s.holder(), key) ==> exists|c: i64|
        stored(m, s, #[trigger] after_set(s.holder(), key, SecretView { value, mode, created_at: c }), r))
}

/// Serves a write of `key` into the shrine file at `path`: the file bytes to write
/// back, given what reading it gave.
pub fn set_key(
    cache: &mut PasswordCache,
    path: &str,
    key: &str,
    value: &[u8],
    mode: Mode,
    file: Result<Vec<u8>, Error>,
    now: i64,
) -> (r: Result<Vec<u8>, ErrorResponse>)
    ensures
        file matches Err(e) ==> (r matches Err(resp) && read_failure(e, path@, resp)),
        file is Ok && decode_file(file->Ok_0@) is None ==> (r matches Err(resp) && (resp
            matches ErrorResponse::Io(p) && p@ == path@)),
        file is Ok && decode_file(file->Ok_0@) is Some ==> exists|o: Result<OpenShrine, ErrorResponse>|
            opened(
                old(cache)@,
                final(cache)@,
                decode_file(file->Ok_0@)->Some_0.0,
                decode_file(file->Ok_0@)->Some_0.1,
                now,
                o,
            ) && match o {
                Ok(s) => written(decode_file(file->Ok_0@)->Some_0.0, s, path@, key@, value@, mode, r),
                Err(resp) => r == Err::<Vec<u8>, ErrorResponse>(resp),
            },
{
    let opened_r = open_shrine(cache, path, file, now);
    let mut shrine = match opened_r {
        Ok(s) => s,
        Err(resp) => return Err(resp),
    };
    let ghost s0 = shrine;
    let ghost m = shrine.meta();
    let set_r = shrine.set(key, value, mode);
    if set_r.is_err() {
        return Err(ErrorResponse::Write(path.to_owned()));
    }
    let ghost c = choose|c: i64|
        shrine.holder() == after_set(s0.holder(), key@, SecretView { value: value@, mode, created_at: c });
    let ghost h2 = shrine.holder();
    assert(h2 == after_set(s0.holder(), key@, SecretView { value: value@, mode, created_at: c }));
    let closed = match shrine.close() {
        Ok(cl) => cl,
        Err(_) => {
            let r = Err(ErrorResponse::Write(path.to_owned()));
            assert(stored(m, s0, h2, r));
            return r;
        },
    };
    let r = match closed.try_to_bytes() {
        Ok(b) => {
            proof {
                crate::shrine::local::lemma_file_round_trip(closed.meta(), closed.payload_bytes());
            }
            Ok(b)
        },
        Err(_) => Err(ErrorResponse::Write(path.to_owned())),
    };
    assert(stored(m, s0, h2, r));
    r
}

/// A live agent: its pid file names a pid, and its probe answered with that pid.
pub open spec fn agent_live(pid_file: Option<Seq<char>>, probe: Option<Seq<char>>) -> bool {
    &&& pid_file is Some
    &&& probe is Some
    &&& pid_file->Some_0.len() > 0
    &&& pid_file->Some_0 == probe->Some_0
}

/// Whether an agent is running: the pid file's contents and the answer to the pid
/// probe, each absent when it could not be had.
pub fn agent_is_live(pid_file: Option<&str>, probe: Option<&str>) -> (r: bool)
    ensures
        r == agent_live(
            match pid_file {
                Some(p) => Some(p@),
                None => None,
            },
            match probe {
                Some(q) => Some(q@),
                None => None,
            },
        ),
{
    match (pid_file, probe) {
        (Some(p), Some(q)) => {
            if p.is_empty() {
                false
            } else {
                p.to_owned() == q.to_owned()
            }
        },
        _ => false,
    }
}

/// Whether a new agent may bind its socket: only when no live agent answers.
pub fn may_start_agent(pid_file: Option<&str>, probe: Option<&str>) -> (r: bool)
    ensures
        r == !agent_live(
            match pid_file {
                Some(p) => Some(p@),
                None => None,
            },
            match probe {
                Some(q) => Some(q@),
                None => None,
            },
        ),
{
    !agent_is_live(pid_file, probe)
}

} // verus!

//! The thumbnails that devices fetch, kept for a limited time.
use crate::registry::Registry;
use crate::text;
use crate::time::{Clock, Duration, Instant};
use vstd::prelude::*;

verus! {

/// How long a thumbnail is served, in seconds.
pub const TTL_SECS: u64 = 60;

/// How long a thumbnail is served.
pub open spec fn lifetime() -> Duration {
    Duration { secs: TTL_SECS, nanos: 0 }
}

/// How long a thumbnail is served.
pub fn ttl() -> (d: Duration)
    ensures
        d == lifetime(),
{
    Duration::from_secs(TTL_SECS)
}

/// Whether something stored at `at` with a lifetime of `ttl` is too old at `now`.
pub open spec fn is_expired(at: Instant, now: Instant, ttl: Duration) -> bool {
    crate::time::nanos_between(at, now) >= ttl.as_nanos()
}

/// The expiry decision: `now - at >= ttl`.
pub fn expired(at: Instant, now: Instant, ttl: Duration) -> (r: bool)
    ensures
        r == is_expired(at, now, ttl),
{
    let from = at.since_start.total_nanos();
    let to = now.since_start.total_nanos();
    let age: u128 = if from <= to { to - from } else { 0 };
    age >= ttl.total_nanos()
}

/// What a cache holds: under each id, when the bytes were stored, and the bytes.
pub type Stored = Map<Seq<char>, (Instant, Seq<u8>)>;

/// The bytes that a cache holding `m` serves under `id` at `now`.
pub open spec fn served(m: Stored, id: Seq<char>, now: Instant) -> Option<Seq<u8>> {
    if m.contains_key(id) && !is_expired(m[id].0, now, lifetime()) {
        Some(m[id].1)
    } else {
        None
    }
}

/// What is left in a cache that held `m` once `id` was asked for, or evicted, at `now`: an expired
/// entry goes.
pub open spec fn after_lookup(m: Stored, id: Seq<char>, now: Instant) -> Stored {
    if m.contains_key(id) && is_expired(m[id].0, now, lifetime()) {
        m.remove(id)
    } else {
        m
    }
}

/// Thumbnails by event id.
#[derive(Debug)]
pub struct ThumbnailCache {
    clock: Clock,
    inner: Registry<(Instant, Vec<u8>)>,
}

impl View for ThumbnailCache {
    type V = Stored;

    closed spec fn view(&self) -> Stored {
        self.inner@.map_values(|e: (Instant, Vec<u8>)| (e.0, e.1@))
    }
}

impl ThumbnailCache {
    /// The clock that the times of a cache are read off. Times compare only while it stays the same.
    pub closed spec fn clock(&self) -> Clock {
        self.clock
    }

    /// An empty cache.
    pub fn new() -> (c: ThumbnailCache)
        ensures
            c@ == Map::<Seq<char>, (Instant, Seq<u8>)>::empty(),
            c.clock().is_started(),
    {
        let c = ThumbnailCache { clock: Clock::start(), inner: Registry::new() };
        assert(c@ =~= Map::<Seq<char>, (Instant, Seq<u8>)>::empty());
        c
    }

    /// Stores `bytes` under `id` as of `now`, in place of what was there.
    pub fn insert_at(&mut self, id: &str, bytes: Vec<u8>, now: Instant)
        ensures
            final(self)@ == old(self)@.insert(id@, (now, bytes@)),
            final(self).clock() == old(self).clock(),
    {
        let ghost stored = (now, bytes);
        self.inner.insert(id.to_owned(), (now, bytes));
        assert(self@ =~= old(self)@.insert(id@, (now, stored.1@)));
    }

    /// Stores `bytes` under `id` as of the present time.
    pub fn insert(&mut self, id: &str, bytes: Vec<u8>)
        ensures
            exists|now: Instant|
                old(self).clock().reads(now) && now.since_start.wf() && final(self)@
                    == #[trigger] old(self)@.insert(id@, (now, bytes@)),
            final(self).clock() == old(self).clock(),
    {
        let now = self.clock.now();
        self.insert_at(id, bytes, now);
    }

    /// The bytes stored under `id`, unless they are too old at `now`.
    pub fn get_at(&mut self, id: &str, now: Instant) -> (r: Option<Vec<u8>>)
        ensures
            text::bytes_option(r) == served(old(self)@, id@, now),
            final(self)@ == after_lookup(old(self)@, id@, now),
            final(self).clock() == old(self).clock(),
    {
        let found = match self.inner.get(id) {
            Some(e) => {
                if !expired(e.0, now, ttl()) {
                    let b: Vec<u8> = e.1.clone();
                    assert(b@ =~= e.1@);
                    return Some(b);
                }
                true
            },
            None => false,
        };
        if found {
            let _gone = self.inner.remove(id);
            assert(self@ =~= old(self)@.remove(id@));
        }
        None
    }

    /// The bytes stored under `id`, unless they are too old by now.
    pub fn get(&mut self, id: &str) -> (r: Option<Vec<u8>>)
        ensures
            exists|now: Instant|
                old(self).clock().reads(now) && now.since_start.wf() && text::bytes_option(r)
                    == served(old(self)@, id@, now) && final(self)@ == #[trigger] after_lookup(
                    old(self)@,
                    id@,
                    now,
                ),
            final(self).clock() == old(self).clock(),
    {
        let now = self.clock.now();
        self.get_at(id, now)
    }

    /// Drops what is stored under `id` where it is too old at `now`. What was stored there since
    /// stays for its own time.
    pub fn evict_at(&mut self, id: &str, now: Instant)
        ensures
            final(self)@ == after_lookup(old(self)@, id@, now),
            final(self).clock() == old(self).clock(),
    {
        let gone = match self.inner.get(id) {
            Some(e) => expired(e.0, now, ttl()),
            None => false,
        };
        if gone {
            self.remove(id);
        }
    }

    /// Drops what is stored under `id` where it is too old by now.
    pub fn evict(&mut self, id: &str)
        ensures
            exists|now: Instant|
                old(self).clock().reads(now) && now.since_start.wf() && final(self)@
                    == #[trigger] after_lookup(old(self)@, id@, now),
            final(self).clock() == old(self).clock(),
    {
        let now = self.clock.now();
        self.evict_at(id, now);
    }

    /// Drops what is stored under `id`, however old it is.
    pub fn remove(&mut self, id: &str)
        ensures
            final(self)@ == old(self)@.remove(id@),
            final(self).clock() == old(self).clock(),
    {
        let _gone = self.inner.remove(id);
        assert(self@ =~= old(self)@.remove(id@));
    }
}

/// What was stored under an id is served back, byte for byte, until it is as old as the lifetime,
/// and never from then on.
pub proof fn stored_is_served_until_expiry(
    m: Stored,
    id: Seq<char>,
    bytes: Seq<u8>,
    at: Instant,
    now: Instant,
)
    ensures
        !is_expired(at, now, lifetime()) ==> served(m.insert(id, (at, bytes)), id, now) == Some(bytes),
        is_expired(at, now, lifetime()) ==> served(m.insert(id, (at, bytes)), id, now) is None,
{
}

/// Nothing is served under an id that was removed.
pub proof fn removed_is_not_served(m: Stored, id: Seq<char>, now: Instant)
    ensures
        served(m.remove(id), id, now) is None,
{
}

/// Bytes that were stored under an id live their whole time, although bytes stored there before are
/// evicted meanwhile.
pub proof fn eviction_spares_younger_bytes(
    m: Stored,
    id: Seq<char>,
    first: (Instant, Seq<u8>),
    second: (Instant, Seq<u8>),
    evicted: Instant,
    later: Instant,
)
    requires
        evicted.since_start.as_nanos() <= later.since_start.as_nanos(),
        !is_expired(second.0, later, lifetime()),
    ensures
        served(after_lookup(m.insert(id, first).insert(id, second), id, evicted), id, later) == Some(
            second.1,
        ),
{
}

/// Evicting bytes that have reached their lifetime leaves nothing of them.
pub proof fn eviction_takes_what_is_too_old(
    m: Stored,
    id: Seq<char>,
    stored: (Instant, Seq<u8>),
    now: Instant,
)
    requires
        is_expired(stored.0, now, lifetime()),
    ensures
        !after_lookup(m.insert(id, stored), id, now).contains_key(id),
{
}

/// What is done under one id changes nothing under another.
pub proof fn ids_are_independent(
    m: Stored,
    id: Seq<char>,
    other: Seq<char>,
    bytes: Seq<u8>,
    at: Instant,
    now: Instant,
)
    requires
        id != other,
    ensures
        served(m.insert(id, (at, bytes)), other, now) == served(m, other, now),
        served(m.remove(id), other, now) == served(m, other, now),
        served(after_lookup(m, id, at), other, now) == served(m, other, now),
{
}

/// Looking an id up, or evicting it, changes nothing of what any later lookup on the same clock is
/// served: it takes nothing that is still served.
pub proof fn lookup_changes_no_answer(
    m: Stored,
    id: Seq<char>,
    asked: Seq<char>,
    now: Instant,
    later: Instant,
)
    requires
        now.since_start.as_nanos() <= later.since_start.as_nanos(),
    ensures
        served(after_lookup(m, id, now), asked, later) == served(m, asked, later),
{
}

/// Bytes are served for sixty seconds, to the nanosecond, from the time they are stored at, and not
/// from then on; an id under which nothing is stored serves nothing.
pub proof fn bytes_live_a_minute(
    m: Stored,
    id: Seq<char>,
    bytes: Seq<u8>,
    at: Instant,
    now: Instant,
)
    ensures
        ({
            let since = |i: Instant| i.since_start.secs * 1_000_000_000 + i.since_start.nanos;
            served(m.insert(id, (at, bytes)), id, now) == if since(now) - since(at)
                < 60_000_000_000 {
                Some(bytes)
            } else {
                None
            }
        }),
        !m.contains_key(id) ==> served(m, id, now) is None,
{
}

/// A lookup or an eviction drops what is no longer served under its id, and nothing else.
pub proof fn only_expired_bytes_are_dropped(m: Stored, id: Seq<char>, other: Seq<char>, now: Instant)
    ensures
        after_lookup(m, id, now).contains_key(other) <==> m.contains_key(other) && (other != id
            || served(m, id, now) is Some),
        after_lookup(m, id, now).contains_key(other) ==> after_lookup(m, id, now)[other] == m[other],
{
}

/// Something is too old just where at least its lifetime went by since it was stored, and the lifetime
/// of what is stored is a minute.
pub proof fn age_decides(at: Instant, now: Instant, ttl: Duration)
    ensures
        ({
            let since = |i: Instant| i.since_start.secs * 1_000_000_000 + i.since_start.nanos;
            let lives = ttl.secs * 1_000_000_000 + ttl.nanos;
            is_expired(at, now, ttl) <==> since(now) - since(at) >= lives || lives == 0
        }),
        lifetime() == (Duration { secs: 60, nanos: 0 }),
{
}

} // verus!

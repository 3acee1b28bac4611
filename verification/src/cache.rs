//! The answer cache: one record for each name and type, kept no longer than
//! its TTL allows.
//!
//! Time is a count of seconds handed in by the caller; the cache never reads a
//! clock. An entry written at `now` with a TTL of `ttl` seconds is served
//! while the time is below `now + ttl`, each time with the seconds that are
//! left as its TTL, and is dropped when it is asked for after that.

use crate::record::{RecordType, ResourceRecord, ResourceRecordView};
use crate::text::same_text;
use vstd::prelude::*;

verus! {

/// What an entry is found by: the queried name, as written, and the type.
pub struct CacheKey {
    pub domain: Seq<char>,
    pub record_type: RecordType,
}

/// What the cache holds for a key: the record as it was written, and the
/// second from which it is no longer served.
pub struct CachedAnswer {
    pub record: ResourceRecordView,
    pub expires_at: u64,
}

/// The second from which a record written at `now` is no longer served:
/// `now + ttl`, or the last second there is where that is out of range.
pub open spec fn expiry(now: u64, ttl: u32) -> u64 {
    if now + ttl > u64::MAX {
        u64::MAX
    } else {
        (now + ttl) as u64
    }
}

impl CachedAnswer {
    /// Whether the entry is still served at `now`.
    pub open spec fn fresh(self, now: u64) -> bool {
        now < self.expires_at
    }

    /// The record that a hit at `now` hands out: the one written, with the
    /// seconds that are left as its TTL, and never more than it was written
    /// with.
    pub open spec fn served(self, now: u64) -> ResourceRecordView {
        let left = self.expires_at - now;
        ResourceRecordView {
            name: self.record.name,
            ttl: if left < self.record.ttl {
                left as u32
            } else {
                self.record.ttl
            },
            rdata: self.record.rdata,
        }
    }
}

/// The cache after `record` is written under `key` at `now`: the record
/// takes the place of what was there. A record with a TTL of zero is never
/// served, so writing one only removes what was there.
pub open spec fn after_put(
    cache: Map<CacheKey, CachedAnswer>,
    key: CacheKey,
    record: ResourceRecordView,
    now: u64,
) -> Map<CacheKey, CachedAnswer> {
    if record.ttl == 0 {
        cache.remove(key)
    } else {
        cache.insert(key, CachedAnswer { record, expires_at: expiry(now, record.ttl) })
    }
}

/// What asking for `key` at `now` returns: the served record of a fresh
/// entry, and nothing where there is no entry or it has expired.
pub open spec fn hit(cache: Map<CacheKey, CachedAnswer>, key: CacheKey, now: u64) -> Option<
    ResourceRecordView,
> {
    if cache.contains_key(key) && cache[key].fresh(now) {
        Some(cache[key].served(now))
    } else {
        None
    }
}

/// The cache after `key` was asked for at `now`: an expired entry is gone,
/// everything else is as before.
pub open spec fn after_get(cache: Map<CacheKey, CachedAnswer>, key: CacheKey, now: u64) -> Map<
    CacheKey,
    CachedAnswer,
> {
    if cache.contains_key(key) && !cache[key].fresh(now) {
        cache.remove(key)
    } else {
        cache
    }
}

struct Entry {
    domain: String,
    record_type: RecordType,
    record: ResourceRecord,
    expires_at: u64,
}

impl Entry {
    spec fn key(self) -> CacheKey {
        CacheKey { domain: self.domain@, record_type: self.record_type }
    }

    spec fn answer(self) -> CachedAnswer {
        CachedAnswer { record: self.record@, expires_at: self.expires_at }
    }
}

/// No two entries have the same key.
spec fn distinct(entries: Seq<Entry>) -> bool {
    forall|i: int, j: int|
        0 <= i < j < entries.len() ==> (#[trigger] entries[i]).key() != (#[trigger] entries[j]).key()
}

/// Whether some entry has the key `k`.
spec fn holds(entries: Seq<Entry>, k: CacheKey) -> bool {
    exists|i: int| 0 <= i < entries.len() && (#[trigger] entries[i]).key() == k
}

/// An entry that has the key `k`, where there is one.
spec fn place(entries: Seq<Entry>, k: CacheKey) -> int {
    choose|i: int| 0 <= i < entries.len() && (#[trigger] entries[i]).key() == k
}

/// The map that a list of entries stands for.
spec fn contents(entries: Seq<Entry>) -> Map<CacheKey, CachedAnswer> {
    Map::new(|k: CacheKey| holds(entries, k), |k: CacheKey| entries[place(entries, k)].answer())
}

/// Among distinct entries, the one at `i` is what the map holds for its key.
proof fn lemma_entry_at(entries: Seq<Entry>, i: int)
    requires
        distinct(entries),
        0 <= i < entries.len(),
    ensures
        holds(entries, entries[i].key()),
        place(entries, entries[i].key()) == i,
        contents(entries).contains_key(entries[i].key()),
        contents(entries)[entries[i].key()] == entries[i].answer(),
{
    let k = entries[i].key();
    let p = place(entries, k);
    assert(0 <= p < entries.len() && entries[p].key() == k);
}

/// Appending an entry under a new key inserts it.
proof fn lemma_pushed(entries: Seq<Entry>, e: Entry)
    requires
        distinct(entries),
        !holds(entries, e.key()),
    ensures
        distinct(entries.push(e)),
        contents(entries.push(e)) == contents(entries).insert(e.key(), e.answer()),
{
    let after = entries.push(e);
    assert(distinct(after)) by {
        assert forall|i: int, j: int| 0 <= i < j < after.len() implies (#[trigger] after[i]).key()
            != (#[trigger] after[j]).key() by {
            if j == entries.len() {
                assert(entries[i].key() != e.key());
            } else {
                assert(entries[i].key() != entries[j].key());
            }
        }
    }
    let last = entries.len() as int;
    assert(after[last] == e);
    lemma_entry_at(after, last);
    assert forall|k: CacheKey| holds(after, k) <==> (k == e.key() || holds(entries, k)) by {
        if holds(entries, k) {
            let p = place(entries, k);
            assert(after[p].key() == k);
        }
        if holds(after, k) && k != e.key() {
            let p = place(after, k);
            assert(entries[p].key() == k);
        }
    }
    assert forall|k: CacheKey| holds(entries, k) implies #[trigger] contents(after)[k]
        == contents(entries)[k] by {
        let p = place(entries, k);
        assert(after[p] == entries[p]);
        lemma_entry_at(after, p);
    }
    assert(contents(after) =~= contents(entries).insert(e.key(), e.answer()));
}

/// Putting an entry in the place of one with the same key replaces it.
proof fn lemma_replaced(entries: Seq<Entry>, i: int, e: Entry)
    requires
        distinct(entries),
        0 <= i < entries.len(),
        entries[i].key() == e.key(),
    ensures
        distinct(entries.update(i, e)),
        contents(entries.update(i, e)) == contents(entries).insert(e.key(), e.answer()),
{
    let after = entries.update(i, e);
    assert(distinct(after)) by {
        assert forall|a: int, b: int| 0 <= a < b < after.len() implies (#[trigger] after[a]).key()
            != (#[trigger] after[b]).key() by {
            assert(after[a].key() == entries[a].key());
            assert(after[b].key() == entries[b].key());
        }
    }
    lemma_entry_at(after, i);
    assert forall|k: CacheKey| holds(after, k) <==> holds(entries, k) by {
        if holds(entries, k) {
            let p = place(entries, k);
            assert(after[p].key() == k);
        }
        if holds(after, k) {
            let p = place(after, k);
            assert(entries[p].key() == k);
        }
    }
    lemma_entry_at(entries, i);
    assert forall|k: CacheKey| holds(entries, k) && k != e.key() implies #[trigger] contents(
        after,
    )[k] == contents(entries)[k] by {
        let p = place(entries, k);
        assert(after[p] == entries[p]);
        lemma_entry_at(after, p);
    }
    assert(contents(after) =~= contents(entries).insert(e.key(), e.answer()));
}

/// Taking an entry out removes its key.
proof fn lemma_removed(entries: Seq<Entry>, i: int)
    requires
        distinct(entries),
        0 <= i < entries.len(),
    ensures
        distinct(entries.remove(i)),
        contents(entries.remove(i)) == contents(entries).remove(entries[i].key()),
{
    let after = entries.remove(i);
    let gone = entries[i].key();
    assert forall|a: int| 0 <= a < after.len() implies #[trigger] after[a] == entries[if a < i {
        a
    } else {
        a + 1
    }] by {}
    assert(distinct(after)) by {
        assert forall|a: int, b: int| 0 <= a < b < after.len() implies (#[trigger] after[a]).key()
            != (#[trigger] after[b]).key() by {
            let a0 = if a < i {
                a
            } else {
                a + 1
            };
            let b0 = if b < i {
                b
            } else {
                b + 1
            };
            assert(entries[a0].key() != entries[b0].key());
        }
    }
    assert forall|k: CacheKey| holds(after, k) <==> (holds(entries, k) && k != gone) by {
        if holds(entries, k) && k != gone {
            let p = place(entries, k);
            let q = if p < i {
                p
            } else {
                p - 1
            };
            assert(after[q].key() == k);
        }
        if holds(after, k) {
            let q = place(after, k);
            let p = if q < i {
                q
            } else {
                q + 1
            };
            assert(entries[p].key() == k);
            if k == gone {
                assert(entries[i].key() == entries[p].key());
                if p < i {
                    assert(entries[p].key() != entries[i].key());
                } else {
                    assert(entries[i].key() != entries[p].key());
                }
            }
        }
    }
    assert forall|k: CacheKey| holds(after, k) implies #[trigger] contents(after)[k] == contents(
        entries,
    )[k] by {
        let q = place(after, k);
        let p = if q < i {
            q
        } else {
            q + 1
        };
        assert(after[q] == entries[p]);
        lemma_entry_at(after, q);
        lemma_entry_at(entries, p);
    }
    assert(contents(after) =~= contents(entries).remove(gone));
}

/// The answer cache.
pub struct AnswerCache {
    entries: Vec<Entry>,
}

impl View for AnswerCache {
    type V = Map<CacheKey, CachedAnswer>;

    closed spec fn view(&self) -> Map<CacheKey, CachedAnswer> {
        contents(self.entries@)
    }
}

impl AnswerCache {
    /// The cache has one entry for a key at most.
    #[verifier::type_invariant]
    spec fn wf(self) -> bool {
        distinct(self.entries@)
    }

    /// An empty cache.
    pub fn new() -> (cache: Self)
        ensures
            cache@ == Map::<CacheKey, CachedAnswer>::empty(),
    {
        let cache = AnswerCache { entries: Vec::new() };
        assert(cache@ =~= Map::<CacheKey, CachedAnswer>::empty());
        cache
    }

    /// Where the entry for a key stands, if there is one.
    fn find(&self, domain: &str, record_type: RecordType) -> (found: Option<usize>)
        ensures
            match found {
                Some(i) => i < self.entries.len() && self.entries[i as int].key() == (CacheKey {
                    domain: domain@,
                    record_type,
                }),
                None => !holds(self.entries@, CacheKey { domain: domain@, record_type }),
            },
    {
        let mut i: usize = 0;
        while i < self.entries.len()
            invariant
                i <= self.entries.len(),
                forall|k: int|
                    0 <= k < i ==> (#[trigger] self.entries@[k]).key() != (CacheKey {
                        domain: domain@,
                        record_type,
                    }),
            decreases self.entries.len() - i,
        {
            let entry = &self.entries[i];
            if entry.record_type == record_type && same_text(entry.domain.as_str(), domain) {
                return Some(i);
            }
            i = i + 1;
        }
        None
    }

    /// Writes `record` under the name and type at the second `now`. What was
    /// there before is replaced: the last write wins. The record is served
    /// from now on and for no longer than its TTL; one with a TTL of zero is
    /// not kept at all.
    pub fn put(&mut self, domain: &str, record_type: RecordType, record: ResourceRecord, now: u64)
        ensures
            final(self)@ == after_put(
                old(self)@,
                CacheKey { domain: domain@, record_type },
                record@,
                now,
            ),
    {
        proof {
            use_type_invariant(&*self);
        }
        let found = self.find(domain, record_type);
        let mut entries: Vec<Entry> = Vec::new();
        std::mem::swap(&mut entries, &mut self.entries);
        if record.ttl == 0 {
            if let Some(i) = found {
                proof {
                    lemma_removed(entries@, i as int);
                }
                entries.remove(i);
            } else {
                assert(contents(entries@).remove(CacheKey { domain: domain@, record_type })
                    =~= contents(entries@));
            }
        } else {
            let ttl: u64 = record.ttl as u64;
            let expires_at: u64 = if now > u64::MAX - ttl {
                u64::MAX
            } else {
                now + ttl
            };
            let entry = Entry { domain: domain.to_owned(), record_type, record, expires_at };
            match found {
                Some(i) => {
                    proof {
                        lemma_replaced(entries@, i as int, entry);
                    }
                    entries.set(i, entry);
                },
                None => {
                    proof {
                        lemma_pushed(entries@, entry);
                    }
                    entries.push(entry);
                },
            }
        }
        self.entries = entries;
    }

    /// Asks for the record under the name and type at the second `now`.
    ///
    /// A fresh entry is a hit: its record comes back with the seconds that
    /// are left as its TTL, and the cache stays as it is. An expired entry is
    /// a miss and is dropped. No entry is a miss.
    pub fn get(&mut self, domain: &str, record_type: RecordType, now: u64) -> (r: Option<
        ResourceRecord,
    >)
        ensures
            match r {
                Some(record) => hit(old(self)@, CacheKey { domain: domain@, record_type }, now)
                    == Some(record@),
                None => hit(old(self)@, CacheKey { domain: domain@, record_type }, now) is None,
            },
            final(self)@ == after_get(old(self)@, CacheKey { domain: domain@, record_type }, now),
    {
        proof {
            use_type_invariant(&*self);
        }
        let i = match self.find(domain, record_type) {
            Some(i) => i,
            None => {
                return None;
            },
        };
        proof {
            lemma_entry_at(self.entries@, i as int);
        }
        if now >= self.entries[i].expires_at {
            let mut entries: Vec<Entry> = Vec::new();
            std::mem::swap(&mut entries, &mut self.entries);
            proof {
                lemma_removed(entries@, i as int);
            }
            entries.remove(i);
            self.entries = entries;
            return None;
        }
        let entry = &self.entries[i];
        let left: u64 = entry.expires_at - now;
        let ttl: u32 = if left < entry.record.ttl as u64 {
            left as u32
        } else {
            entry.record.ttl
        };
        let mut record = entry.record.duplicate();
        record.ttl = ttl;
        Some(record)
    }
}

/// A record written at `stored_at` is served whenever it is asked for
/// before its TTL has run out: under the same name, with the same data, and
/// with the seconds that are left as its TTL.
pub proof fn lemma_hit_within_ttl(
    cache: Map<CacheKey, CachedAnswer>,
    key: CacheKey,
    record: ResourceRecordView,
    stored_at: u64,
    now: u64,
)
    requires
        stored_at <= now,
        now - stored_at < record.ttl,
        stored_at + record.ttl <= u64::MAX,
    ensures
        hit(after_put(cache, key, record, stored_at), key, now) == Some(
            ResourceRecordView {
                name: record.name,
                ttl: (record.ttl - (now - stored_at)) as u32,
                rdata: record.rdata,
            },
        ),
        after_get(after_put(cache, key, record, stored_at), key, now) == after_put(
            cache,
            key,
            record,
            stored_at,
        ),
{
}

/// A record is not served once its TTL has run out, and asking for it then
/// removes it.
pub proof fn lemma_miss_after_ttl(
    cache: Map<CacheKey, CachedAnswer>,
    key: CacheKey,
    record: ResourceRecordView,
    stored_at: u64,
    now: u64,
)
    requires
        stored_at <= now,
        now - stored_at >= record.ttl,
    ensures
        hit(after_put(cache, key, record, stored_at), key, now) is None,
        !after_get(after_put(cache, key, record, stored_at), key, now).contains_key(key),
{
}

/// Writing or asking under one key leaves what is held under every other key
/// as it was.
pub proof fn lemma_other_keys_untouched(
    cache: Map<CacheKey, CachedAnswer>,
    key: CacheKey,
    other: CacheKey,
    record: ResourceRecordView,
    now: u64,
)
    requires
        key != other,
    ensures
        after_put(cache, key, record, now).contains_key(other) == cache.contains_key(other),
        after_put(cache, key, record, now)[other] == cache[other],
        after_get(cache, key, now).contains_key(other) == cache.contains_key(other),
        after_get(cache, key, now)[other] == cache[other],
{
}

} // verus!

//! The response cache: a bounded store of responses by request
//! fingerprint, swept of expired entries on every read and trimmed of its
//! oldest entries on every write.

use vstd::prelude::*;

verus! {

/// One cached response, as mathematics.
pub struct EntryModel {
    pub key: Seq<char>,
    pub response: Seq<char>,
    /// The clock reading, in milliseconds, at which the entry was stored.
    pub inserted_at: u64,
}

impl EntryModel {
    /// How long the entry has been stored at `now`, in milliseconds. An
    /// entry stamped later than `now` has age zero.
    pub open spec fn age(self, now: u64) -> nat {
        if now >= self.inserted_at {
            (now - self.inserted_at) as nat
        } else {
            0
        }
    }

    /// The entry's age at `now` exceeds `ttl_secs` seconds.
    pub open spec fn expired(self, ttl_secs: u64, now: u64) -> bool {
        self.age(now) > ttl_secs * 1000
    }
}

/// No two entries share a key.
pub open spec fn distinct_keys(entries: Seq<EntryModel>) -> bool {
    forall|i: int, j: int|
        0 <= i < entries.len() && 0 <= j < entries.len() && i != j ==> entries[i].key
            != entries[j].key
}

/// Some entry is stored under `key`.
pub open spec fn holds_key(entries: Seq<EntryModel>, key: Seq<char>) -> bool {
    exists|i: int| 0 <= i < entries.len() && #[trigger] entries[i].key == key
}

/// The response stored under `key`, if any.
pub open spec fn response_for(entries: Seq<EntryModel>, key: Seq<char>) -> Option<Seq<char>> {
    if holds_key(entries, key) {
        let i = choose|i: int| 0 <= i < entries.len() && #[trigger] entries[i].key == key;
        Some(entries[i].response)
    } else {
        None
    }
}

/// The entries that have not expired at `now`, in their order.
pub open spec fn unexpired(entries: Seq<EntryModel>, ttl_secs: u64, now: u64) -> Seq<EntryModel> {
    entries.filter(|e: EntryModel| !e.expired(ttl_secs, now))
}

/// The entries stored under another key than `key`, in their order.
pub open spec fn without_key(entries: Seq<EntryModel>, key: Seq<char>) -> Seq<EntryModel> {
    entries.filter(|e: EntryModel| e.key != key)
}

/// The position of the oldest entry: the one that was stamped earliest,
/// and among several of these the one that stands first.
pub open spec fn oldest_index(entries: Seq<EntryModel>) -> int
    decreases entries.len(),
{
    if entries.len() <= 1 {
        0
    } else {
        let before = oldest_index(entries.drop_last());
        if entries.last().inserted_at < entries[before].inserted_at {
            entries.len() - 1
        } else {
            before
        }
    }
}

/// What is left once the oldest entries have gone, one by one, until no
/// more than `max_entries` remain.
pub open spec fn trimmed(entries: Seq<EntryModel>, max_entries: usize) -> Seq<EntryModel>
    decreases entries.len(),
{
    if entries.len() <= max_entries {
        entries
    } else {
        proof {
            lemma_oldest_index(entries);
        }
        trimmed(entries.remove(oldest_index(entries)), max_entries)
    }
}

/// What a response cache holds, as mathematics.
#[verifier::ext_equal]
pub struct CacheModel {
    /// Lifetime of an entry in seconds; zero switches the cache off.
    pub ttl_secs: u64,
    /// Capacity in entries; zero switches the cache off.
    pub max_entries: usize,
    /// The entries, each newly stored one behind the others.
    pub entries: Seq<EntryModel>,
}

impl CacheModel {
    /// The cache stores anything at all.
    pub open spec fn enabled(self) -> bool {
        self.ttl_secs != 0 && self.max_entries != 0
    }

    /// The cache is within its capacity and holds each key once.
    pub open spec fn wf(self) -> bool {
        &&& distinct_keys(self.entries)
        &&& self.entries.len() <= self.max_entries
    }

    /// An empty cache.
    pub open spec fn empty(ttl_secs: u64, max_entries: usize) -> Self {
        CacheModel { ttl_secs, max_entries, entries: Seq::empty() }
    }

    /// The cache after a read at `now`: swept of what has expired.
    pub open spec fn after_get(self, now: u64) -> Self {
        if self.enabled() {
            CacheModel { entries: unexpired(self.entries, self.ttl_secs, now), ..self }
        } else {
            self
        }
    }

    /// What a read of `key` at `now` returns.
    pub open spec fn lookup(self, key: Seq<char>, now: u64) -> Option<Seq<char>> {
        if self.enabled() {
            response_for(unexpired(self.entries, self.ttl_secs, now), key)
        } else {
            None
        }
    }

    /// The cache after `response` was stored under `key` at `now`.
    pub open spec fn after_put(self, key: Seq<char>, response: Seq<char>, now: u64) -> Self {
        if self.enabled() {
            CacheModel {
                entries: trimmed(
                    without_key(self.entries, key).push(
                        EntryModel { key, response, inserted_at: now },
                    ),
                    self.max_entries,
                ),
                ..self
            }
        } else {
            self
        }
    }
}

/// One cached response.
pub struct CacheEntry {
    pub key: String,
    pub response: String,
    pub inserted_at: u64,
}

impl View for CacheEntry {
    type V = EntryModel;

    open spec fn view(&self) -> EntryModel {
        EntryModel { key: self.key@, response: self.response@, inserted_at: self.inserted_at }
    }
}

/// The models of a vector of entries.
pub open spec fn models(entries: Seq<CacheEntry>) -> Seq<EntryModel> {
    entries.map_values(|e: CacheEntry| e@)
}

/// Filtering a prefix that is one longer keeps or drops the new element.
pub proof fn lemma_filter_step<A>(s: Seq<A>, keep: spec_fn(A) -> bool, k: int)
    requires
        0 <= k < s.len(),
    ensures
        s.take(k + 1).filter(keep) == if keep(s[k]) {
            s.take(k).filter(keep).push(s[k])
        } else {
            s.take(k).filter(keep)
        },
{
    reveal(Seq::filter);
    assert(s.take(k + 1).drop_last() =~= s.take(k));
}

/// Filtering keeps the keys distinct, and keeps only keys that were there.
pub proof fn lemma_filter_keys(entries: Seq<EntryModel>, keep: spec_fn(EntryModel) -> bool)
    requires
        distinct_keys(entries),
    ensures
        distinct_keys(entries.filter(keep)),
        entries.filter(keep).len() <= entries.len(),
        forall|key: Seq<char>| holds_key(entries.filter(keep), key) ==> holds_key(entries, key),
        forall|i: int|
            0 <= i < entries.filter(keep).len() ==> keep(#[trigger] entries.filter(keep)[i]),
        forall|i: int|
            0 <= i < entries.len() && keep(entries[i]) ==> exists|j: int|
                0 <= j < entries.filter(keep).len() && entries.filter(keep)[j] == #[trigger] entries[i],
        forall|j: int|
            0 <= j < entries.filter(keep).len() ==> exists|i: int|
                0 <= i < entries.len() && entries[i] == #[trigger] entries.filter(keep)[j],
    decreases entries.len(),
{
    reveal(Seq::filter);
    let kept = entries.filter(keep);
    if entries.len() > 0 {
        let shorter = entries.drop_last();
        let sub = shorter.filter(keep);
        lemma_filter_keys(shorter, keep);
        assert forall|j: int| 0 <= j < kept.len() implies exists|i: int|
            0 <= i < entries.len() && entries[i] == #[trigger] kept[j] by {
            if j < sub.len() {
                let i = choose|i: int| 0 <= i < shorter.len() && shorter[i] == sub[j];
                assert(entries[i] == kept[j]);
            } else {
                assert(entries[entries.len() - 1] == kept[j]);
            }
        }
        assert forall|i: int| 0 <= i < entries.len() && keep(entries[i]) implies exists|j: int|
            0 <= j < kept.len() && kept[j] == #[trigger] entries[i] by {
            if i < shorter.len() {
                assert(shorter[i] == entries[i]);
                let j = choose|j: int| 0 <= j < sub.len() && sub[j] == shorter[i];
                assert(kept[j] == entries[i]);
            } else {
                assert(kept[kept.len() - 1] == entries[i]);
            }
        }
        assert forall|a: int, b: int|
            0 <= a < kept.len() && 0 <= b < kept.len() && a != b implies kept[a].key
            != kept[b].key by {
            let ia = choose|i: int| 0 <= i < entries.len() && entries[i] == kept[a];
            let ib = choose|i: int| 0 <= i < entries.len() && entries[i] == kept[b];
            if a < sub.len() && b < sub.len() {
                assert(sub[a].key != sub[b].key);
            } else if a < sub.len() {
                let i = choose|i: int| 0 <= i < shorter.len() && shorter[i] == sub[a];
                assert(entries[i].key != entries[entries.len() - 1].key);
            } else if b < sub.len() {
                let i = choose|i: int| 0 <= i < shorter.len() && shorter[i] == sub[b];
                assert(entries[i].key != entries[entries.len() - 1].key);
            }
        }
        assert forall|key: Seq<char>| holds_key(kept, key) implies holds_key(entries, key) by {
            let j = choose|j: int| 0 <= j < kept.len() && #[trigger] kept[j].key == key;
            let i = choose|i: int| 0 <= i < entries.len() && entries[i] == kept[j];
            assert(entries[i].key == key);
        }
    }
}

/// Taking one entry out keeps the keys distinct.
pub proof fn lemma_remove_keys(entries: Seq<EntryModel>, at: int)
    requires
        distinct_keys(entries),
        0 <= at < entries.len(),
    ensures
        distinct_keys(entries.remove(at)),
        entries.remove(at).len() == entries.len() - 1,
{
    let rest = entries.remove(at);
    assert forall|i: int, j: int|
        0 <= i < rest.len() && 0 <= j < rest.len() && i != j implies rest[i].key
        != rest[j].key by {
        let si = if i < at {
            i
        } else {
            i + 1
        };
        let sj = if j < at {
            j
        } else {
            j + 1
        };
        assert(rest[i] == entries[si]);
        assert(rest[j] == entries[sj]);
    }
}

/// The oldest entry is a position of the sequence; nothing is older, and
/// nothing before it is as old.
pub proof fn lemma_oldest_index(entries: Seq<EntryModel>)
    requires
        entries.len() > 0,
    ensures
        0 <= oldest_index(entries) < entries.len(),
        forall|i: int|
            0 <= i < entries.len() ==> entries[oldest_index(entries)].inserted_at
                <= #[trigger] entries[i].inserted_at,
        forall|i: int|
            0 <= i < oldest_index(entries) ==> entries[oldest_index(entries)].inserted_at
                < #[trigger] entries[i].inserted_at,
    decreases entries.len(),
{
    if entries.len() > 1 {
        let shorter = entries.drop_last();
        lemma_oldest_index(shorter);
        let before = oldest_index(shorter);
        assert(shorter[before] == entries[before]);
        assert forall|i: int| 0 <= i < entries.len() implies entries[oldest_index(
            entries,
        )].inserted_at <= #[trigger] entries[i].inserted_at by {
            if i < shorter.len() {
                assert(shorter[i] == entries[i]);
            }
        }
        assert forall|i: int| 0 <= i < oldest_index(entries) implies entries[oldest_index(
            entries,
        )].inserted_at < #[trigger] entries[i].inserted_at by {
            assert(shorter[i] == entries[i]);
        }
    }
}

/// Trimming keeps the keys distinct and ends within the capacity.
pub proof fn lemma_trimmed(entries: Seq<EntryModel>, max_entries: usize)
    requires
        distinct_keys(entries),
    ensures
        distinct_keys(trimmed(entries, max_entries)),
        trimmed(entries, max_entries).len() <= max_entries,
        trimmed(entries, max_entries).len() <= entries.len(),
    decreases entries.len(),
{
    if entries.len() > max_entries {
        lemma_oldest_index(entries);
        lemma_remove_keys(entries, oldest_index(entries));
        lemma_trimmed(entries.remove(oldest_index(entries)), max_entries);
    }
}

/// Filtering twice by the same rule is filtering once.
pub proof fn lemma_filter_twice<A>(s: Seq<A>, keep: spec_fn(A) -> bool)
    ensures
        s.filter(keep).filter(keep) == s.filter(keep),
    decreases s.len(),
{
    reveal(Seq::filter);
    if s.len() > 0 {
        let sub = s.drop_last().filter(keep);
        lemma_filter_twice(s.drop_last(), keep);
        if keep(s.last()) {
            assert(sub.push(s.last()).drop_last() =~= sub);
        }
    }
}

/// Among distinct keys, the entry found under a key is the one that is
/// there.
pub proof fn lemma_response_for(entries: Seq<EntryModel>, at: int)
    requires
        distinct_keys(entries),
        0 <= at < entries.len(),
    ensures
        response_for(entries, entries[at].key) == Some(entries[at].response),
{
    let key = entries[at].key;
    assert(holds_key(entries, key));
    let i = choose|i: int| 0 <= i < entries.len() && #[trigger] entries[i].key == key;
    assert(i == at);
}

impl CacheModel {
    /// No entry is stamped later than `now`: the clock has not run
    /// backwards since the entries were stored.
    pub open spec fn nothing_after(self, now: u64) -> bool {
        forall|i: int| 0 <= i < self.entries.len() ==> (#[trigger] self.entries[i]).inserted_at <= now
    }

    /// A read leaves the cache within its capacity, with each key once.
    pub proof fn theorem_get_keeps_bound(self, now: u64)
        requires
            self.wf(),
        ensures
            self.after_get(now).wf(),
            self.after_get(now).entries.len() <= self.max_entries,
    {
        lemma_filter_keys(self.entries, |e: EntryModel| !e.expired(self.ttl_secs, now));
    }

    /// A write leaves the cache within its capacity, with each key once.
    pub proof fn theorem_put_keeps_bound(self, key: Seq<char>, response: Seq<char>, now: u64)
        requires
            self.wf(),
        ensures
            self.after_put(key, response, now).wf(),
            self.after_put(key, response, now).entries.len() <= self.max_entries,
    {
        if self.enabled() {
            let kept = without_key(self.entries, key);
            let grown = kept.push(EntryModel { key, response, inserted_at: now });
            lemma_filter_keys(self.entries, |e: EntryModel| e.key != key);
            assert forall|i: int, j: int|
                0 <= i < grown.len() && 0 <= j < grown.len() && i != j implies grown[i].key
                != grown[j].key by {
                if i < kept.len() && j < kept.len() {
                    assert(kept[i].key != kept[j].key);
                }
            }
            lemma_trimmed(grown, self.max_entries);
        }
    }

    /// What was just stored is what a read at the same clock reading
    /// returns, provided the cache is switched on and holds nothing stamped
    /// later than that reading.
    pub proof fn theorem_put_then_lookup(self, key: Seq<char>, response: Seq<char>, now: u64)
        requires
            self.wf(),
            self.enabled(),
            self.nothing_after(now),
        ensures
            self.after_put(key, response, now).lookup(key, now) == Some(response),
            self.after_put(key, response, now).nothing_after(now),
    {
        let fresh = EntryModel { key, response, inserted_at: now };
        let kept = without_key(self.entries, key);
        let grown = kept.push(fresh);
        lemma_filter_keys(self.entries, |e: EntryModel| e.key != key);
        assert forall|i: int| 0 <= i < grown.len() implies (#[trigger] grown[i]).inserted_at
            <= now by {
            if i < kept.len() {
                let o = choose|o: int| 0 <= o < self.entries.len() && self.entries[o] == kept[i];
                assert(self.entries[o].inserted_at <= now);
            }
        }
        assert forall|i: int, j: int|
            0 <= i < grown.len() && 0 <= j < grown.len() && i != j implies grown[i].key
            != grown[j].key by {
            if i < kept.len() && j < kept.len() {
                assert(kept[i].key != kept[j].key);
            }
        }
        let stored = trimmed(grown, self.max_entries);
        lemma_trimmed(grown, self.max_entries);
        // The new entry is never the oldest, so trimming leaves it last.
        if grown.len() > self.max_entries {
            let shorter = grown.drop_last();
            assert(shorter =~= kept);
            lemma_oldest_index(shorter);
            let before = oldest_index(shorter);
            assert(grown[before] == shorter[before]);
            assert(oldest_index(grown) == before);
            let rest = grown.remove(before);
            assert(rest.len() == self.max_entries);
            assert(trimmed(rest, self.max_entries) == rest);
            assert(stored == trimmed(rest, self.max_entries));
            assert(rest.last() == fresh);
            assert forall|i: int| 0 <= i < rest.len() implies (#[trigger] rest[i]).inserted_at
                <= now by {
                if i < before {
                    assert(rest[i] == grown[i]);
                } else {
                    assert(rest[i] == grown[i + 1]);
                }
            }
        }
        assert(stored.len() > 0 && stored.last() == fresh);
        let after = self.after_put(key, response, now);
        assert(after.entries == stored);
        let keep = |e: EntryModel| !e.expired(self.ttl_secs, now);
        let live = stored.filter(keep);
        lemma_filter_keys(stored, keep);
        assert(keep(stored[stored.len() - 1]));
        let j = choose|j: int| 0 <= j < live.len() && live[j] == stored[stored.len() - 1];
        lemma_response_for(live, j);
    }

    /// A cache that holds nothing stamped later than one reading holds
    /// nothing stamped later than any reading that follows, read or written
    /// at that reading: as long as the readings handed in never decrease,
    /// no entry is ever ahead of the clock. This holds of the empty cache
    /// to begin with.
    pub proof fn theorem_keeps_pace(
        self,
        key: Seq<char>,
        response: Seq<char>,
        earlier: u64,
        now: u64,
    )
        requires
            self.wf(),
            self.nothing_after(earlier),
            earlier <= now,
        ensures
            self.nothing_after(now),
            self.after_get(now).nothing_after(now),
            self.after_put(key, response, now).nothing_after(now),
            CacheModel::empty(self.ttl_secs, self.max_entries).nothing_after(earlier),
    {
        let swept = unexpired(self.entries, self.ttl_secs, now);
        lemma_filter_keys(self.entries, |e: EntryModel| !e.expired(self.ttl_secs, now));
        assert forall|i: int| 0 <= i < swept.len() implies (#[trigger] swept[i]).inserted_at
            <= now by {
            let o = choose|o: int| 0 <= o < self.entries.len() && self.entries[o] == swept[i];
            assert(self.entries[o].inserted_at <= earlier);
        }
        let kept = without_key(self.entries, key);
        lemma_filter_keys(self.entries, |e: EntryModel| e.key != key);
        let grown = kept.push(EntryModel { key, response, inserted_at: now });
        assert forall|i: int| 0 <= i < grown.len() implies (#[trigger] grown[i]).inserted_at
            <= now by {
            if i < kept.len() {
                let o = choose|o: int| 0 <= o < self.entries.len() && self.entries[o] == kept[i];
                assert(self.entries[o].inserted_at <= earlier);
            }
        }
        lemma_trimmed_stamps(grown, self.max_entries, now);
    }

    /// What is stored is found: on a cache that is switched on and not
    /// ahead of the clock, a read at the reading of the write, with nothing
    /// in between, returns what was written.
    pub proof fn theorem_stored_is_found(
        self,
        key: Seq<char>,
        response: Seq<char>,
        earlier: u64,
        now: u64,
    )
        requires
            self.wf(),
            self.enabled(),
            self.nothing_after(earlier),
            earlier <= now,
        ensures
            self.after_put(key, response, now).lookup(key, now) == Some(response),
    {
        self.theorem_keeps_pace(key, response, earlier, now);
        self.theorem_put_then_lookup(key, response, now);
    }

    /// A read that found a response finds it again at the same clock
    /// reading.
    pub proof fn theorem_lookup_again(self, key: Seq<char>, now: u64)
        ensures
            self.after_get(now).lookup(key, now) == self.lookup(key, now),
    {
        lemma_filter_twice(self.entries, |e: EntryModel| !e.expired(self.ttl_secs, now));
    }
}

/// Trimming leaves no entry that is stamped later than all were.
pub proof fn lemma_trimmed_stamps(entries: Seq<EntryModel>, max_entries: usize, now: u64)
    requires
        forall|i: int| 0 <= i < entries.len() ==> (#[trigger] entries[i]).inserted_at <= now,
    ensures
        forall|i: int|
            0 <= i < trimmed(entries, max_entries).len() ==> (#[trigger] trimmed(
                entries,
                max_entries,
            )[i]).inserted_at <= now,
    decreases entries.len(),
{
    if entries.len() > max_entries {
        lemma_oldest_index(entries);
        let at = oldest_index(entries);
        let rest = entries.remove(at);
        assert forall|i: int| 0 <= i < rest.len() implies (#[trigger] rest[i]).inserted_at
            <= now by {
            if i < at {
                assert(rest[i] == entries[i]);
            } else {
                assert(rest[i] == entries[i + 1]);
            }
        }
        lemma_trimmed_stamps(rest, max_entries, now);
        assert(trimmed(entries, max_entries) == trimmed(rest, max_entries));
    } else {
        let same = trimmed(entries, max_entries);
        assert forall|i: int| 0 <= i < same.len() implies (#[trigger] same[i]).inserted_at
            <= now by {
            assert(same[i] == entries[i]);
        }
    }
}

/// A bounded, expiring store of responses by request fingerprint.
pub struct ResponseCache {
    ttl_secs: u64,
    max_entries: usize,
    entries: Vec<CacheEntry>,
}

impl View for ResponseCache {
    type V = CacheModel;

    closed spec fn view(&self) -> CacheModel {
        CacheModel {
            ttl_secs: self.ttl_secs,
            max_entries: self.max_entries,
            entries: models(self.entries@),
        }
    }
}

/// Tells whether an entry stamped `inserted_at` has outlived `ttl_secs`
/// seconds at `now`.
fn is_expired(inserted_at: u64, ttl_secs: u64, now: u64) -> (b: bool)
    ensures
        b == (EntryModel { key: Seq::empty(), response: Seq::empty(), inserted_at }).expired(
            ttl_secs,
            now,
        ),
{
    let age: u64 = if now >= inserted_at {
        now - inserted_at
    } else {
        0
    };
    age as u128 > ttl_secs as u128 * 1000
}

/// Drops from `entries` what has expired at `now`.
fn sweep(entries: &mut Vec<CacheEntry>, ttl_secs: u64, now: u64)
    ensures
        models(final(entries)@) == unexpired(models(old(entries)@), ttl_secs, now),
{
    let ghost orig = models(entries@);
    let ghost keep = |e: EntryModel| !e.expired(ttl_secs, now);
    let ghost mut seen: int = 0;
    let mut i: usize = 0;
    proof {
        reveal(Seq::filter);
        assert(orig.take(0).filter(keep) =~= models(entries@).take(0));
        assert(orig.skip(0) =~= models(entries@).skip(0));
    }
    while i < entries.len()
        invariant
            0 <= seen <= orig.len(),
            i <= entries.len(),
            keep == |e: EntryModel| !e.expired(ttl_secs, now),
            models(entries@).take(i as int) == orig.take(seen).filter(keep),
            models(entries@).skip(i as int) == orig.skip(seen),
        decreases entries.len() - i,
    {
        let ghost cur = models(entries@);
        proof {
            assert(cur.len() == entries.len());
            assert(cur.skip(i as int).len() == orig.skip(seen).len());
            assert(cur.skip(i as int)[0] == orig.skip(seen)[0]);
            assert(cur[i as int] == orig[seen]);
            lemma_filter_step(orig, keep, seen);
        }
        if is_expired(entries[i].inserted_at, ttl_secs, now) {
            entries.remove(i);
            proof {
                let next = models(entries@);
                assert(next =~= cur.remove(i as int));
                assert(next.take(i as int) =~= cur.take(i as int));
                assert(next.skip(i as int) =~= cur.skip(i as int).drop_first());
                assert(orig.skip(seen).drop_first() =~= orig.skip(seen + 1));
                seen = seen + 1;
            }
        } else {
            proof {
                assert(cur.take(i + 1) =~= cur.take(i as int).push(cur[i as int]));
                assert(cur.skip(i + 1) =~= cur.skip(i as int).drop_first());
                assert(orig.skip(seen).drop_first() =~= orig.skip(seen + 1));
                seen = seen + 1;
            }
            i = i + 1;
        }
    }
    proof {
        let cur = models(entries@);
        assert(cur.take(i as int) =~= cur);
        assert(cur.skip(i as int).len() == 0);
        assert(orig.take(seen) =~= orig);
    }
}

/// Drops from `entries` what is stored under `key`.
fn drop_key(entries: &mut Vec<CacheEntry>, key: &String)
    ensures
        models(final(entries)@) == without_key(models(old(entries)@), key@),
{
    let ghost orig = models(entries@);
    let ghost keep = |e: EntryModel| e.key != key@;
    let ghost mut seen: int = 0;
    let mut i: usize = 0;
    proof {
        reveal(Seq::filter);
        assert(orig.take(0).filter(keep) =~= models(entries@).take(0));
        assert(orig.skip(0) =~= models(entries@).skip(0));
    }
    while i < entries.len()
        invariant
            0 <= seen <= orig.len(),
            i <= entries.len(),
            keep == |e: EntryModel| e.key != key@,
            models(entries@).take(i as int) == orig.take(seen).filter(keep),
            models(entries@).skip(i as int) == orig.skip(seen),
        decreases entries.len() - i,
    {
        let ghost cur = models(entries@);
        proof {
            assert(cur.len() == entries.len());
            assert(cur.skip(i as int).len() == orig.skip(seen).len());
            assert(cur.skip(i as int)[0] == orig.skip(seen)[0]);
            assert(cur[i as int] == orig[seen]);
            lemma_filter_step(orig, keep, seen);
        }
        if entries[i].key == *key {
            entries.remove(i);
            proof {
                let next = models(entries@);
                assert(next =~= cur.remove(i as int));
                assert(next.take(i as int) =~= cur.take(i as int));
                assert(next.skip(i as int) =~= cur.skip(i as int).drop_first());
                assert(orig.skip(seen).drop_first() =~= orig.skip(seen + 1));
                seen = seen + 1;
            }
        } else {
            proof {
                assert(cur.take(i + 1) =~= cur.take(i as int).push(cur[i as int]));
                assert(cur.skip(i + 1) =~= cur.skip(i as int).drop_first());
                assert(orig.skip(seen).drop_first() =~= orig.skip(seen + 1));
                seen = seen + 1;
            }
            i = i + 1;
        }
    }
    proof {
        let cur = models(entries@);
        assert(cur.take(i as int) =~= cur);
        assert(cur.skip(i as int).len() == 0);
        assert(orig.take(seen) =~= orig);
    }
}

/// The position of the oldest of `entries`.
fn find_oldest(entries: &Vec<CacheEntry>) -> (at: usize)
    requires
        entries.len() > 0,
    ensures
        at == oldest_index(models(entries@)),
        at < entries.len(),
{
    let ghost all = models(entries@);
    let mut at: usize = 0;
    let mut i: usize = 1;
    assert(all.take(1).len() == 1);
    while i < entries.len()
        invariant
            1 <= i <= entries.len(),
            all == models(entries@),
            at < i,
            at == oldest_index(all.take(i as int)),
        decreases entries.len() - i,
    {
        proof {
            assert(all.take(i + 1).drop_last() =~= all.take(i as int));
            assert(all.take(i + 1).last() == all[i as int]);
            assert(all.take(i + 1)[at as int] == all[at as int]);
        }
        if entries[i].inserted_at < entries[at].inserted_at {
            at = i;
        }
        i = i + 1;
    }
    assert(all.take(i as int) =~= all);
    at
}

/// Drops the oldest of `entries` until no more than `max_entries` remain.
fn trim(entries: &mut Vec<CacheEntry>, max_entries: usize)
    ensures
        models(final(entries)@) == trimmed(models(old(entries)@), max_entries),
{
    while entries.len() > max_entries
        invariant
            trimmed(models(entries@), max_entries) == trimmed(models(old(entries)@), max_entries),
        decreases entries.len(),
    {
        let ghost cur = models(entries@);
        let at = find_oldest(entries);
        entries.remove(at);
        assert(models(entries@) =~= cur.remove(at as int));
    }
}

/// The response that `entries` hold under `key`, if any.
fn find(entries: &Vec<CacheEntry>, key: &String) -> (hit: Option<String>)
    requires
        distinct_keys(models(entries@)),
    ensures
        match hit {
            Some(response) => response_for(models(entries@), key@) == Some(response@),
            None => response_for(models(entries@), key@) is None,
        },
{
    let ghost all = models(entries@);
    let mut i: usize = 0;
    while i < entries.len()
        invariant
            i <= entries.len(),
            all == models(entries@),
            distinct_keys(all),
            forall|j: int| 0 <= j < i ==> all[j].key != key@,
        decreases entries.len() - i,
    {
        if entries[i].key == *key {
            assert(all[i as int].key == key@);
            assert(holds_key(all, key@));
            return Some(entries[i].response.clone());
        }
        i = i + 1;
    }
    None
}

impl ResponseCache {
    #[verifier::type_invariant]
    spec fn well_formed(self) -> bool {
        self@.wf()
    }

    /// An empty cache whose entries live `ttl_secs` seconds and which holds
    /// at most `max_entries` of them. Zero for either switches it off.
    pub fn new(ttl_secs: u64, max_entries: usize) -> (c: Self)
        ensures
            c@ == CacheModel::empty(ttl_secs, max_entries),
    {
        let c = ResponseCache { ttl_secs, max_entries, entries: Vec::new() };
        assert(models(c.entries@) =~= Seq::empty());
        c
    }

    /// Reads the response stored under `key`, at clock reading `now`.
    ///
    /// Switched off, the cache returns nothing and stays as it is. Otherwise
    /// every entry older than the lifetime is dropped first, and the
    /// response of the surviving entry under `key`, if any, is returned.
    pub fn get(&mut self, key: &str, now: u64) -> (hit: Option<String>)
        ensures
            final(self)@ == old(self)@.after_get(now),
            match hit {
                Some(response) => old(self)@.lookup(key@, now) == Some(response@),
                None => old(self)@.lookup(key@, now) is None,
            },
            final(self)@.wf(),
    {
        proof {
            use_type_invariant(&*self);
        }
        if self.ttl_secs == 0 || self.max_entries == 0 {
            return None;
        }
        let mut entries: Vec<CacheEntry> = Vec::new();
        std::mem::swap(&mut entries, &mut self.entries);
        let ghost before = models(entries@);
        sweep(&mut entries, self.ttl_secs, now);
        proof {
            lemma_filter_keys(before, |e: EntryModel| !e.expired(self.ttl_secs, now));
        }
        let owned = key.to_owned();
        let hit = find(&entries, &owned);
        self.entries = entries;
        hit
    }

    /// Stores `response` under `key`, stamped `now`.
    ///
    /// Switched off, the cache stays as it is. Otherwise the entry replaces
    /// whatever was stored under `key`, and then the oldest entries go, one
    /// by one, until the cache is within its capacity.
    pub fn put(&mut self, key: String, response: String, now: u64)
        ensures
            final(self)@ == old(self)@.after_put(key@, response@, now),
            final(self)@.wf(),
    {
        proof {
            use_type_invariant(&*self);
        }
        if self.ttl_secs == 0 || self.max_entries == 0 {
            return ;
        }
        let mut entries: Vec<CacheEntry> = Vec::new();
        std::mem::swap(&mut entries, &mut self.entries);
        let ghost before = models(entries@);
        drop_key(&mut entries, &key);
        let ghost kept = models(entries@);
        let ghost fresh = EntryModel { key: key@, response: response@, inserted_at: now };
        proof {
            lemma_filter_keys(before, |e: EntryModel| e.key != key@);
        }
        entries.push(CacheEntry { key, response, inserted_at: now });
        proof {
            let grown = models(entries@);
            assert(grown =~= kept.push(fresh));
            assert forall|i: int, j: int|
                0 <= i < grown.len() && 0 <= j < grown.len() && i != j implies grown[i].key
                != grown[j].key by {
                if i < kept.len() && j < kept.len() {
                    assert(kept[i].key != kept[j].key);
                }
            }
            lemma_trimmed(grown, self.max_entries);
        }
        trim(&mut entries, self.max_entries);
        self.entries = entries;
    }

    /// The number of entries held.
    pub fn len(&self) -> (n: usize)
        ensures
            n == self@.entries.len(),
            n <= self@.max_entries,
    {
        proof {
            use_type_invariant(self);
        }
        self.entries.len()
    }
}

} // verus!

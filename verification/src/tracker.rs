//! Visits per source inside a sliding window.

use std::collections::VecDeque;
use vstd::prelude::*;

use crate::addr::IpAddr;
use crate::time;
use crate::time::{Duration, Instant};

verus! {

// ---------------------------------------------------------------------------
// The table of recent visits

/// Under the key of a source, the readings of its visits, the oldest first.
pub type VisitTable = lru::LruCache<(u8, u128), VecDeque<i128>>;

/// `lru::LruCache`, a map that drops the entry used least recently when full.
#[verifier::external_type_specification]
#[verifier::external_body]
#[verifier::reject_recursive_types(K)]
#[verifier::reject_recursive_types(V)]
#[verifier::reject_recursive_types(S)]
pub struct ExLruCache<K, V, S>(lru::LruCache<K, V, S>);

/// `lru::DefaultHasher`, by which the cache finds its entries.
#[verifier::external_type_specification]
#[verifier::external_body]
pub struct ExDefaultHasher(lru::DefaultHasher);

/// The entries of a table, the most recently used first.
pub uninterp spec fn table_entries(table: VisitTable) -> Seq<((u8, u128), Seq<i128>)>;

/// The number of entries that a table was made for.
pub uninterp spec fn table_capacity(table: VisitTable) -> nat;

pub open spec fn has_key(entries: Seq<((u8, u128), Seq<i128>)>, key: (u8, u128)) -> bool {
    exists|i: int| 0 <= i < entries.len() && (#[trigger] entries[i]).0 == key
}

pub open spec fn under_other_key(key: (u8, u128)) -> spec_fn(((u8, u128), Seq<i128>)) -> bool {
    |e: ((u8, u128), Seq<i128>)| e.0 != key
}

/// The entries under other keys, in their order.
pub open spec fn without(entries: Seq<((u8, u128), Seq<i128>)>, key: (u8, u128)) -> Seq<
    ((u8, u128), Seq<i128>),
> {
    entries.filter(under_other_key(key))
}

/// The entries after one is stored under a key: it comes first, and if the key
/// is new and the table full, the last entry goes.
pub open spec fn stored(
    entries: Seq<((u8, u128), Seq<i128>)>,
    capacity: nat,
    key: (u8, u128),
    value: Seq<i128>,
) -> Seq<((u8, u128), Seq<i128>)> {
    if has_key(entries, key) {
        seq![(key, value)] + without(entries, key)
    } else if entries.len() == capacity {
        seq![(key, value)] + entries.drop_last()
    } else {
        seq![(key, value)] + entries
    }
}

/// `LruCache::new` makes an empty cache of the given capacity. It reserves the
/// room at once, so the capacity is one whose room can be addressed.
#[verifier::external_body]
fn table_new(capacity: usize) -> (table: VisitTable)
    requires
        0 < capacity,
        capacity * 64 <= isize::MAX,
    ensures
        table_entries(table) == Seq::<((u8, u128), Seq<i128>)>::empty(),
        table_capacity(table) == capacity,
{
    lru::LruCache::new(std::num::NonZeroUsize::new(capacity).unwrap())
}

/// `LruCache::contains` tells whether an entry has the key, and moves none.
#[verifier::external_body]
fn table_contains(table: &VisitTable, key: &(u8, u128)) -> (r: bool)
    ensures
        r == has_key(table_entries(*table), *key),
{
    table.contains(key)
}

/// `LruCache::put` stores an entry and makes it the most recent; it drops the
/// least recent one where the key is new and the cache full. The value that it
/// returns is not used here.
#[verifier::external_body]
fn table_put(table: &mut VisitTable, key: (u8, u128), value: VecDeque<i128>)
    ensures
        table_entries(*final(table)) == stored(
            table_entries(*old(table)),
            table_capacity(*old(table)),
            key,
            value@,
        ),
        table_capacity(*final(table)) == table_capacity(*old(table)),
{
    table.put(key, value);
}

/// `LruCache::get_mut` gives access to the value under a key and makes that
/// entry the most recent; where no entry has the key it changes nothing.
#[verifier::external_body]
fn table_get_mut<'a>(table: &'a mut VisitTable, key: &(u8, u128)) -> (r: Option<
    &'a mut VecDeque<i128>,
>)
    ensures
        table_capacity(*final(table)) == table_capacity(*old(table)),
        match r {
            Some(value) => {
                &&& table_entries(*old(table)).contains((*key, value@))
                &&& table_entries(*final(table)) == seq![(*key, final(value)@)] + without(
                    table_entries(*old(table)),
                    *key,
                )
            },
            None => {
                &&& !has_key(table_entries(*old(table)), *key)
                &&& table_entries(*final(table)) == table_entries(*old(table))
            },
        },
{
    table.get_mut(key)
}

/// `LruCache::len` is the number of entries.
#[verifier::external_body]
fn table_len(table: &VisitTable) -> (n: usize)
    ensures
        n == table_entries(*table).len(),
{
    table.len()
}

// ---------------------------------------------------------------------------
// Clock

/// `std::time::Instant`, an opaque reading of the monotonic clock.
#[verifier::external_type_specification]
#[verifier::external_body]
pub struct ExStdInstant(std::time::Instant);

/// `std::time::Instant::now` reads the monotonic clock.
#[verifier::external_body]
fn clock_origin() -> std::time::Instant {
    std::time::Instant::now()
}

/// `std::time::Instant::elapsed` is the time since an earlier reading, which a
/// span of time can hold.
#[verifier::external_body]
fn elapsed_nanos(origin: &std::time::Instant) -> (n: u128)
    ensures
        n <= time::max_duration_nanos(),
{
    origin.elapsed().as_nanos()
}

/// The monotonic clock has gone on by `nanos` nanoseconds since `origin`: this
/// is what a reading of it returned.
pub closed spec fn clock_gave(origin: std::time::Instant, nanos: i128) -> bool {
    nanos >= 0 && call_ensures(elapsed_nanos, (&origin,), nanos as u128)
}

// ---------------------------------------------------------------------------
// Tracking

#[derive(Clone, Copy, Debug, PartialEq, Eq, Structural)]
pub enum VisitDecision {
    Allow { count: usize },
    Ban { count: usize },
}

pub struct VisitTracker {
    window: Duration,
    max_visits: usize,
    visits: VisitTable,
    origin: std::time::Instant,
}

/// What a tracker knows.
pub struct VisitTrackerView {
    pub window: int,
    pub max_visits: nat,
    pub capacity: nat,
    /// Under the key of each source that is tracked, the readings of its
    /// visits; the source seen last comes first.
    pub entries: Seq<((u8, u128), Seq<i128>)>,
}

/// A key of its own for each address.
pub open spec fn key_of(ip: IpAddr) -> (u8, u128) {
    match ip {
        IpAddr::V4(a) => (4u8, a.bits as u128),
        IpAddr::V6(a) => (6u8, a.bits),
    }
}

/// The readings from the first one on that is not older than `cutoff`.
pub open spec fn fresh(history: Seq<i128>, cutoff: int) -> Seq<i128>
    decreases history.len(),
{
    if history.len() > 0 && history[0] < cutoff {
        fresh(history.drop_first(), cutoff)
    } else {
        history
    }
}

/// The readings after a visit at `now`: what has left the window is forgotten,
/// and of a full history the oldest reading.
pub open spec fn visited(history: Seq<i128>, now: i128, window: int, max_visits: nat) -> Seq<i128> {
    let kept = fresh(history, now - window);
    if kept.len() == max_visits {
        kept.drop_first().push(now)
    } else {
        kept.push(now)
    }
}

impl VisitTrackerView {
    pub open spec fn well_formed(self) -> bool {
        &&& self.window >= 0
        &&& self.max_visits > 0
        &&& self.capacity > 0
        &&& self.entries.len() <= self.capacity
        &&& forall|i: int, j: int|
            0 <= i < j < self.entries.len() ==> (#[trigger] self.entries[i]).0 != (
            #[trigger] self.entries[j]).0
        &&& forall|i: int|
            0 <= i < self.entries.len() ==> (#[trigger] self.entries[i]).1.len() <= self.max_visits
    }

    pub open spec fn tracks(self, ip: IpAddr) -> bool {
        has_key(self.entries, key_of(ip))
    }

    /// The readings of the visits of `ip`; none if it is not tracked.
    pub open spec fn history(self, ip: IpAddr) -> Seq<i128> {
        if self.tracks(ip) {
            let i = choose|i: int|
                0 <= i < self.entries.len() && (#[trigger] self.entries[i]).0 == key_of(ip);
            self.entries[i].1
        } else {
            Seq::empty()
        }
    }

    /// The tracker after a look at the history of `ip`.
    pub open spec fn used(self, ip: IpAddr) -> VisitTrackerView {
        if self.tracks(ip) {
            VisitTrackerView {
                entries: seq![(key_of(ip), self.history(ip))] + without(self.entries, key_of(ip)),
                ..self
            }
        } else {
            self
        }
    }

    /// The tracker after a visit of `ip` at `now`.
    pub open spec fn record(self, ip: IpAddr, now: i128) -> VisitTrackerView {
        VisitTrackerView {
            entries: stored(
                self.entries,
                self.capacity,
                key_of(ip),
                visited(self.history(ip), now, self.window, self.max_visits),
            ),
            ..self
        }
    }
}

/// The decision on a history that ends with the present visit.
pub open spec fn decision(history: Seq<i128>, max_visits: nat) -> VisitDecision {
    let count = history.len() as usize;
    if history.len() >= max_visits {
        VisitDecision::Ban { count }
    } else {
        VisitDecision::Allow { count }
    }
}

fn key(ip: IpAddr) -> (k: (u8, u128))
    ensures
        k == key_of(ip),
{
    match ip {
        IpAddr::V4(a) => (4u8, a.bits as u128),
        IpAddr::V6(a) => (6u8, a.bits),
    }
}

proof fn lemma_without_absent(entries: Seq<((u8, u128), Seq<i128>)>, key: (u8, u128))
    requires
        !has_key(entries, key),
    ensures
        without(entries, key) == entries,
    decreases entries.len(),
{
    reveal(Seq::filter);
    if entries.len() > 0 {
        let rest = entries.drop_last();
        assert forall|i: int| 0 <= i < rest.len() implies (#[trigger] rest[i]).0 != key by {
            assert(entries[i].0 != key);
        }
        lemma_without_absent(rest, key);
        assert(entries[entries.len() - 1].0 != key);
        assert(entries =~= rest.push(entries.last()));
    } else {
        assert(entries =~= Seq::empty());
    }
}

proof fn lemma_without_first(
    entries: Seq<((u8, u128), Seq<i128>)>,
    key: (u8, u128),
    value: Seq<i128>,
)
    requires
        !has_key(entries, key),
    ensures
        without(seq![(key, value)] + entries, key) == entries,
{
    let other = under_other_key(key);
    let first = seq![(key, value)];
    Seq::filter_distributes_over_add(first, entries, other);
    lemma_without_absent(entries, key);
    assert(first.filter(other) =~= Seq::empty()) by {
        reveal_with_fuel(Seq::filter, 2);
        assert(!other(first.last()));
        assert(first.drop_last() =~= Seq::empty());
    }
    assert(Seq::<((u8, u128), Seq<i128>)>::empty() + entries =~= entries);
}

/// The entries under other keys are a sequence of the entries, in their order.
proof fn lemma_without(entries: Seq<((u8, u128), Seq<i128>)>, key: (u8, u128))
    requires
        forall|i: int, j: int|
            0 <= i < j < entries.len() ==> (#[trigger] entries[i]).0 != (#[trigger] entries[j]).0,
    ensures
        ({
            let rest = without(entries, key);
            &&& !has_key(rest, key)
            &&& forall|i: int, j: int|
                0 <= i < j < rest.len() ==> (#[trigger] rest[i]).0 != (#[trigger] rest[j]).0
            &&& forall|i: int| 0 <= i < rest.len() ==> entries.contains(#[trigger] rest[i])
            &&& forall|i: int|
                0 <= i < entries.len() && (#[trigger] entries[i]).0 != key ==> rest.contains(
                    entries[i],
                )
            &&& rest.len() == entries.len() - if has_key(entries, key) {
                1int
            } else {
                0
            }
        }),
    decreases entries.len(),
{
    reveal(Seq::filter);
    if entries.len() > 0 {
        let head = entries.drop_last();
        let last = entries.last();
        assert forall|i: int, j: int| 0 <= i < j < head.len() implies (#[trigger] head[i]).0 != (
        #[trigger] head[j]).0 by {
            assert(entries[i].0 != entries[j].0);
        }
        lemma_without(head, key);
        let kept = without(head, key);
        let rest = without(entries, key);
        assert forall|i: int| 0 <= i < kept.len() implies (#[trigger] kept[i]).0 != last.0 by {
            let k = choose|k: int| 0 <= k < head.len() && head[k] == kept[i];
            assert(entries[k].0 != entries[entries.len() - 1].0);
        }
        if last.0 != key {
            assert(rest =~= kept.push(last));
            assert forall|i: int| 0 <= i < rest.len() implies entries.contains(
                #[trigger] rest[i],
            ) by {
                if i < kept.len() {
                    let k = choose|k: int| 0 <= k < head.len() && head[k] == kept[i];
                    assert(entries[k] == rest[i]);
                } else {
                    assert(entries[entries.len() - 1] == rest[i]);
                }
            }
            assert forall|i: int| 0 <= i < entries.len() && (#[trigger] entries[i]).0
                != key implies rest.contains(entries[i]) by {
                if i < head.len() {
                    assert(head[i] == entries[i]);
                    let k = choose|k: int| 0 <= k < kept.len() && kept[k] == head[i];
                    assert(rest[k] == entries[i]);
                } else {
                    assert(rest[rest.len() - 1] == entries[i]);
                }
            }
            if has_key(entries, key) {
                let k = choose|k: int| 0 <= k < entries.len() && (#[trigger] entries[k]).0 == key;
                assert(head[k].0 == key);
            }
            if has_key(head, key) {
                let k = choose|k: int| 0 <= k < head.len() && (#[trigger] head[k]).0 == key;
                assert(entries[k].0 == key);
            }
        } else {
            assert(rest =~= kept);
            assert(entries[entries.len() - 1].0 == key);
            if has_key(head, key) {
                let k = choose|k: int| 0 <= k < head.len() && (#[trigger] head[k]).0 == key;
                assert(entries[k].0 != entries[entries.len() - 1].0);
            }
            assert forall|i: int| 0 <= i < rest.len() implies entries.contains(
                #[trigger] rest[i],
            ) by {
                let k = choose|k: int| 0 <= k < head.len() && head[k] == kept[i];
                assert(entries[k] == rest[i]);
            }
            assert forall|i: int| 0 <= i < entries.len() && (#[trigger] entries[i]).0
                != key implies rest.contains(entries[i]) by {
                assert(head[i] == entries[i]);
            }
        }
    }
}

/// The entries after a store are distinct again, and each one that was there
/// is there still, but for the last of a full table.
proof fn lemma_stored(
    entries: Seq<((u8, u128), Seq<i128>)>,
    capacity: nat,
    key: (u8, u128),
    value: Seq<i128>,
)
    requires
        capacity > 0,
        entries.len() <= capacity,
        forall|i: int, j: int|
            0 <= i < j < entries.len() ==> (#[trigger] entries[i]).0 != (#[trigger] entries[j]).0,
    ensures
        ({
            let after = stored(entries, capacity, key, value);
            &&& after.len() <= capacity
            &&& after.len() == if has_key(entries, key) || entries.len() == capacity {
                entries.len()
            } else {
                entries.len() + 1
            }
            &&& after[0] == (key, value)
            &&& forall|i: int, j: int|
                0 <= i < j < after.len() ==> (#[trigger] after[i]).0 != (#[trigger] after[j]).0
            &&& forall|i: int| 1 <= i < after.len() ==> entries.contains(#[trigger] after[i])
            &&& forall|i: int|
                0 <= i < entries.len() && (#[trigger] entries[i]).0 != key && (has_key(entries, key)
                    || entries.len() < capacity || i < entries.len() - 1) ==> after.contains(
                    entries[i],
                )
            &&& !has_key(entries, key) && entries.len() == capacity ==> !has_key(
                after,
                entries.last().0,
            )
        }),
{
    let after = stored(entries, capacity, key, value);
    lemma_without(entries, key);
    let rest = if has_key(entries, key) {
        without(entries, key)
    } else if entries.len() == capacity {
        entries.drop_last()
    } else {
        entries
    };
    assert(after =~= seq![(key, value)] + rest);
    assert forall|i: int| 1 <= i < after.len() implies entries.contains(#[trigger] after[i]) by {
        assert(after[i] == rest[i - 1]);
        if !has_key(entries, key) {
            assert(entries[i - 1] == rest[i - 1]);
        }
    }
    assert(!has_key(rest, key)) by {
        if !has_key(entries, key) {
            assert forall|i: int| 0 <= i < rest.len() implies (#[trigger] rest[i]).0 != key by {
                assert(entries[i].0 != key);
            }
        }
    }
    assert forall|i: int, j: int| 0 <= i < j < after.len() implies (#[trigger] after[i]).0 != (
    #[trigger] after[j]).0 by {
        assert(after[j] == rest[j - 1]);
        if i > 0 {
            assert(after[i] == rest[i - 1]);
            if !has_key(entries, key) {
                assert(rest[i - 1] == entries[i - 1]);
                assert(rest[j - 1] == entries[j - 1]);
            }
        }
    }
    assert forall|i: int|
        0 <= i < entries.len() && (#[trigger] entries[i]).0 != key && (has_key(entries, key)
            || entries.len() < capacity || i < entries.len() - 1) implies after.contains(
        entries[i],
    ) by {
        if has_key(entries, key) {
            let k = choose|k: int| 0 <= k < rest.len() && rest[k] == entries[i];
            assert(after[k + 1] == entries[i]);
        } else {
            assert(after[i + 1] == entries[i]);
        }
    }
    if !has_key(entries, key) && entries.len() == capacity {
        assert forall|i: int| 0 <= i < after.len() implies (#[trigger] after[i]).0
            != entries.last().0 by {
            assert(entries[entries.len() - 1].0 != key);
            if i > 0 {
                assert(after[i] == entries[i - 1]);
            }
        }
    }
}

/// A key has one entry.
proof fn lemma_history(view: VisitTrackerView, ip: IpAddr, i: int)
    requires
        view.well_formed(),
        0 <= i < view.entries.len(),
        view.entries[i].0 == key_of(ip),
    ensures
        view.tracks(ip),
        view.history(ip) == view.entries[i].1,
{
    let k = choose|k: int|
        0 <= k < view.entries.len() && (#[trigger] view.entries[k]).0 == key_of(ip);
    if k < i {
        assert(view.entries[k].0 != view.entries[i].0);
    }
    if i < k {
        assert(view.entries[i].0 != view.entries[k].0);
    }
}

proof fn lemma_fresh_len(history: Seq<i128>, cutoff: int)
    ensures
        fresh(history, cutoff).len() <= history.len(),
    decreases history.len(),
{
    if history.len() > 0 && history[0] < cutoff {
        lemma_fresh_len(history.drop_first(), cutoff);
    }
}

/// Notes a visit in the history of a source and counts what is left of it.
fn note_visit(history: &mut VecDeque<i128>, now: Instant, window: Duration, max_visits: usize) -> (
count: usize)
    requires
        old(history)@.len() <= max_visits,
        0 < max_visits,
    ensures
        final(history)@ == visited(old(history)@, now.nanos, window.nanos(), max_visits as nat),
        count == final(history)@.len(),
{
    let cutoff = now.cutoff(window);
    proof {
        lemma_fresh_len(history@, cutoff.nanos as int);
        if now.nanos - window.nanos() < i128::MIN {
            assert(fresh(history@, now.nanos - window.nanos()) == history@);
            assert(fresh(history@, cutoff.nanos as int) == history@);
        }
    }
    while history.len() > 0 && history[0] < cutoff.nanos
        invariant
            history@.len() <= max_visits,
            fresh(history@, cutoff.nanos as int) == fresh(old(history)@, cutoff.nanos as int),
        decreases history@.len(),
    {
        assert(history@.subrange(1, history@.len() as int) =~= history@.drop_first());
        history.pop_front();
    }
    if history.len() == max_visits {
        assert(history@.subrange(1, history@.len() as int) =~= history@.drop_first());
        history.pop_front();
    }
    history.push_back(now.nanos);
    history.len()
}

impl View for VisitTracker {
    type V = VisitTrackerView;

    closed spec fn view(&self) -> VisitTrackerView {
        VisitTrackerView {
            window: self.window.nanos(),
            max_visits: self.max_visits as nat,
            capacity: table_capacity(self.visits),
            entries: table_entries(self.visits),
        }
    }
}

impl VisitTracker {
    /// The reading of the monotonic clock that visits are noted against.
    pub closed spec fn origin(self) -> std::time::Instant {
        self.origin
    }

    /// A tracker that knows no source. The table takes its room at once, so
    /// the number of sources is one whose room can be addressed.
    pub fn new(window: Duration, max_visits: usize, max_tracked_ips: usize) -> (r: VisitTracker)
        requires
            max_visits > 0,
            max_tracked_ips > 0,
            max_tracked_ips * 64 <= isize::MAX,
        ensures
            r@.well_formed(),
            r@.window == window.nanos(),
            r@.max_visits == max_visits,
            r@.capacity == max_tracked_ips,
            r@.entries == Seq::<((u8, u128), Seq<i128>)>::empty(),
    {
        proof {
            window.lemma_nanos();
        }
        VisitTracker {
            window,
            max_visits,
            visits: table_new(max_tracked_ips),
            origin: clock_origin(),
        }
    }

    /// Notes a visit now: at the nanoseconds that the monotonic clock has gone
    /// on since the tracker was made.
    pub fn record(&mut self, ip: IpAddr) -> (r: VisitDecision)
        requires
            old(self)@.well_formed(),
        ensures
            final(self)@.well_formed(),
            final(self).origin() == old(self).origin(),
            exists|now: i128| #[trigger]
                old(self)@.record(ip, now) == final(self)@ && clock_gave(old(self).origin(), now)
                    && r == decision(final(self)@.history(ip), final(self)@.max_visits),
    {
        let nanos = elapsed_nanos(&self.origin);
        self.record_at(ip, Instant { nanos: nanos as i128 })
    }

    /// Notes a visit of `ip` at `now` and decides on it.
    pub fn record_at(&mut self, ip: IpAddr, now: Instant) -> (r: VisitDecision)
        requires
            old(self)@.well_formed(),
        ensures
            final(self)@ == old(self)@.record(ip, now.nanos),
            final(self).origin() == old(self).origin(),
            final(self)@.well_formed(),
            r == decision(
                visited(
                    old(self)@.history(ip),
                    now.nanos,
                    old(self)@.window,
                    old(self)@.max_visits,
                ),
                old(self)@.max_visits,
            ),
            final(self)@.history(ip) == visited(
                old(self)@.history(ip),
                now.nanos,
                old(self)@.window,
                old(self)@.max_visits,
            ),
    {
        let k = key(ip);
        let ghost before = self@;
        proof {
            law_record_keeps_the_bounds(before, ip, now.nanos);
        }
        if !table_contains(&self.visits, &k) {
            table_put(&mut self.visits, k, VecDeque::new());
        }
        let ghost entries = table_entries(self.visits);
        proof {
            lemma_stored(before.entries, before.capacity, k, Seq::empty());
            if has_key(before.entries, k) {
                let i = choose|i: int|
                    0 <= i < before.entries.len() && (#[trigger] before.entries[i]).0 == k;
                lemma_history(before, ip, i);
            } else {
                assert(entries[0] == (k, Seq::<i128>::empty()));
            }
        }
        match table_get_mut(&mut self.visits, &k) {
            Some(history) => {
                proof {
                    let i = choose|i: int|
                        0 <= i < entries.len() && entries[i] == (k, history@);
                    if has_key(before.entries, k) {
                        lemma_history(before, ip, i);
                    } else if i > 0 {
                        assert(entries[0].0 != entries[i].0);
                    }
                    assert(history@ == before.history(ip));
                }
                let count = note_visit(history, now, self.window, self.max_visits);
                proof {
                    if !has_key(before.entries, k) {
                        let rest = if before.entries.len() == before.capacity {
                            before.entries.drop_last()
                        } else {
                            before.entries
                        };
                        assert forall|i: int| 0 <= i < rest.len() implies (#[trigger] rest[i]).0
                            != k by {
                            assert(before.entries[i].0 != k);
                        }
                        lemma_without_first(rest, k, Seq::empty());
                    }
                    assert(self@ == before.record(ip, now.nanos));
                }
                if count >= self.max_visits {
                    VisitDecision::Ban { count }
                } else {
                    VisitDecision::Allow { count }
                }
            },
            None => {
                proof {
                    let i = choose|i: int| 0 <= i < entries.len() && (#[trigger] entries[i]).0 == k;
                    assert(has_key(entries, k));
                }
                VisitDecision::Allow { count: 0 }
            },
        }
    }

    /// The number of sources that are tracked.
    pub fn tracked_ip_count(&self) -> (n: usize)
        ensures
            n == self@.entries.len(),
    {
        table_len(&self.visits)
    }

    /// Tells whether visits of `ip` are known.
    pub fn is_tracked(&self, ip: IpAddr) -> (r: bool)
        ensures
            r == self@.tracks(ip),
    {
        table_contains(&self.visits, &key(ip))
    }

    /// The number of visits that are kept of `ip`, which becomes the source
    /// used last; nothing if it is not tracked.
    pub fn stored_visits(&mut self, ip: IpAddr) -> (r: Option<usize>)
        requires
            old(self)@.well_formed(),
        ensures
            r is Some <==> old(self)@.tracks(ip),
            r matches Some(n) ==> n == old(self)@.history(ip).len(),
            final(self)@ == old(self)@.used(ip),
            final(self).origin() == old(self).origin(),
    {
        let k = key(ip);
        let ghost before = self@;
        match table_get_mut(&mut self.visits, &k) {
            Some(history) => {
                proof {
                    let i = choose|i: int|
                        0 <= i < before.entries.len() && before.entries[i] == (k, history@);
                    lemma_history(before, ip, i);
                }
                Some(history.len())
            },
            None => None,
        }
    }
}

// ---------------------------------------------------------------------------
// Laws

/// A visit keeps the table inside its capacity and each history inside
/// `max_visits`; its source is tracked afterwards with that visit as the last
/// of its history.
pub proof fn law_record_keeps_the_bounds(view: VisitTrackerView, ip: IpAddr, now: i128)
    requires
        view.well_formed(),
    ensures
        view.record(ip, now).well_formed(),
        view.record(ip, now).entries.len() <= view.capacity,
        view.record(ip, now).tracks(ip),
        view.record(ip, now).history(ip) == visited(
            view.history(ip),
            now,
            view.window,
            view.max_visits,
        ),
        1 <= view.record(ip, now).history(ip).len() <= view.max_visits,
        view.record(ip, now).history(ip).last() == now,
{
    let after = view.record(ip, now);
    let cutoff = now - view.window;
    if view.tracks(ip) {
        let i = choose|i: int|
            0 <= i < view.entries.len() && (#[trigger] view.entries[i]).0 == key_of(ip);
        lemma_history(view, ip, i);
    }
    lemma_fresh_len(view.history(ip), cutoff);
    let value = visited(view.history(ip), now, view.window, view.max_visits);
    lemma_stored(view.entries, view.capacity, key_of(ip), value);
    assert forall|i: int| 0 <= i < after.entries.len() implies (
    #[trigger] after.entries[i]).1.len() <= view.max_visits by {
        if i > 0 {
            let k = choose|k: int| 0 <= k < view.entries.len() && view.entries[k] == after.entries[i];
            assert(view.entries[k].1.len() <= view.max_visits);
        }
    }
    lemma_history(after, ip, 0);
}

proof fn lemma_key_injective(a: IpAddr, b: IpAddr)
    requires
        key_of(a) == key_of(b),
    ensures
        a == b,
{
}

/// A visit leaves the histories of other sources alone; only where a new
/// source comes to a full table is one forgotten, and it is the source that
/// was used least recently.
pub proof fn law_other_sources_are_unaffected(
    view: VisitTrackerView,
    ip: IpAddr,
    now: i128,
    other: IpAddr,
)
    requires
        view.well_formed(),
        other != ip,
    ensures
        view.record(ip, now).tracks(other) ==> view.tracks(other) && view.record(ip, now).history(
            other,
        ) == view.history(other),
        view.tracks(other) && !view.record(ip, now).tracks(other) <==> !view.tracks(ip)
            && view.entries.len() == view.capacity && view.entries.last().0 == key_of(other),
{
    let after = view.record(ip, now);
    law_record_keeps_the_bounds(view, ip, now);
    let value = visited(view.history(ip), now, view.window, view.max_visits);
    lemma_stored(view.entries, view.capacity, key_of(ip), value);
    if key_of(ip) == key_of(other) {
        lemma_key_injective(ip, other);
    }
    if after.tracks(other) {
        let i = choose|i: int|
            0 <= i < after.entries.len() && (#[trigger] after.entries[i]).0 == key_of(other);
        lemma_history(after, other, i);
        let k = choose|k: int| 0 <= k < view.entries.len() && view.entries[k] == after.entries[i];
        lemma_history(view, other, k);
    }
    if view.tracks(other) {
        let k = choose|k: int|
            0 <= k < view.entries.len() && (#[trigger] view.entries[k]).0 == key_of(other);
        if view.tracks(ip) || view.entries.len() < view.capacity || k < view.entries.len() - 1 {
            let i = choose|i: int| 0 <= i < after.entries.len() && after.entries[i] == view.entries[k];
            assert(after.entries[i].0 == key_of(other));
            if k < view.entries.len() - 1 {
                assert(view.entries[k].0 != view.entries[view.entries.len() - 1].0);
            }
        }
    }
    if !view.tracks(ip) && view.entries.len() == view.capacity && view.entries.last().0 == key_of(
        other,
    ) {
        assert(view.entries[view.entries.len() - 1].0 == key_of(other));
    }
}

/// The history after visits at the given readings, one after the other.
pub open spec fn visited_all(times: Seq<i128>, window: int, max_visits: nat) -> Seq<i128>
    decreases times.len(),
{
    if times.len() == 0 {
        Seq::empty()
    } else {
        visited(
            visited_all(times.drop_last(), window, max_visits),
            times.last(),
            window,
            max_visits,
        )
    }
}

pub open spec fn nondecreasing(times: Seq<i128>) -> bool {
    forall|i: int, j: int| 0 <= i <= j < times.len() ==> times[i] <= times[j]
}

/// The number of readings that are not older than `cutoff`.
pub open spec fn recent(times: Seq<i128>, cutoff: int) -> nat
    decreases times.len(),
{
    if times.len() == 0 {
        0
    } else {
        recent(times.drop_last(), cutoff) + if times.last() >= cutoff {
            1nat
        } else {
            0
        }
    }
}

proof fn lemma_recent(times: Seq<i128>, cutoff: int, k: int)
    requires
        0 <= k <= times.len(),
        forall|i: int| 0 <= i < k ==> times[i] < cutoff,
        forall|i: int| k <= i < times.len() ==> times[i] >= cutoff,
    ensures
        recent(times, cutoff) == times.len() - k,
    decreases times.len(),
{
    if times.len() > 0 {
        let n = times.len() as int;
        lemma_recent(
            times.drop_last(),
            cutoff,
            if k == n {
                n - 1
            } else {
                k
            },
        );
        assert(times.last() == times[n - 1]);
    }
}

proof fn lemma_fresh(history: Seq<i128>, cutoff: int) -> (k: int)
    ensures
        0 <= k <= history.len(),
        fresh(history, cutoff) == history.skip(k),
        forall|i: int| 0 <= i < k ==> history[i] < cutoff,
        k < history.len() ==> history[k] >= cutoff,
    decreases history.len(),
{
    if history.len() > 0 && history[0] < cutoff {
        let rest = history.drop_first();
        let k = lemma_fresh(rest, cutoff);
        assert(rest.skip(k) =~= history.skip(k + 1));
        assert forall|i: int| 0 <= i < k + 1 implies history[i] < cutoff by {
            if i > 0 {
                assert(history[i] == rest[i - 1]);
            }
        }
        if k < rest.len() {
            assert(history[k + 1] == rest[k]);
        }
        k + 1
    } else {
        assert(history.skip(0) =~= history);
        0
    }
}

/// The place where the readings not older than `cutoff` begin.
proof fn lemma_boundary(times: Seq<i128>, cutoff: int) -> (k: int)
    requires
        nondecreasing(times),
    ensures
        0 <= k <= times.len(),
        forall|i: int| 0 <= i < k ==> times[i] < cutoff,
        forall|i: int| k <= i < times.len() ==> times[i] >= cutoff,
        recent(times, cutoff) == times.len() - k,
{
    let k = lemma_fresh(times, cutoff);
    assert forall|i: int| k <= i < times.len() implies times[i] >= cutoff by {
        assert(times[k] <= times[i]);
    }
    lemma_recent(times, cutoff, k);
    k
}

/// Of visits in the order of time, the history is the last `max_visits` of
/// those inside the window that ends with the last visit. So a visit is
/// answered with a ban exactly when at least `max_visits` visits, itself
/// among them, lie inside that window; earlier visits no longer count.
pub proof fn law_window_counts_visits(times: Seq<i128>, window: int, max_visits: nat)
    requires
        times.len() > 0,
        nondecreasing(times),
        window >= 0,
        max_visits > 0,
    ensures
        ({
            let count = recent(times, times.last() - window);
            let history = visited_all(times, window, max_visits);
            &&& history.len() == time::smaller(count as int, max_visits as int)
            &&& history == times.skip(times.len() - history.len())
            &&& max_visits <= usize::MAX ==> decision(history, max_visits) == if count
                >= max_visits {
                VisitDecision::Ban { count: max_visits as usize }
            } else {
                VisitDecision::Allow { count: count as usize }
            }
        }),
    decreases times.len(),
{
    let n = times.len() as int;
    let now = times.last();
    let before = times.drop_last();
    let history = visited_all(before, window, max_visits);
    let cutoff = now - window;
    let b = lemma_boundary(times, cutoff);
    if before.len() == 0 {
        assert(before =~= Seq::empty());
        assert(visited_all(times, window, max_visits) =~= seq![now]);
        assert(times.skip(0) =~= seq![now]);
        assert(b == 0) by {
            if b > 0 {
                assert(times[0] < cutoff);
            }
        }
    } else {
        assert forall|i: int, j: int| 0 <= i <= j < before.len() implies before[i] <= before[j] by {
            assert(times[i] <= times[j]);
        }
        law_window_counts_visits(before, window, max_visits);
        let last_cutoff = before.last() - window;
        assert(before.last() == times[n - 2]);
        assert(times[n - 2] <= times[n - 1]);
        let p = lemma_boundary(before, last_cutoff);
        let m = history.len() as int;
        let start = n - 1 - m;
        assert(history == before.skip(start));
        assert(p <= b) by {
            if b < p {
                assert(before[b] < last_cutoff);
                assert(times[b] >= cutoff);
            }
        }
        assert(b < n) by {
            if b == n {
                assert(times[n - 1] < cutoff);
            }
        }
        let k = lemma_fresh(history, cutoff);
        assert(start + k == if b >= start {
            b
        } else {
            start
        }) by {
            if k > 0 {
                assert(history[k - 1] == times[start + k - 1]);
            }
            if k < m {
                assert(history[k] == times[start + k]);
            }
        }
        let kept = fresh(history, cutoff);
        assert(kept =~= times.subrange(start + k, n - 1));
        let after = visited_all(times, window, max_visits);
        assert(after =~= times.skip(n - after.len()));
    }
}

/// A visit: its source and its reading.
pub struct Visit {
    pub ip: IpAddr,
    pub now: i128,
}

impl VisitTrackerView {
    /// The tracker after visits, one after the other.
    pub open spec fn record_all(self, visits: Seq<Visit>) -> VisitTrackerView
        decreases visits.len(),
    {
        if visits.len() == 0 {
            self
        } else {
            self.record_all(visits.drop_last()).record(visits.last().ip, visits.last().now)
        }
    }
}

/// The readings of the visits of one source.
pub open spec fn times_of(visits: Seq<Visit>, ip: IpAddr) -> Seq<i128>
    decreases visits.len(),
{
    if visits.len() == 0 {
        Seq::empty()
    } else if visits.last().ip == ip {
        times_of(visits.drop_last(), ip).push(visits.last().now)
    } else {
        times_of(visits.drop_last(), ip)
    }
}

/// The sources of visits.
pub open spec fn sources(visits: Seq<Visit>) -> Set<IpAddr>
    decreases visits.len(),
{
    if visits.len() == 0 {
        Set::empty()
    } else {
        sources(visits.drop_last()).insert(visits.last().ip)
    }
}

/// As long as the table has room for every source, each source is judged by
/// its own visits alone.
pub proof fn law_sources_are_independent(view: VisitTrackerView, visits: Seq<Visit>, ip: IpAddr)
    requires
        view.well_formed(),
        view.entries.len() == 0,
        sources(visits).len() <= view.capacity,
    ensures
        view.record_all(visits).well_formed(),
        view.record_all(visits).tracks(ip) <==> sources(visits).contains(ip),
        view.record_all(visits).history(ip) == visited_all(
            times_of(visits, ip),
            view.window,
            view.max_visits,
        ),
    decreases visits.len(),
{
    lemma_record_all(view, visits);
    lemma_record_all_history(view, visits, ip);
}

/// A source is in the table from its first visit on: it was at no time
/// forgotten for the sake of another.
pub open spec fn never_forgotten(view: VisitTrackerView, visits: Seq<Visit>, ip: IpAddr) -> bool {
    forall|n: int|
        0 <= n <= visits.len() && sources(#[trigger] visits.take(n)).contains(ip)
            ==> view.record_all(visits.take(n)).tracks(ip)
}

/// A source that is not forgotten is judged by its own visits alone, however
/// many other sources come and go: its last visit is answered with a ban
/// exactly when at least `max_visits` of its visits, this one among them, lie
/// inside the window that ends with it. A visit exactly as old as the window
/// still counts.
pub proof fn law_remembered_source_is_judged_alone(
    view: VisitTrackerView,
    visits: Seq<Visit>,
    ip: IpAddr,
)
    requires
        view.well_formed(),
        !view.tracks(ip),
        never_forgotten(view, visits, ip),
    ensures
        view.record_all(visits).history(ip) == visited_all(
            times_of(visits, ip),
            view.window,
            view.max_visits,
        ),
        visits.len() > 0 && visits.last().ip == ip && nondecreasing(times_of(visits, ip))
            && view.max_visits <= usize::MAX ==> ({
            let count = recent(times_of(visits, ip), visits.last().now - view.window);
            decision(view.record_all(visits).history(ip), view.max_visits) == if count
                >= view.max_visits {
                VisitDecision::Ban { count: view.max_visits as usize }
            } else {
                VisitDecision::Allow { count: count as usize }
            }
        }),
{
    lemma_remembered(view, visits, ip);
    if visits.len() > 0 && visits.last().ip == ip && nondecreasing(times_of(visits, ip)) {
        law_window_counts_visits(times_of(visits, ip), view.window, view.max_visits);
    }
}

proof fn lemma_remembered(view: VisitTrackerView, visits: Seq<Visit>, ip: IpAddr)
    requires
        view.well_formed(),
        !view.tracks(ip),
        never_forgotten(view, visits, ip),
    ensures
        view.record_all(visits).well_formed(),
        view.record_all(visits).window == view.window,
        view.record_all(visits).max_visits == view.max_visits,
        view.record_all(visits).tracks(ip) <==> sources(visits).contains(ip),
        sources(visits).contains(ip) <==> times_of(visits, ip).len() > 0,
        view.record_all(visits).history(ip) == visited_all(
            times_of(visits, ip),
            view.window,
            view.max_visits,
        ),
    decreases visits.len(),
{
    if visits.len() > 0 {
        let earlier = visits.drop_last();
        assert forall|n: int|
            0 <= n <= earlier.len() && sources(#[trigger] earlier.take(n)).contains(
                ip,
            ) implies view.record_all(earlier.take(n)).tracks(ip) by {
            assert(earlier.take(n) =~= visits.take(n));
        }
        lemma_remembered(view, earlier, ip);
        let before = view.record_all(earlier);
        let last = visits.last();
        law_record_keeps_the_bounds(before, last.ip, last.now);
        if last.ip == ip {
            assert(times_of(visits, ip).drop_last() =~= times_of(earlier, ip));
        } else {
            law_other_sources_are_unaffected(before, last.ip, last.now, ip);
            assert(visits.take(visits.len() as int) =~= visits);
        }
    }
}

proof fn lemma_sources(visits: Seq<Visit>)
    ensures
        sources(visits).finite(),
        visits.len() > 0 ==> sources(visits.drop_last()).len() <= sources(visits).len(),
    decreases visits.len(),
{
    if visits.len() > 0 {
        lemma_sources(visits.drop_last());
    }
}

/// The table holds one entry for each source.
proof fn lemma_record_all(view: VisitTrackerView, visits: Seq<Visit>)
    requires
        view.well_formed(),
        view.entries.len() == 0,
        sources(visits).len() <= view.capacity,
    ensures
        view.record_all(visits).well_formed(),
        view.record_all(visits).window == view.window,
        view.record_all(visits).max_visits == view.max_visits,
        view.record_all(visits).capacity == view.capacity,
        view.record_all(visits).entries.len() == sources(visits).len(),
        forall|ip: IpAddr| #[trigger]
            view.record_all(visits).tracks(ip) <==> sources(visits).contains(ip),
    decreases visits.len(),
{
    lemma_sources(visits);
    if visits.len() > 0 {
        let earlier = visits.drop_last();
        lemma_record_all(view, earlier);
        let before = view.record_all(earlier);
        let last = visits.last();
        let after = view.record_all(visits);
        law_record_keeps_the_bounds(before, last.ip, last.now);
        lemma_sources(earlier);
        let value = visited(before.history(last.ip), last.now, before.window, before.max_visits);
        lemma_stored(before.entries, before.capacity, key_of(last.ip), value);
        assert(before.tracks(last.ip) <==> sources(earlier).contains(last.ip));
        assert forall|ip: IpAddr| #[trigger] after.tracks(ip) <==> sources(visits).contains(ip) by {
            assert(before.tracks(ip) <==> sources(earlier).contains(ip));
            if ip != last.ip {
                law_other_sources_are_unaffected(before, last.ip, last.now, ip);
            }
        }
    }
}

proof fn lemma_record_all_history(view: VisitTrackerView, visits: Seq<Visit>, ip: IpAddr)
    requires
        view.well_formed(),
        view.entries.len() == 0,
        sources(visits).len() <= view.capacity,
    ensures
        view.record_all(visits).history(ip) == visited_all(
            times_of(visits, ip),
            view.window,
            view.max_visits,
        ),
    decreases visits.len(),
{
    lemma_sources(visits);
    if visits.len() > 0 {
        let earlier = visits.drop_last();
        lemma_record_all(view, earlier);
        lemma_record_all(view, visits);
        lemma_record_all_history(view, earlier, ip);
        let before = view.record_all(earlier);
        let after = view.record_all(visits);
        let last = visits.last();
        if last.ip == ip {
            law_record_keeps_the_bounds(before, ip, last.now);
            let times = times_of(visits, ip);
            assert(times.drop_last() =~= times_of(earlier, ip));
        } else {
            law_other_sources_are_unaffected(before, last.ip, last.now, ip);
            assert(before.tracks(ip) <==> sources(earlier).contains(ip));
            assert(after.tracks(ip) <==> sources(visits).contains(ip));
        }
    }
}

/// Two visits that lie further apart than the window are not counted together:
/// a visit after which all earlier ones of its source are older than the window
/// is the first again. A visit that lies inside the window of the next one is
/// counted with it, up to the very end of the window.
pub proof fn law_distant_visits_are_not_counted_together(
    view: VisitTrackerView,
    ip: IpAddr,
    first: i128,
    second: i128,
)
    requires
        view.well_formed(),
        view.max_visits <= usize::MAX,
        forall|i: int|
            0 <= i < view.history(ip).len() ==> (#[trigger] view.history(ip)[i]) < first
                - view.window,
        first <= second,
    ensures
        ({
            let once = view.record(ip, first);
            let twice = once.record(ip, second);
            &&& once.history(ip) == seq![first]
            &&& decision(once.history(ip), view.max_visits) == if view.max_visits == 1 {
                VisitDecision::Ban { count: 1 }
            } else {
                VisitDecision::Allow { count: 1 }
            }
            &&& second - first > view.window ==> twice.history(ip) == seq![second]
            &&& second - first <= view.window && view.max_visits > 1 ==> twice.history(ip)
                == seq![first, second]
            &&& second - first <= view.window ==> decision(twice.history(ip), view.max_visits)
                == if view.max_visits == 1 {
                VisitDecision::Ban { count: 1 }
            } else if view.max_visits == 2 {
                VisitDecision::Ban { count: 2 }
            } else {
                VisitDecision::Allow { count: 2 }
            }
        }),
{
    let once = view.record(ip, first);
    law_record_keeps_the_bounds(view, ip, first);
    law_record_keeps_the_bounds(once, ip, second);
    let k = lemma_fresh(view.history(ip), first - view.window);
    assert(view.history(ip).skip(k) =~= Seq::empty());
    assert(once.history(ip) =~= seq![first]);
    let j = lemma_fresh(once.history(ip), second - view.window);
    if second - first > view.window {
        assert(once.history(ip).skip(j) =~= Seq::empty());
    } else {
        assert(once.history(ip).skip(j) =~= seq![first]);
        if view.max_visits > 1 {
            assert(once.record(ip, second).history(ip) =~= seq![first, second]);
        } else {
            assert(once.record(ip, second).history(ip) =~= seq![second]);
        }
    }
}

} // verus!

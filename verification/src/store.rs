//! The records of banned sources and the files that keep them.

use vstd::prelude::*;

use crate::addr;
use crate::addr::IpAddr;

verus! {

// ---------------------------------------------------------------------------
// Records

/// A moment: seconds since the start of 1970, and nanoseconds of a second.
#[derive(Clone, Copy, Debug, PartialEq, Eq, Structural)]
pub struct Timestamp {
    pub secs: i64,
    pub nanos: u32,
}

/// `chrono::Utc::now` reads the wall clock, which it expects to be past the
/// start of 1970; it gives a fraction below one second. Which moment it gives
/// is left open.
#[verifier::external_body]
pub(crate) fn utc_now() -> (t: Timestamp)
    ensures
        t.nanos < 1_000_000_000,
{
    let now = chrono::Utc::now();
    Timestamp { secs: now.timestamp(), nanos: now.timestamp_subsec_nanos() }
}

/// The wall clock has given this moment: it is what a reading of it returned.
pub closed spec fn clock_gave(t: Timestamp) -> bool {
    call_ensures(utc_now, (), t)
}

/// What a reading of the wall clock returns is what the clock gave.
pub(crate) proof fn lemma_clock_gave(t: Timestamp)
    requires
        call_ensures(utc_now, (), t),
    ensures
        clock_gave(t),
{
}

/// A banned source.
#[derive(Debug, PartialEq, Eq)]
pub struct BanRecord {
    pub ip: IpAddr,
    pub banned_at: Timestamp,
    pub reason: String,
}

pub struct BanRecordView {
    pub ip: IpAddr,
    pub banned_at: Timestamp,
    pub reason: Seq<char>,
}

impl View for BanRecord {
    type V = BanRecordView;

    open spec fn view(&self) -> BanRecordView {
        BanRecordView { ip: self.ip, banned_at: self.banned_at, reason: self.reason@ }
    }
}

impl Clone for BanRecord {
    fn clone(&self) -> (r: BanRecord)
        ensures
            r@ == self@,
    {
        BanRecord { ip: self.ip, banned_at: self.banned_at, reason: self.reason.clone() }
    }
}

impl BanRecord {
    /// A record of a ban made now.
    pub fn new(ip: IpAddr, reason: &str) -> (r: BanRecord)
        ensures
            r@.ip == ip,
            r@.reason == reason@,
            r@.banned_at.nanos < 1_000_000_000,
            clock_gave(r@.banned_at),
    {
        BanRecord::at(ip, utc_now(), reason)
    }

    /// A record of a ban made at the given moment.
    pub fn at(ip: IpAddr, banned_at: Timestamp, reason: &str) -> (r: BanRecord)
        ensures
            r@ == (BanRecordView { ip, banned_at, reason: reason@ }),
    {
        BanRecord { ip, banned_at, reason: reason.to_string() }
    }
}

pub open spec fn record_views(records: Seq<BanRecord>) -> Seq<BanRecordView> {
    records.map_values(|r: BanRecord| r@)
}

/// A copy of a list of records.
pub fn copy_records(records: &[BanRecord]) -> (r: Vec<BanRecord>)
    ensures
        record_views(r@) == record_views(records@),
{
    let mut r: Vec<BanRecord> = Vec::new();
    let mut i: usize = 0;
    while i < records.len()
        invariant
            i <= records@.len(),
            record_views(r@) == record_views(records@.take(i as int)),
        decreases records@.len() - i,
    {
        let copy = records[i].clone();
        proof {
            assert(record_views(r@.push(copy)) =~= record_views(r@).push(copy@));
            assert(record_views(records@.take(i + 1)) =~= record_views(
                records@.take(i as int),
            ).push(records@[i as int]@));
        }
        r.push(copy);
        i += 1;
    }
    assert(records@.take(i as int) =~= records@);
    r
}

/// The records by their address; of several records of one address, the last.
pub open spec fn by_address(records: Seq<BanRecordView>) -> Map<IpAddr, BanRecordView>
    decreases records.len(),
{
    if records.len() == 0 {
        Map::empty()
    } else {
        by_address(records.drop_last()).insert(records.last().ip, records.last())
    }
}

/// Strictly ascending by address: IPv4 before IPv6, then by number.
pub open spec fn ascending(records: Seq<BanRecordView>) -> bool {
    forall|i: int, j: int|
        0 <= i < j < records.len() ==> (#[trigger] records[i]).ip.rank() < (
        #[trigger] records[j]).ip.rank()
}

/// `records` lists `m` in the order of the addresses.
pub open spec fn lists(records: Seq<BanRecordView>, m: Map<IpAddr, BanRecordView>) -> bool {
    ascending(records) && by_address(records) == m
}

/// In an ascending list each record is found under its address, and nothing
/// else is.
pub proof fn lemma_by_address(records: Seq<BanRecordView>)
    requires
        ascending(records),
    ensures
        forall|i: int|
            0 <= i < records.len() ==> by_address(records).contains_key(
                (#[trigger] records[i]).ip,
            ) && by_address(records)[records[i].ip] == records[i],
        forall|ip: IpAddr| #[trigger]
            by_address(records).contains_key(ip) ==> exists|i: int|
                0 <= i < records.len() && (#[trigger] records[i]).ip == ip,
    decreases records.len(),
{
    if records.len() > 0 {
        let head = records.drop_last();
        let n = records.len() - 1;
        lemma_by_address(head);
        assert forall|i: int| 0 <= i < records.len() implies by_address(records).contains_key(
            (#[trigger] records[i]).ip,
        ) && by_address(records)[records[i].ip] == records[i] by {
            if i < n {
                assert(head[i] == records[i]);
                assert(records[i].ip.rank() < records[n].ip.rank());
            }
        }
        assert forall|ip: IpAddr| #[trigger] by_address(records).contains_key(ip) implies exists|
            i: int,
        |
            0 <= i < records.len() && (#[trigger] records[i]).ip == ip by {
            if ip == records[n].ip {
            } else {
                assert(by_address(head).contains_key(ip));
                let i = choose|i: int| 0 <= i < head.len() && (#[trigger] head[i]).ip == ip;
                assert(records[i].ip == ip);
            }
        }
    }
}

/// The list of a set of records is determined by the set.
pub proof fn law_listing_is_unique(
    a: Seq<BanRecordView>,
    b: Seq<BanRecordView>,
    m: Map<IpAddr, BanRecordView>,
)
    requires
        lists(a, m),
        lists(b, m),
    ensures
        a == b,
    decreases a.len(),
{
    lemma_by_address(a);
    lemma_by_address(b);
    if a.len() == 0 {
        if b.len() > 0 {
            assert(m.contains_key(b[0].ip));
        }
        assert(a =~= b);
    } else {
        let n = a.len() - 1;
        assert(m.contains_key(a[n].ip));
        assert(b.len() > 0);
        let k = b.len() - 1;
        assert(m.contains_key(b[k].ip));
        let i = choose|i: int| 0 <= i < a.len() && (#[trigger] a[i]).ip == b[k].ip;
        let j = choose|j: int| 0 <= j < b.len() && (#[trigger] b[j]).ip == a[n].ip;
        if i < n {
            assert(a[i].ip.rank() < a[n].ip.rank());
        }
        if j < k {
            assert(b[j].ip.rank() < b[k].ip.rank());
        }
        assert(a[n].ip.rank() == b[k].ip.rank());
        addr::lemma_rank_injective(a[n].ip, b[k].ip);
        assert(a[n] == b[k]);
        let x = a.drop_last();
        let y = b.drop_last();
        lemma_last_is_new(a);
        lemma_last_is_new(b);
        assert(by_address(x) =~= m.remove(a[n].ip));
        assert(by_address(y) =~= m.remove(a[n].ip));
        law_listing_is_unique(x, y, m.remove(a[n].ip));
        assert(a =~= x.push(a[n]));
        assert(b =~= y.push(b[k]));
    }
}

proof fn lemma_last_is_new(records: Seq<BanRecordView>)
    requires
        ascending(records),
        records.len() > 0,
    ensures
        !by_address(records.drop_last()).contains_key(records.last().ip),
        ascending(records.drop_last()),
{
    let head = records.drop_last();
    lemma_by_address(head);
    if by_address(head).contains_key(records.last().ip) {
        let i = choose|i: int|
            0 <= i < head.len() && (#[trigger] head[i]).ip == records.last().ip;
        assert(records[i].ip.rank() < records[records.len() - 1].ip.rank());
    }
}

/// A new record put at its place keeps the list ascending.
proof fn lemma_inserted(records: Seq<BanRecordView>, k: int, record: BanRecordView)
    requires
        ascending(records),
        0 <= k <= records.len(),
        forall|i: int|
            0 <= i < records.len() ==> ((#[trigger] records[i]).ip.rank() < record.ip.rank() <==> i
                < k),
        !by_address(records).contains_key(record.ip),
    ensures
        lists(records.insert(k, record), by_address(records).insert(record.ip, record)),
{
    let m = by_address(records).insert(record.ip, record);
    let after = records.insert(k, record);
    lemma_by_address(records);
    assert forall|i: int| k <= i < records.len() implies record.ip.rank() < (
    #[trigger] records[i]).ip.rank() by {
        addr::lemma_rank_injective(record.ip, records[i].ip);
        assert(by_address(records).contains_key(records[i].ip));
    }
    assert forall|i: int, j: int| 0 <= i < j < after.len() implies (#[trigger] after[i]).ip.rank()
        < (#[trigger] after[j]).ip.rank() by {
        let x = if i < k {
            i
        } else {
            i - 1
        };
        let y = if j < k {
            j
        } else {
            j - 1
        };
        if i != k {
            assert(after[i] == records[x]);
        }
        if j != k {
            assert(after[j] == records[y]);
        }
        if i != k && j != k {
            assert(records[x].ip.rank() < records[y].ip.rank());
        }
    }
    lemma_by_address(after);
    assert forall|ip: IpAddr| #[trigger] by_address(after).contains_key(ip) == m.contains_key(
        ip,
    ) by {
        if by_address(after).contains_key(ip) {
            let i = choose|i: int| 0 <= i < after.len() && (#[trigger] after[i]).ip == ip;
            if i < k {
                assert(by_address(records).contains_key(records[i].ip));
            } else if i > k {
                assert(by_address(records).contains_key(records[i - 1].ip));
            }
        }
        if by_address(records).contains_key(ip) {
            let i = choose|i: int| 0 <= i < records.len() && (#[trigger] records[i]).ip == ip;
            if i < k {
                assert(by_address(after).contains_key(after[i].ip));
            } else {
                assert(by_address(after).contains_key(after[i + 1].ip));
            }
        }
        assert(by_address(after).contains_key(after[k].ip));
    }
    assert forall|ip: IpAddr| #[trigger] by_address(after).contains_key(ip) implies by_address(
        after,
    )[ip] == m[ip] by {
        let i = choose|i: int| 0 <= i < after.len() && (#[trigger] after[i]).ip == ip;
        assert(by_address(after)[after[i].ip] == after[i]);
        if i < k {
            assert(by_address(records)[records[i].ip] == records[i]);
        } else if i > k {
            assert(by_address(records)[records[i - 1].ip] == records[i - 1]);
        }
    }
    assert(by_address(after) =~= m);
}

/// The place of a new record in an ascending list.
proof fn lemma_place(records: Seq<BanRecordView>, rank: int) -> (k: int)
    requires
        ascending(records),
    ensures
        0 <= k <= records.len(),
        forall|i: int|
            0 <= i < records.len() ==> ((#[trigger] records[i]).ip.rank() < rank <==> i < k),
    decreases records.len(),
{
    if records.len() == 0 {
        0
    } else {
        let head = records.drop_last();
        let k = lemma_place(head, rank);
        let n = records.len() - 1;
        assert forall|i: int| 0 <= i < n implies ((#[trigger] records[i]).ip.rank() < rank <==> i
            < k) by {
            assert(head[i] == records[i]);
        }
        if records[n].ip.rank() < rank {
            assert(k == n) by {
                if k < n {
                    assert(records[k].ip.rank() < records[n].ip.rank());
                }
            }
            n + 1
        } else {
            k
        }
    }
}

/// Finitely many records, each under its own address.
pub open spec fn valid_records(m: Map<IpAddr, BanRecordView>) -> bool {
    &&& m.dom().finite()
    &&& forall|ip: IpAddr| #[trigger] m.contains_key(ip) ==> m[ip].ip == ip
}

/// Records that are valid can be listed.
pub proof fn lemma_listable(m: Map<IpAddr, BanRecordView>) -> (records: Seq<BanRecordView>)
    requires
        valid_records(m),
    ensures
        lists(records, m),
    decreases m.dom().len(),
{
    if m.dom().len() == 0 {
        assert(m =~= Map::empty());
        Seq::empty()
    } else {
        let ip = m.dom().choose();
        let rest = m.remove(ip);
        assert forall|a: IpAddr| #[trigger] rest.contains_key(a) implies rest[a].ip == a by {
            assert(m.contains_key(a));
        }
        let records = lemma_listable(rest);
        assert(m.contains_key(ip));
        let k = lemma_place(records, ip.rank());
        lemma_inserted(records, k, m[ip]);
        assert(rest.insert(ip, m[ip]) =~= m);
        records.insert(k, m[ip])
    }
}

// ---------------------------------------------------------------------------
// The table of banned sources

/// The banned sources, one record each.
pub struct BanTable {
    records: Vec<BanRecord>,
}

impl View for BanTable {
    type V = Map<IpAddr, BanRecordView>;

    closed spec fn view(&self) -> Map<IpAddr, BanRecordView> {
        by_address(record_views(self.records@))
    }
}

impl BanTable {
    #[verifier::type_invariant]
    spec fn well_formed(self) -> bool {
        ascending(record_views(self.records@))
    }

    pub fn new() -> (r: BanTable)
        ensures
            r@ == Map::<IpAddr, BanRecordView>::empty(),
    {
        BanTable { records: Vec::new() }
    }

    /// The position at which a record of `ip` stands or would stand.
    fn locate(&self, ip: IpAddr) -> (r: (usize, bool))
        ensures
            r.0 <= self.records@.len(),
            forall|i: int| 0 <= i < r.0 ==> (#[trigger] self.records@[i]).ip.rank() < ip.rank(),
            forall|i: int|
                r.0 <= i < self.records@.len() ==> ip.rank() <= (
                #[trigger] self.records@[i]).ip.rank(),
            r.1 == self@.contains_key(ip),
            r.1 ==> r.0 < self.records@.len() && self.records@[r.0 as int].ip == ip,
            !r.1 ==> forall|i: int|
                r.0 <= i < self.records@.len() ==> ip.rank() < (
                #[trigger] self.records@[i]).ip.rank(),
    {
        proof {
            use_type_invariant(self);
        }
        let ghost views = record_views(self.records@);
        let mut lo: usize = 0;
        let mut hi: usize = self.records.len();
        while lo < hi
            invariant
                lo <= hi <= self.records@.len(),
                ascending(record_views(self.records@)),
                forall|i: int|
                    0 <= i < lo ==> (#[trigger] self.records@[i]).ip.rank() < ip.rank(),
                forall|i: int|
                    hi <= i < self.records@.len() ==> ip.rank() <= (
                    #[trigger] self.records@[i]).ip.rank(),
            decreases hi - lo,
        {
            let mid = lo + (hi - lo) / 2;
            let ghost views = record_views(self.records@);
            if self.records[mid].ip.before(&ip) {
                assert forall|i: int| 0 <= i < mid + 1 implies (
                #[trigger] self.records@[i]).ip.rank() < ip.rank() by {
                    if i < mid {
                        assert(views[i].ip.rank() < views[mid as int].ip.rank());
                    }
                }
                lo = mid + 1;
            } else {
                assert forall|i: int| mid <= i < self.records@.len() implies ip.rank() <= (
                #[trigger] self.records@[i]).ip.rank() by {
                    if i > mid {
                        assert(views[mid as int].ip.rank() < views[i].ip.rank());
                    }
                }
                hi = mid;
            }
        }
        let found = lo < self.records.len() && !ip.before(&self.records[lo].ip);
        proof {
            lemma_by_address(views);
            if lo < views.len() {
                addr::lemma_rank_injective(ip, views[lo as int].ip);
                assert(views[lo as int].ip == self.records@[lo as int].ip);
            }
            if found {
                assert(self@.contains_key(views[lo as int].ip));
            } else {
                assert forall|i: int| lo <= i < self.records@.len() implies ip.rank() < (
                #[trigger] self.records@[i]).ip.rank() by {
                    if i > lo {
                        assert(views[lo as int].ip.rank() < views[i].ip.rank());
                    }
                }
                if self@.contains_key(ip) {
                    let i = choose|i: int| 0 <= i < views.len() && (#[trigger] views[i]).ip == ip;
                    assert(self.records@[i].ip == ip);
                }
            }
        }
        (lo, found)
    }

    pub fn contains_key(&self, ip: IpAddr) -> (r: bool)
        ensures
            r == self@.contains_key(ip),
    {
        self.locate(ip).1
    }

    pub fn get(&self, ip: IpAddr) -> (r: Option<&BanRecord>)
        ensures
            match r {
                Some(record) => self@.contains_key(ip) && record@ == self@[ip],
                None => !self@.contains_key(ip),
            },
    {
        proof {
            use_type_invariant(self);
            lemma_by_address(record_views(self.records@));
        }
        let at = self.locate(ip);
        if at.1 {
            assert(record_views(self.records@)[at.0 as int].ip == ip);
            Some(&self.records[at.0])
        } else {
            None
        }
    }

    pub fn len(&self) -> (n: usize)
        ensures
            n == self@.dom().len(),
            self@.dom().finite(),
    {
        proof {
            use_type_invariant(self);
            lemma_by_address_len(record_views(self.records@));
        }
        self.records.len()
    }

    pub fn is_empty(&self) -> (r: bool)
        ensures
            r == (self@ == Map::<IpAddr, BanRecordView>::empty()),
    {
        proof {
            use_type_invariant(self);
            lemma_by_address_len(record_views(self.records@));
            if self.records@.len() > 0 {
                lemma_by_address(record_views(self.records@));
                assert(self@.contains_key(record_views(self.records@)[0].ip));
            } else {
                assert(self@ =~= Map::empty());
            }
        }
        self.records.len() == 0
    }

    /// Puts a record in the place of any other of its address.
    pub fn insert(&mut self, record: BanRecord)
        ensures
            final(self)@ == old(self)@.insert(record@.ip, record@),
    {
        proof {
            use_type_invariant(&*self);
        }
        let ghost before = record_views(self.records@);
        let ghost m = self@;
        let at = self.locate(record.ip);
        let mut records: Vec<BanRecord> = Vec::new();
        std::mem::swap(&mut records, &mut self.records);
        let ghost rv = record@;
        let ghost k = at.0 as int;
        if at.1 {
            records.set(at.0, record);
            proof {
                let after = record_views(records@);
                assert(after =~= before.update(k, rv));
                assert forall|i: int, j: int| 0 <= i < j < after.len() implies (
                #[trigger] after[i]).ip.rank() < (#[trigger] after[j]).ip.rank() by {
                    assert(before[i].ip.rank() < before[j].ip.rank());
                }
                lemma_by_address(before);
                lemma_by_address(after);
                assert forall|ip: IpAddr| #[trigger] by_address(after).contains_key(ip)
                    == m.insert(rv.ip, rv).contains_key(ip) by {
                    if by_address(after).contains_key(ip) {
                        let i = choose|i: int|
                            0 <= i < after.len() && (#[trigger] after[i]).ip == ip;
                        assert(m.contains_key(before[i].ip));
                    }
                    if m.contains_key(ip) {
                        let i = choose|i: int|
                            0 <= i < before.len() && (#[trigger] before[i]).ip == ip;
                        assert(by_address(after).contains_key(after[i].ip));
                    }
                    assert(by_address(after).contains_key(after[k].ip));
                }
                assert forall|ip: IpAddr| #[trigger]
                    by_address(after).contains_key(ip) implies by_address(after)[ip] == m.insert(
                    rv.ip,
                    rv,
                )[ip] by {
                    let i = choose|i: int| 0 <= i < after.len() && (#[trigger] after[i]).ip == ip;
                    assert(by_address(after)[after[i].ip] == after[i]);
                    if i != k {
                        assert(m[before[i].ip] == before[i]);
                        if after[i].ip == after[k].ip {
                            assert(after[i].ip.rank() == after[k].ip.rank());
                        }
                    }
                }
                assert(by_address(after) =~= m.insert(rv.ip, rv));
            }
        } else {
            records.insert(at.0, record);
            proof {
                assert(record_views(records@) =~= before.insert(k, rv));
                assert forall|i: int| 0 <= i < before.len() implies (
                #[trigger] before[i]).ip.rank() < rv.ip.rank() <==> i < k by {
                    assert(before[i] == old(self).records@[i]@);
                }
                lemma_inserted(before, k, rv);
            }
        }
        self.records = records;
    }

    /// Takes the record of `ip` out, if there is one.
    pub fn remove(&mut self, ip: IpAddr)
        ensures
            final(self)@ == old(self)@.remove(ip),
    {
        proof {
            use_type_invariant(&*self);
        }
        let ghost before = record_views(self.records@);
        let ghost m = self@;
        let at = self.locate(ip);
        if !at.1 {
            assert(m.remove(ip) =~= m);
            return;
        }
        let mut records: Vec<BanRecord> = Vec::new();
        std::mem::swap(&mut records, &mut self.records);
        let ghost k = at.0 as int;
        records.remove(at.0);
        proof {
            let after = record_views(records@);
            assert(after =~= before.remove(k));
            assert(before[k].ip == ip);
            assert forall|i: int, j: int| 0 <= i < j < after.len() implies (
            #[trigger] after[i]).ip.rank() < (#[trigger] after[j]).ip.rank() by {
                let x = if i < k {
                    i
                } else {
                    i + 1
                };
                let y = if j < k {
                    j
                } else {
                    j + 1
                };
                assert(after[i] == before[x]);
                assert(after[j] == before[y]);
                assert(before[x].ip.rank() < before[y].ip.rank());
            }
            lemma_by_address(before);
            lemma_by_address(after);
            assert forall|a: IpAddr| #[trigger] by_address(after).contains_key(a) == m.remove(
                ip,
            ).contains_key(a) by {
                if by_address(after).contains_key(a) {
                    let i = choose|i: int| 0 <= i < after.len() && (#[trigger] after[i]).ip == a;
                    let x = if i < k {
                        i
                    } else {
                        i + 1
                    };
                    assert(after[i] == before[x]);
                    assert(m.contains_key(before[x].ip));
                    if a == ip {
                        assert(before[x].ip.rank() == before[k].ip.rank());
                    }
                }
                if m.contains_key(a) && a != ip {
                    let i = choose|i: int| 0 <= i < before.len() && (#[trigger] before[i]).ip == a;
                    if i < k {
                        assert(after[i] == before[i]);
                    } else {
                        assert(after[i - 1] == before[i]);
                    }
                }
            }
            assert forall|a: IpAddr| #[trigger] by_address(after).contains_key(a) implies by_address(
                after,
            )[a] == m.remove(ip)[a] by {
                let i = choose|i: int| 0 <= i < after.len() && (#[trigger] after[i]).ip == a;
                let x = if i < k {
                    i
                } else {
                    i + 1
                };
                assert(after[i] == before[x]);
                assert(by_address(after)[after[i].ip] == after[i]);
                assert(m[before[x].ip] == before[x]);
            }
            assert(by_address(after) =~= m.remove(ip));
        }
        self.records = records;
    }

    /// The records in the order of their addresses.
    pub fn to_vec(&self) -> (r: Vec<BanRecord>)
        ensures
            lists(record_views(r@), self@),
    {
        proof {
            use_type_invariant(self);
        }
        copy_records(self.records.as_slice())
    }
}

impl Clone for BanTable {
    fn clone(&self) -> (r: BanTable)
        ensures
            r@ == self@,
    {
        proof {
            use_type_invariant(self);
        }
        BanTable { records: copy_records(self.records.as_slice()) }
    }
}

proof fn lemma_by_address_len(records: Seq<BanRecordView>)
    requires
        ascending(records),
    ensures
        by_address(records).dom().finite(),
        by_address(records).dom().len() == records.len(),
    decreases records.len(),
{
    if records.len() > 0 {
        lemma_last_is_new(records);
        lemma_by_address_len(records.drop_last());
    }
}

// ---------------------------------------------------------------------------
// The snapshot

/// The contents of a snapshot file.
#[derive(Debug)]
pub struct BannedIpsFile {
    pub updated_at: Timestamp,
    pub ips: Vec<BanRecord>,
}

impl Clone for BannedIpsFile {
    fn clone(&self) -> (r: BannedIpsFile)
        ensures
            r.updated_at == self.updated_at,
            record_views(r.ips@) == record_views(self.ips@),
    {
        BannedIpsFile { updated_at: self.updated_at, ips: copy_records(self.ips.as_slice()) }
    }
}

impl BannedIpsFile {
    /// A snapshot of the records, made now.
    pub fn from_records(records: &BanTable) -> (r: BannedIpsFile)
        ensures
            lists(record_views(r.ips@), records@),
            r.updated_at.nanos < 1_000_000_000,
            clock_gave(r.updated_at),
    {
        BannedIpsFile { updated_at: utc_now(), ips: records.to_vec() }
    }
}

/// The snapshot that takes the place of the snapshot file and the journal.
pub fn compact_banned_ips(records: &BanTable) -> (r: BannedIpsFile)
    ensures
        lists(record_views(r.ips@), records@),
        r.updated_at.nanos < 1_000_000_000,
        clock_gave(r.updated_at),
{
    BannedIpsFile::from_records(records)
}

/// The snapshot that keeps the records.
pub fn save_banned_ips(records: &BanTable) -> (r: BannedIpsFile)
    ensures
        lists(record_views(r.ips@), records@),
        r.updated_at.nanos < 1_000_000_000,
        clock_gave(r.updated_at),
{
    compact_banned_ips(records)
}

/// How far a compaction is.
#[derive(Clone, Copy, Debug, PartialEq, Eq, Structural)]
pub enum CompactionStep {
    /// Put the new snapshot in the place of the old one.
    ReplaceSnapshot,
    /// Remove the journal if there is one.
    RemoveJournal,
    Done,
    Failed,
}

/// What comes after a step: the journal goes only once the new snapshot is in
/// place, and the compaction is done once the journal is gone.
pub open spec fn compaction_after(step: CompactionStep, ok: bool) -> CompactionStep {
    match step {
        CompactionStep::ReplaceSnapshot => if ok {
            CompactionStep::RemoveJournal
        } else {
            CompactionStep::Failed
        },
        CompactionStep::RemoveJournal => if ok {
            CompactionStep::Done
        } else {
            CompactionStep::Failed
        },
        CompactionStep::Done => CompactionStep::Done,
        CompactionStep::Failed => CompactionStep::Failed,
    }
}

impl CompactionStep {
    pub fn start() -> (r: CompactionStep)
        ensures
            r == CompactionStep::ReplaceSnapshot,
    {
        CompactionStep::ReplaceSnapshot
    }

    /// The next step, by whether this one succeeded.
    pub fn after(&self, ok: bool) -> (r: CompactionStep)
        ensures
            r == compaction_after(*self, ok),
    {
        match self {
            CompactionStep::ReplaceSnapshot => if ok {
                CompactionStep::RemoveJournal
            } else {
                CompactionStep::Failed
            },
            CompactionStep::RemoveJournal => if ok {
                CompactionStep::Done
            } else {
                CompactionStep::Failed
            },
            CompactionStep::Done => CompactionStep::Done,
            CompactionStep::Failed => CompactionStep::Failed,
        }
    }
}

/// The records of a snapshot; of several of one address the last counts.
pub fn load_snapshot(ips: Vec<BanRecord>) -> (records: BanTable)
    ensures
        records@ == by_address(record_views(ips@)),
{
    let mut records = BanTable::new();
    let mut i: usize = 0;
    while i < ips.len()
        invariant
            i <= ips@.len(),
            records@ == by_address(record_views(ips@.take(i as int))),
        decreases ips@.len() - i,
    {
        proof {
            let next = record_views(ips@.take(i + 1));
            assert(next.drop_last() =~= record_views(ips@.take(i as int)));
            assert(next.last() == ips@[i as int]@);
        }
        records.insert(ips[i].clone());
        i += 1;
    }
    assert(ips@.take(i as int) =~= ips@);
    records
}

// ---------------------------------------------------------------------------
// Changes

/// A change of the set of banned sources.
#[derive(Debug, PartialEq, Eq)]
pub enum BanStateChange {
    Ban { record: BanRecord },
    Unban { ip: IpAddr },
}

pub enum BanStateChangeView {
    Ban { record: BanRecordView },
    Unban { ip: IpAddr },
}

impl View for BanStateChange {
    type V = BanStateChangeView;

    open spec fn view(&self) -> BanStateChangeView {
        match self {
            BanStateChange::Ban { record } => BanStateChangeView::Ban { record: record@ },
            BanStateChange::Unban { ip } => BanStateChangeView::Unban { ip: *ip },
        }
    }
}

impl BanStateChangeView {
    /// The source that the change is about.
    pub open spec fn ip(self) -> IpAddr {
        match self {
            BanStateChangeView::Ban { record } => record.ip,
            BanStateChangeView::Unban { ip } => ip,
        }
    }

    /// The records after the change.
    pub open spec fn applied(self, records: Map<IpAddr, BanRecordView>) -> Map<
        IpAddr,
        BanRecordView,
    > {
        match self {
            BanStateChangeView::Ban { record } => records.insert(record.ip, record),
            BanStateChangeView::Unban { ip } => records.remove(ip),
        }
    }
}

impl Clone for BanStateChange {
    fn clone(&self) -> (r: BanStateChange)
        ensures
            r@ == self@,
    {
        match self {
            BanStateChange::Ban { record } => BanStateChange::Ban { record: record.clone() },
            BanStateChange::Unban { ip } => BanStateChange::Unban { ip: *ip },
        }
    }
}

impl BanStateChange {
    pub fn ip(&self) -> (r: IpAddr)
        ensures
            r == self@.ip(),
    {
        match self {
            BanStateChange::Ban { record } => record.ip,
            BanStateChange::Unban { ip } => *ip,
        }
    }

    pub fn apply_to(&self, records: &mut BanTable)
        ensures
            final(records)@ == self@.applied(old(records)@),
    {
        match self {
            BanStateChange::Ban { record } => {
                records.insert(record.clone());
            },
            BanStateChange::Unban { ip } => {
                records.remove(*ip);
            },
        }
    }
}

/// The records after changes, one after the other.
pub open spec fn replayed(
    records: Map<IpAddr, BanRecordView>,
    changes: Seq<BanStateChangeView>,
) -> Map<IpAddr, BanRecordView>
    decreases changes.len(),
{
    if changes.len() == 0 {
        records
    } else {
        changes.last().applied(replayed(records, changes.drop_last()))
    }
}

// ---------------------------------------------------------------------------
// The journal

/// The length of the lines of a journal that are complete: all up to and with
/// the last line break.
pub open spec fn complete(raw: Seq<u8>) -> nat
    decreases raw.len(),
{
    if raw.len() == 0 {
        0
    } else if raw.last() == 10u8 {
        raw.len()
    } else {
        complete(raw.drop_last())
    }
}

/// The position of the first line break, or the length if there is none.
pub open spec fn line_end(raw: Seq<u8>) -> nat
    decreases raw.len(),
{
    if raw.len() == 0 || raw[0] == 10u8 {
        0
    } else {
        1 + line_end(raw.drop_first())
    }
}

/// A byte that ASCII counts as white space: tab, line feed, form feed,
/// carriage return or space.
pub open spec fn is_blank_byte(b: u8) -> bool {
    b == 9 || b == 10 || b == 12 || b == 13 || b == 32
}

pub open spec fn is_blank(line: Seq<u8>) -> bool {
    forall|i: int| 0 <= i < line.len() ==> is_blank_byte(#[trigger] line[i])
}

/// The lines that hold an entry, each with its number; blank lines hold none.
pub open spec fn entry_lines(raw: Seq<u8>, number: nat) -> Seq<(nat, Seq<u8>)>
    decreases raw.len(),
{
    let end = line_end(raw);
    let line = raw.take(end as int);
    let rest = if end < raw.len() {
        entry_lines(raw.skip(end as int + 1), number + 1)
    } else {
        Seq::empty()
    };
    if is_blank(line) {
        rest
    } else {
        seq![(number, line)] + rest
    }
}

/// The entries of a journal: what follows the last line break is not one.
pub open spec fn journal_entries(raw: Seq<u8>) -> Seq<(nat, Seq<u8>)> {
    entry_lines(raw.take(complete(raw) as int), 1)
}

/// One line of a journal with its number, from 1.
#[derive(Debug, PartialEq, Eq)]
pub struct JournalLine {
    pub number: usize,
    pub bytes: Vec<u8>,
}

impl View for JournalLine {
    type V = (nat, Seq<u8>);

    open spec fn view(&self) -> (nat, Seq<u8>) {
        (self.number as nat, self.bytes@)
    }
}

pub open spec fn line_views(lines: Seq<JournalLine>) -> Seq<(nat, Seq<u8>)> {
    lines.map_values(|l: JournalLine| l@)
}

proof fn lemma_complete(raw: Seq<u8>)
    ensures
        complete(raw) <= raw.len(),
        complete(raw) > 0 ==> raw[complete(raw) - 1] == 10u8,
        forall|i: int| complete(raw) <= i < raw.len() ==> raw[i] != 10u8,
    decreases raw.len(),
{
    if raw.len() > 0 && raw.last() != 10u8 {
        let head = raw.drop_last();
        lemma_complete(head);
        assert forall|i: int| complete(raw) <= i < raw.len() implies raw[i] != 10u8 by {
            if i < head.len() {
                assert(raw[i] == head[i]);
            }
        }
    }
}

proof fn lemma_complete_is(raw: Seq<u8>, k: int)
    requires
        0 <= k <= raw.len(),
        k > 0 ==> raw[k - 1] == 10u8,
        forall|i: int| k <= i < raw.len() ==> raw[i] != 10u8,
    ensures
        complete(raw) == k,
{
    lemma_complete(raw);
    if complete(raw) < k {
        assert(raw[k - 1] != 10u8);
    }
    if complete(raw) > k {
        assert(raw[complete(raw) - 1] != 10u8);
    }
}

proof fn lemma_line_end(raw: Seq<u8>)
    ensures
        line_end(raw) <= raw.len(),
        forall|i: int| 0 <= i < line_end(raw) ==> raw[i] != 10u8,
        line_end(raw) < raw.len() ==> raw[line_end(raw) as int] == 10u8,
    decreases raw.len(),
{
    if raw.len() > 0 && raw[0] != 10u8 {
        let rest = raw.drop_first();
        lemma_line_end(rest);
        assert forall|i: int| 0 <= i < line_end(raw) implies raw[i] != 10u8 by {
            if i > 0 {
                assert(raw[i] == rest[i - 1]);
            }
        }
    }
}

proof fn lemma_line_end_is(raw: Seq<u8>, k: int)
    requires
        0 <= k <= raw.len(),
        forall|i: int| 0 <= i < k ==> raw[i] != 10u8,
        k < raw.len() ==> raw[k] == 10u8,
    ensures
        line_end(raw) == k,
{
    lemma_line_end(raw);
    if line_end(raw) < k {
        assert(raw[line_end(raw) as int] != 10u8);
    }
    if line_end(raw) > k {
        assert(raw[k] != 10u8);
    }
}

/// The length to which a journal is cut back when it ends inside a line.
pub fn complete_len(raw: &[u8]) -> (n: usize)
    ensures
        n == complete(raw@),
        n <= raw@.len(),
{
    let mut n: usize = raw.len();
    while n > 0 && raw[n - 1] != 10u8
        invariant
            n <= raw@.len(),
            forall|i: int| n <= i < raw@.len() ==> raw@[i] != 10u8,
        decreases n,
    {
        n -= 1;
    }
    proof {
        lemma_complete_is(raw@, n as int);
    }
    n
}

fn blank_line(raw: &[u8], from: usize, to: usize) -> (r: bool)
    requires
        from <= to <= raw@.len(),
    ensures
        r == is_blank(raw@.subrange(from as int, to as int)),
{
    let ghost line = raw@.subrange(from as int, to as int);
    let mut i: usize = from;
    while i < to
        invariant
            from <= i <= to <= raw@.len(),
            line == raw@.subrange(from as int, to as int),
            forall|k: int| 0 <= k < i - from ==> is_blank_byte(#[trigger] line[k]),
        decreases to - i,
    {
        let b = raw[i];
        if !(b == 9 || b == 10 || b == 12 || b == 13 || b == 32) {
            assert(!is_blank_byte(line[i - from]));
            return false;
        }
        i += 1;
    }
    true
}

/// The lines of a journal that hold an entry.
pub fn journal_lines(raw: &[u8]) -> (lines: Vec<JournalLine>)
    ensures
        line_views(lines@) == journal_entries(raw@),
{
    let n = complete_len(raw);
    let ghost whole = raw@.take(n as int);
    let mut lines: Vec<JournalLine> = Vec::new();
    let mut start: usize = 0;
    let mut number: usize = 1;
    let ghost mut next: nat = 1;
    proof {
        lemma_complete(raw@);
        assert(whole.skip(0) =~= whole);
        assert(line_views(lines@) =~= Seq::empty());
        assert(Seq::<(nat, Seq<u8>)>::empty() + entry_lines(whole, 1) =~= entry_lines(whole, 1));
    }
    while start < n
        invariant
            n <= raw@.len(),
            n > 0 ==> raw@[n - 1] == 10u8,
            whole == raw@.take(n as int),
            start <= n,
            start < n ==> number == next && number <= start + 1,
            line_views(lines@) + entry_lines(whole.skip(start as int), next) == entry_lines(
                whole,
                1,
            ),
        decreases n - start,
    {
        let ghost rest = whole.skip(start as int);
        let mut end: usize = start;
        while raw[end] != 10u8
            invariant
                start <= end < n <= raw@.len(),
                raw@[n - 1] == 10u8,
                forall|i: int| start <= i < end ==> raw@[i] != 10u8,
            decreases n - end,
        {
            end += 1;
        }
        let ghost line = raw@.subrange(start as int, end as int);
        let ghost known = line_views(lines@);
        proof {
            assert forall|i: int| 0 <= i < end - start implies rest[i] != 10u8 by {
                assert(rest[i] == raw@[start + i]);
            }
            assert(rest[end - start] == raw@[end as int]);
            lemma_line_end_is(rest, end - start);
            assert(rest.take(end - start) =~= line);
        }
        if !blank_line(raw, start, end) {
            let bytes = vstd::slice::slice_to_vec(vstd::slice::slice_subrange(raw, start, end));
            let entry = JournalLine { number, bytes };
            assert(line_views(lines@.push(entry)) =~= known.push(entry@));
            lines.push(entry);
        }
        proof {
            let tail = entry_lines(rest.skip(end - start + 1), next + 1);
            if !is_blank(line) {
                assert(known.push((next, line)) + tail =~= known + (seq![(next, line)] + tail));
            }
            assert(rest.skip(end - start + 1) =~= whole.skip(end + 1));
            next = next + 1;
        }
        start = end + 1;
        if start < n {
            number += 1;
        }
    }
    proof {
        assert(whole.skip(start as int) =~= Seq::empty());
        assert(entry_lines(Seq::empty(), next) =~= Seq::empty());
        assert(line_views(lines@) + Seq::<(nat, Seq<u8>)>::empty() =~= line_views(lines@));
    }
    lines
}

/// The line that a change is written as.
pub fn journal_line(json: Vec<u8>) -> (line: Vec<u8>)
    ensures
        line@ == json@.push(10u8),
{
    let mut line = json;
    line.push(10u8);
    line
}

/// A line of the journal that is not a change.
#[derive(Clone, Copy, Debug, PartialEq, Eq, Structural)]
pub struct JournalParseError {
    pub line: usize,
}

/// The number of entries before the first one that could not be read.
pub open spec fn readable(parsed: Seq<Option<BanStateChange>>) -> nat
    decreases parsed.len(),
{
    if parsed.len() == 0 || parsed[0] is None {
        0
    } else {
        1 + readable(parsed.drop_first())
    }
}

/// The changes among the first `n` entries, all of which were read.
pub open spec fn changes_read(parsed: Seq<Option<BanStateChange>>, n: nat) -> Seq<
    BanStateChangeView,
> {
    Seq::new(n, |i: int| parsed[i]->0@)
}

proof fn lemma_readable_is(parsed: Seq<Option<BanStateChange>>, k: int)
    requires
        0 <= k <= parsed.len(),
        forall|i: int| 0 <= i < k ==> (#[trigger] parsed[i]) is Some,
        k < parsed.len() ==> parsed[k] is None,
    ensures
        readable(parsed) == k,
    decreases k,
{
    if k > 0 {
        let rest = parsed.drop_first();
        assert(parsed[0] is Some);
        assert forall|i: int| 0 <= i < k - 1 implies (#[trigger] rest[i]) is Some by {
            assert(parsed[i + 1] is Some);
        }
        lemma_readable_is(rest, k - 1);
    }
}

/// Applies the entries of a journal to the records of the snapshot. `parsed`
/// holds what each line was read as; a line that is not a change ends the
/// replay.
pub fn replay_journal(
    lines: &Vec<JournalLine>,
    parsed: &Vec<Option<BanStateChange>>,
    records: &mut BanTable,
) -> (r: Result<(), JournalParseError>)
    requires
        lines@.len() == parsed@.len(),
    ensures
        final(records)@ == replayed(old(records)@, changes_read(parsed@, readable(parsed@))),
        match r {
            Ok(()) => readable(parsed@) == parsed@.len(),
            Err(e) => readable(parsed@) < parsed@.len() && e.line
                == lines@[readable(parsed@) as int].number,
        },
{
    let mut i: usize = 0;
    assert(changes_read(parsed@, 0) =~= Seq::empty());
    while i < parsed.len()
        invariant
            i <= parsed@.len() == lines@.len(),
            forall|k: int| 0 <= k < i ==> (#[trigger] parsed@[k]) is Some,
            records@ == replayed(old(records)@, changes_read(parsed@, i as nat)),
        decreases parsed@.len() - i,
    {
        match &parsed[i] {
            Some(change) => {
                change.apply_to(records);
                proof {
                    let next = changes_read(parsed@, (i + 1) as nat);
                    assert(next.drop_last() =~= changes_read(parsed@, i as nat));
                }
            },
            None => {
                proof {
                    lemma_readable_is(parsed@, i as int);
                }
                return Err(JournalParseError { line: lines[i].number });
            },
        }
        i += 1;
    }
    proof {
        lemma_readable_is(parsed@, i as int);
    }
    Ok(())
}

/// The records that a snapshot and a journal hold. Where a file is missing, its
/// list is empty.
pub fn load_banned_ips(
    snapshot: Vec<BanRecord>,
    lines: &Vec<JournalLine>,
    parsed: &Vec<Option<BanStateChange>>,
) -> (r: Result<BanTable, JournalParseError>)
    requires
        lines@.len() == parsed@.len(),
    ensures
        match r {
            Ok(records) => readable(parsed@) == parsed@.len() && records@ == replayed(
                by_address(record_views(snapshot@)),
                changes_read(parsed@, parsed@.len()),
            ),
            Err(e) => readable(parsed@) < parsed@.len() && e.line
                == lines@[readable(parsed@) as int].number,
        },
{
    let mut records = load_snapshot(snapshot);
    match replay_journal(lines, parsed, &mut records) {
        Ok(()) => Ok(records),
        Err(e) => Err(e),
    }
}

// ---------------------------------------------------------------------------
// File names

/// The name of a file beside the snapshot. A path without a file name stands
/// for the usual one.
pub open spec fn sidecar(file_name: Option<Seq<char>>, suffix: Seq<char>) -> Seq<char> {
    match file_name {
        Some(name) => name + suffix,
        None => "banned_ips.json"@ + suffix,
    }
}

pub open spec fn option_view(s: Option<&str>) -> Option<Seq<char>> {
    match s {
        Some(t) => Some(t@),
        None => None,
    }
}

fn sidecar_name(file_name: Option<&str>, suffix: &str) -> (r: String)
    ensures
        r@ == sidecar(option_view(file_name), suffix@),
{
    match file_name {
        Some(name) => name.to_string().concat(suffix),
        None => "banned_ips.json".to_string().concat(suffix),
    }
}

pub fn journal_name(file_name: Option<&str>) -> (r: String)
    ensures
        r@ == sidecar(option_view(file_name), ".journal"@),
{
    sidecar_name(file_name, ".journal")
}

pub fn pending_name(file_name: Option<&str>) -> (r: String)
    ensures
        r@ == sidecar(option_view(file_name), ".pending"@),
{
    sidecar_name(file_name, ".pending")
}

pub fn temp_name(file_name: Option<&str>) -> (r: String)
    ensures
        r@ == sidecar(option_view(file_name), ".tmp"@),
{
    sidecar_name(file_name, ".tmp")
}

// ---------------------------------------------------------------------------
// Laws

/// What a list of changes does to one address: the last change of that
/// address decides, or the records before where there is none.
pub open spec fn last_change(changes: Seq<BanStateChangeView>, ip: IpAddr) -> Option<
    BanStateChangeView,
>
    decreases changes.len(),
{
    if changes.len() == 0 {
        None
    } else if changes.last().ip() == ip {
        Some(changes.last())
    } else {
        last_change(changes.drop_last(), ip)
    }
}

/// After a replay an address is banned as its last change in the journal says,
/// and as the snapshot says where the journal does not mention it.
pub proof fn law_last_change_decides(
    records: Map<IpAddr, BanRecordView>,
    changes: Seq<BanStateChangeView>,
    ip: IpAddr,
)
    ensures
        match last_change(changes, ip) {
            Some(BanStateChangeView::Ban { record }) => replayed(records, changes).contains_key(ip)
                && replayed(records, changes)[ip] == record,
            Some(BanStateChangeView::Unban { .. }) => !replayed(records, changes).contains_key(ip),
            None => (replayed(records, changes).contains_key(ip) <==> records.contains_key(ip)) && (
            records.contains_key(ip) ==> replayed(records, changes)[ip] == records[ip]),
        },
    decreases changes.len(),
{
    if changes.len() > 0 {
        law_last_change_decides(records, changes.drop_last(), ip);
    }
}

/// Replaying a journal over records that already hold its changes changes
/// nothing. So a stop between the replacement of the snapshot and the removal
/// of the journal does no harm.
pub proof fn law_replay_is_idempotent(
    records: Map<IpAddr, BanRecordView>,
    changes: Seq<BanStateChangeView>,
)
    ensures
        replayed(replayed(records, changes), changes) == replayed(records, changes),
{
    let once = replayed(records, changes);
    let twice = replayed(once, changes);
    assert forall|ip: IpAddr| #[trigger] twice.contains_key(ip) == once.contains_key(ip) && (
    once.contains_key(ip) ==> twice[ip] == once[ip]) by {
        law_last_change_decides(records, changes, ip);
        law_last_change_decides(once, changes, ip);
    }
    assert(twice =~= once);
}

/// Compaction keeps the records: what is loaded from the new snapshot is what
/// was loaded from the old snapshot and the journal, whether or not the journal
/// is already gone.
pub proof fn law_compaction_keeps_the_records(
    snapshot: Seq<BanRecordView>,
    journal: Seq<BanStateChangeView>,
    compacted: Seq<BanRecordView>,
)
    requires
        lists(compacted, replayed(by_address(snapshot), journal)),
    ensures
        replayed(by_address(compacted), Seq::empty()) == replayed(by_address(snapshot), journal),
        replayed(by_address(compacted), journal) == replayed(by_address(snapshot), journal),
{
    law_replay_is_idempotent(by_address(snapshot), journal);
}

/// The snapshot and the journal, if there is one.
pub struct StateFilesView {
    pub snapshot: Seq<BanRecordView>,
    pub journal: Option<Seq<BanStateChangeView>>,
}

impl StateFilesView {
    /// The records that are loaded from the files.
    pub open spec fn records(self) -> Map<IpAddr, BanRecordView> {
        match self.journal {
            Some(changes) => replayed(by_address(self.snapshot), changes),
            None => replayed(by_address(self.snapshot), Seq::empty()),
        }
    }

    /// The files once a step of a compaction has succeeded.
    pub open spec fn compacted(
        self,
        step: CompactionStep,
        snapshot: Seq<BanRecordView>,
    ) -> StateFilesView {
        match step {
            CompactionStep::ReplaceSnapshot => StateFilesView { snapshot, ..self },
            CompactionStep::RemoveJournal => StateFilesView { journal: None, ..self },
            _ => self,
        }
    }
}

/// A compaction is done exactly when both steps succeeded. Then no journal is
/// left, the snapshot lists the records, each once and in the order of the
/// addresses, and they are what is loaded, whatever the files held before.
/// Where the files held these records, they are also what is loaded after a
/// stop between the two steps.
pub proof fn law_compaction_clears_the_journal(
    files: StateFilesView,
    snapshot: Seq<BanRecordView>,
    records: Map<IpAddr, BanRecordView>,
    replaced: bool,
    removed: bool,
)
    requires
        lists(snapshot, records),
    ensures
        ({
            let first = CompactionStep::ReplaceSnapshot;
            let second = compaction_after(first, replaced);
            let between = files.compacted(first, snapshot);
            let after = between.compacted(second, snapshot);
            &&& compaction_after(second, removed) == CompactionStep::Done <==> replaced && removed
            &&& replaced && removed ==> {
                &&& after.journal is None
                &&& after.snapshot == snapshot
                &&& ascending(after.snapshot)
                &&& after.records() == records
            }
            &&& files.records() == records ==> between.records() == records
        }),
{
    if files.records() == records {
        if let Some(changes) = files.journal {
            law_compaction_keeps_the_records(files.snapshot, changes, snapshot);
        }
    }
}

/// A change that is added to the journal is applied after all others.
pub proof fn law_appended_change_is_applied(
    records: Map<IpAddr, BanRecordView>,
    changes: Seq<BanStateChangeView>,
    change: BanStateChangeView,
)
    ensures
        replayed(records, changes.push(change)) == change.applied(replayed(records, changes)),
{
    assert(changes.push(change).drop_last() =~= changes);
}

/// The number of line breaks.
pub open spec fn line_breaks(raw: Seq<u8>) -> nat
    decreases raw.len(),
{
    if raw.len() == 0 {
        0
    } else {
        line_breaks(raw.drop_first()) + if raw[0] == 10u8 {
            1nat
        } else {
            0
        }
    }
}

proof fn lemma_line_breaks(raw: Seq<u8>, k: int)
    requires
        0 <= k < raw.len(),
        forall|i: int| 0 <= i < k ==> raw[i] != 10u8,
        raw[k] == 10u8,
    ensures
        line_breaks(raw) == 1 + line_breaks(raw.skip(k + 1)),
    decreases k,
{
    if k > 0 {
        let rest = raw.drop_first();
        assert forall|i: int| 0 <= i < k - 1 implies rest[i] != 10u8 by {
            assert(rest[i] == raw[i + 1]);
        }
        lemma_line_breaks(rest, k - 1);
        assert(rest.skip(k) =~= raw.skip(k + 1));
        assert(raw[0] != 10u8);
    } else {
        assert(raw.drop_first() =~= raw.skip(1));
    }
}

/// The lines of two parts, where the first ends with a line break.
proof fn lemma_entry_lines_add(a: Seq<u8>, b: Seq<u8>, number: nat)
    requires
        a.len() > 0 ==> a.last() == 10u8,
    ensures
        entry_lines(a + b, number) == entry_lines(a, number) + entry_lines(
            b,
            number + line_breaks(a),
        ),
    decreases a.len(),
{
    if a.len() == 0 {
        assert(a + b =~= b);
        assert(entry_lines(a, number) =~= Seq::empty());
        assert(Seq::<(nat, Seq<u8>)>::empty() + entry_lines(b, number) =~= entry_lines(b, number));
    } else {
        lemma_line_end(a);
        let end = line_end(a) as int;
        if end == a.len() {
            assert(a[a.len() - 1] != 10u8);
        }
        let whole = a + b;
        assert forall|i: int| 0 <= i < end implies whole[i] != 10u8 by {
            assert(whole[i] == a[i]);
        }
        lemma_line_end_is(whole, end);
        lemma_line_breaks(a, end);
        let rest = a.skip(end + 1);
        if rest.len() > 0 {
            assert(rest.last() == a.last());
        }
        lemma_entry_lines_add(rest, b, number + 1);
        assert(whole.skip(end + 1) =~= rest + b);
        assert(whole.take(end) =~= a.take(end));
        let more = entry_lines(b, number + line_breaks(a));
        let line = seq![(number, a.take(end))];
        assert(line + (entry_lines(rest, number + 1) + more) =~= line + entry_lines(
            rest,
            number + 1,
        ) + more);
    }
}

/// One line that is not blank is one entry.
proof fn lemma_one_line(json: Seq<u8>, number: nat)
    requires
        !json.contains(10u8),
        !is_blank(json),
    ensures
        entry_lines(json.push(10u8), number) == seq![(number, json)],
{
    let line = json.push(10u8);
    assert forall|i: int| 0 <= i < json.len() implies line[i] != 10u8 by {
        assert(json.contains(json[i]));
    }
    lemma_line_end_is(line, json.len() as int);
    assert(line.take(json.len() as int) =~= json);
    let rest = line.skip(json.len() as int + 1);
    assert(rest =~= Seq::empty());
    assert(entry_lines(rest, number + 1) =~= Seq::empty());
    assert(entry_lines(line, number) =~= seq![(number, json)]);
}

/// A journal that ends with a line break is complete.
proof fn lemma_ends_with_a_line(raw: Seq<u8>)
    requires
        raw.len() > 0 ==> raw.last() == 10u8,
    ensures
        complete(raw) == raw.len(),
        journal_entries(raw) == entry_lines(raw, 1),
{
    assert(raw.take(raw.len() as int) =~= raw);
}

/// A change written to a journal of complete lines is its next entry, as long
/// as it is one line and not blank; it leaves the others as they were.
pub proof fn law_appended_line_is_an_entry(raw: Seq<u8>, json: Seq<u8>)
    requires
        complete(raw) == raw.len(),
        !json.contains(10u8),
        !is_blank(json),
    ensures
        complete(raw + json.push(10u8)) == (raw + json.push(10u8)).len(),
        journal_entries(raw + json.push(10u8)) == journal_entries(raw).push(
            (1 + line_breaks(raw), json),
        ),
{
    let line = json.push(10u8);
    let whole = raw + line;
    lemma_complete(raw);
    assert(whole.last() == 10u8);
    lemma_ends_with_a_line(raw);
    lemma_ends_with_a_line(whole);
    lemma_entry_lines_add(raw, line, 1);
    lemma_one_line(json, 1 + line_breaks(raw));
}

/// What the entries of a journal are read as, where `read` says what a line is
/// read as.
pub open spec fn entries_read(
    raw: Seq<u8>,
    read: spec_fn(Seq<u8>) -> Option<BanStateChange>,
) -> Seq<Option<BanStateChange>> {
    journal_entries(raw).map_values(|entry: (nat, Seq<u8>)| read(entry.1))
}

/// The records that a snapshot and a journal hold, where all entries of the
/// journal can be read.
pub open spec fn loaded(
    snapshot: Seq<BanRecordView>,
    raw: Seq<u8>,
    read: spec_fn(Seq<u8>) -> Option<BanStateChange>,
) -> Map<IpAddr, BanRecordView> {
    replayed(
        by_address(snapshot),
        changes_read(entries_read(raw, read), entries_read(raw, read).len()),
    )
}

/// What is written is read back. Where the files can be loaded, a change is
/// written behind what loading leaves of the journal, and its line can be read
/// as that change, the files can be loaded again. What they hold is then what
/// they held before with the change applied: a ban puts its record under its
/// address, a release takes its address away, and every other record stays.
/// Files that hold nothing give no records.
pub proof fn law_appended_change_is_loaded(
    snapshot: Seq<BanRecordView>,
    raw: Seq<u8>,
    read: spec_fn(Seq<u8>) -> Option<BanStateChange>,
    json: Seq<u8>,
    change: BanStateChange,
)
    requires
        readable(entries_read(raw, read)) == entries_read(raw, read).len(),
        !json.contains(10u8),
        !is_blank(json),
        read(json) == Some(change),
    ensures
        ({
            let journal = raw.take(complete(raw) as int) + json.push(10u8);
            let before = loaded(snapshot, raw, read);
            &&& readable(entries_read(journal, read)) == entries_read(journal, read).len()
            &&& loaded(snapshot, journal, read) == match change@ {
                BanStateChangeView::Ban { record } => before.insert(record.ip, record),
                BanStateChangeView::Unban { ip } => before.remove(ip),
            }
        }),
        loaded(Seq::empty(), Seq::empty(), read) == Map::<IpAddr, BanRecordView>::empty(),
{
    let kept = raw.take(complete(raw) as int);
    let journal = kept + json.push(10u8);
    let parsed = entries_read(raw, read);
    let more = entries_read(journal, read);
    lemma_complete(raw);
    lemma_ends_with_a_line(kept);
    assert(journal_entries(kept) == journal_entries(raw));
    law_appended_line_is_an_entry(kept, json);
    assert(more =~= parsed.push(Some(change)));
    lemma_all_readable(parsed);
    assert forall|i: int| 0 <= i < more.len() implies (#[trigger] more[i]) is Some by {
        if i < parsed.len() {
            assert(parsed[i] is Some);
        }
    }
    lemma_readable_is(more, more.len() as int);
    let changes = changes_read(parsed, parsed.len());
    assert(changes_read(more, more.len()) =~= changes.push(change@));
    law_appended_change_is_applied(by_address(snapshot), changes, change@);
    assert(entries_read(Seq::empty(), read) =~= Seq::empty()) by {
        lemma_ends_with_a_line(Seq::empty());
        assert(entry_lines(Seq::empty(), 1) =~= Seq::empty());
    }
}

proof fn lemma_all_readable(parsed: Seq<Option<BanStateChange>>)
    requires
        readable(parsed) == parsed.len(),
    ensures
        forall|i: int| 0 <= i < parsed.len() ==> (#[trigger] parsed[i]) is Some,
    decreases parsed.len(),
{
    if parsed.len() > 0 {
        let rest = parsed.drop_first();
        lemma_readable_bound(rest);
        lemma_all_readable(rest);
        assert forall|i: int| 0 <= i < parsed.len() implies (#[trigger] parsed[i]) is Some by {
            if i > 0 {
                assert(rest[i - 1] is Some);
            }
        }
    }
}

proof fn lemma_readable_bound(parsed: Seq<Option<BanStateChange>>)
    ensures
        readable(parsed) <= parsed.len(),
    decreases parsed.len(),
{
    if parsed.len() > 0 {
        lemma_readable_bound(parsed.drop_first());
    }
}

/// What a write that was cut short left behind the last complete line is not
/// an entry, and cutting the journal back to its complete lines loses none.
pub proof fn law_torn_line_is_ignored(raw: Seq<u8>, torn: Seq<u8>)
    requires
        !torn.contains(10u8),
    ensures
        complete(raw + torn) == complete(raw),
        journal_entries(raw + torn) == journal_entries(raw),
        journal_entries((raw + torn).take(complete(raw + torn) as int)) == journal_entries(
            raw + torn,
        ),
{
    let whole = raw + torn;
    lemma_complete(raw);
    let k = complete(raw) as int;
    assert forall|i: int| k <= i < whole.len() implies whole[i] != 10u8 by {
        if i >= raw.len() {
            assert(torn.contains(torn[i - raw.len()]));
        } else {
            assert(whole[i] == raw[i]);
        }
    }
    lemma_complete_is(whole, k);
    assert(whole.take(k) =~= raw.take(k));
    let cut = whole.take(k);
    lemma_complete_is(cut, k);
    assert(cut.take(k) =~= cut);
}

/// The snapshot, its journal, the pending change and the files that are
/// written on the way to the snapshot and to the pending change are five
/// different files.
pub proof fn law_state_files_are_distinct(name: Seq<char>)
    ensures
        ({
            let journal = sidecar(Some(name), ".journal"@);
            let pending = sidecar(Some(name), ".pending"@);
            let temp = sidecar(Some(name), ".tmp"@);
            let pending_temp = sidecar(Some(pending), ".tmp"@);
            &&& name != journal && name != pending && name != temp && name != pending_temp
            &&& journal != pending && journal != temp && journal != pending_temp
            &&& pending != temp && pending != pending_temp
            &&& temp != pending_temp
        }),
{
    reveal_strlit(".journal");
    reveal_strlit(".pending");
    reveal_strlit(".tmp");
    let journal = sidecar(Some(name), ".journal"@);
    let pending = sidecar(Some(name), ".pending"@);
    let n = name.len() as int;
    assert(journal.len() == n + 8);
    assert(pending.len() == n + 8);
    assert(sidecar(Some(name), ".tmp"@).len() == n + 4);
    assert(sidecar(Some(pending), ".tmp"@).len() == n + 12);
    assert(journal[n + 1] == ".journal"@[1]);
    assert(pending[n + 1] == ".pending"@[1]);
    assert(journal[n + 1] != pending[n + 1]);
}

/// A change is about one source: a ban puts its record there, whatever was
/// there before, a release leaves nothing there, and no other source changes.
pub proof fn law_change_is_about_one_source(
    change: BanStateChangeView,
    records: Map<IpAddr, BanRecordView>,
    ip: IpAddr,
)
    ensures
        ({
            let after = change.applied(records);
            let own = match change {
                BanStateChangeView::Ban { record } => record.ip,
                BanStateChangeView::Unban { ip } => ip,
            };
            &&& change.ip() == own
            &&& ip != own ==> after.contains_key(ip) == records.contains_key(ip) && (
            records.contains_key(ip) ==> after[ip] == records[ip])
            &&& change is Unban ==> !after.contains_key(own)
            &&& change matches BanStateChangeView::Ban { record } ==> after.contains_key(own)
                && after[own] == record
        }),
{
}

/// A line is blank exactly when it holds nothing but tabs, line breaks, form
/// feeds, carriage returns and spaces.
pub proof fn law_blank_lines(line: Seq<u8>)
    ensures
        is_blank(line) <==> forall|i: int|
            0 <= i < line.len() ==> (#[trigger] line[i] == 9 || line[i] == 10 || line[i] == 12
                || line[i] == 13 || line[i] == 32),
{
    assert forall|i: int| 0 <= i < line.len() implies is_blank_byte(#[trigger] line[i]) == (line[i]
        == 9 || line[i] == 10 || line[i] == 12 || line[i] == 13 || line[i] == 32) by {
    }
}

/// What is complete of a journal ends with its last line break; without one
/// nothing is.
pub proof fn law_complete_lines_end_with_a_break(raw: Seq<u8>)
    ensures
        complete(raw) <= raw.len(),
        complete(raw) == 0 <==> !raw.contains(10u8),
        complete(raw) > 0 ==> raw[complete(raw) - 1] == 10u8,
        forall|i: int| complete(raw) <= i < raw.len() ==> raw[i] != 10u8,
{
    lemma_complete(raw);
    if complete(raw) > 0 {
        assert(raw.contains(raw[complete(raw) - 1]));
    }
}

/// A blank line is counted but is no entry: what follows it has the number of
/// its line.
pub proof fn law_blank_line_is_no_entry(raw: Seq<u8>, blank: Seq<u8>, json: Seq<u8>)
    requires
        complete(raw) == raw.len(),
        !blank.contains(10u8),
        is_blank(blank),
        !json.contains(10u8),
        !is_blank(json),
    ensures
        journal_entries(raw + blank.push(10u8)) == journal_entries(raw),
        journal_entries((raw + blank.push(10u8)) + json.push(10u8)) == journal_entries(raw).push(
            (2 + line_breaks(raw), json),
        ),
        journal_entries(Seq::empty()) == Seq::<(nat, Seq<u8>)>::empty(),
        line_breaks(Seq::empty()) == 0,
        line_breaks(raw + blank.push(10u8)) == line_breaks(raw) + 1,
{
    let line = blank.push(10u8);
    let whole = raw + line;
    lemma_complete(raw);
    lemma_ends_with_a_line(raw);
    lemma_ends_with_a_line(whole);
    lemma_entry_lines_add(raw, line, 1);
    let number = 1 + line_breaks(raw);
    assert forall|i: int| 0 <= i < blank.len() implies line[i] != 10u8 by {
        assert(blank.contains(blank[i]));
    }
    lemma_line_end_is(line, blank.len() as int);
    assert(line.take(blank.len() as int) =~= blank);
    let rest = line.skip(blank.len() as int + 1);
    assert(rest =~= Seq::empty());
    assert(entry_lines(rest, number + 1) =~= Seq::empty());
    assert(entry_lines(line, number) =~= Seq::empty());
    assert(journal_entries(whole) =~= journal_entries(raw));
    lemma_line_breaks(line, blank.len() as int);
    lemma_line_breaks_add(raw, line);
    law_appended_line_is_an_entry(whole, json);
    lemma_ends_with_a_line(Seq::empty());
    assert(entry_lines(Seq::empty(), 1) =~= Seq::empty());
}

proof fn lemma_line_breaks_add(a: Seq<u8>, b: Seq<u8>)
    ensures
        line_breaks(a + b) == line_breaks(a) + line_breaks(b),
    decreases a.len(),
{
    if a.len() == 0 {
        assert(a + b =~= b);
    } else {
        lemma_line_breaks_add(a.drop_first(), b);
        assert((a + b).drop_first() =~= a.drop_first() + b);
        assert((a + b)[0] == a[0]);
    }
}

/// Entries are read up to the first that is no change, and each as what it was
/// read as.
pub proof fn law_entries_are_read_in_order(parsed: Seq<Option<BanStateChange>>)
    ensures
        readable(parsed) <= parsed.len(),
        forall|i: int| 0 <= i < readable(parsed) ==> (#[trigger] parsed[i]) is Some,
        readable(parsed) < parsed.len() ==> parsed[readable(parsed) as int] is None,
        changes_read(parsed, readable(parsed)).len() == readable(parsed),
        forall|i: int|
            0 <= i < readable(parsed) ==> Some(
                #[trigger] changes_read(parsed, readable(parsed))[i],
            ) == Some(parsed[i]->0@),
    decreases parsed.len(),
{
    if parsed.len() > 0 && parsed[0] is Some {
        let rest = parsed.drop_first();
        law_entries_are_read_in_order(rest);
        assert forall|i: int| 0 <= i < readable(parsed) implies (#[trigger] parsed[i]) is Some by {
            if i > 0 {
                assert(rest[i - 1] is Some);
            }
        }
        if readable(parsed) < parsed.len() {
            assert(rest[readable(rest) as int] == parsed[readable(parsed) as int]);
        }
    }
}

/// The files beside the snapshot have its name with an ending, or the usual
/// name with it where the path has none.
pub proof fn law_files_stand_beside_the_snapshot(name: Seq<char>, suffix: Seq<char>)
    ensures
        sidecar(Some(name), suffix) == name + suffix,
        sidecar(None, suffix) == "banned_ips.json"@ + suffix,
{
}

/// A list of records holds, of each address, the record that comes last.
pub proof fn law_last_record_of_an_address_counts(
    records: Seq<BanRecordView>,
    record: BanRecordView,
    ip: IpAddr,
)
    ensures
        by_address(Seq::empty()) == Map::<IpAddr, BanRecordView>::empty(),
        by_address(records.push(record)).contains_key(record.ip),
        by_address(records.push(record))[record.ip] == record,
        ip != record.ip ==> by_address(records.push(record)).contains_key(ip) == by_address(
            records,
        ).contains_key(ip),
        ip != record.ip && by_address(records).contains_key(ip) ==> by_address(
            records.push(record),
        )[ip] == by_address(records)[ip],
{
    assert(records.push(record).drop_last() =~= records);
}

/// A list in the order of the addresses has no address twice, and lower
/// addresses come first: IPv4 before IPv6, and those of a family by number.
pub proof fn law_lists_are_in_order(
    list: Seq<BanRecordView>,
    records: Map<IpAddr, BanRecordView>,
    i: int,
    j: int,
)
    requires
        lists(list, records),
        0 <= i < j < list.len(),
    ensures
        list[i].ip != list[j].ip,
        match (list[i].ip, list[j].ip) {
            (IpAddr::V4(x), IpAddr::V4(y)) => x.bits < y.bits,
            (IpAddr::V6(x), IpAddr::V6(y)) => x.bits < y.bits,
            (IpAddr::V4(_), IpAddr::V6(_)) => true,
            (IpAddr::V6(_), IpAddr::V4(_)) => false,
        },
        records.contains_key(list[i].ip),
        records[list[i].ip] == list[i],
{
    lemma_by_address(list);
    assert(list[i].ip.rank() < list[j].ip.rank());
}

} // verus!

//! What callers can rely on: laws over the calls of the library, each of one
//! call or of several after one another.

use vstd::prelude::*;

use crate::addr;
use crate::addr::{IpAddr, Ipv4Addr};
use crate::admin;
use crate::admin::{BannedReply, MessageReply};
use crate::allowlist;
use crate::allowlist::{AllowlistEntry, AllowlistParseError, IpCidr};
use crate::ban::{Action, ActionView, BanManager, BanTask, Event, EventView};
use crate::config;
use crate::config::{
    AdminConfig, AppConfig, ConfigError, FirewallBackend, FirewallConfig, HoneypotConfig,
    WebdavConfig,
};
use crate::firewall;
use crate::firewall::{
    BackendLog, CommandRunner, CommandSpec, Firewall, FirewallAction, FirewallActionView, FirewallError,
    FirewallRun, SystemFirewall,
};
use crate::honeypot;
use crate::honeypot::{
    AcceptBackoff, BanQueue, BanQueueOutcome, BanRequest, Connection, ConnectionAction,
    ConnectionSettings, Listener, ListenerAction, ListenerEvent,
};
use crate::inline_admin;
use crate::inline_admin::{
    CandidateReader, Decision, DecisionView, InlineError, InlineHttpRequest, ReadStep,
    ReadStepView, UnbanBody,
};
use crate::logging;
use crate::logging::LogFile;
use crate::store;
use crate::store::{
    BanRecord, BanStateChange, BanStateChangeView, BanTable, BannedIpsFile, JournalLine,
    JournalParseError,
};
use crate::supervise;
use crate::supervise::{ReadinessError, StopTrigger, StopTriggerView};
use crate::text;
use crate::time::{Duration, Instant};
use crate::tracker;
use crate::tracker::{VisitDecision, VisitTracker};
use crate::webdav;
use crate::webdav::{
    SyncAction, SyncActionView, SyncEvent, SyncEventView, SyncTiming, SyncWorker, WebdavClient,
    WebdavPayload,
};

verus! {

// ---------------------------------------------------------------------------
// Time

/// Spans of time: a second is a thousand milliseconds and a thousand million
/// nanoseconds; the shorter of two is one of them; twice a span is its double
/// wherever that can be held.
pub proof fn law_spans_of_time(
    n: u64,
    seconds: Duration,
    millis: Duration,
    doubled: Duration,
    shorter: Duration,
    zero: bool,
    nanos: u128,
)
    requires
        call_ensures(Duration::from_secs, (n,), seconds),
        call_ensures(Duration::from_millis, (n,), millis),
        call_ensures(Duration::saturating_double, (&seconds,), doubled),
        call_ensures(Duration::min, (seconds, millis), shorter),
        call_ensures(Duration::is_zero, (&seconds,), zero),
        call_ensures(Duration::as_nanos, (&millis,), nanos),
    ensures
        seconds.nanos() == n * 1_000_000_000,
        millis.nanos() * 1_000 == seconds.nanos(),
        nanos == millis.nanos(),
        shorter.nanos() == millis.nanos(),
        zero <==> n == 0,
        2 * seconds.nanos() <= 18_446_744_073_709_551_615_999_999_999 ==> doubled.nanos() == 2
            * seconds.nanos(),
        doubled.nanos() <= 18_446_744_073_709_551_615_999_999_999,
{
}

/// What lies before the cutoff of a window is what is older than the window,
/// for every reading of the clock.
pub proof fn law_cutoff_parts_old_from_new(now: Instant, window: Duration, r: Instant, reading: i128)
    requires
        call_ensures(Instant::cutoff, (&now, window), r),
    ensures
        reading < r.nanos <==> now.nanos - reading > window.nanos(),
{
}

// ---------------------------------------------------------------------------
// Addresses and ranges

/// An address is read back from what it is written as.
pub proof fn law_addresses_are_read_back(
    ip: IpAddr,
    written: String,
    s: &str,
    read: Option<IpAddr>,
)
    requires
        call_ensures(IpAddr::to_string, (&ip,), written),
        s@ == written@,
        call_ensures(addr::parse_ip, (s,), read),
    ensures
        read == Some(ip),
{
    addr::law_address_round_trip(ip);
}

/// An IPv4 address is made of its four bytes, the highest first.
pub proof fn law_ipv4_addresses_are_made_of_bytes(a: u8, b: u8, c: u8, d: u8, made: Ipv4Addr)
    requires
        call_ensures(Ipv4Addr::new, (a, b, c, d), made),
    ensures
        made.bits == a * 0x100_0000 + b * 0x1_0000 + c * 0x100 + d,
{
    addr::lemma_octets_number(made.bits);
}

/// A range is made for any number of leading bits that its address has, and
/// holds exactly the addresses of that family that share them.
pub proof fn law_ranges_hold_what_shares_the_leading_bits(
    network: IpAddr,
    prefix: u8,
    made: Result<IpCidr, AllowlistParseError>,
    ip: IpAddr,
    held: bool,
)
    requires
        call_ensures(IpCidr::new, (network, prefix), made),
        made matches Ok(range) ==> call_ensures(IpCidr::contains, (&range, ip), held),
    ensures
        made is Ok <==> prefix <= if network is V6 {
            128u8
        } else {
            32u8
        },
        made is Ok ==> (held <==> match (network, ip) {
            (IpAddr::V4(n), IpAddr::V4(i)) => forall|k: nat|
                32 - prefix <= k < 32 ==> #[trigger] allowlist::bit(n.bits as nat, k)
                    == allowlist::bit(i.bits as nat, k),
            (IpAddr::V6(n), IpAddr::V6(i)) => forall|k: nat|
                128 - prefix <= k < 128 ==> #[trigger] allowlist::bit(n.bits as nat, k)
                    == allowlist::bit(i.bits as nat, k),
            _ => false,
        }),
{
    if made is Ok {
        allowlist::law_range_is_the_shared_leading_bits(network, prefix, ip);
    }
}

/// A source is on the allowlist exactly when an entry says so, and an entry for
/// one address says so of that address alone.
pub proof fn law_allowlist_is_what_its_entries_say(
    entries: Vec<AllowlistEntry>,
    ip: IpAddr,
    listed: bool,
    entry: AllowlistEntry,
    said: bool,
)
    requires
        call_ensures(allowlist::allowlisted, (&entries, ip), listed),
        call_ensures(AllowlistEntry::contains, (&entry, ip), said),
    ensures
        entries@.contains(entry) && said ==> listed,
        listed ==> exists|i: int| 0 <= i < entries@.len() && (#[trigger] entries@[i])@.covers(ip),
        entry matches AllowlistEntry::Ip(own) ==> (said <==> own == ip),
{
    if entries@.contains(entry) && said {
        let i = choose|i: int| 0 <= i < entries@.len() && entries@[i] == entry;
        assert(entries@[i]@.covers(ip));
    }
}

// ---------------------------------------------------------------------------
// Visits

/// Two visits of a source that was not seen before. The first is counted as
/// one. The second is counted as two where it comes inside the window of the
/// first, up to its very end, and as one where it comes later. Enough visits
/// are answered with a ban.
pub proof fn law_two_visits(
    a: &mut VisitTracker,
    b: &mut VisitTracker,
    ip: IpAddr,
    first: Instant,
    second: Instant,
    r: VisitDecision,
    s: VisitDecision,
)
    requires
        old(a)@.well_formed(),
        old(a)@.max_visits <= usize::MAX,
        !old(a)@.tracks(ip),
        call_ensures(VisitTracker::record_at, (a, ip, first), r),
        old(b)@ == final(a)@,
        call_ensures(VisitTracker::record_at, (b, ip, second), s),
        first.nanos <= second.nanos,
    ensures
        ({
            let most = old(a)@.max_visits;
            let together = second.nanos - first.nanos <= old(a)@.window;
            let one = if most == 1 {
                VisitDecision::Ban { count: 1 }
            } else {
                VisitDecision::Allow { count: 1 }
            };
            &&& r == one
            &&& s == if most == 1 || !together {
                one
            } else if most == 2 {
                VisitDecision::Ban { count: 2 }
            } else {
                VisitDecision::Allow { count: 2 }
            }
        }),
{
    tracker::law_record_keeps_the_bounds(old(a)@, ip, first.nanos);
    tracker::law_distant_visits_are_not_counted_together(
        old(a)@,
        ip,
        first.nanos,
        second.nanos,
    );
}

/// The same of visits now: what decides is by how much the monotonic clock has
/// gone on between the two.
pub proof fn law_two_visits_now(
    a: &mut VisitTracker,
    b: &mut VisitTracker,
    ip: IpAddr,
    r: VisitDecision,
    s: VisitDecision,
)
    requires
        old(a)@.well_formed(),
        old(a)@.max_visits <= usize::MAX,
        !old(a)@.tracks(ip),
        call_ensures(VisitTracker::record, (a, ip), r),
        old(b)@ == final(a)@,
        old(b).origin() == final(a).origin(),
        call_ensures(VisitTracker::record, (b, ip), s),
    ensures
        exists|first: i128, second: i128|
            {
                let most = old(a)@.max_visits;
                let one = if most == 1 {
                    VisitDecision::Ban { count: 1 }
                } else {
                    VisitDecision::Allow { count: 1 }
                };
                &&& #[trigger] tracker::clock_gave(old(a).origin(), first)
                &&& #[trigger] tracker::clock_gave(old(a).origin(), second)
                &&& r == one
                &&& first <= second && second - first > old(a)@.window ==> s == one
                &&& first <= second && second - first <= old(a)@.window && most > 1 ==> s
                    == if most == 2 {
                    VisitDecision::Ban { count: 2 }
                } else {
                    VisitDecision::Allow { count: 2 }
                }
            },
{
    let first = choose|now: i128| #[trigger]
        old(a)@.record(ip, now) == final(a)@ && tracker::clock_gave(old(a).origin(), now) && r
            == tracker::decision(final(a)@.history(ip), final(a)@.max_visits);
    let second = choose|now: i128| #[trigger]
        old(b)@.record(ip, now) == final(b)@ && tracker::clock_gave(old(b).origin(), now) && s
            == tracker::decision(final(b)@.history(ip), final(b)@.max_visits);
    tracker::law_record_keeps_the_bounds(old(a)@, ip, first);
    tracker::law_distant_visits_are_not_counted_together(old(a)@, ip, first, first);
    if first <= second {
        tracker::law_distant_visits_are_not_counted_together(old(a)@, ip, first, second);
    }
}

/// A new tracker knows no source and keeps to the limits that it was made with.
pub proof fn law_new_tracker_knows_nobody(
    window: Duration,
    max_visits: usize,
    max_tracked_ips: usize,
    t: VisitTracker,
    ip: IpAddr,
    known: bool,
    n: usize,
)
    requires
        call_ensures(VisitTracker::new, (window, max_visits, max_tracked_ips), t),
        call_ensures(VisitTracker::is_tracked, (&t, ip), known),
        call_ensures(VisitTracker::tracked_ip_count, (&t,), n),
        max_visits > 0,
        max_tracked_ips > 0,
        max_tracked_ips * 64 <= isize::MAX,
    ensures
        !known,
        n == 0,
        t@.window == window.nanos(),
        t@.max_visits == max_visits,
        t@.capacity == max_tracked_ips,
        t@.history(ip).len() == 0,
{
}

// ---------------------------------------------------------------------------
// Bans

/// The step that finds nothing pending dates the record of a new ban with what
/// the wall clock gave in it, and keeps it pending under the source and the
/// reason that the ban was asked for with.
pub proof fn law_bans_are_dated_by_the_wall_clock(
    manager: &mut BanManager,
    task: &mut BanTask,
    ip: IpAddr,
    reason: &str,
    started: (BanTask, Action),
    event: Event,
    action: Action,
)
    requires
        call_ensures(BanManager::ban_ip, (&*old(manager), ip, reason), started),
        old(task)@ == started.0@,
        !old(manager)@.records.contains_key(ip),
        event@ == (EventView::Pending { change: None }),
        call_ensures(BanManager::step, (manager, task, event), action),
    ensures
        started.1@ == ActionView::LoadPending,
        action@ matches ActionView::SavePending { change } && change
            matches BanStateChangeView::Ban { record } && {
            &&& record.ip == ip
            &&& record.reason == reason@
            &&& store::clock_gave(record.banned_at)
        },
        final(manager)@ == old(manager)@,
{
}

/// A record, a snapshot and an upload that are made now carry what the wall
/// clock gave.
pub proof fn law_what_is_made_now_is_dated_now(
    ip: IpAddr,
    reason: &str,
    record: BanRecord,
    records: BanTable,
    snapshot: BannedIpsFile,
    list: Vec<BanRecord>,
    payload: WebdavPayload,
)
    requires
        call_ensures(BanRecord::new, (ip, reason), record),
        call_ensures(BannedIpsFile::from_records, (&records,), snapshot),
        call_ensures(WebdavPayload::new, (list,), payload),
    ensures
        store::clock_gave(record@.banned_at),
        record@.ip == ip,
        record@.reason == reason@,
        store::clock_gave(snapshot.updated_at),
        store::clock_gave(payload.updated_at),
        payload.banned_count == list@.len(),
        payload.ips@.len() == list@.len(),
{
    assert(store::record_views(payload.ips@).len() == payload.ips@.len());
    assert(store::record_views(list@).len() == list@.len());
}

/// What the manager says is what it holds: a source is banned exactly when it
/// is listed.
pub proof fn law_banned_is_listed(
    manager: BanManager,
    ip: IpAddr,
    banned: bool,
    list: Vec<BanRecord>,
)
    requires
        store::valid_records(manager@.records),
        call_ensures(BanManager::is_banned, (&manager, ip), banned),
        call_ensures(BanManager::records_snapshot, (&manager,), list),
    ensures
        banned <==> exists|i: int| 0 <= i < list@.len() && (#[trigger] list@[i]).ip == ip,
{
    let views = store::record_views(list@);
    store::lemma_by_address(views);
    if banned {
        let i = choose|i: int| 0 <= i < views.len() && (#[trigger] views[i]).ip == ip;
        assert(views[i] == list@[i]@);
    }
    if exists|i: int| 0 <= i < list@.len() && (#[trigger] list@[i]).ip == ip {
        let i = choose|i: int| 0 <= i < list@.len() && (#[trigger] list@[i]).ip == ip;
        assert(views[i] == list@[i]@);
    }
}

/// A source waits for its ban once: asked for again it waits already, and only
/// when its ban was worked off can it be asked for anew. Others are not
/// affected.
pub proof fn law_queue_holds_a_source_once(
    q: &mut BanQueue,
    again: &mut BanQueue,
    worked: &mut BanQueue,
    request: BanRequest,
    first: BanQueueOutcome,
    second: BanQueueOutcome,
    other: IpAddr,
)
    requires
        !old(q)@.contains(request.ip),
        call_ensures(BanQueue::enqueue, (q, request), first),
        old(again)@ == final(q)@,
        call_ensures(BanQueue::enqueue, (again, request), second),
        old(worked)@ == final(again)@,
        call_ensures(BanQueue::complete, (worked, request.ip), ()),
        other != request.ip,
    ensures
        first == BanQueueOutcome::Queued,
        final(q)@.contains(request.ip),
        second == BanQueueOutcome::AlreadyPending,
        final(again)@ == final(q)@,
        !final(worked)@.contains(request.ip),
        final(worked)@.contains(other) == old(q)@.contains(other),
{
    assert(final(again)@ =~= final(q)@);
}

/// A table holds the record that was put in last under an address until it is
/// taken out, and leaves all others alone.
pub proof fn law_table_holds_the_last_record(
    table: &mut BanTable,
    emptied: &mut BanTable,
    record: BanRecord,
    other: IpAddr,
    held: bool,
)
    requires
        call_ensures(BanTable::insert, (table, record), ()),
        old(emptied)@ == final(table)@,
        call_ensures(BanTable::remove, (emptied, record.ip), ()),
        call_ensures(BanTable::contains_key, (&*old(emptied), record.ip), held),
        other != record.ip,
    ensures
        held,
        final(table)@.contains_key(record.ip) && final(table)@[record.ip] == record@,
        final(table)@.contains_key(other) == old(table)@.contains_key(other),
        !final(emptied)@.contains_key(record.ip),
        final(emptied)@.contains_key(other) == old(table)@.contains_key(other),
        old(table)@.contains_key(other) ==> final(emptied)@[other] == old(table)@[other],
{
}

// ---------------------------------------------------------------------------
// Files

/// What is saved is what is loaded, where there is no journal.
pub proof fn law_saved_records_are_loaded(
    records: BanTable,
    saved: BannedIpsFile,
    none: Vec<JournalLine>,
    nothing: Vec<Option<BanStateChange>>,
    loaded: Result<BanTable, JournalParseError>,
)
    requires
        call_ensures(store::save_banned_ips, (&records,), saved),
        none@.len() == 0,
        nothing@.len() == 0,
        call_ensures(store::load_banned_ips, (saved.ips, &none, &nothing), loaded),
    ensures
        loaded matches Ok(table) && table@ == records@,
{
    assert(store::changes_read(nothing@, 0) =~= Seq::empty());
}

/// A change is one line, and its line break is the only one.
pub proof fn law_a_change_is_one_line(json: Vec<u8>, line: Vec<u8>)
    requires
        !json@.contains(10u8),
        call_ensures(store::journal_line, (json,), line),
    ensures
        line@.last() == 10u8,
        line@.drop_last() == json@,
{
    assert(line@.drop_last() =~= json@);
}

/// The files beside the snapshot are named after it.
pub proof fn law_files_are_named_after_the_snapshot(
    name: &str,
    journal: String,
    pending: String,
    temp: String,
)
    requires
        call_ensures(store::journal_name, (Some(name),), journal),
        call_ensures(store::pending_name, (Some(name),), pending),
        call_ensures(store::temp_name, (Some(name),), temp),
    ensures
        journal@ == name@ + ".journal"@,
        pending@ == name@ + ".pending"@,
        temp@ == name@ + ".tmp"@,
{
}

/// Log files go when they are older than the days that are asked for, or when
/// enough newer ones are there; which ones is told by their places.
pub proof fn law_log_files_go_by_age_and_number(
    files: Vec<LogFile>,
    now: i128,
    days: u64,
    old_ones: Vec<usize>,
    most: usize,
    too_many: Vec<usize>,
    i: usize,
    j: usize,
)
    requires
        days * 86_400 <= u64::MAX,
        call_ensures(logging::expired_files, (&files, now, days), old_ones),
        call_ensures(logging::surplus_files, (&files, most), too_many),
        i < files@.len(),
        j < files@.len(),
    ensures
        old_ones@.contains(i) <==> days > 0 && now - files@[i as int].modified_at > (24 * 60 * 60)
            * 1_000_000_000 * days,
        too_many@.contains(i) && !too_many@.contains(j) ==> files@[i as int].modified_at
            <= files@[j as int].modified_at,
        files@.len() <= most ==> !too_many@.contains(i),
        most == 0 ==> too_many@.contains(i),
{
    logging::law_age_is_counted_in_days(
        files@[i as int].modified_at as int,
        now as int,
        days as int,
    );
    let times = logging::times_of(files@);
    assert(times[i as int] == files@[i as int].modified_at);
    assert(times[j as int] == files@[j as int].modified_at);
    if i != j {
        logging::law_places_follow_age(times, i as int, j as int);
    }
    if too_many@.contains(i) && !too_many@.contains(j) {
        logging::law_newest_files_are_kept(times, most as nat, j as int, i as int);
    }
    logging::lemma_ahead_bound(times, i as int, times.len() as int);
}

// ---------------------------------------------------------------------------
// Administration

/// A password is let in exactly when it is the one that is configured, and
/// without one nobody is.
pub proof fn law_only_the_same_password_is_let_in(
    shown: &str,
    expected: &str,
    same: bool,
    provided: Option<String>,
    granted: bool,
    refused: Option<MessageReply>,
)
    requires
        call_ensures(admin::password_matches, (shown, expected), same),
        call_ensures(admin::access_granted, (&provided, expected), granted),
        call_ensures(admin::refuse_unban, (&provided, expected), refused),
    ensures
        same <==> shown@ == expected@,
        provided is None ==> !granted,
        provided matches Some(p) ==> (granted <==> p@ == expected@),
        granted <==> refused is None,
        refused matches Some(reply) ==> reply.status == 401 && !reply.ok && reply.message@
            == "invalid password"@,
{
}

/// The list goes to those who are let in, whole and counted; others are
/// refused and get nothing of it.
pub proof fn law_the_list_is_whole_or_refused(
    ips: Vec<BanRecord>,
    shown: BannedReply,
    refused: BannedReply,
    health: MessageReply,
)
    requires
        call_ensures(admin::banned_reply, (true, ips), shown),
        call_ensures(admin::banned_reply, (false, ips), refused),
        call_ensures(admin::health_reply, (), health),
    ensures
        shown.status == 200 && shown.ok && shown.banned_count == ips@.len(),
        store::record_views(shown.ips@) == store::record_views(ips@),
        refused.status == 401 && !refused.ok && refused.banned_count == 0 && refused.ips@.len()
            == 0,
        health.status == 200 && health.ok && health.message@ == "ok"@,
{
    assert(store::record_views(ips@).len() == ips@.len());
    assert(store::record_views(refused.ips@).len() == refused.ips@.len());
}

/// A client that falls silent or goes away before it has shown a request to the
/// administration is a visitor like any other; after that it has failed.
pub proof fn law_silence_is_no_request(
    fresh: CandidateReader,
    reader: CandidateReader,
    closed: ReadStep,
    late: ReadStep,
)
    requires
        call_ensures(CandidateReader::new, (), fresh),
        call_ensures(CandidateReader::closed, (&reader,), closed),
        call_ensures(CandidateReader::timed_out, (&reader,), late),
    ensures
        fresh.spec_probing() && fresh.spec_buffer().len() == 0,
        reader.spec_probing() ==> closed@ is NotAdmin && late@ is NotAdmin,
        !reader.spec_probing() ==> closed@ == (ReadStepView::Fail {
            error: InlineError::ClosedEarly,
        }) && late@ == (ReadStepView::Fail { error: InlineError::DeadlineExceeded }),
{
}

/// What was received is kept, piece by piece and in its order.
pub proof fn law_received_bytes_are_kept(
    reader: &mut CandidateReader,
    later: &mut CandidateReader,
    a: &[u8],
    b: &[u8],
)
    requires
        call_ensures(CandidateReader::received, (reader, a), ()),
        old(later).spec_buffer() == final(reader).spec_buffer(),
        call_ensures(CandidateReader::received, (later, b), ()),
    ensures
        final(later).spec_buffer() == old(reader).spec_buffer() + a@ + b@,
        final(reader).spec_probing() == old(reader).spec_probing(),
{
}

// ---------------------------------------------------------------------------
// Configuration

/// A configuration is accepted exactly when all of it is sound, and what is
/// reported of another is a rule that it breaks.
pub proof fn law_validation_accepts_what_is_sound(
    c: AppConfig,
    filter_ok: bool,
    r: Result<(), ConfigError>,
)
    requires
        call_ensures(AppConfig::validate_with, (&c, filter_ok), r),
    ensures
        r is Ok <==> {
            &&& config::listener_is_sound(c)
            &&& config::password_is_sound(c)
            &&& config::inline_is_sound(c)
            &&& config::admin_is_sound(c)
            &&& config::firewall_is_sound(c)
            &&& config::upload_is_sound(c)
            &&& config::files_are_sound(c, filter_ok)
        },
        r matches Err(rule) ==> config::breaks(c, rule, filter_ok),
{
    config::law_sound_configurations_are_accepted(c, filter_ok);
    if let Err(rule) = r {
        assert(config::breaks(c, rule, filter_ok));
        if config::accepted(c, filter_ok) {
            assert(!config::breaks(c, rule, filter_ok));
        }
    }
}

/// What a connection is served with is what is configured, to the millisecond.
pub proof fn law_connections_are_served_as_configured(
    c: HoneypotConfig,
    a: AdminConfig,
    settings: ConnectionSettings,
)
    requires
        call_ensures(ConnectionSettings::from_config, (&c, &a), settings),
    ensures
        settings.banner@ == vstd::utf8::encode_utf8(c.banner@),
        settings.read_after_banner_timeout.nanos() == 1_000_000 * c.read_after_banner_timeout_ms,
        settings.close_delay.nanos() == 1_000_000 * c.close_delay_ms,
        settings.inline_admin <==> a.inline_on_honeypot_port,
{
}

// ---------------------------------------------------------------------------
// Upload

/// A worker that is told of a change sends exactly these records, of any
/// number, once the debounce is over, or at once where there is none.
pub proof fn law_a_worker_sends_every_change(
    timing: SyncTiming,
    started: (SyncWorker, SyncAction),
    told: &mut SyncWorker,
    waited: &mut SyncWorker,
    records: Vec<BanRecord>,
    noted: SyncAction,
    sent: SyncAction,
)
    requires
        call_ensures(SyncWorker::start, (timing,), started),
        old(told)@ == started.0@,
        call_ensures(SyncWorker::step, (told, SyncEvent::Changed { records }), noted),
        old(waited)@ == final(told)@,
        call_ensures(SyncWorker::step, (waited, SyncEvent::Elapsed), sent),
    ensures
        started.1@ is AwaitChange,
        ({
            let upload = SyncActionView::Upload { records: store::record_views(records@) };
            let debounce = timing.debounce.nanos();
            if debounce > 0 {
                noted@ == (SyncActionView::Wait { nanos: debounce }) && sent@ == upload
            } else {
                noted@ == upload
            }
        }),
{
    webdav::law_every_change_is_sent(
        started.0@,
        store::record_views(records@),
        store::record_views(records@),
        SyncEventView::Elapsed,
    );
}

/// The times of the upload are those that are configured, in seconds, and
/// `curl` is given nothing but the place of its configuration.
pub proof fn law_uploads_are_made_as_configured(
    c: WebdavConfig,
    timing: SyncTiming,
    path: &str,
    command: CommandSpec,
)
    requires
        call_ensures(SyncTiming::from_config, (&c,), timing),
        call_ensures(webdav::curl_command, (&c, path), command),
    ensures
        timing.debounce.nanos() == 1_000_000_000 * c.debounce_seconds,
        timing.retry_initial.nanos() == 1_000_000_000 * c.retry_initial_seconds,
        timing.retry_max.nanos() == 1_000_000_000 * c.retry_max_seconds,
        command@.program == c.curl_binary@,
        command@.args == seq!["--config"@, path@],
{
}

// ---------------------------------------------------------------------------
// Firewall

/// A ban starts with the first command of its plan, and a release with the
/// first of its own; without a plan both have succeeded at once.
pub proof fn law_plans_are_what_is_run(
    c: FirewallConfig,
    ip: IpAddr,
    planned: Vec<CommandSpec>,
    started: (FirewallRun, FirewallAction),
    planned_release: Vec<CommandSpec>,
    release: (FirewallRun, FirewallAction),
)
    requires
        call_ensures(firewall::planned_ban_commands, (&c, ip), planned),
        call_ensures(firewall::start_ban, (&c, ip), started),
        call_ensures(firewall::planned_unban_commands, (&c, ip), planned_release),
        call_ensures(firewall::start_unban, (&c, ip), release),
    ensures
        planned@.len() == 0 <==> c.backend == FirewallBackend::DryRun,
        planned_release@.len() == 0 <==> c.backend == FirewallBackend::DryRun,
        started.1@ == if planned@.len() == 0 {
            FirewallActionView::Finish { result: Ok(()) }
        } else {
            FirewallActionView::Run { command: planned@[0]@ }
        },
        release.1@ == if planned_release@.len() == 0 {
            FirewallActionView::Finish { result: Ok(()) }
        } else {
            FirewallActionView::Run { command: planned_release@[0]@ }
        },
        firewall::command_views(planned@) == firewall::ban_commands(c, ip),
        firewall::command_views(planned_release@) == firewall::unban_commands(c, ip),
{
    let views = firewall::command_views(planned@);
    let release_views = firewall::command_views(planned_release@);
    assert(views.len() == planned@.len());
    assert(release_views.len() == planned_release@.len());
    if planned@.len() > 0 {
        assert(views[0] == planned@[0]@);
    }
    if planned_release@.len() > 0 {
        assert(release_views[0] == planned_release@[0]@);
    }
}

/// What a firewall has run after a ban and a release, one after the other: the
/// plan of the ban, cut short only as a ban may be, and then that of the
/// release.
pub proof fn law_a_firewall_runs_its_plans<R: CommandRunner>(
    banning: &mut SystemFirewall<R>,
    releasing: &mut SystemFirewall<R>,
    ip: IpAddr,
    banned: Result<(), FirewallError>,
    released: Result<(), FirewallError>,
)
    requires
        call_ensures(
            <SystemFirewall<R> as Firewall>::ban,
            (banning, ip),
            banned,
        ),
        old(releasing).log() == final(banning).log(),
        old(releasing).spec_config() == final(banning).spec_config(),
        call_ensures(
            <SystemFirewall<R> as Firewall>::unban,
            (releasing, ip),
            released,
        ),
    ensures
        ({
            let c = old(banning).spec_config();
            let before = old(banning).log();
            let middle = final(banning).log();
            let after = final(releasing).log();
            let ban = firewall::ban_commands(c, ip);
            let release = firewall::unban_commands(c, ip);
            &&& before.len() <= middle.len() <= before.len() + ban.len()
            &&& middle.len() <= after.len() <= middle.len() + release.len()
            &&& forall|i: int|
                0 <= i < middle.len() - before.len() ==> (#[trigger] middle[before.len() + i]).0
                    == ban[i]
            &&& forall|i: int|
                0 <= i < after.len() - middle.len() ==> (#[trigger] after[middle.len() + i]).0
                    == release[i]
            &&& banned is Ok && c.backend != FirewallBackend::DryRun ==> firewall::succeeded(
                middle.last().1,
            )
            &&& c.backend == FirewallBackend::DryRun ==> banned is Ok && released is Ok && after
                == before
        }),
{
    let c = old(banning).spec_config();
    firewall::law_ban_runs_its_plan(
        old(banning).spec_runner(),
        c,
        ip,
        old(banning).log(),
        final(banning).log(),
        firewall::result_view(banned),
    );
    firewall::law_release_runs_its_plan(
        old(releasing).spec_runner(),
        c,
        ip,
        old(releasing).log(),
        final(releasing).log(),
        firewall::result_view(released),
    );
    if c.backend == FirewallBackend::DryRun {
        assert(final(banning).log() =~= old(banning).log());
        assert(final(releasing).log() =~= final(banning).log());
    }
}

// ---------------------------------------------------------------------------
// Visitors

/// A visitor on the allowlist is neither looked up nor counted; any other is
/// looked up first.
pub proof fn law_allowlisted_visitors_are_not_looked_up(
    ip: IpAddr,
    entries: Vec<AllowlistEntry>,
    listed: bool,
    settings: ConnectionSettings,
    opened: (Connection, ConnectionAction),
)
    requires
        call_ensures(allowlist::allowlisted, (&entries, ip), listed),
        call_ensures(Connection::open, (ip, &entries, &settings), opened),
    ensures
        listed <==> opened.1 != ConnectionAction::CheckBan,
        listed ==> !(opened.1 is RecordVisit) && !(opened.1 is Enqueue),
        opened.0@.ip == ip,
        opened.0@.allowlisted == listed,
{
}

/// Only the password opens: a request that is decided to show the list or to
/// release a source has shown it, and a release is of the source that was
/// named.
pub proof fn law_decisions_need_the_password(
    request: InlineHttpRequest,
    c: AdminConfig,
    pairs: Option<Vec<(String, String)>>,
    body: Option<UnbanBody>,
    d: Decision,
)
    requires
        call_ensures(inline_admin::decide, (&request, &c, pairs, body), d),
        !c.allow_legacy_get_password,
        !(d@ is Answer),
    ensures
        ({
            let header = match request@.authorization {
                Some(value) => admin::bearer(value),
                None => None,
            };
            header == Some(c.password@) || header is None && (body matches Some(b)
                && b@.password == Some(c.password@))
        }),
        d@ matches DecisionView::Unban { ip } ==> body matches Some(b) && b.ip == ip,
        inline_admin::subpath(request@.target, c.inline_path_prefix@) is Some,
{
    let path = inline_admin::subpath(request@.target, c.inline_path_prefix@);
    if path is None {
        inline_admin::law_nothing_is_outside_of_the_prefix(
            request@,
            c,
            inline_admin::option_pair_views(pairs),
            inline_admin::body_view(body),
        );
    } else {
        inline_admin::law_requests_are_answered(
            request@,
            c,
            inline_admin::option_pair_views(pairs),
            inline_admin::body_view(body),
            path->0,
        );
    }
}

// ---------------------------------------------------------------------------
// Start and end of the service

/// A start that is not completed stops the service and says what was missing;
/// so does a manager that cannot be told, and a signal that cannot be awaited.
/// A signal by itself stops it without a failure.
pub proof fn law_reasons_to_stop(
    honeypot: bool,
    admin_ready: Option<bool>,
    ready: Result<(), ReadinessError>,
    start: Option<StopTrigger>,
    error: &str,
    untold: StopTrigger,
    signal: StopTrigger,
    awaited: Result<(), String>,
)
    requires
        call_ensures(supervise::readiness, (honeypot, admin_ready), ready),
        call_ensures(supervise::readiness_trigger, (ready,), start),
        call_ensures(supervise::notify_trigger, (error,), untold),
        call_ensures(supervise::signal_trigger, (awaited,), signal),
    ensures
        start is None <==> honeypot && (admin_ready is None || admin_ready == Some(true)),
        !honeypot ==> start->0@ == (StopTriggerView::StartupFailure {
            error: "service readiness failed: "@
                + "honeypot listener stopped before reporting readiness"@,
        }),
        honeypot && admin_ready == Some(false) ==> start->0@ == (StopTriggerView::StartupFailure {
            error: "service readiness failed: "@ + "admin API stopped before reporting readiness"@,
        }),
        untold@ == (StopTriggerView::StartupFailure {
            error: "failed to notify service readiness: "@ + error@,
        }),
        awaited is Ok ==> signal@ is Signal,
        awaited matches Err(e) ==> signal@ == (StopTriggerView::StartupFailure {
            error: "failed to listen for shutdown signal: "@ + e@,
        }),
{
    supervise::law_all_listeners_have_to_be_ready(honeypot, admin_ready);
}

/// The service ends with an error exactly when something has failed, and the
/// error tells all of it, in its order.
pub proof fn law_the_end_tells_every_failure(failures: Vec<String>, r: Option<String>)
    requires
        call_ensures(supervise::exit_error, (&failures,), r),
    ensures
        r is None <==> failures@.len() == 0,
        failures@.len() == 1 ==> r->0@ == failures@[0]@,
        failures@.len() == 2 ==> r->0@ == failures@[0]@ + "; "@ + failures@[1]@,
{
    reveal_with_fuel(text::join, 3);
    let all = text::views(failures@);
    if failures@.len() >= 1 {
        assert(all[0] == failures@[0]@);
    }
    if failures@.len() == 2 {
        assert(all.drop_first()[0] == failures@[1]@);
    }
}

/// The last compaction and the workers add a failure each, where they failed,
/// behind those that are known.
pub proof fn law_later_failures_come_behind(
    a: &mut Vec<String>,
    b: &mut Vec<String>,
    name: &str,
    error: &str,
)
    requires
        call_ensures(supervise::collect_compaction, (Some(error), a), ()),
        text::views(old(b)@) == text::views(final(a)@),
        call_ensures(supervise::collect_worker, (name, Some(error), b), ()),
    ensures
        text::views(final(b)@) == text::views(old(a)@).push(
            "failed to compact banned IP state: "@ + error@,
        ).push(name@ + " task failed: "@ + error@),
{
    assert(text::views(final(b)@) =~= text::views(old(a)@).push(
        "failed to compact banned IP state: "@ + error@,
    ).push(name@ + " task failed: "@ + error@));
}

/// Where they did not fail, they add nothing.
pub proof fn law_no_failure_adds_nothing(a: &mut Vec<String>, b: &mut Vec<String>, name: &str)
    requires
        call_ensures(supervise::collect_compaction, (None::<&str>, a), ()),
        call_ensures(supervise::collect_worker, (name, None::<&str>, b), ()),
    ensures
        text::views(final(a)@) == text::views(old(a)@),
        text::views(final(b)@) == text::views(old(b)@),
{
    assert(text::views(final(a)@) =~= text::views(old(a)@));
    assert(text::views(final(b)@) =~= text::views(old(b)@));
}

/// The waits after failures to accept start at 50 milliseconds, double, and
/// start anew after a reset.
pub proof fn law_waits_double_and_start_anew(
    fresh: AcceptBackoff,
    a: &mut AcceptBackoff,
    b: &mut AcceptBackoff,
    c: &mut AcceptBackoff,
    first: Duration,
    second: Duration,
)
    requires
        call_ensures(AcceptBackoff::new, (), fresh),
        old(a).nanos() == fresh.nanos(),
        call_ensures(AcceptBackoff::next_delay, (a,), first),
        old(b).nanos() == final(a).nanos(),
        call_ensures(AcceptBackoff::next_delay, (b,), second),
        call_ensures(AcceptBackoff::reset, (c,), ()),
    ensures
        first.nanos() == 50_000_000,
        second.nanos() == 100_000_000,
        final(b).nanos() == 200_000_000,
        final(c).nanos() == 50_000_000,
{
}

/// Addresses are told apart and put in order: IPv4 before IPv6, and those of a
/// family by number.
pub proof fn law_order_of_addresses(a: IpAddr, b: IpAddr, before: bool, after: bool, v6: bool)
    requires
        call_ensures(IpAddr::before, (&a, &b), before),
        call_ensures(IpAddr::before, (&b, &a), after),
        call_ensures(IpAddr::is_ipv6, (&a,), v6),
    ensures
        a == b <==> !before && !after,
        !(before && after),
        v6 <==> a is V6,
        a is V4 && b is V6 ==> before,
{
}

/// A client is made wherever an upload has some time.
pub proof fn law_clients_need_time(
    c: WebdavConfig,
    made: Result<WebdavClient, ConfigError>,
    path: &str,
    written: String,
)
    requires
        call_ensures(WebdavClient::new, (c,), made),
        made matches Ok(client) ==> call_ensures(
            WebdavClient::prepare_upload,
            (&client, path),
            written,
        ),
    ensures
        made is Ok <==> c.timeout_seconds > 0,
        made matches Err(e) ==> e == ConfigError::WebdavTimeout,
        made is Ok ==> text::split(written@, '\n') == webdav::curl_lines(c, path@),
{
    if made is Ok {
        webdav::law_configuration_keeps_its_lines(c, path@);
    }
}

/// The log warns of the backends that have one rule for each source, and of no
/// other.
pub proof fn law_backends_with_many_rules_are_warned_of(c: FirewallConfig, log: BackendLog)
    requires
        call_ensures(firewall::log_firewall_backend, (&c,), log),
    ensures
        log.backend == c.backend,
        log.warning is Some <==> c.backend == FirewallBackend::Ufw || c.backend
            == FirewallBackend::Iptables,
{
}

/// A new listener binds its address before anything else.
pub proof fn law_a_listener_binds_first(
    started: (Listener, ListenerAction),
    bound: &mut Listener,
    failed: &mut Listener,
    ready: ListenerAction,
    gone: ListenerAction,
)
    requires
        call_ensures(Listener::start, (), started),
        old(bound)@ == started.0@,
        call_ensures(Listener::step, (bound, ListenerEvent::Bound), ready),
        old(failed)@ == started.0@,
        call_ensures(Listener::step, (failed, ListenerEvent::BindFailed), gone),
    ensures
        started.1 == ListenerAction::Bind,
        ready == ListenerAction::ReportReadyThenAwaitPermit,
        gone == ListenerAction::Fail,
{
}

/// A request is read with room for 32 header lines, and from the bytes that
/// were handed over; a reader that knows the administration to be asked for
/// reads the bytes that it has received in the same way.
pub proof fn law_requests_have_room_for_32_headers(
    buffer: &[u8],
    most: usize,
    r: Result<Option<InlineHttpRequest>, InlineError>,
    reader: &mut CandidateReader,
    c: AdminConfig,
    step: ReadStep,
)
    requires
        call_ensures(inline_admin::parse_complete_request, (buffer, most), r),
        call_ensures(CandidateReader::next_step, (reader, &c), step),
    ensures
        inline_admin::request_result(r) == inline_admin::request_of(
            inline_admin::head_of(buffer@, 32),
            buffer@,
            most as int,
        ),
        final(reader).spec_buffer() == old(reader).spec_buffer(),
        !old(reader).spec_probing() ==> !final(reader).spec_probing() && step@
            == inline_admin::request_step_of(
            inline_admin::request_of(
                inline_admin::head_of(old(reader).spec_buffer(), 32),
                old(reader).spec_buffer(),
                c.inline_max_request_bytes as int,
            ),
            old(reader).spec_buffer().len() as int,
            c.inline_max_request_bytes as int,
        ),
        old(reader).spec_probing() ==> match inline_admin::probe_step_of(
            old(reader).spec_buffer(),
            c,
        ) {
            Some(shown) => step@ == shown && final(reader).spec_probing(),
            None => !final(reader).spec_probing(),
        },
{
}

/// Bans that the honeypot asks for have one reason; of what `curl` says of an
/// error 64 KiB are read, and a process that was told to end is awaited for a
/// second.
pub proof fn law_fixed_values(reason: &'static str)
    requires
        call_ensures(honeypot::ban_reason, (), reason),
    ensures
        reason@ == "honeypot_rate_limit"@,
        webdav::MAX_CURL_STDERR_BYTES == 64 * 1024,
        webdav::PROCESS_REAP_TIMEOUT_SECS == 1,
        inline_admin::MAX_INLINE_HEADERS == 32,
        inline_admin::READ_CHUNK == 1024,
        honeypot::ACCEPT_BACKOFF_INITIAL_MILLIS == 50,
        honeypot::ACCEPT_BACKOFF_MAX_SECS == 1,
{
}

/// A manager holds the records that it was loaded with.
pub proof fn law_a_manager_holds_what_was_loaded(
    records: BanTable,
    sync: bool,
    manager: BanManager,
    ip: IpAddr,
    banned: bool,
    held: bool,
    started: (BanTask, Action),
)
    requires
        call_ensures(BanManager::load, (records, sync), manager),
        call_ensures(BanManager::is_banned, (&manager, ip), banned),
        call_ensures(BanTable::contains_key, (&records, ip), held),
        call_ensures(BanManager::setup_and_restore, (&manager,), started),
    ensures
        banned == held,
        manager@.records == records@,
        manager@.sync == sync,
        started.1@ == ActionView::SetupFirewall,
{
}

} // verus!

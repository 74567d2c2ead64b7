//! The upload of the banned sources: what is sent, how `curl` is told to send
//! it, and when.

use vstd::prelude::*;

use crate::addr;
use crate::addr::IpAddr;
use crate::config::{ConfigError, WebdavConfig};
use crate::firewall;
use crate::firewall::CommandSpec;
use crate::store;
use crate::store::{BanRecord, BanRecordView, Timestamp};
use crate::text;
use crate::time;
use crate::time::Duration;

verus! {

/// The most that is read of what `curl` says of an error.
pub const MAX_CURL_STDERR_BYTES: u64 = 65_536;

/// How long to wait for a process that was told to end, in seconds.
pub const PROCESS_REAP_TIMEOUT_SECS: u64 = 1;

// ---------------------------------------------------------------------------
// What is sent

#[derive(Debug)]
pub struct WebdavPayload {
    pub updated_at: Timestamp,
    pub banned_count: usize,
    pub ips: Vec<BanRecord>,
}

impl Clone for WebdavPayload {
    fn clone(&self) -> (r: WebdavPayload)
        ensures
            r.updated_at == self.updated_at,
            r.banned_count == self.banned_count,
            store::record_views(r.ips@) == store::record_views(self.ips@),
    {
        WebdavPayload {
            updated_at: self.updated_at,
            banned_count: self.banned_count,
            ips: store::copy_records(self.ips.as_slice()),
        }
    }
}

/// The records do not descend by address.
pub open spec fn ordered(records: Seq<BanRecordView>) -> bool {
    forall|i: int, j: int|
        0 <= i <= j < records.len() ==> (#[trigger] records[i]).ip.rank() <= (
        #[trigger] records[j]).ip.rank()
}

pub open spec fn has_ip(ip: IpAddr) -> spec_fn(BanRecordView) -> bool {
    |r: BanRecordView| r.ip == ip
}

/// The records of one address, in their order.
pub open spec fn of_ip(records: Seq<BanRecordView>, ip: IpAddr) -> Seq<BanRecordView> {
    records.filter(has_ip(ip))
}

/// `sorted` holds the records by address, and those of one address in the
/// order in which they came.
pub open spec fn is_sorted_by_ip(
    sorted: Seq<BanRecordView>,
    records: Seq<BanRecordView>,
) -> bool {
    &&& ordered(sorted)
    &&& sorted.len() == records.len()
    &&& forall|ip: IpAddr| #[trigger] of_ip(sorted, ip) == of_ip(records, ip)
}

proof fn lemma_of_ip_push(records: Seq<BanRecordView>, r: BanRecordView, ip: IpAddr)
    ensures
        of_ip(records.push(r), ip) == if r.ip == ip {
            of_ip(records, ip).push(r)
        } else {
            of_ip(records, ip)
        },
{
    reveal(Seq::filter);
    assert(records.push(r).drop_last() =~= records);
}

proof fn lemma_of_ip_none(records: Seq<BanRecordView>, ip: IpAddr)
    requires
        forall|i: int| 0 <= i < records.len() ==> (#[trigger] records[i]).ip != ip,
    ensures
        of_ip(records, ip) == Seq::<BanRecordView>::empty(),
    decreases records.len(),
{
    reveal(Seq::filter);
    if records.len() > 0 {
        lemma_of_ip_none(records.drop_last(), ip);
    }
}

/// A record that is put behind those of its address and before those of later
/// addresses.
proof fn lemma_of_ip_insert(records: Seq<BanRecordView>, k: int, r: BanRecordView, ip: IpAddr)
    requires
        0 <= k <= records.len(),
        forall|i: int| k <= i < records.len() ==> r.ip.rank() < (#[trigger] records[i]).ip.rank(),
    ensures
        of_ip(records.insert(k, r), ip) == of_ip(records.push(r), ip),
{
    let head = records.take(k);
    let tail = records.skip(k);
    assert(records.insert(k, r) =~= head.push(r) + tail);
    assert(records =~= head + tail);
    Seq::filter_distributes_over_add(head.push(r), tail, has_ip(ip));
    Seq::filter_distributes_over_add(head, tail, has_ip(ip));
    lemma_of_ip_push(head, r, ip);
    lemma_of_ip_push(records, r, ip);
    if r.ip == ip {
        assert forall|i: int| 0 <= i < tail.len() implies (#[trigger] tail[i]).ip != ip by {
            assert(r.ip.rank() < records[k + i].ip.rank());
        }
        lemma_of_ip_none(tail, ip);
        assert(of_ip(head, ip).push(r) + Seq::<BanRecordView>::empty() =~= (of_ip(head, ip)
            + Seq::<BanRecordView>::empty()).push(r));
    }
}

/// Sorts records by address; records of one address keep their order.
pub fn sort_by_ip(records: Vec<BanRecord>) -> (r: Vec<BanRecord>)
    ensures
        is_sorted_by_ip(store::record_views(r@), store::record_views(records@)),
{
    let ghost all = store::record_views(records@);
    let mut r: Vec<BanRecord> = Vec::new();
    let mut i: usize = 0;
    proof {
        assert(store::record_views(r@) =~= Seq::empty());
        assert(all.take(0) =~= Seq::empty());
    }
    while i < records.len()
        invariant
            i <= records@.len(),
            all == store::record_views(records@),
            is_sorted_by_ip(store::record_views(r@), all.take(i as int)),
        decreases records@.len() - i,
    {
        let ghost sorted = store::record_views(r@);
        let record = records[i].clone();
        let ghost v = record@;
        let mut k: usize = r.len();
        while k > 0 && record.ip.before(&r[k - 1].ip)
            invariant
                k <= r@.len(),
                sorted == store::record_views(r@),
                v == record@,
                forall|j: int| k <= j < sorted.len() ==> v.ip.rank() < (
                #[trigger] sorted[j]).ip.rank(),
            decreases k,
        {
            assert(sorted[k - 1] == r@[k - 1]@);
            k -= 1;
        }
        r.insert(k, record);
        proof {
            let after = store::record_views(r@);
            assert(after =~= sorted.insert(k as int, v));
            assert(k > 0 ==> sorted[k - 1].ip.rank() <= v.ip.rank());
            assert forall|a: int, b: int| 0 <= a <= b < after.len() implies (
            #[trigger] after[a]).ip.rank() <= (#[trigger] after[b]).ip.rank() by {
                if a < k {
                    assert(after[a] == sorted[a]);
                    assert(sorted[a].ip.rank() <= sorted[k - 1].ip.rank());
                }
                if b > k {
                    assert(after[b] == sorted[b - 1]);
                }
                if b < k {
                    assert(after[b] == sorted[b]);
                }
                if a > k {
                    assert(after[a] == sorted[a - 1]);
                }
            }
            let next = all.take(i + 1);
            assert(next =~= all.take(i as int).push(v));
            assert forall|ip: IpAddr| #[trigger] of_ip(after, ip) == of_ip(next, ip) by {
                assert(of_ip(sorted, ip) == of_ip(all.take(i as int), ip));
                lemma_of_ip_insert(sorted, k as int, v, ip);
                lemma_of_ip_push(sorted, v, ip);
                lemma_of_ip_push(all.take(i as int), v, ip);
            }
        }
        i += 1;
    }
    assert(all.take(i as int) =~= all);
    r
}

impl WebdavPayload {
    /// What is sent now.
    pub fn new(records: Vec<BanRecord>) -> (r: WebdavPayload)
        ensures
            is_sorted_by_ip(store::record_views(r.ips@), store::record_views(records@)),
            r.banned_count == records@.len(),
            r.updated_at.nanos < 1_000_000_000,
            store::clock_gave(r.updated_at),
    {
        let now = store::utc_now();
        proof {
            store::lemma_clock_gave(now);
        }
        WebdavPayload::at(now, records)
    }

    /// What is sent at a given moment.
    pub fn at(updated_at: Timestamp, records: Vec<BanRecord>) -> (r: WebdavPayload)
        ensures
            r.updated_at == updated_at,
            is_sorted_by_ip(store::record_views(r.ips@), store::record_views(records@)),
            r.banned_count == records@.len(),
    {
        let ips = sort_by_ip(records);
        WebdavPayload { updated_at, banned_count: ips.len(), ips }
    }
}

// ---------------------------------------------------------------------------
// The configuration of `curl`

/// A character inside quotes.
pub open spec fn escaped(c: char) -> Seq<char> {
    if c == '\\' {
        seq!['\\', '\\']
    } else if c == '"' {
        seq!['\\', '"']
    } else if c == '\t' {
        seq!['\\', 't']
    } else if c == '\r' {
        seq!['\\', 'r']
    } else if c == '\n' {
        seq!['\\', 'n']
    } else {
        seq![c]
    }
}

pub open spec fn all_escaped(s: Seq<char>) -> Seq<char>
    decreases s.len(),
{
    if s.len() == 0 {
        Seq::empty()
    } else {
        all_escaped(s.drop_last()) + escaped(s.last())
    }
}

/// A text in quotes.
pub open spec fn quoted(s: Seq<char>) -> Seq<char> {
    seq!['"'] + all_escaped(s) + seq!['"']
}

pub fn curl_quote(value: &str) -> (r: String)
    ensures
        r@ == quoted(value@),
{
    let chars = text::to_chars(value);
    let mut r = String::new();
    r.push('"');
    let mut i: usize = 0;
    assert(all_escaped(chars@.take(0)) =~= Seq::empty());
    assert(r@ =~= seq!['"'] + all_escaped(chars@.take(0)));
    while i < chars.len()
        invariant
            i <= chars@.len(),
            r@ == seq!['"'] + all_escaped(chars@.take(i as int)),
        decreases chars@.len() - i,
    {
        let c = chars[i];
        let ghost before = r@;
        if c == '\\' {
            r.push('\\');
            r.push('\\');
        } else if c == '"' {
            r.push('\\');
            r.push('"');
        } else if c == '\t' {
            r.push('\\');
            r.push('t');
        } else if c == '\r' {
            r.push('\\');
            r.push('r');
        } else if c == '\n' {
            r.push('\\');
            r.push('n');
        } else {
            r.push(c);
        }
        proof {
            let next = chars@.take(i + 1);
            assert(next.drop_last() =~= chars@.take(i as int));
            assert(r@ =~= before + escaped(c));
            assert(before + escaped(c) =~= seq!['"'] + all_escaped(next));
        }
        i += 1;
    }
    assert(chars@.take(i as int) =~= chars@);
    r.push('"');
    assert(r@ =~= quoted(value@));
    r
}

pub open spec fn text_or_empty(s: Option<String>) -> Seq<char> {
    match s {
        Some(t) => t@,
        None => Seq::empty(),
    }
}

/// The lines of the configuration of `curl`.
pub open spec fn curl_lines(config: WebdavConfig, body_path: Seq<char>) -> Seq<Seq<char>> {
    let common = seq![
        "fail"@,
        "silent"@,
        "show-error"@,
        "request = \"PUT\""@,
        "url = "@ + quoted(config.url@),
        "header = \"content-type: application/json\""@,
        "connect-timeout = "@ + text::decimal(config.timeout_seconds as nat),
        "max-time = "@ + text::decimal(config.timeout_seconds as nat),
        "data-binary = "@ + quoted("@"@ + body_path),
    ];
    match config.username {
        Some(username) => common.push(
            "user = "@ + quoted(username@ + ":"@ + text_or_empty(config.password)),
        ),
        None => common,
    }
}

pub fn curl_config(config: &WebdavConfig, body_path: &str) -> (r: String)
    ensures
        r@ == text::join(curl_lines(*config, body_path@), "\n"@),
{
    let timeout = text::decimal_text(config.timeout_seconds);
    let body = "@".to_string().concat(body_path);
    let mut lines: Vec<String> = Vec::new();
    lines.push("fail".to_string());
    lines.push("silent".to_string());
    lines.push("show-error".to_string());
    lines.push("request = \"PUT\"".to_string());
    lines.push("url = ".to_string().concat(curl_quote(config.url.as_str()).as_str()));
    lines.push("header = \"content-type: application/json\"".to_string());
    lines.push("connect-timeout = ".to_string().concat(timeout.as_str()));
    lines.push("max-time = ".to_string().concat(timeout.as_str()));
    lines.push("data-binary = ".to_string().concat(curl_quote(body.as_str()).as_str()));
    if let Some(username) = &config.username {
        let mut user = username.clone().concat(":");
        if let Some(password) = &config.password {
            user = user.concat(password.as_str());
        }
        assert(user@ =~= username@ + ":"@ + text_or_empty(config.password));
        lines.push("user = ".to_string().concat(curl_quote(user.as_str()).as_str()));
    }
    assert(text::views(lines@) =~= curl_lines(*config, body_path@));
    text::join_strings(&lines, "\n")
}

// ---------------------------------------------------------------------------
// The client

#[derive(Clone, Copy, Debug, PartialEq, Eq, Structural)]
pub struct WebdavUploadResult {
    pub exit_code: Option<i32>,
}

/// How `curl` ended.
pub enum CurlEnd {
    /// It did not end in time and was stopped.
    TimedOut,
    Exited { success: bool, exit_code: Option<i32>, stderr: String },
}

/// Why an upload failed.
#[derive(Debug, PartialEq, Eq)]
pub enum WebdavError {
    HardTimeout { seconds: u64 },
    PutFailed { exit_code: Option<i32>, stderr: String },
}

pub enum WebdavErrorView {
    HardTimeout { seconds: u64 },
    PutFailed { exit_code: Option<i32>, stderr: Seq<char> },
}

impl View for WebdavError {
    type V = WebdavErrorView;

    open spec fn view(&self) -> WebdavErrorView {
        match self {
            WebdavError::HardTimeout { seconds } => WebdavErrorView::HardTimeout {
                seconds: *seconds,
            },
            WebdavError::PutFailed { exit_code, stderr } => WebdavErrorView::PutFailed {
                exit_code: *exit_code,
                stderr: stderr@,
            },
        }
    }
}

impl WebdavErrorView {
    pub open spec fn message(self) -> Seq<char> {
        match self {
            WebdavErrorView::HardTimeout { seconds } => "curl WebDAV PUT exceeded hard timeout of "@
                + text::decimal(seconds as nat) + " seconds and was terminated"@,
            WebdavErrorView::PutFailed { exit_code, stderr } =>
                "curl WebDAV PUT failed; exit_code="@ + firewall::status_text(exit_code) + "; stderr="@
                + stderr,
        }
    }
}

impl WebdavError {
    /// The message of the error.
    pub fn to_string(&self) -> (r: String)
        ensures
            r@ == self@.message(),
    {
        match self {
            WebdavError::HardTimeout { seconds } =>
                "curl WebDAV PUT exceeded hard timeout of ".to_string().concat(
                text::decimal_text(*seconds).as_str(),
            ).concat(" seconds and was terminated"),
            WebdavError::PutFailed { exit_code, stderr } => {
                let code = firewall::status_to_text(*exit_code);
                "curl WebDAV PUT failed; exit_code=".to_string().concat(code.as_str()).concat(
                    "; stderr=",
                ).concat(stderr.as_str())
            },
        }
    }
}

/// What an upload comes to.
pub open spec fn upload_outcome(config: WebdavConfig, end: CurlEnd) -> Result<
    WebdavUploadResult,
    WebdavErrorView,
> {
    match end {
        CurlEnd::TimedOut => Err(
            WebdavErrorView::HardTimeout { seconds: config.timeout_seconds },
        ),
        CurlEnd::Exited { success, exit_code, stderr } => if success {
            Ok(WebdavUploadResult { exit_code })
        } else {
            Err(WebdavErrorView::PutFailed { exit_code, stderr: text::trimmed(stderr@) })
        },
    }
}

/// The command that uploads: `curl` with the file that holds its configuration.
pub fn curl_command(config: &WebdavConfig, config_path: &str) -> (r: CommandSpec)
    ensures
        r@ == firewall::command(config.curl_binary@, seq!["--config"@, config_path@]),
{
    let r = CommandSpec::new(config.curl_binary.as_str(), ["--config", config_path]);
    assert(r@.args =~= seq!["--config"@, config_path@]);
    r
}

pub struct WebdavClient {
    config: WebdavConfig,
}

impl WebdavClient {
    pub closed spec fn spec_config(self) -> WebdavConfig {
        self.config
    }

    pub fn new(config: WebdavConfig) -> (r: Result<WebdavClient, ConfigError>)
        ensures
            match r {
                Ok(client) => config.timeout_seconds > 0 && client.spec_config() == config,
                Err(e) => config.timeout_seconds == 0 && e == ConfigError::WebdavTimeout,
            },
    {
        if config.timeout_seconds == 0 {
            return Err(ConfigError::WebdavTimeout);
        }
        Ok(WebdavClient { config })
    }

    pub fn config(&self) -> (r: &WebdavConfig)
        ensures
            *r == self.spec_config(),
    {
        &self.config
    }

    /// What is uploaded: the body, and the configuration of `curl`, which names
    /// the file that the body is written to.
    pub fn prepare_upload(&self, body_path: &str) -> (r: String)
        ensures
            r@ == text::join(curl_lines(self.spec_config(), body_path@), "\n"@),
    {
        curl_config(&self.config, body_path)
    }

    /// What an upload comes to, by how `curl` ended.
    pub fn finish_upload(&self, end: CurlEnd) -> (r: Result<WebdavUploadResult, WebdavError>)
        ensures
            match r {
                Ok(done) => upload_outcome(self.spec_config(), end) == Ok::<_, WebdavErrorView>(
                    done,
                ),
                Err(e) => upload_outcome(self.spec_config(), end) == Err::<
                    WebdavUploadResult,
                    _,
                >(e@),
            },
    {
        match end {
            CurlEnd::TimedOut => Err(
                WebdavError::HardTimeout { seconds: self.config.timeout_seconds },
            ),
            CurlEnd::Exited { success, exit_code, stderr } => {
                if success {
                    Ok(WebdavUploadResult { exit_code })
                } else {
                    Err(WebdavError::PutFailed { exit_code, stderr: text::trim(stderr.as_str()) })
                }
            },
        }
    }
}

// ---------------------------------------------------------------------------
// When it is sent

#[derive(Clone, Copy, Debug, PartialEq, Eq, Structural)]
pub struct SyncTiming {
    pub debounce: Duration,
    pub retry_initial: Duration,
    pub retry_max: Duration,
}

impl SyncTiming {
    pub fn from_config(config: &WebdavConfig) -> (r: SyncTiming)
        ensures
            r.debounce.nanos() == config.debounce_seconds * 1_000_000_000,
            r.retry_initial.nanos() == config.retry_initial_seconds * 1_000_000_000,
            r.retry_max.nanos() == config.retry_max_seconds * 1_000_000_000,
    {
        SyncTiming {
            debounce: Duration::from_secs(config.debounce_seconds),
            retry_initial: Duration::from_secs(config.retry_initial_seconds),
            retry_max: Duration::from_secs(config.retry_max_seconds),
        }
    }
}

/// What the upload waits for.
#[derive(Clone, Copy, Debug, PartialEq, Eq, Structural)]
pub enum SyncPhase {
    /// For a change.
    Idle,
    /// For changes to settle.
    Debounce,
    /// For an upload to end.
    Upload,
    /// For the time of the next try.
    Retry,
    End,
}

/// What is to be done.
pub enum SyncAction {
    /// Wait for a change.
    AwaitChange,
    /// Wait for so long, or for a change.
    Wait { delay: Duration },
    /// Go on with the wait that was begun.
    KeepWaiting,
    /// Send these records. An upload that is under way is given up.
    Upload { records: Vec<BanRecord> },
    /// Nothing more.
    End,
}

pub enum SyncActionView {
    AwaitChange,
    Wait { nanos: int },
    KeepWaiting,
    Upload { records: Seq<BanRecordView> },
    End,
}

impl View for SyncAction {
    type V = SyncActionView;

    open spec fn view(&self) -> SyncActionView {
        match self {
            SyncAction::AwaitChange => SyncActionView::AwaitChange,
            SyncAction::Wait { delay } => SyncActionView::Wait { nanos: delay.nanos() },
            SyncAction::KeepWaiting => SyncActionView::KeepWaiting,
            SyncAction::Upload { records } => SyncActionView::Upload {
                records: store::record_views(records@),
            },
            SyncAction::End => SyncActionView::End,
        }
    }
}

/// What happened.
pub enum SyncEvent {
    /// The records are now these.
    Changed { records: Vec<BanRecord> },
    /// There will be no more changes.
    Closed,
    ShutdownRequested,
    /// The wait is over.
    Elapsed,
    Uploaded,
    UploadFailed,
}

pub enum SyncEventView {
    Changed { records: Seq<BanRecordView> },
    Closed,
    ShutdownRequested,
    Elapsed,
    Uploaded,
    UploadFailed,
}

impl View for SyncEvent {
    type V = SyncEventView;

    open spec fn view(&self) -> SyncEventView {
        match self {
            SyncEvent::Changed { records } => SyncEventView::Changed {
                records: store::record_views(records@),
            },
            SyncEvent::Closed => SyncEventView::Closed,
            SyncEvent::ShutdownRequested => SyncEventView::ShutdownRequested,
            SyncEvent::Elapsed => SyncEventView::Elapsed,
            SyncEvent::Uploaded => SyncEventView::Uploaded,
            SyncEvent::UploadFailed => SyncEventView::UploadFailed,
        }
    }
}

/// The upload of changes, one at a time.
pub struct SyncWorker {
    timing: SyncTiming,
    phase: SyncPhase,
    latest: Vec<BanRecord>,
    retry_delay: Duration,
}

pub struct SyncWorkerView {
    pub timing: SyncTiming,
    pub phase: SyncPhase,
    pub latest: Seq<BanRecordView>,
    pub retry_delay: int,
}

impl View for SyncWorker {
    type V = SyncWorkerView;

    closed spec fn view(&self) -> SyncWorkerView {
        SyncWorkerView {
            timing: self.timing,
            phase: self.phase,
            latest: store::record_views(self.latest@),
            retry_delay: self.retry_delay.nanos(),
        }
    }
}

pub open spec fn sync_end(w: SyncWorkerView) -> (SyncWorkerView, SyncActionView) {
    (SyncWorkerView { phase: SyncPhase::End, ..w }, SyncActionView::End)
}

/// The latest records are sent.
pub open spec fn sync_upload(w: SyncWorkerView) -> (SyncWorkerView, SyncActionView) {
    (
        SyncWorkerView { phase: SyncPhase::Upload, ..w },
        SyncActionView::Upload { records: w.latest },
    )
}

/// New records have come: they are sent once no others have come for a while.
pub open spec fn sync_settle(w: SyncWorkerView) -> (SyncWorkerView, SyncActionView) {
    let fresh = SyncWorkerView { retry_delay: w.timing.retry_initial.nanos(), ..w };
    if w.timing.debounce.nanos() > 0 {
        (
            SyncWorkerView { phase: SyncPhase::Debounce, ..fresh },
            SyncActionView::Wait { nanos: w.timing.debounce.nanos() },
        )
    } else {
        sync_upload(fresh)
    }
}

/// The wait before the try after next.
pub open spec fn retry_after(nanos: int, timing: SyncTiming) -> int {
    time::smaller(time::smaller(2 * nanos, time::max_duration_nanos()), timing.retry_max.nanos())
}

/// One step. Events that do not belong to the phase leave it waiting.
pub open spec fn sync_next(w: SyncWorkerView, event: SyncEventView) -> (
    SyncWorkerView,
    SyncActionView,
) {
    match event {
        SyncEventView::Closed | SyncEventView::ShutdownRequested => sync_end(w),
        SyncEventView::Changed { records } => {
            let newer = SyncWorkerView { latest: records, ..w };
            match w.phase {
                SyncPhase::Idle | SyncPhase::Upload => sync_settle(newer),
                SyncPhase::Debounce | SyncPhase::Retry => (newer, SyncActionView::KeepWaiting),
                SyncPhase::End => (w, SyncActionView::End),
            }
        },
        SyncEventView::Elapsed => match w.phase {
            SyncPhase::Debounce => sync_upload(w),
            SyncPhase::Retry => sync_upload(
                SyncWorkerView { retry_delay: retry_after(w.retry_delay, w.timing), ..w },
            ),
            _ => (w, sync_idle_action(w.phase)),
        },
        SyncEventView::Uploaded => match w.phase {
            SyncPhase::Upload => (
                SyncWorkerView { phase: SyncPhase::Idle, ..w },
                SyncActionView::AwaitChange,
            ),
            _ => (w, sync_idle_action(w.phase)),
        },
        SyncEventView::UploadFailed => match w.phase {
            SyncPhase::Upload => (
                SyncWorkerView { phase: SyncPhase::Retry, ..w },
                SyncActionView::Wait { nanos: w.retry_delay },
            ),
            _ => (w, sync_idle_action(w.phase)),
        },
    }
}

/// What goes on where an event has no meaning.
pub open spec fn sync_idle_action(phase: SyncPhase) -> SyncActionView {
    match phase {
        SyncPhase::Idle => SyncActionView::AwaitChange,
        SyncPhase::End => SyncActionView::End,
        _ => SyncActionView::KeepWaiting,
    }
}

impl SyncWorker {
    pub fn start(timing: SyncTiming) -> (r: (SyncWorker, SyncAction))
        ensures
            r.0@ == (SyncWorkerView {
                timing,
                phase: SyncPhase::Idle,
                latest: Seq::empty(),
                retry_delay: timing.retry_initial.nanos(),
            }),
            r.1@ == SyncActionView::AwaitChange,
    {
        let latest: Vec<BanRecord> = Vec::new();
        assert(store::record_views(latest@) =~= Seq::empty());
        (
            SyncWorker {
                timing,
                phase: SyncPhase::Idle,
                latest,
                retry_delay: timing.retry_initial,
            },
            SyncAction::AwaitChange,
        )
    }

    fn upload(&mut self) -> (action: SyncAction)
        ensures
            (final(self)@, action@) == sync_upload(old(self)@),
    {
        self.phase = SyncPhase::Upload;
        SyncAction::Upload { records: store::copy_records(self.latest.as_slice()) }
    }

    fn settle(&mut self) -> (action: SyncAction)
        ensures
            (final(self)@, action@) == sync_settle(old(self)@),
    {
        proof {
            self.timing.debounce.lemma_nanos();
        }
        self.retry_delay = self.timing.retry_initial;
        if !self.timing.debounce.is_zero() {
            self.phase = SyncPhase::Debounce;
            SyncAction::Wait { delay: self.timing.debounce }
        } else {
            self.upload()
        }
    }

    fn idle(&self) -> (action: SyncAction)
        ensures
            action@ == sync_idle_action(self@.phase),
    {
        match self.phase {
            SyncPhase::Idle => SyncAction::AwaitChange,
            SyncPhase::End => SyncAction::End,
            _ => SyncAction::KeepWaiting,
        }
    }

    /// Takes note of what happened and gives the next action.
    pub fn step(&mut self, event: SyncEvent) -> (action: SyncAction)
        ensures
            (final(self)@, action@) == sync_next(old(self)@, event@),
    {
        match event {
            SyncEvent::Closed | SyncEvent::ShutdownRequested => {
                self.phase = SyncPhase::End;
                SyncAction::End
            },
            SyncEvent::Changed { records } => match self.phase {
                SyncPhase::Idle | SyncPhase::Upload => {
                    self.latest = records;
                    self.settle()
                },
                SyncPhase::Debounce | SyncPhase::Retry => {
                    self.latest = records;
                    SyncAction::KeepWaiting
                },
                SyncPhase::End => SyncAction::End,
            },
            SyncEvent::Elapsed => match self.phase {
                SyncPhase::Debounce => self.upload(),
                SyncPhase::Retry => {
                    self.retry_delay =
                    self.retry_delay.saturating_double().min(self.timing.retry_max);
                    self.upload()
                },
                _ => self.idle(),
            },
            SyncEvent::Uploaded => match self.phase {
                SyncPhase::Upload => {
                    self.phase = SyncPhase::Idle;
                    SyncAction::AwaitChange
                },
                _ => self.idle(),
            },
            SyncEvent::UploadFailed => match self.phase {
                SyncPhase::Upload => {
                    self.phase = SyncPhase::Retry;
                    SyncAction::Wait { delay: self.retry_delay }
                },
                _ => self.idle(),
            },
        }
    }
}

// ---------------------------------------------------------------------------
// Laws

/// The order in which records are sent is determined by the records.
pub proof fn law_sorting_is_unique(
    a: Seq<BanRecordView>,
    b: Seq<BanRecordView>,
    records: Seq<BanRecordView>,
)
    requires
        is_sorted_by_ip(a, records),
        is_sorted_by_ip(b, records),
    ensures
        a == b,
{
    assert forall|ip: IpAddr| #[trigger] of_ip(a, ip) == of_ip(b, ip) by {
        assert(of_ip(a, ip) == of_ip(records, ip));
        assert(of_ip(b, ip) == of_ip(records, ip));
    }
    lemma_same_sorted(a, b);
}

proof fn lemma_same_sorted(a: Seq<BanRecordView>, b: Seq<BanRecordView>)
    requires
        ordered(a),
        ordered(b),
        a.len() == b.len(),
        forall|ip: IpAddr| #[trigger] of_ip(a, ip) == of_ip(b, ip),
    ensures
        a == b,
    decreases a.len(),
{
    if a.len() == 0 {
        assert(a =~= b);
    } else {
        let n = a.len() - 1;
        let x = a[n];
        let y = b[n];
        assert(a =~= a.drop_last().push(x));
        assert(b =~= b.drop_last().push(y));
        lemma_of_ip_push(a.drop_last(), x, x.ip);
        lemma_of_ip_push(b.drop_last(), y, x.ip);
        lemma_of_ip_push(a.drop_last(), x, y.ip);
        lemma_of_ip_push(b.drop_last(), y, y.ip);
        assert(of_ip(a, x.ip) == of_ip(b, x.ip));
        assert(of_ip(a, y.ip) == of_ip(b, y.ip));
        assert(x.ip == y.ip) by {
            if x.ip != y.ip {
                lemma_of_ip_holds(b, x.ip);
                lemma_of_ip_holds(a, y.ip);
                let i = choose|i: int| 0 <= i < b.len() && (#[trigger] b[i]).ip == x.ip;
                let j = choose|j: int| 0 <= j < a.len() && (#[trigger] a[j]).ip == y.ip;
                assert(b[i].ip.rank() <= b[n].ip.rank());
                assert(a[j].ip.rank() <= a[n].ip.rank());
                addr::lemma_rank_injective(x.ip, y.ip);
            }
        }
        assert(of_ip(a, x.ip).last() == x);
        assert(of_ip(b, x.ip).last() == y);
        let p = a.drop_last();
        let q = b.drop_last();
        assert forall|ip: IpAddr| #[trigger] of_ip(p, ip) == of_ip(q, ip) by {
            assert(of_ip(a, ip) == of_ip(b, ip));
            lemma_of_ip_push(p, x, ip);
            lemma_of_ip_push(q, y, ip);
            if x.ip == ip {
                assert(of_ip(p, ip) =~= of_ip(a, ip).drop_last());
                assert(of_ip(q, ip) =~= of_ip(b, ip).drop_last());
            }
        }
        assert forall|i: int, j: int| 0 <= i <= j < p.len() implies (#[trigger] p[i]).ip.rank()
            <= (#[trigger] p[j]).ip.rank() by {
            assert(a[i].ip.rank() <= a[j].ip.rank());
        }
        assert forall|i: int, j: int| 0 <= i <= j < q.len() implies (#[trigger] q[i]).ip.rank()
            <= (#[trigger] q[j]).ip.rank() by {
            assert(b[i].ip.rank() <= b[j].ip.rank());
        }
        lemma_same_sorted(p, q);
    }
}

proof fn lemma_of_ip_holds(records: Seq<BanRecordView>, ip: IpAddr)
    requires
        of_ip(records, ip).len() > 0,
    ensures
        exists|i: int| 0 <= i < records.len() && (#[trigger] records[i]).ip == ip,
{
    if forall|i: int| 0 <= i < records.len() ==> (#[trigger] records[i]).ip != ip {
        lemma_of_ip_none(records, ip);
    }
}

/// What a text in quotes stands for, read from the left.
pub open spec fn unescaped(s: Seq<char>) -> Seq<char>
    decreases s.len(),
{
    if s.len() == 0 {
        Seq::empty()
    } else if s[0] == '\\' && s.len() > 1 {
        let c = if s[1] == 't' {
            '\t'
        } else if s[1] == 'r' {
            '\r'
        } else if s[1] == 'n' {
            '\n'
        } else {
            s[1]
        };
        seq![c] + unescaped(s.skip(2))
    } else {
        seq![s[0]] + unescaped(s.skip(1))
    }
}

proof fn lemma_all_escaped_first(s: Seq<char>)
    requires
        s.len() > 0,
    ensures
        all_escaped(s) == escaped(s[0]) + all_escaped(s.drop_first()),
    decreases s.len(),
{
    if s.len() == 1 {
        assert(s.drop_last() =~= Seq::empty());
        assert(s.drop_first() =~= Seq::empty());
        assert(all_escaped(s) =~= escaped(s[0]) + all_escaped(s.drop_first()));
    } else {
        lemma_all_escaped_first(s.drop_last());
        assert(s.drop_last().drop_first() =~= s.drop_first().drop_last());
        assert(all_escaped(s) =~= escaped(s[0]) + all_escaped(s.drop_first()));
    }
}

proof fn lemma_unescaped(s: Seq<char>)
    ensures
        unescaped(all_escaped(s)) == s,
    decreases s.len(),
{
    if s.len() > 0 {
        lemma_all_escaped_first(s);
        let rest = s.drop_first();
        lemma_unescaped(rest);
        let e = escaped(s[0]);
        let whole = all_escaped(s);
        assert(whole.skip(e.len() as int) =~= all_escaped(rest));
        assert(whole[0] == e[0]);
        if e.len() == 2 {
            assert(whole[1] == e[1]);
        }
        assert(unescaped(whole) =~= seq![s[0]] + unescaped(all_escaped(rest)));
        assert(s =~= seq![s[0]] + rest);
    }
}

/// A quoted text stands in quotes, holds no line break and no tab of its own,
/// and is read back as what it was.
pub proof fn law_quoting_is_reversible(s: Seq<char>)
    ensures
        quoted(s).first() == '"',
        quoted(s).last() == '"',
        unescaped(quoted(s).subrange(1, quoted(s).len() - 1)) == s,
        !quoted(s).contains('\n'),
        !quoted(s).contains('\r'),
        !quoted(s).contains('\t'),
{
    let q = quoted(s);
    assert(q.subrange(1, q.len() - 1) =~= all_escaped(s));
    lemma_unescaped(s);
    assert forall|i: int| 0 <= i < q.len() implies q[i] != '\n' && q[i] != '\r' && q[i]
        != '\t' by {
        lemma_escaped_is_plain(s);
        if 0 < i < q.len() - 1 {
            assert(q[i] == all_escaped(s)[i - 1]);
        }
    }
}

proof fn lemma_escaped_is_plain(s: Seq<char>)
    ensures
        forall|i: int|
            0 <= i < all_escaped(s).len() ==> (#[trigger] all_escaped(s)[i]) != '\n' && all_escaped(
                s,
            )[i] != '\r' && all_escaped(s)[i] != '\t',
    decreases s.len(),
{
    if s.len() > 0 {
        lemma_escaped_is_plain(s.drop_last());
        let head = all_escaped(s.drop_last());
        assert forall|i: int| 0 <= i < all_escaped(s).len() implies (#[trigger] all_escaped(s)[i])
            != '\n' && all_escaped(s)[i] != '\r' && all_escaped(s)[i] != '\t' by {
            if i < head.len() {
                assert(all_escaped(s)[i] == head[i]);
            } else {
                assert(all_escaped(s)[i] == escaped(s.last())[i - head.len()]);
            }
        }
    }
}

proof fn lemma_no_break(a: Seq<char>, b: Seq<char>)
    requires
        !a.contains('\n'),
        !b.contains('\n'),
    ensures
        !(a + b).contains('\n'),
{
    assert forall|i: int| 0 <= i < (a + b).len() implies (a + b)[i] != '\n' by {
        if i < a.len() {
            assert(a.contains(a[i]));
        } else {
            assert(b.contains(b[i - a.len()]));
        }
    }
}

proof fn lemma_decimal_is_one_line(n: nat)
    ensures
        !text::decimal(n).contains('\n'),
{
    text::lemma_decimal(n);
    let s = text::decimal(n);
    assert forall|i: int| 0 <= i < s.len() implies s[i] != '\n' by {
        assert(text::is_digit(s[i]));
    }
}

/// The configuration of `curl` has the lines it was made of and no others:
/// nothing in the address, the user name, the password or the path can add an
/// option.
pub proof fn law_configuration_keeps_its_lines(config: WebdavConfig, body_path: Seq<char>)
    ensures
        text::split(text::join(curl_lines(config, body_path), "\n"@), '\n') == curl_lines(
            config,
            body_path,
        ),
        curl_lines(config, body_path).len() == if config.username is Some {
            10int
        } else {
            9
        },
{
    let lines = curl_lines(config, body_path);
    reveal_strlit("fail");
    reveal_strlit("silent");
    reveal_strlit("show-error");
    reveal_strlit("request = \"PUT\"");
    reveal_strlit("url = ");
    reveal_strlit("header = \"content-type: application/json\"");
    reveal_strlit("connect-timeout = ");
    reveal_strlit("max-time = ");
    reveal_strlit("data-binary = ");
    reveal_strlit("user = ");
    law_quoting_is_reversible(config.url@);
    law_quoting_is_reversible("@"@ + body_path);
    lemma_decimal_is_one_line(config.timeout_seconds as nat);
    lemma_no_break("url = "@, quoted(config.url@));
    lemma_no_break("connect-timeout = "@, text::decimal(config.timeout_seconds as nat));
    lemma_no_break("max-time = "@, text::decimal(config.timeout_seconds as nat));
    lemma_no_break("data-binary = "@, quoted("@"@ + body_path));
    if let Some(username) = config.username {
        let user = username@ + ":"@ + text_or_empty(config.password);
        law_quoting_is_reversible(user);
        lemma_no_break("user = "@, quoted(user));
    }
    assert forall|i: int| 0 <= i < lines.len() implies !(#[trigger] lines[i]).contains('\n') by {
    }
    reveal_strlit("\n");
    assert("\n"@ =~= seq!['\n']);
    text::lemma_split_join(lines, '\n');
}

/// What is sent is always what was handed over last, and a change while an
/// upload is under way starts over with the newer records.
pub proof fn law_latest_records_are_sent(
    w: SyncWorkerView,
    event: SyncEventView,
    newer: Seq<BanRecordView>,
)
    ensures
        sync_next(w, event).1 matches SyncActionView::Upload { records } ==> records == sync_next(
            w,
            event,
        ).0.latest,
        w.phase != SyncPhase::End && event == (SyncEventView::Changed { records: newer })
            ==> sync_next(w, event).0.latest == newer,
        !(event is Changed) ==> sync_next(w, event).0.latest == w.latest,
        w.phase == SyncPhase::Upload && event is Changed ==> sync_next(w, event).1 is Wait
            || sync_next(w, event).1 is Upload,
{
}

/// The wait between tries doubles and never exceeds the longest one; it starts
/// anew with every change that is taken up.
pub proof fn law_retries_are_bounded(w: SyncWorkerView, event: SyncEventView)
    requires
        0 <= w.timing.retry_initial.nanos() <= w.timing.retry_max.nanos(),
        w.timing.retry_initial.nanos() <= w.retry_delay <= w.timing.retry_max.nanos(),
        w.timing.retry_max.nanos() <= time::max_duration_nanos(),
    ensures
        ({
            let after = sync_next(w, event).0;
            &&& after.timing == w.timing
            &&& w.timing.retry_initial.nanos() <= after.retry_delay <= w.timing.retry_max.nanos()
            &&& w.phase == SyncPhase::Retry && event is Elapsed ==> after.retry_delay
                == time::smaller(2 * w.retry_delay, w.timing.retry_max.nanos())
            &&& w.phase == SyncPhase::Idle && event is Changed ==> after.retry_delay
                == w.timing.retry_initial.nanos()
        }),
{
}

/// A request to stop, or the end of the changes, ends the upload from any
/// state, for good.
pub proof fn law_sync_stops(w: SyncWorkerView, event: SyncEventView, later: SyncEventView)
    requires
        event is Closed || event is ShutdownRequested,
    ensures
        sync_next(w, event).1 is End,
        sync_next(w, event).0.phase == SyncPhase::End,
        sync_next(sync_next(w, event).0, later).1 is End,
        sync_next(sync_next(w, event).0, later).0.phase == SyncPhase::End,
{
}

/// A failed upload is tried again after its wait, with the records that are
/// the latest by then.
pub proof fn law_failed_upload_is_retried(w: SyncWorkerView, newer: Seq<BanRecordView>)
    requires
        w.phase == SyncPhase::Upload,
    ensures
        ({
            let failed = sync_next(w, SyncEventView::UploadFailed);
            let changed = sync_next(failed.0, SyncEventView::Changed { records: newer });
            let again = sync_next(changed.0, SyncEventView::Elapsed);
            &&& failed.1 == (SyncActionView::Wait { nanos: w.retry_delay })
            &&& changed.1 is KeepWaiting
            &&& again.1 == (SyncActionView::Upload { records: newer })
        }),
{
}

/// Every change is sent, whatever the records are, also when none is left. A
/// change that comes while nothing waits, or while an upload is under way, is
/// sent at once where there is no debounce, and at the end of the debounce
/// where there is one; what comes meanwhile is sent in its place. The worker
/// rests again only once an upload of the latest records has succeeded.
pub proof fn law_every_change_is_sent(
    w: SyncWorkerView,
    records: Seq<BanRecordView>,
    newer: Seq<BanRecordView>,
    event: SyncEventView,
)
    ensures
        w.phase == SyncPhase::Idle || w.phase == SyncPhase::Upload ==> {
            let noted = sync_next(w, SyncEventView::Changed { records });
            let sent = sync_next(noted.0, SyncEventView::Elapsed);
            let replaced = sync_next(noted.0, SyncEventView::Changed { records: newer });
            let replacement = sync_next(replaced.0, SyncEventView::Elapsed);
            let debounce = w.timing.debounce.nanos();
            &&& debounce <= 0 ==> noted.1 == (SyncActionView::Upload { records })
                && noted.0.phase == SyncPhase::Upload
            &&& debounce > 0 ==> {
                &&& noted.1 == (SyncActionView::Wait { nanos: debounce })
                &&& noted.0.phase == SyncPhase::Debounce
                &&& sent.1 == (SyncActionView::Upload { records })
                &&& sent.0.phase == SyncPhase::Upload
                &&& sync_next(sent.0, SyncEventView::Uploaded).0.phase == SyncPhase::Idle
                &&& sync_next(sent.0, SyncEventView::Uploaded).1 is AwaitChange
                &&& replaced.1 is KeepWaiting
                &&& replacement.1 == (SyncActionView::Upload { records: newer })
            }
        },
        sync_next(w, event).0.phase == SyncPhase::Idle ==> w.phase == SyncPhase::Idle || w.phase
            == SyncPhase::Upload && event is Uploaded,
        sync_next(w, event).0.timing == w.timing,
        w.phase == SyncPhase::Idle && !(event is Changed) && !(event is Closed) && !(
        event is ShutdownRequested) ==> sync_next(w, event) == (w, SyncActionView::AwaitChange),
        w.phase == SyncPhase::Debounce && (event is Uploaded || event is UploadFailed)
            ==> sync_next(w, event) == (w, SyncActionView::KeepWaiting),
        w.phase == SyncPhase::Upload && event is Elapsed ==> sync_next(w, event) == (
            w,
            SyncActionView::KeepWaiting,
        ),
        w.phase == SyncPhase::Retry && (event is Uploaded || event is UploadFailed) ==> sync_next(
            w,
            event,
        ) == (w, SyncActionView::KeepWaiting),
        w.phase == SyncPhase::End && !(event is Closed) && !(event is ShutdownRequested)
            ==> sync_next(w, event) == (w, SyncActionView::End),
        (w.phase == SyncPhase::Idle || w.phase == SyncPhase::Upload) && event is Changed
            ==> sync_next(w, event).0.retry_delay == w.timing.retry_initial.nanos(),
        w.phase == SyncPhase::Debounce ==> sync_next(w, event).0.retry_delay == w.retry_delay,
        w.phase == SyncPhase::Debounce && event is Changed ==> sync_next(w, event).0.phase
            == SyncPhase::Debounce,
{
}

/// An upload that keeps failing is tried again and again, for any records, with
/// waits that start at the first one, double, and stay at the longest one. A
/// change that comes while a try is awaited is sent with it and does not put
/// the wait back.
pub proof fn law_tries_go_on(w: SyncWorkerView, newer: Seq<BanRecordView>)
    requires
        w.phase == SyncPhase::Upload,
        0 <= w.retry_delay,
    ensures
        ({
            let failed = sync_next(w, SyncEventView::UploadFailed);
            let again = sync_next(failed.0, SyncEventView::Elapsed);
            let failed_again = sync_next(again.0, SyncEventView::UploadFailed);
            let changed = sync_next(failed.0, SyncEventView::Changed { records: newer });
            let doubled = 2 * w.retry_delay;
            let longest = w.timing.retry_max.nanos();
            &&& failed.1 == (SyncActionView::Wait { nanos: w.retry_delay })
            &&& failed.0.phase == SyncPhase::Retry
            &&& again.1 == (SyncActionView::Upload { records: w.latest })
            &&& again.0.phase == SyncPhase::Upload
            &&& longest <= time::max_duration_nanos() ==> failed_again.1 == (SyncActionView::Wait {
                nanos: if doubled < longest {
                    doubled
                } else {
                    longest
                },
            })
            &&& changed.1 is KeepWaiting
            &&& changed.0.phase == SyncPhase::Retry
            &&& changed.0.retry_delay == w.retry_delay
        }),
{
}

/// What is told to `curl`: to fail on an error of the server, silently but for
/// the error, to `PUT` the file of the body as JSON to the address that is
/// configured, to give up after the time that is configured, and who asks,
/// where that is configured. A value is given in quotes.
pub proof fn law_curl_is_told_what_is_configured(config: WebdavConfig, body_path: Seq<char>)
    ensures
        ({
            let lines = curl_lines(config, body_path);
            let seconds = text::decimal(config.timeout_seconds as nat);
            &&& lines.take(9) == seq![
                "fail"@,
                "silent"@,
                "show-error"@,
                "request = \"PUT\""@,
                "url = "@ + quoted(config.url@),
                "header = \"content-type: application/json\""@,
                "connect-timeout = "@ + seconds,
                "max-time = "@ + seconds,
                "data-binary = "@ + quoted("@"@ + body_path),
            ]
            &&& match (config.username, config.password) {
                (Some(username), Some(password)) => lines.len() == 10 && lines[9] == "user = "@
                    + quoted(username@ + ":"@ + password@),
                (Some(username), None) => lines.len() == 10 && lines[9] == "user = "@ + quoted(
                    username@ + ":"@,
                ),
                (None, _) => lines.len() == 9,
            }
        }),
{
    let lines = curl_lines(config, body_path);
    assert(lines.take(9) =~= seq![
        "fail"@,
        "silent"@,
        "show-error"@,
        "request = \"PUT\""@,
        "url = "@ + quoted(config.url@),
        "header = \"content-type: application/json\""@,
        "connect-timeout = "@ + text::decimal(config.timeout_seconds as nat),
        "max-time = "@ + text::decimal(config.timeout_seconds as nat),
        "data-binary = "@ + quoted("@"@ + body_path),
    ]);
    if let Some(username) = config.username {
        if config.password is None {
            assert(username@ + ":"@ + text_or_empty(config.password) =~= username@ + ":"@);
        }
    }
}

/// An upload succeeded exactly when `curl` ended well. One that was stopped
/// tells after how long, and any other failure tells the status and what
/// `curl` said.
pub proof fn law_upload_outcome(config: WebdavConfig, end: CurlEnd)
    ensures
        match end {
            CurlEnd::TimedOut => upload_outcome(config, end) == Err::<WebdavUploadResult, _>(
                WebdavErrorView::HardTimeout { seconds: config.timeout_seconds },
            ),
            CurlEnd::Exited { success: true, exit_code, .. } => upload_outcome(config, end) == Ok::<
                _,
                WebdavErrorView,
            >(WebdavUploadResult { exit_code }),
            CurlEnd::Exited { success: false, exit_code, stderr } => upload_outcome(config, end)
                == Err::<WebdavUploadResult, _>(
                WebdavErrorView::PutFailed { exit_code, stderr: text::trimmed(stderr@) },
            ),
        },
{
}

/// What is sent holds every record that was handed over, as often as it was
/// handed over, and no other.
pub proof fn law_payload_is_complete(
    sorted: Seq<BanRecordView>,
    records: Seq<BanRecordView>,
    record: BanRecordView,
)
    requires
        is_sorted_by_ip(sorted, records),
    ensures
        sorted.len() == records.len(),
        sorted.contains(record) <==> records.contains(record),
{
    lemma_of_ip_contains(sorted, record);
    lemma_of_ip_contains(records, record);
    assert(of_ip(sorted, record.ip) == of_ip(records, record.ip));
}

proof fn lemma_of_ip_contains(records: Seq<BanRecordView>, record: BanRecordView)
    ensures
        of_ip(records, record.ip).contains(record) <==> records.contains(record),
    decreases records.len(),
{
    let own = of_ip(records, record.ip);
    if records.len() > 0 {
        let rest = records.drop_last();
        let last = records.last();
        lemma_of_ip_contains(rest, record);
        lemma_of_ip_push(rest, last, record.ip);
        assert(rest.push(last) =~= records);
        let own_rest = of_ip(rest, record.ip);
        if records.contains(record) {
            let i = choose|i: int| 0 <= i < records.len() && records[i] == record;
            if i < rest.len() {
                assert(rest[i] == record);
                let k = choose|k: int| 0 <= k < own_rest.len() && own_rest[k] == record;
                assert(own[k] == record);
            } else {
                assert(own[own.len() - 1] == record);
            }
        }
        if own.contains(record) {
            let k = choose|k: int| 0 <= k < own.len() && own[k] == record;
            if last.ip == record.ip && k == own.len() - 1 {
                assert(records[records.len() - 1] == record);
            } else {
                assert(own_rest[k] == record);
                let i = choose|i: int| 0 <= i < rest.len() && rest[i] == record;
                assert(records[i] == record);
            }
        }
    } else {
        reveal(Seq::filter);
    }
}

/// Inside quotes a backslash, a quote, a tab, a carriage return and a line feed
/// are written with a backslash before them, as `curl` reads them; every other
/// character stands for itself, and nothing comes between them.
pub proof fn law_quoting_escapes_what_curl_escapes(s: Seq<char>, c: char)
    ensures
        escaped('\\') == seq!['\\', '\\'],
        escaped('"') == seq!['\\', '"'],
        escaped('\t') == seq!['\\', 't'],
        escaped('\r') == seq!['\\', 'r'],
        escaped('\n') == seq!['\\', 'n'],
        c != '\\' && c != '"' && c != '\t' && c != '\r' && c != '\n' ==> escaped(c) == seq![c],
        quoted(Seq::empty()) == seq!['"', '"'],
        quoted(s.push(c)) == quoted(s).drop_last() + escaped(c) + seq!['"'],
{
    assert(s.push(c).drop_last() =~= s);
    assert(quoted(s).drop_last() =~= seq!['"'] + all_escaped(s));
    assert(quoted(s.push(c)) =~= quoted(s).drop_last() + escaped(c) + seq!['"']);
    assert(quoted(Seq::empty()) =~= seq!['"', '"']);
}

/// What is told of an upload that failed.
pub proof fn law_failed_uploads_are_told(seconds: u64, exit_code: Option<i32>, stderr: Seq<char>)
    ensures
        (WebdavErrorView::HardTimeout { seconds }).message()
            == "curl WebDAV PUT exceeded hard timeout of "@ + text::decimal(seconds as nat)
            + " seconds and was terminated"@,
        (WebdavErrorView::PutFailed { exit_code, stderr }).message()
            == "curl WebDAV PUT failed; exit_code="@ + match exit_code {
            Some(code) => "Some("@ + text::signed_decimal(code as int) + ")"@,
            None => "None"@,
        } + "; stderr="@ + stderr,
{
}

} // verus!

//! The listener: what becomes of a connection, which sources wait for their
//! ban, and how accepting goes on.

use vstd::prelude::*;

use crate::addr::IpAddr;
use crate::allowlist;
use crate::allowlist::AllowlistEntry;
use crate::config::{AdminConfig, HoneypotConfig};
use crate::time;
use crate::time::Duration;
use crate::tracker::VisitDecision;

verus! {

// ---------------------------------------------------------------------------
// Waiting after a failed accept

pub const ACCEPT_BACKOFF_INITIAL_MILLIS: u64 = 50;

pub const ACCEPT_BACKOFF_MAX_SECS: u64 = 1;

pub open spec fn backoff_initial() -> int {
    ACCEPT_BACKOFF_INITIAL_MILLIS * 1_000_000
}

pub open spec fn backoff_max() -> int {
    ACCEPT_BACKOFF_MAX_SECS * 1_000_000_000
}

/// The wait after one more failure.
pub open spec fn backoff_after(nanos: int) -> int {
    time::smaller(2 * nanos, backoff_max())
}

/// The wait after the given number of failures in a row.
pub open spec fn backoff(failures: nat) -> int
    decreases failures,
{
    if failures == 0 {
        backoff_initial()
    } else {
        backoff_after(backoff((failures - 1) as nat))
    }
}

pub struct AcceptBackoff {
    current: Duration,
}

impl AcceptBackoff {
    /// The next wait, in nanoseconds.
    pub closed spec fn nanos(self) -> int {
        self.current.nanos()
    }

    pub fn new() -> (r: AcceptBackoff)
        ensures
            r.nanos() == backoff_initial(),
    {
        AcceptBackoff { current: Duration::from_millis(ACCEPT_BACKOFF_INITIAL_MILLIS) }
    }

    pub fn next_delay(&mut self) -> (delay: Duration)
        ensures
            delay.nanos() == old(self).nanos(),
            final(self).nanos() == backoff_after(old(self).nanos()),
    {
        let delay = self.current;
        self.current = delay.saturating_double().min(Duration::from_secs(ACCEPT_BACKOFF_MAX_SECS));
        delay
    }

    pub fn reset(&mut self)
        ensures
            final(self).nanos() == backoff_initial(),
    {
        self.current = Duration::from_millis(ACCEPT_BACKOFF_INITIAL_MILLIS);
    }
}

// ---------------------------------------------------------------------------
// Sources that wait for their ban

/// A source that is to be banned, and the number of visits that it is for.
#[derive(Clone, Copy, Debug, PartialEq, Eq, Structural)]
pub struct BanRequest {
    pub ip: IpAddr,
    pub count: usize,
}

#[derive(Clone, Copy, Debug, PartialEq, Eq, Structural)]
pub enum BanQueueOutcome {
    Queued,
    AlreadyPending,
}

/// The reason that is noted of a ban.
pub fn ban_reason() -> (r: &'static str)
    ensures
        r@ == "honeypot_rate_limit"@,
{
    "honeypot_rate_limit"
}

/// The sources that wait for their ban; none waits twice.
pub struct BanQueue {
    pending: Vec<IpAddr>,
}

impl View for BanQueue {
    type V = Set<IpAddr>;

    closed spec fn view(&self) -> Set<IpAddr> {
        self.pending@.to_set()
    }
}

impl BanQueue {
    #[verifier::type_invariant]
    spec fn well_formed(self) -> bool {
        self.pending@.no_duplicates()
    }

    pub fn new() -> (r: BanQueue)
        ensures
            r@ == Set::<IpAddr>::empty(),
    {
        let r = BanQueue { pending: Vec::new() };
        assert(r@ =~= Set::empty());
        r
    }

    fn position(&self, ip: IpAddr) -> (r: Option<usize>)
        ensures
            match r {
                Some(i) => i < self.pending@.len() && self.pending@[i as int] == ip,
                None => !self@.contains(ip),
            },
    {
        let mut i: usize = 0;
        while i < self.pending.len()
            invariant
                i <= self.pending@.len(),
                forall|k: int| 0 <= k < i ==> self.pending@[k] != ip,
            decreases self.pending@.len() - i,
        {
            if self.pending[i] == ip {
                return Some(i);
            }
            i += 1;
        }
        None
    }

    /// Tells whether a source waits already, before room is asked for.
    pub fn is_pending(&self, ip: IpAddr) -> (r: bool)
        ensures
            r == self@.contains(ip),
    {
        match self.position(ip) {
            Some(i) => {
                assert(self.pending@.contains(self.pending@[i as int]));
                true
            },
            None => false,
        }
    }

    /// Takes a request in, once there is room for it. It is to be handed on
    /// only where it was queued.
    pub fn enqueue(&mut self, request: BanRequest) -> (r: BanQueueOutcome)
        ensures
            r == BanQueueOutcome::AlreadyPending <==> old(self)@.contains(request.ip),
            r == BanQueueOutcome::Queued <==> !old(self)@.contains(request.ip),
            final(self)@ == old(self)@.insert(request.ip),
    {
        if self.is_pending(request.ip) {
            assert(self@.insert(request.ip) =~= self@);
            return BanQueueOutcome::AlreadyPending;
        }
        proof {
            use_type_invariant(&*self);
        }
        let ghost before = self.pending@;
        let mut pending: Vec<IpAddr> = Vec::new();
        std::mem::swap(&mut pending, &mut self.pending);
        pending.push(request.ip);
        proof {
            assert(!before.contains(request.ip));
            assert(pending@ == before.push(request.ip));
            assert forall|ip: IpAddr| pending@.contains(ip) <==> (before.contains(ip) || ip
                == request.ip) by {
                if before.contains(ip) {
                    let i = choose|i: int| 0 <= i < before.len() && before[i] == ip;
                    assert(pending@[i] == ip);
                }
                assert(pending@[before.len() as int] == request.ip);
            }
            assert(pending@.to_set() =~= before.to_set().insert(request.ip));
        }
        self.pending = pending;
        BanQueueOutcome::Queued
    }

    /// A request was worked off, however it went: its source may be queued
    /// again.
    pub fn complete(&mut self, ip: IpAddr)
        ensures
            final(self)@ == old(self)@.remove(ip),
    {
        match self.position(ip) {
            Some(i) => {
                proof {
                    use_type_invariant(&*self);
                }
                let ghost before = self.pending@;
                let mut pending: Vec<IpAddr> = Vec::new();
                std::mem::swap(&mut pending, &mut self.pending);
                pending.remove(i);
                proof {
                    let k = i as int;
                    assert(pending@ == before.remove(k));
                    assert forall|a: int, b: int|
                        0 <= a < pending@.len() && 0 <= b < pending@.len() && a
                            != b implies pending@[a] != pending@[b] by {
                        let x = if a < k {
                            a
                        } else {
                            a + 1
                        };
                        let y = if b < k {
                            b
                        } else {
                            b + 1
                        };
                        assert(pending@[a] == before[x]);
                        assert(pending@[b] == before[y]);
                    }
                    assert forall|other: IpAddr| pending@.contains(other) <==> (before.contains(
                        other,
                    ) && other != ip) by {
                        if pending@.contains(other) {
                            let a = choose|a: int| 0 <= a < pending@.len() && pending@[a] == other;
                            let x = if a < k {
                                a
                            } else {
                                a + 1
                            };
                            assert(before[x] == other);
                            assert(before[x] != before[k]);
                        }
                        if before.contains(other) && other != ip {
                            let x = choose|x: int| 0 <= x < before.len() && before[x] == other;
                            if x < k {
                                assert(pending@[x] == other);
                            } else {
                                assert(pending@[x - 1] == other);
                            }
                        }
                    }
                    assert(pending@.to_set() =~= before.to_set().remove(ip));
                }
                self.pending = pending;
            },
            None => {
                assert(self@.remove(ip) =~= self@);
            },
        }
    }
}

// ---------------------------------------------------------------------------
// One connection

/// What every connection is served with.
pub struct ConnectionSettings {
    pub banner: Vec<u8>,
    pub read_after_banner_timeout: Duration,
    pub close_delay: Duration,
    pub inline_admin: bool,
}

impl ConnectionSettings {
    pub fn from_config(config: &HoneypotConfig, admin: &AdminConfig) -> (r: ConnectionSettings)
        ensures
            r.banner@ == vstd::utf8::encode_utf8(config.banner@),
            r.read_after_banner_timeout.nanos() == config.read_after_banner_timeout_ms * 1_000_000,
            r.close_delay.nanos() == config.close_delay_ms * 1_000_000,
            r.inline_admin == admin.inline_on_honeypot_port,
    {
        ConnectionSettings {
            banner: vstd::slice::slice_to_vec(config.banner.as_str().as_bytes()),
            read_after_banner_timeout: Duration::from_millis(config.read_after_banner_timeout_ms),
            close_delay: Duration::from_millis(config.close_delay_ms),
            inline_admin: admin.inline_on_honeypot_port,
        }
    }
}

/// What a connection waits for.
#[derive(Clone, Copy, Debug, PartialEq, Eq, Structural)]
pub enum ConnectionPhase {
    CheckBan,
    Visit,
    Enqueue,
    Inline,
    Banner,
    Client,
    Delay,
    Shutdown,
    End,
}

/// What is to be done for a connection.
#[derive(Clone, Copy, Debug, PartialEq, Eq, Structural)]
pub enum ConnectionAction {
    /// Look whether the source is banned.
    CheckBan,
    /// Note the visit.
    RecordVisit,
    /// Queue a ban.
    Enqueue { request: BanRequest },
    /// See whether this is a request to the administration, and answer it.
    TryInlineAdmin,
    WriteBanner,
    /// Wait for the client to identify itself, but no longer than this.
    AwaitClient { timeout: Duration },
    Sleep { delay: Duration },
    Shutdown,
    /// Nothing more.
    End,
    /// The connection is given up.
    Fail,
}

/// How it went.
#[derive(Clone, Copy, Debug, PartialEq, Eq, Structural)]
pub enum ConnectionEvent {
    Done,
    Failed,
    Banned { banned: bool },
    Decided { decision: VisitDecision },
    /// Whether a request to the administration was answered.
    Inline { handled: bool },
}

/// A connection that is being served.
pub struct Connection {
    ip: IpAddr,
    allowlisted: bool,
    phase: ConnectionPhase,
}

pub struct ConnectionView {
    pub ip: IpAddr,
    pub allowlisted: bool,
    pub phase: ConnectionPhase,
}

impl View for Connection {
    type V = ConnectionView;

    closed spec fn view(&self) -> ConnectionView {
        ConnectionView { ip: self.ip, allowlisted: self.allowlisted, phase: self.phase }
    }
}

/// Where a connection goes on and what is done.
pub open spec fn go(
    c: ConnectionView,
    phase: ConnectionPhase,
    action: ConnectionAction,
) -> (ConnectionView, ConnectionAction) {
    (ConnectionView { phase, ..c }, action)
}

pub open spec fn shutting_down(c: ConnectionView) -> (ConnectionView, ConnectionAction) {
    go(c, ConnectionPhase::Shutdown, ConnectionAction::Shutdown)
}

/// After the client had its time.
pub open spec fn delaying(c: ConnectionView, settings: ConnectionSettings) -> (
    ConnectionView,
    ConnectionAction,
) {
    if settings.close_delay.nanos() > 0 {
        go(
            c,
            ConnectionPhase::Delay,
            ConnectionAction::Sleep { delay: settings.close_delay },
        )
    } else {
        shutting_down(c)
    }
}

/// After the banner.
pub open spec fn awaiting(c: ConnectionView, settings: ConnectionSettings) -> (
    ConnectionView,
    ConnectionAction,
) {
    if settings.read_after_banner_timeout.nanos() > 0 {
        go(
            c,
            ConnectionPhase::Client,
            ConnectionAction::AwaitClient { timeout: settings.read_after_banner_timeout },
        )
    } else {
        delaying(c, settings)
    }
}

/// The part that every visitor sees.
pub open spec fn serving(c: ConnectionView, settings: ConnectionSettings) -> (
    ConnectionView,
    ConnectionAction,
) {
    if settings.banner@.len() > 0 {
        go(c, ConnectionPhase::Banner, ConnectionAction::WriteBanner)
    } else {
        awaiting(c, settings)
    }
}

/// The visit was dealt with.
pub open spec fn counted(c: ConnectionView, settings: ConnectionSettings) -> (
    ConnectionView,
    ConnectionAction,
) {
    if c.allowlisted && settings.inline_admin {
        go(c, ConnectionPhase::Inline, ConnectionAction::TryInlineAdmin)
    } else {
        serving(c, settings)
    }
}

pub open spec fn ended(c: ConnectionView, action: ConnectionAction) -> (
    ConnectionView,
    ConnectionAction,
) {
    go(c, ConnectionPhase::End, action)
}

/// The first action for a connection.
pub open spec fn opened(c: ConnectionView, settings: ConnectionSettings) -> (
    ConnectionView,
    ConnectionAction,
) {
    if c.allowlisted {
        counted(c, settings)
    } else {
        go(c, ConnectionPhase::CheckBan, ConnectionAction::CheckBan)
    }
}

/// One step for a connection.
pub open spec fn connection_next(
    c: ConnectionView,
    settings: ConnectionSettings,
    event: ConnectionEvent,
) -> (ConnectionView, ConnectionAction) {
    let ok = event is Done;
    match c.phase {
        ConnectionPhase::CheckBan => match event {
            ConnectionEvent::Banned { banned } => if banned {
                counted(c, settings)
            } else {
                go(c, ConnectionPhase::Visit, ConnectionAction::RecordVisit)
            },
            _ => ended(c, ConnectionAction::Fail),
        },
        ConnectionPhase::Visit => match event {
            ConnectionEvent::Decided { decision: VisitDecision::Ban { count } } => go(
                c,
                ConnectionPhase::Enqueue,
                ConnectionAction::Enqueue { request: BanRequest { ip: c.ip, count } },
            ),
            ConnectionEvent::Decided { .. } => counted(c, settings),
            _ => ended(c, ConnectionAction::Fail),
        },
        ConnectionPhase::Enqueue => counted(c, settings),
        ConnectionPhase::Inline => match event {
            ConnectionEvent::Inline { handled } => if handled {
                ended(c, ConnectionAction::End)
            } else {
                serving(c, settings)
            },
            _ => ended(c, ConnectionAction::Fail),
        },
        ConnectionPhase::Banner => if ok {
            awaiting(c, settings)
        } else {
            ended(c, ConnectionAction::Fail)
        },
        ConnectionPhase::Client => delaying(c, settings),
        ConnectionPhase::Delay => shutting_down(c),
        ConnectionPhase::Shutdown => if ok {
            ended(c, ConnectionAction::End)
        } else {
            ended(c, ConnectionAction::Fail)
        },
        ConnectionPhase::End => ended(c, ConnectionAction::End),
    }
}

impl Connection {
    fn go(&mut self, phase: ConnectionPhase)
        ensures
            final(self)@ == (ConnectionView { phase, ..old(self)@ }),
    {
        self.phase = phase;
    }

    fn shut_down(&mut self) -> (action: ConnectionAction)
        ensures
            (final(self)@, action) == shutting_down(old(self)@),
    {
        self.go(ConnectionPhase::Shutdown);
        ConnectionAction::Shutdown
    }

    fn delay(&mut self, settings: &ConnectionSettings) -> (action: ConnectionAction)
        ensures
            (final(self)@, action) == delaying(old(self)@, *settings),
    {
        proof {
            settings.close_delay.lemma_nanos();
        }
        if !settings.close_delay.is_zero() {
            self.go(ConnectionPhase::Delay);
            ConnectionAction::Sleep { delay: settings.close_delay }
        } else {
            self.shut_down()
        }
    }

    fn await_client(&mut self, settings: &ConnectionSettings) -> (action: ConnectionAction)
        ensures
            (final(self)@, action) == awaiting(old(self)@, *settings),
    {
        proof {
            settings.read_after_banner_timeout.lemma_nanos();
        }
        if !settings.read_after_banner_timeout.is_zero() {
            self.go(ConnectionPhase::Client);
            ConnectionAction::AwaitClient { timeout: settings.read_after_banner_timeout }
        } else {
            self.delay(settings)
        }
    }

    fn serve(&mut self, settings: &ConnectionSettings) -> (action: ConnectionAction)
        ensures
            (final(self)@, action) == serving(old(self)@, *settings),
    {
        if settings.banner.len() > 0 {
            self.go(ConnectionPhase::Banner);
            ConnectionAction::WriteBanner
        } else {
            self.await_client(settings)
        }
    }

    fn visit_done(&mut self, settings: &ConnectionSettings) -> (action: ConnectionAction)
        ensures
            (final(self)@, action) == counted(old(self)@, *settings),
    {
        if self.allowlisted && settings.inline_admin {
            self.go(ConnectionPhase::Inline);
            ConnectionAction::TryInlineAdmin
        } else {
            self.serve(settings)
        }
    }

    fn end(&mut self, action: ConnectionAction) -> (r: ConnectionAction)
        ensures
            (final(self)@, r) == ended(old(self)@, action),
    {
        self.go(ConnectionPhase::End);
        action
    }

    /// Takes a connection in and gives the first action.
    pub fn open(
        ip: IpAddr,
        allowlist: &Vec<AllowlistEntry>,
        settings: &ConnectionSettings,
    ) -> (r: (Connection, ConnectionAction))
        ensures
            (r.0@, r.1) == opened(
                ConnectionView {
                    ip,
                    allowlisted: allowlist::covered(allowlist@, ip),
                    phase: ConnectionPhase::CheckBan,
                },
                *settings,
            ),
    {
        let allowlisted = allowlist::allowlisted(allowlist, ip);
        let mut c = Connection { ip, allowlisted, phase: ConnectionPhase::CheckBan };
        let action = if allowlisted {
            c.visit_done(settings)
        } else {
            ConnectionAction::CheckBan
        };
        (c, action)
    }

    /// Takes note of how the last action went and gives the next one.
    pub fn step(&mut self, settings: &ConnectionSettings, event: ConnectionEvent) -> (action:
        ConnectionAction)
        ensures
            (final(self)@, action) == connection_next(old(self)@, *settings, event),
    {
        let ok = match event {
            ConnectionEvent::Done => true,
            _ => false,
        };
        match self.phase {
            ConnectionPhase::CheckBan => match event {
                ConnectionEvent::Banned { banned } => {
                    if banned {
                        self.visit_done(settings)
                    } else {
                        self.go(ConnectionPhase::Visit);
                        ConnectionAction::RecordVisit
                    }
                },
                _ => self.end(ConnectionAction::Fail),
            },
            ConnectionPhase::Visit => match event {
                ConnectionEvent::Decided { decision } => match decision {
                    VisitDecision::Ban { count } => {
                        let request = BanRequest { ip: self.ip, count };
                        self.go(ConnectionPhase::Enqueue);
                        ConnectionAction::Enqueue { request }
                    },
                    VisitDecision::Allow { .. } => self.visit_done(settings),
                },
                _ => self.end(ConnectionAction::Fail),
            },
            ConnectionPhase::Enqueue => self.visit_done(settings),
            ConnectionPhase::Inline => match event {
                ConnectionEvent::Inline { handled } => {
                    if handled {
                        self.end(ConnectionAction::End)
                    } else {
                        self.serve(settings)
                    }
                },
                _ => self.end(ConnectionAction::Fail),
            },
            ConnectionPhase::Banner => {
                if ok {
                    self.await_client(settings)
                } else {
                    self.end(ConnectionAction::Fail)
                }
            },
            ConnectionPhase::Client => self.delay(settings),
            ConnectionPhase::Delay => self.shut_down(),
            ConnectionPhase::Shutdown => {
                if ok {
                    self.end(ConnectionAction::End)
                } else {
                    self.end(ConnectionAction::Fail)
                }
            },
            ConnectionPhase::End => self.end(ConnectionAction::End),
        }
    }
}

// ---------------------------------------------------------------------------
// Accepting

/// What the listener waits for.
#[derive(Clone, Copy, Debug, PartialEq, Eq, Structural)]
pub enum ListenerPhase {
    Bind,
    Permit,
    Accept,
    Backoff,
    Drain,
    Worker,
    End,
}

/// What is to be done for the listener.
#[derive(Clone, Copy, Debug, PartialEq, Eq, Structural)]
pub enum ListenerAction {
    /// Take hold of the address that is listened on.
    Bind,
    /// Report that the listener is ready, then wait for room.
    ReportReadyThenAwaitPermit,
    /// Wait for room for one more connection, for the end of one, or for the
    /// service to stop.
    AwaitPermit,
    /// Wait for a connection or for the service to stop.
    Accept,
    /// Serve the connection, which keeps its permit, then wait for room.
    ServeThenAwaitPermit,
    /// Give the permit back and wait.
    Sleep { delay: Duration },
    /// Wait for the connections to end.
    Drain,
    /// Wait for the bans that are queued.
    AwaitWorker,
    /// Nothing more.
    End,
    /// The listener is given up.
    Fail,
}

/// How it went.
#[derive(Clone, Copy, Debug, PartialEq, Eq, Structural)]
pub enum ListenerEvent {
    Bound,
    BindFailed,
    ShutdownRequested,
    ConnectionEnded,
    PermitGranted,
    PermitsClosed,
    Accepted,
    AcceptFailed,
    Slept,
    Drained,
    WorkerEnded,
    WorkerFailed,
}

pub struct Listener {
    phase: ListenerPhase,
    backoff: AcceptBackoff,
}

pub struct ListenerView {
    pub phase: ListenerPhase,
    pub backoff: int,
}

impl View for Listener {
    type V = ListenerView;

    closed spec fn view(&self) -> ListenerView {
        ListenerView { phase: self.phase, backoff: self.backoff.nanos() }
    }
}

/// One step of the listener: where it is afterwards, and what is done. Events
/// that do not belong to the phase leave it waiting.
pub open spec fn listener_next(l: ListenerView, event: ListenerEvent) -> ListenerView {
    match (l.phase, event) {
        (ListenerPhase::Bind, ListenerEvent::Bound) => ListenerView {
            phase: ListenerPhase::Permit,
            ..l
        },
        (ListenerPhase::Bind, ListenerEvent::BindFailed) => ListenerView {
            phase: ListenerPhase::End,
            ..l
        },
        (ListenerPhase::Permit, ListenerEvent::ShutdownRequested) => ListenerView {
            phase: ListenerPhase::Drain,
            ..l
        },
        (ListenerPhase::Permit, ListenerEvent::PermitGranted) => ListenerView {
            phase: ListenerPhase::Accept,
            ..l
        },
        (ListenerPhase::Permit, ListenerEvent::PermitsClosed) => ListenerView {
            phase: ListenerPhase::End,
            ..l
        },
        (ListenerPhase::Accept, ListenerEvent::ShutdownRequested) => ListenerView {
            phase: ListenerPhase::Drain,
            ..l
        },
        (ListenerPhase::Accept, ListenerEvent::Accepted) => ListenerView {
            phase: ListenerPhase::Permit,
            backoff: backoff_initial(),
        },
        (ListenerPhase::Accept, ListenerEvent::AcceptFailed) => ListenerView {
            phase: ListenerPhase::Backoff,
            backoff: backoff_after(l.backoff),
        },
        (ListenerPhase::Backoff, ListenerEvent::ShutdownRequested) => ListenerView {
            phase: ListenerPhase::Drain,
            ..l
        },
        (ListenerPhase::Backoff, ListenerEvent::Slept) => ListenerView {
            phase: ListenerPhase::Permit,
            ..l
        },
        (ListenerPhase::Drain, ListenerEvent::Drained) => ListenerView {
            phase: ListenerPhase::Worker,
            ..l
        },
        (ListenerPhase::Worker, ListenerEvent::WorkerEnded) => ListenerView {
            phase: ListenerPhase::End,
            ..l
        },
        (ListenerPhase::Worker, ListenerEvent::WorkerFailed) => ListenerView {
            phase: ListenerPhase::End,
            ..l
        },
        _ => l,
    }
}

/// The action that a step asks for, but for the length of a wait.
pub open spec fn listener_action(l: ListenerView, event: ListenerEvent, action: ListenerAction) -> bool {
    match (l.phase, event) {
        (ListenerPhase::Bind, ListenerEvent::Bound) => action
            == ListenerAction::ReportReadyThenAwaitPermit,
        (ListenerPhase::Bind, ListenerEvent::BindFailed) => action == ListenerAction::Fail,
        (ListenerPhase::Accept, ListenerEvent::Accepted) => action
            == ListenerAction::ServeThenAwaitPermit,
        (ListenerPhase::Accept, ListenerEvent::AcceptFailed) => action matches
            ListenerAction::Sleep { delay } && delay.nanos() == l.backoff,
        (ListenerPhase::Permit, ListenerEvent::PermitsClosed) => action == ListenerAction::Fail,
        (ListenerPhase::Worker, ListenerEvent::WorkerFailed) => action == ListenerAction::Fail,
        _ => match listener_next(l, event).phase {
            ListenerPhase::Bind => action == ListenerAction::Bind,
            ListenerPhase::Permit => action == ListenerAction::AwaitPermit,
            ListenerPhase::Accept => action == ListenerAction::Accept,
            ListenerPhase::Backoff => action matches ListenerAction::Sleep { delay }
                && delay.nanos() == 0,
            ListenerPhase::Drain => action == ListenerAction::Drain,
            ListenerPhase::Worker => action == ListenerAction::AwaitWorker,
            ListenerPhase::End => action == ListenerAction::End,
        },
    }
}

impl Listener {
    /// A listener that does not listen yet, and its first action.
    pub fn start() -> (r: (Listener, ListenerAction))
        ensures
            r.0@ == (ListenerView { phase: ListenerPhase::Bind, backoff: backoff_initial() }),
            r.1 == ListenerAction::Bind,
    {
        (
            Listener { phase: ListenerPhase::Bind, backoff: AcceptBackoff::new() },
            ListenerAction::Bind,
        )
    }

    /// Takes note of what happened and gives the next action.
    pub fn step(&mut self, event: ListenerEvent) -> (action: ListenerAction)
        ensures
            final(self)@ == listener_next(old(self)@, event),
            listener_action(old(self)@, event, action),
    {
        match (self.phase, event) {
            (ListenerPhase::Bind, ListenerEvent::Bound) => {
                self.phase = ListenerPhase::Permit;
                ListenerAction::ReportReadyThenAwaitPermit
            },
            (ListenerPhase::Bind, ListenerEvent::BindFailed) => {
                self.phase = ListenerPhase::End;
                ListenerAction::Fail
            },
            (ListenerPhase::Permit, ListenerEvent::ShutdownRequested)
            | (ListenerPhase::Accept, ListenerEvent::ShutdownRequested)
            | (ListenerPhase::Backoff, ListenerEvent::ShutdownRequested) => {
                self.phase = ListenerPhase::Drain;
                ListenerAction::Drain
            },
            (ListenerPhase::Permit, ListenerEvent::PermitGranted) => {
                self.phase = ListenerPhase::Accept;
                ListenerAction::Accept
            },
            (ListenerPhase::Permit, ListenerEvent::PermitsClosed) => {
                self.phase = ListenerPhase::End;
                ListenerAction::Fail
            },
            (ListenerPhase::Accept, ListenerEvent::Accepted) => {
                self.backoff.reset();
                self.phase = ListenerPhase::Permit;
                ListenerAction::ServeThenAwaitPermit
            },
            (ListenerPhase::Accept, ListenerEvent::AcceptFailed) => {
                let delay = self.backoff.next_delay();
                self.phase = ListenerPhase::Backoff;
                ListenerAction::Sleep { delay }
            },
            (ListenerPhase::Backoff, ListenerEvent::Slept) => {
                self.phase = ListenerPhase::Permit;
                ListenerAction::AwaitPermit
            },
            (ListenerPhase::Drain, ListenerEvent::Drained) => {
                self.phase = ListenerPhase::Worker;
                ListenerAction::AwaitWorker
            },
            (ListenerPhase::Worker, ListenerEvent::WorkerEnded) => {
                self.phase = ListenerPhase::End;
                ListenerAction::End
            },
            (ListenerPhase::Worker, ListenerEvent::WorkerFailed) => {
                self.phase = ListenerPhase::End;
                ListenerAction::Fail
            },
            _ => match self.phase {
                ListenerPhase::Bind => ListenerAction::Bind,
                ListenerPhase::Permit => ListenerAction::AwaitPermit,
                ListenerPhase::Accept => ListenerAction::Accept,
                ListenerPhase::Backoff => ListenerAction::Sleep { delay: Duration::from_secs(0) },
                ListenerPhase::Drain => ListenerAction::Drain,
                ListenerPhase::Worker => ListenerAction::AwaitWorker,
                ListenerPhase::End => ListenerAction::End,
            },
        }
    }
}

// ---------------------------------------------------------------------------
// Laws

/// The wait starts at the initial one, doubles with every failure and never
/// exceeds the longest one.
pub proof fn law_backoff_is_bounded(failures: nat)
    ensures
        backoff_initial() <= backoff(failures) <= backoff_max(),
        backoff(failures) <= backoff(failures + 1),
        2 * backoff(failures) <= backoff_max() ==> backoff(failures + 1) == 2 * backoff(failures),
        failures >= 5 ==> backoff(failures) == backoff_max(),
    decreases failures,
{
    reveal_with_fuel(backoff, 7);
    if failures > 0 {
        law_backoff_is_bounded((failures - 1) as nat);
    }
}

/// After any number of failures in a row the listener waits as that number
/// says, and a connection that is accepted starts the count anew.
pub proof fn law_listener_backs_off(l: ListenerView, failures: nat)
    requires
        l.phase == ListenerPhase::Accept,
        l.backoff == backoff(failures),
    ensures
        listener_next(l, ListenerEvent::AcceptFailed).backoff == backoff(failures + 1),
        listener_next(l, ListenerEvent::Accepted).backoff == backoff(0),
        forall|action: ListenerAction| #[trigger]
            listener_action(l, ListenerEvent::AcceptFailed, action) ==> (action matches
                ListenerAction::Sleep { delay } && delay.nanos() == backoff(failures)),
{
}

/// A connection is accepted only after room for it was granted, and every
/// connection that is served has taken that room.
pub proof fn law_connections_need_a_permit(l: ListenerView, event: ListenerEvent)
    ensures
        listener_next(l, event).phase == ListenerPhase::Accept && l.phase
            != ListenerPhase::Accept ==> l.phase == ListenerPhase::Permit && event
            == ListenerEvent::PermitGranted,
        listener_action(l, event, ListenerAction::ServeThenAwaitPermit) ==> l.phase
            == ListenerPhase::Accept && listener_next(l, event).phase == ListenerPhase::Permit,
{
}

/// Once the service is to stop nothing more is accepted: the listener waits
/// for its connections, then for the bans that are queued, and ends.
pub proof fn law_shutdown_drains(l: ListenerView, event: ListenerEvent)
    requires
        l.phase == ListenerPhase::Drain || l.phase == ListenerPhase::Worker || l.phase
            == ListenerPhase::End,
    ensures
        ({
            let after = listener_next(l, event).phase;
            &&& after == ListenerPhase::Drain || after == ListenerPhase::Worker || after
                == ListenerPhase::End
            &&& after == ListenerPhase::Worker && l.phase != ListenerPhase::Worker ==> event
                == ListenerEvent::Drained
            &&& after == ListenerPhase::End && l.phase != ListenerPhase::End ==> l.phase
                == ListenerPhase::Worker
        }),
{
}

/// The listener together with the number of connections that are being served,
/// whether it was reported to be ready, and whether it has ended without
/// failure.
pub struct ServiceView {
    pub listener: ListenerView,
    pub serving: nat,
    pub ready: bool,
    pub done: bool,
}

/// Something that happens: a connection ends by itself, or the listener is told
/// of an event.
pub enum Moment {
    Ended,
    Told { event: ListenerEvent },
}

/// The room that the listener itself holds: one place while it accepts.
pub open spec fn held(s: ServiceView) -> nat {
    if s.listener.phase == ListenerPhase::Accept {
        1
    } else {
        0
    }
}

/// Whether `moment` can happen when there is room for `limit` connections. Room
/// is granted only where some is left, and the connections are reported to
/// have ended only where none is served. The address is bound only where that
/// was asked for.
pub open spec fn possible(s: ServiceView, limit: nat, moment: Moment) -> bool {
    match moment {
        Moment::Ended => s.serving > 0,
        Moment::Told { event: ListenerEvent::PermitGranted } => s.serving + held(s) < limit,
        Moment::Told { event: ListenerEvent::Drained } => s.serving == 0,
        Moment::Told { event: ListenerEvent::Bound | ListenerEvent::BindFailed } => s.listener.phase
            == ListenerPhase::Bind,
        Moment::Told { .. } => true,
    }
}

pub open spec fn happened(s: ServiceView, moment: Moment) -> ServiceView {
    match moment {
        Moment::Ended => ServiceView { serving: (s.serving - 1) as nat, ..s },
        Moment::Told { event } => ServiceView {
            listener: listener_next(s.listener, event),
            serving: if listener_action(
                s.listener,
                event,
                ListenerAction::ServeThenAwaitPermit,
            ) {
                s.serving + 1
            } else {
                s.serving
            },
            ready: s.ready || listener_action(
                s.listener,
                event,
                ListenerAction::ReportReadyThenAwaitPermit,
            ),
            done: s.done || s.listener.phase != ListenerPhase::End && listener_action(
                s.listener,
                event,
                ListenerAction::End,
            ),
        },
    }
}

/// The service after `moments`, from its start.
pub open spec fn service_after(moments: Seq<Moment>) -> ServiceView
    decreases moments.len(),
{
    if moments.len() == 0 {
        ServiceView {
            listener: ListenerView { phase: ListenerPhase::Bind, backoff: backoff_initial() },
            serving: 0,
            ready: false,
            done: false,
        }
    } else {
        happened(service_after(moments.drop_last()), moments.last())
    }
}

pub open spec fn all_possible(moments: Seq<Moment>, limit: nat) -> bool {
    forall|i: int|
        0 <= i < moments.len() ==> possible(
            service_after(#[trigger] moments.take(i)),
            limit,
            moments[i],
        )
}

/// Whatever happens, and in whatever order, no more connections are served at
/// a time than the limit allows. The listener is reported to be ready exactly
/// when its address was bound. Where that failed nothing is reported and
/// nothing is served. The queued bans are waited for only when no connection
/// is left, and so the listener ends without failure only after its
/// connections and after the bans.
pub proof fn law_listener_keeps_its_limit(moments: Seq<Moment>, limit: nat)
    requires
        all_possible(moments, limit),
    ensures
        ({
            let s = service_after(moments);
            let phase = s.listener.phase;
            &&& s.serving + held(s) <= limit
            &&& s.ready <==> moments.contains(Moment::Told { event: ListenerEvent::Bound })
            &&& phase == ListenerPhase::Bind ==> !s.ready && s.serving == 0
            &&& phase != ListenerPhase::Bind && phase != ListenerPhase::End ==> s.ready
            &&& moments.contains(Moment::Told { event: ListenerEvent::BindFailed }) ==> phase
                == ListenerPhase::End && !s.ready && !s.done && s.serving == 0
            &&& phase == ListenerPhase::Worker ==> s.serving == 0 && moments.contains(
                Moment::Told { event: ListenerEvent::Drained },
            )
            &&& s.done ==> {
                &&& phase == ListenerPhase::End
                &&& s.ready
                &&& s.serving == 0
                &&& moments.contains(Moment::Told { event: ListenerEvent::Drained })
                &&& moments.contains(Moment::Told { event: ListenerEvent::WorkerEnded })
            }
        }),
    decreases moments.len(),
{
    if moments.len() > 0 {
        let earlier = moments.drop_last();
        let last = moments.last();
        let n = moments.len() as int;
        assert forall|i: int| 0 <= i < earlier.len() implies possible(
            service_after(#[trigger] earlier.take(i)),
            limit,
            earlier[i],
        ) by {
            assert(earlier.take(i) =~= moments.take(i));
        }
        law_listener_keeps_its_limit(earlier, limit);
        assert(moments.take(n - 1) =~= earlier);
        assert(possible(service_after(moments.take(n - 1)), limit, moments[n - 1]));
        assert(moments[n - 1] == last);
        assert forall|m: Moment| #[trigger] moments.contains(m) <==> earlier.contains(m) || m
            == last by {
            if earlier.contains(m) {
                let i = choose|i: int| 0 <= i < earlier.len() && earlier[i] == m;
                assert(moments[i] == m);
            }
            if moments.contains(m) && m != last {
                let i = choose|i: int| 0 <= i < moments.len() && moments[i] == m;
                assert(earlier[i] == m);
            }
        }
    }
}

/// The part of a connection in which a visit is counted.
pub open spec fn counting(phase: ConnectionPhase) -> bool {
    phase == ConnectionPhase::CheckBan || phase == ConnectionPhase::Visit || phase
        == ConnectionPhase::Enqueue
}

pub open spec fn counting_action(action: ConnectionAction) -> bool {
    action is CheckBan || action is RecordVisit || action is Enqueue
}

/// A source on the allowlist is served like any other, but its visits are not
/// counted and it is never banned for them.
pub proof fn law_allowlisted_visits_do_not_count(
    c: ConnectionView,
    settings: ConnectionSettings,
    event: ConnectionEvent,
)
    requires
        c.allowlisted,
    ensures
        !counting(opened(c, settings).0.phase),
        !counting_action(opened(c, settings).1),
        opened(c, settings).0.allowlisted,
        !counting(c.phase) ==> !counting(connection_next(c, settings, event).0.phase)
            && !counting_action(connection_next(c, settings, event).1) && connection_next(
            c,
            settings,
            event,
        ).0.allowlisted,
{
}

/// The administration is offered on this port only to sources on the
/// allowlist, and only where that was asked for.
pub proof fn law_inline_admin_needs_the_allowlist(
    c: ConnectionView,
    settings: ConnectionSettings,
    event: ConnectionEvent,
)
    ensures
        opened(c, settings).1 is TryInlineAdmin ==> c.allowlisted && settings.inline_admin,
        connection_next(c, settings, event).1 is TryInlineAdmin ==> c.allowlisted
            && settings.inline_admin,
{
}

/// A ban is queued exactly when the visit was decided to be one too many, and
/// it is that source which is to be banned.
pub proof fn law_threshold_queues_a_ban(
    c: ConnectionView,
    settings: ConnectionSettings,
    event: ConnectionEvent,
)
    ensures
        connection_next(c, settings, event).1 is Enqueue <==> c.phase == ConnectionPhase::Visit && (
        event matches ConnectionEvent::Decided { decision } && decision is Ban),
        connection_next(c, settings, event).1 matches ConnectionAction::Enqueue { request }
            ==> request.ip == c.ip,
        !(opened(c, settings).1 is Enqueue),
{
}

/// The visits of a source that is banned already are not counted again.
pub proof fn law_banned_visits_do_not_count(
    c: ConnectionView,
    settings: ConnectionSettings,
    event: ConnectionEvent,
)
    ensures
        connection_next(c, settings, event).1 is RecordVisit <==> c.phase
            == ConnectionPhase::CheckBan && event == (ConnectionEvent::Banned { banned: false }),
{
}

/// What a visitor is shown, one after the other: the banner where there is
/// one, time to speak where there is a limit to it, a delay where there is
/// one, and then the end of the connection.
pub open spec fn first_shown(settings: ConnectionSettings, from: nat) -> (
    ConnectionPhase,
    ConnectionAction,
) {
    if from <= 0 && settings.banner@.len() > 0 {
        (ConnectionPhase::Banner, ConnectionAction::WriteBanner)
    } else if from <= 1 && settings.read_after_banner_timeout.nanos() > 0 {
        (
            ConnectionPhase::Client,
            ConnectionAction::AwaitClient { timeout: settings.read_after_banner_timeout },
        )
    } else if from <= 2 && settings.close_delay.nanos() > 0 {
        (ConnectionPhase::Delay, ConnectionAction::Sleep { delay: settings.close_delay })
    } else {
        (ConnectionPhase::Shutdown, ConnectionAction::Shutdown)
    }
}

/// Every visitor is shown the same: one on the allowlist whose request was not
/// to the administration, one that is banned already, one whose visit was
/// noted, and one whose ban was queued or could not be queued.
pub proof fn law_every_visitor_is_shown_the_same(
    c: ConnectionView,
    settings: ConnectionSettings,
    event: ConnectionEvent,
    count: usize,
)
    ensures
        ({
            let shown = (
                ConnectionView { phase: first_shown(settings, 0).0, ..c },
                first_shown(settings, 0).1,
            );
            let offered = (
                ConnectionView { phase: ConnectionPhase::Inline, ..c },
                ConnectionAction::TryInlineAdmin,
            );
            &&& !c.allowlisted ==> opened(c, settings) == (
                ConnectionView { phase: ConnectionPhase::CheckBan, ..c },
                ConnectionAction::CheckBan,
            )
            &&& c.allowlisted && settings.inline_admin ==> opened(c, settings) == offered
            &&& c.allowlisted && !settings.inline_admin ==> opened(c, settings) == shown
            &&& c.phase == ConnectionPhase::Inline ==> connection_next(
                c,
                settings,
                ConnectionEvent::Inline { handled: false },
            ) == shown
            &&& c.phase == ConnectionPhase::Inline ==> connection_next(
                c,
                settings,
                ConnectionEvent::Inline { handled: true },
            ).1 is End
            &&& !c.allowlisted && c.phase == ConnectionPhase::CheckBan ==> connection_next(
                c,
                settings,
                ConnectionEvent::Banned { banned: true },
            ) == shown
            &&& c.phase == ConnectionPhase::CheckBan ==> connection_next(
                c,
                settings,
                ConnectionEvent::Banned { banned: false },
            ) == (
                ConnectionView { phase: ConnectionPhase::Visit, ..c },
                ConnectionAction::RecordVisit,
            )
            &&& !c.allowlisted && c.phase == ConnectionPhase::Visit ==> connection_next(
                c,
                settings,
                ConnectionEvent::Decided { decision: VisitDecision::Allow { count } },
            ) == shown
            &&& c.phase == ConnectionPhase::Visit ==> connection_next(
                c,
                settings,
                ConnectionEvent::Decided { decision: VisitDecision::Ban { count } },
            ) == (
                ConnectionView { phase: ConnectionPhase::Enqueue, ..c },
                ConnectionAction::Enqueue { request: BanRequest { ip: c.ip, count } },
            )
            &&& !c.allowlisted && c.phase == ConnectionPhase::Enqueue ==> connection_next(
                c,
                settings,
                event,
            ) == shown
        }),
{
}

/// What is shown is shown in its order and to the end, for any settings. A
/// banner that cannot be sent, or a connection that cannot be ended, is a
/// failure; what the client says, or that it says nothing, is none.
pub proof fn law_what_is_shown_has_an_order(
    c: ConnectionView,
    settings: ConnectionSettings,
    event: ConnectionEvent,
)
    ensures
        ({
            let (after, action) = connection_next(c, settings, event);
            &&& after.ip == c.ip && after.allowlisted == c.allowlisted
            &&& c.phase == ConnectionPhase::Banner && event is Done ==> (after.phase, action)
                == first_shown(settings, 1)
            &&& c.phase == ConnectionPhase::Client ==> (after.phase, action) == first_shown(
                settings,
                2,
            )
            &&& c.phase == ConnectionPhase::Delay ==> (after.phase, action) == (
                ConnectionPhase::Shutdown,
                ConnectionAction::Shutdown,
            )
            &&& c.phase == ConnectionPhase::Shutdown && event is Done ==> (after.phase, action) == (
                ConnectionPhase::End,
                ConnectionAction::End,
            )
            &&& (c.phase == ConnectionPhase::Banner || c.phase == ConnectionPhase::Shutdown)
                && event is Failed ==> (after.phase, action) == (
                ConnectionPhase::End,
                ConnectionAction::Fail,
            )
            &&& (c.phase == ConnectionPhase::Inline || c.phase == ConnectionPhase::CheckBan
                || c.phase == ConnectionPhase::Visit) && event is Failed ==> action
                == ConnectionAction::Fail
            &&& c.phase == ConnectionPhase::End ==> action == ConnectionAction::End
        }),
{
}

/// The listener goes on until it is told to stop: room is followed by a wait
/// for a connection, a connection is served and followed by a wait for room,
/// and a failure is waited out and followed by the same. A request to stop is
/// heard at each of these points, and then nothing is accepted.
pub proof fn law_listener_goes_on_until_told_to_stop(l: ListenerView, event: ListenerEvent)
    ensures
        ({
            let after = listener_next(l, event);
            let open = l.phase == ListenerPhase::Permit || l.phase == ListenerPhase::Accept
                || l.phase == ListenerPhase::Backoff;
            &&& open && event == ListenerEvent::ShutdownRequested ==> after.phase
                == ListenerPhase::Drain && listener_action(l, event, ListenerAction::Drain)
            &&& l.phase == ListenerPhase::Permit && event == ListenerEvent::PermitGranted
                ==> after.phase == ListenerPhase::Accept && listener_action(
                l,
                event,
                ListenerAction::Accept,
            )
            &&& l.phase == ListenerPhase::Accept && event == ListenerEvent::Accepted ==> after.phase
                == ListenerPhase::Permit && listener_action(
                l,
                event,
                ListenerAction::ServeThenAwaitPermit,
            )
            &&& l.phase == ListenerPhase::Accept && event == ListenerEvent::AcceptFailed
                ==> after.phase == ListenerPhase::Backoff
            &&& l.phase == ListenerPhase::Backoff && event == ListenerEvent::Slept ==> after.phase
                == ListenerPhase::Permit && listener_action(l, event, ListenerAction::AwaitPermit)
            &&& open && after.phase == ListenerPhase::Drain ==> event
                == ListenerEvent::ShutdownRequested
            &&& l.phase == ListenerPhase::Drain && event != ListenerEvent::Drained ==> after == l
                && listener_action(l, event, ListenerAction::Drain)
            &&& l.phase == ListenerPhase::Drain && event == ListenerEvent::Drained ==> after.phase
                == ListenerPhase::Worker && listener_action(l, event, ListenerAction::AwaitWorker)
            &&& l.phase == ListenerPhase::Worker && event == ListenerEvent::WorkerEnded
                ==> after.phase == ListenerPhase::End && listener_action(
                l,
                event,
                ListenerAction::End,
            )
            &&& l.phase == ListenerPhase::Worker && event == ListenerEvent::WorkerFailed
                ==> after.phase == ListenerPhase::End && listener_action(
                l,
                event,
                ListenerAction::Fail,
            )
            &&& l.phase == ListenerPhase::Permit && event == ListenerEvent::ConnectionEnded
                ==> after == l && listener_action(l, event, ListenerAction::AwaitPermit)
        }),
{
}

/// The waits after failures in a row are 50, 100, 200, 400 and 800
/// milliseconds, and one second from then on.
pub proof fn law_backoff_is_a_doubling(failures: nat)
    ensures
        backoff(failures) == if failures < 5 {
            50_000_000 * seq![1int, 2, 4, 8, 16][failures as int]
        } else {
            1_000_000_000
        },
    decreases failures,
{
    if failures > 0 {
        law_backoff_is_a_doubling((failures - 1) as nat);
    }
}

} // verus!

//! Bans and their order of work: the pending change is kept first, then the
//! firewall is changed, then the journal, then memory.

use vstd::prelude::*;

use crate::addr::IpAddr;
use crate::store;
use crate::store::{
    BanRecord, BanRecordView, BanStateChange, BanStateChangeView, BanTable, Timestamp,
};

verus! {

// ---------------------------------------------------------------------------
// What an operation comes to

#[derive(Clone, Copy, Debug, PartialEq, Eq, Structural)]
pub enum BanOutcome {
    Banned,
    AlreadyBanned,
}

#[derive(Clone, Copy, Debug, PartialEq, Eq, Structural)]
pub enum UnbanOutcome {
    Unbanned,
    NotBanned,
}

#[derive(Clone, Copy, Debug, PartialEq, Eq, Structural)]
pub enum Outcome {
    Restored,
    Ban { ban: BanOutcome },
    Unban { unban: UnbanOutcome },
    Compacted,
    /// The action asked for last did not succeed.
    Failed,
}

// ---------------------------------------------------------------------------
// Operations and their steps

/// What the manager was asked for.
pub enum Operation {
    Restore,
    Ban { ip: IpAddr, reason: String },
    Unban { ip: IpAddr },
    Compact,
}

pub enum OperationView {
    Restore,
    Ban { ip: IpAddr, reason: Seq<char> },
    Unban { ip: IpAddr },
    Compact,
}

impl View for Operation {
    type V = OperationView;

    open spec fn view(&self) -> OperationView {
        match self {
            Operation::Restore => OperationView::Restore,
            Operation::Ban { ip, reason } => OperationView::Ban { ip: *ip, reason: reason@ },
            Operation::Unban { ip } => OperationView::Unban { ip: *ip },
            Operation::Compact => OperationView::Compact,
        }
    }
}

/// The parts of carrying out a change.
#[derive(Clone, Copy, Debug, PartialEq, Eq, Structural)]
pub enum Stage {
    Firewall,
    Journal,
    Clear,
}

/// The action that an operation waits for.
pub enum Phase {
    Setup,
    Restore { records: Vec<BanRecord>, at: usize },
    Load,
    Recover { change: BanStateChange, stage: Stage },
    Save { change: BanStateChange },
    Change { change: BanStateChange, stage: Stage },
    Compact,
    Notify { outcome: Outcome },
    End { outcome: Outcome },
}

pub enum PhaseView {
    Setup,
    Restore { records: Seq<BanRecordView>, at: int },
    Load,
    Recover { change: BanStateChangeView, stage: Stage },
    Save { change: BanStateChangeView },
    Change { change: BanStateChangeView, stage: Stage },
    Compact,
    Notify { outcome: Outcome },
    End { outcome: Outcome },
}

impl View for Phase {
    type V = PhaseView;

    open spec fn view(&self) -> PhaseView {
        match self {
            Phase::Setup => PhaseView::Setup,
            Phase::Restore { records, at } => PhaseView::Restore {
                records: store::record_views(records@),
                at: *at as int,
            },
            Phase::Load => PhaseView::Load,
            Phase::Recover { change, stage } => PhaseView::Recover {
                change: change@,
                stage: *stage,
            },
            Phase::Save { change } => PhaseView::Save { change: change@ },
            Phase::Change { change, stage } => PhaseView::Change { change: change@, stage: *stage },
            Phase::Compact => PhaseView::Compact,
            Phase::Notify { outcome } => PhaseView::Notify { outcome: *outcome },
            Phase::End { outcome } => PhaseView::End { outcome: *outcome },
        }
    }
}

/// What is to be done outside, one at a time.
pub enum Action {
    /// Make the firewall ready.
    SetupFirewall,
    /// Block a source that the records say is banned.
    RestoreBan { record: BanRecord },
    /// Read the pending change.
    LoadPending,
    /// Keep a change as pending.
    SavePending { change: BanStateChange },
    /// Block or release a source.
    ChangeFirewall { change: BanStateChange },
    /// Add a change to the journal.
    AppendJournal { change: BanStateChange },
    /// Remove the pending change.
    ClearPending { ip: IpAddr },
    /// Replace the snapshot and remove the journal.
    Compact { updated_at: Timestamp, ips: Vec<BanRecord> },
    /// Hand the records on for upload.
    Notify { records: Vec<BanRecord> },
    /// Nothing more: the operation has come to this.
    Finish { outcome: Outcome },
}

pub enum ActionView {
    SetupFirewall,
    RestoreBan { record: BanRecordView },
    LoadPending,
    SavePending { change: BanStateChangeView },
    ChangeFirewall { change: BanStateChangeView },
    AppendJournal { change: BanStateChangeView },
    ClearPending { ip: IpAddr },
    Compact { updated_at: Timestamp, ips: Seq<BanRecordView> },
    Notify { records: Seq<BanRecordView> },
    Finish { outcome: Outcome },
}

impl View for Action {
    type V = ActionView;

    open spec fn view(&self) -> ActionView {
        match self {
            Action::SetupFirewall => ActionView::SetupFirewall,
            Action::RestoreBan { record } => ActionView::RestoreBan { record: record@ },
            Action::LoadPending => ActionView::LoadPending,
            Action::SavePending { change } => ActionView::SavePending { change: change@ },
            Action::ChangeFirewall { change } => ActionView::ChangeFirewall { change: change@ },
            Action::AppendJournal { change } => ActionView::AppendJournal { change: change@ },
            Action::ClearPending { ip } => ActionView::ClearPending { ip: *ip },
            Action::Compact { updated_at, ips } => ActionView::Compact {
                updated_at: *updated_at,
                ips: store::record_views(ips@),
            },
            Action::Notify { records } => ActionView::Notify {
                records: store::record_views(records@),
            },
            Action::Finish { outcome } => ActionView::Finish { outcome: *outcome },
        }
    }
}

/// How an action went.
pub enum Event {
    Succeeded,
    Failed,
    /// The answer to `LoadPending`.
    Pending { change: Option<BanStateChange> },
}

pub enum EventView {
    Succeeded,
    Failed,
    Pending { change: Option<BanStateChangeView> },
}

impl View for Event {
    type V = EventView;

    open spec fn view(&self) -> EventView {
        match self {
            Event::Succeeded => EventView::Succeeded,
            Event::Failed => EventView::Failed,
            Event::Pending { change } => EventView::Pending {
                change: match change {
                    Some(c) => Some(c@),
                    None => None,
                },
            },
        }
    }
}

/// An operation under way.
pub struct BanTask {
    operation: Operation,
    phase: Phase,
    /// Whether a pending change was carried out on the way.
    recovered: bool,
}

pub struct BanTaskView {
    pub operation: OperationView,
    pub phase: PhaseView,
    pub recovered: bool,
}

impl View for BanTask {
    type V = BanTaskView;

    closed spec fn view(&self) -> BanTaskView {
        BanTaskView {
            operation: self.operation@,
            phase: self.phase@,
            recovered: self.recovered,
        }
    }
}

/// The banned sources in memory, and whether they are handed on for upload.
pub struct BanManager {
    records: BanTable,
    sync: bool,
}

pub struct BanManagerView {
    pub records: Map<IpAddr, BanRecordView>,
    pub sync: bool,
}

impl View for BanManager {
    type V = BanManagerView;

    closed spec fn view(&self) -> BanManagerView {
        BanManagerView { records: self.records@, sync: self.sync }
    }
}

/// The records in the order of their addresses.
pub open spec fn listing(records: Map<IpAddr, BanRecordView>) -> Seq<BanRecordView> {
    choose|s: Seq<BanRecordView>| store::lists(s, records)
}

pub proof fn lemma_listing(s: Seq<BanRecordView>, records: Map<IpAddr, BanRecordView>)
    requires
        store::lists(s, records),
    ensures
        listing(records) == s,
        store::lists(listing(records), records),
{
    store::law_listing_is_unique(s, listing(records), records);
}

// ---------------------------------------------------------------------------
// The order of work

/// The state of the manager and of one operation, and the action that comes
/// next.
pub struct Step {
    pub task: BanTaskView,
    pub manager: BanManagerView,
    pub action: ActionView,
}

/// Outcomes after which the records are handed on.
pub open spec fn worth_telling(outcome: Outcome) -> bool {
    ||| outcome is Restored
    ||| outcome == Outcome::Ban { ban: BanOutcome::Banned }
    ||| outcome == Outcome::Unban { unban: UnbanOutcome::Unbanned }
}

pub open spec fn wait(
    task: BanTaskView,
    manager: BanManagerView,
    phase: PhaseView,
    action: ActionView,
) -> Step {
    Step { task: BanTaskView { phase, ..task }, manager, action }
}

/// The operation comes to an outcome. Where records changed, they are handed
/// on first.
pub open spec fn finish(task: BanTaskView, manager: BanManagerView, outcome: Outcome) -> Step {
    if manager.sync && (task.recovered || worth_telling(outcome)) {
        wait(
            task,
            manager,
            PhaseView::Notify { outcome },
            ActionView::Notify { records: listing(manager.records) },
        )
    } else {
        wait(task, manager, PhaseView::End { outcome }, ActionView::Finish { outcome })
    }
}

/// The bans of the records are restored one by one, then the pending change is
/// looked at.
pub open spec fn restore_from(
    task: BanTaskView,
    manager: BanManagerView,
    records: Seq<BanRecordView>,
    at: int,
) -> Step {
    if at < records.len() {
        wait(
            task,
            manager,
            PhaseView::Restore { records, at },
            ActionView::RestoreBan { record: records[at] },
        )
    } else {
        wait(task, manager, PhaseView::Load, ActionView::LoadPending)
    }
}

/// What comes when no pending change is left.
pub open spec fn proceed(task: BanTaskView, manager: BanManagerView, now: Timestamp) -> Step {
    match task.operation {
        OperationView::Restore => finish(task, manager, Outcome::Restored),
        OperationView::Ban { ip, reason } => if manager.records.contains_key(ip) {
            finish(task, manager, Outcome::Ban { ban: BanOutcome::AlreadyBanned })
        } else {
            let change = BanStateChangeView::Ban {
                record: BanRecordView { ip, banned_at: now, reason },
            };
            wait(
                task,
                manager,
                PhaseView::Save { change },
                ActionView::SavePending { change },
            )
        },
        OperationView::Unban { ip } => if !manager.records.contains_key(ip) {
            finish(task, manager, Outcome::Unban { unban: UnbanOutcome::NotBanned })
        } else {
            let change = BanStateChangeView::Unban { ip };
            wait(
                task,
                manager,
                PhaseView::Save { change },
                ActionView::SavePending { change },
            )
        },
        OperationView::Compact => wait(
            task,
            manager,
            PhaseView::Compact,
            ActionView::Compact { updated_at: now, ips: listing(manager.records) },
        ),
    }
}

pub open spec fn with_change(
    manager: BanManagerView,
    change: BanStateChangeView,
) -> BanManagerView {
    BanManagerView { records: change.applied(manager.records), ..manager }
}

/// The outcome of a change that was carried out.
pub open spec fn changed(change: BanStateChangeView) -> Outcome {
    match change {
        BanStateChangeView::Ban { .. } => Outcome::Ban { ban: BanOutcome::Banned },
        BanStateChangeView::Unban { .. } => Outcome::Unban { unban: UnbanOutcome::Unbanned },
    }
}

/// One step: an action has gone as `event` says, and the next one follows.
pub open spec fn next(
    task: BanTaskView,
    manager: BanManagerView,
    event: EventView,
    now: Timestamp,
) -> Step {
    let ok = event is Succeeded;
    match task.phase {
        PhaseView::Setup => if ok {
            restore_from(task, manager, listing(manager.records), 0)
        } else {
            finish(task, manager, Outcome::Failed)
        },
        PhaseView::Restore { records, at } => if ok {
            restore_from(task, manager, records, at + 1)
        } else {
            finish(task, manager, Outcome::Failed)
        },
        PhaseView::Load => match event {
            EventView::Pending { change: Some(change) } => wait(
                task,
                manager,
                PhaseView::Recover { change, stage: Stage::Firewall },
                ActionView::ChangeFirewall { change },
            ),
            EventView::Pending { change: None } => proceed(task, manager, now),
            _ => finish(task, manager, Outcome::Failed),
        },
        PhaseView::Recover { change, stage: Stage::Firewall } => if ok {
            wait(
                task,
                manager,
                PhaseView::Recover { change, stage: Stage::Journal },
                ActionView::AppendJournal { change },
            )
        } else {
            finish(task, manager, Outcome::Failed)
        },
        PhaseView::Recover { change, stage: Stage::Journal } => if ok {
            wait(
                task,
                with_change(manager, change),
                PhaseView::Recover { change, stage: Stage::Clear },
                ActionView::ClearPending { ip: change.ip() },
            )
        } else {
            finish(task, manager, Outcome::Failed)
        },
        PhaseView::Recover { change, stage: Stage::Clear } => proceed(
            BanTaskView { recovered: true, ..task },
            manager,
            now,
        ),
        PhaseView::Save { change } => if ok {
            wait(
                task,
                manager,
                PhaseView::Change { change, stage: Stage::Firewall },
                ActionView::ChangeFirewall { change },
            )
        } else {
            finish(task, manager, Outcome::Failed)
        },
        PhaseView::Change { change, stage: Stage::Firewall } => if ok {
            wait(
                task,
                manager,
                PhaseView::Change { change, stage: Stage::Journal },
                ActionView::AppendJournal { change },
            )
        } else {
            finish(task, manager, Outcome::Failed)
        },
        PhaseView::Change { change, stage: Stage::Journal } => if ok {
            wait(
                task,
                with_change(manager, change),
                PhaseView::Change { change, stage: Stage::Clear },
                ActionView::ClearPending { ip: change.ip() },
            )
        } else {
            finish(task, manager, Outcome::Failed)
        },
        PhaseView::Change { change, stage: Stage::Clear } => finish(
            task,
            manager,
            changed(change),
        ),
        PhaseView::Compact => finish(
            task,
            manager,
            if ok {
                Outcome::Compacted
            } else {
                Outcome::Failed
            },
        ),
        PhaseView::Notify { outcome } => wait(
            task,
            manager,
            PhaseView::End { outcome },
            ActionView::Finish { outcome },
        ),
        PhaseView::End { outcome } => wait(
            task,
            manager,
            PhaseView::End { outcome },
            ActionView::Finish { outcome },
        ),
    }
}

/// The first action of an operation.
pub open spec fn start(operation: OperationView, manager: BanManagerView) -> Step {
    if operation is Restore {
        Step {
            task: BanTaskView { operation, phase: PhaseView::Setup, recovered: false },
            manager,
            action: ActionView::SetupFirewall,
        }
    } else {
        Step {
            task: BanTaskView { operation, phase: PhaseView::Load, recovered: false },
            manager,
            action: ActionView::LoadPending,
        }
    }
}

impl BanTask {
    fn wait(&mut self, phase: Phase)
        ensures
            final(self)@ == (BanTaskView { phase: phase@, ..old(self)@ }),
    {
        self.phase = phase;
    }
}

impl BanManager {
    /// A manager of the records that were loaded.
    pub fn load(records: BanTable, sync: bool) -> (r: BanManager)
        ensures
            r@ == (BanManagerView { records: records@, sync }),
    {
        BanManager { records, sync }
    }

    pub fn is_banned(&self, ip: IpAddr) -> (r: bool)
        ensures
            r == self@.records.contains_key(ip),
    {
        self.records.contains_key(ip)
    }

    /// The records in the order of their addresses.
    pub fn records_snapshot(&self) -> (r: Vec<BanRecord>)
        ensures
            store::lists(store::record_views(r@), self@.records),
            store::record_views(r@) == listing(self@.records),
    {
        let r = self.records.to_vec();
        proof {
            lemma_listing(store::record_views(r@), self@.records);
        }
        r
    }

    /// Starts to make the firewall ready and to restore the bans.
    pub fn setup_and_restore(&self) -> (r: (BanTask, Action))
        ensures
            (Step { task: r.0@, manager: self@, action: r.1@ }) == start(
                OperationView::Restore,
                self@,
            ),
    {
        (
            BanTask { operation: Operation::Restore, phase: Phase::Setup, recovered: false },
            Action::SetupFirewall,
        )
    }

    /// Starts to ban a source.
    pub fn ban_ip(&self, ip: IpAddr, reason: &str) -> (r: (BanTask, Action))
        ensures
            (Step { task: r.0@, manager: self@, action: r.1@ }) == start(
                OperationView::Ban { ip, reason: reason@ },
                self@,
            ),
    {
        (
            BanTask {
                operation: Operation::Ban { ip, reason: reason.to_string() },
                phase: Phase::Load,
                recovered: false,
            },
            Action::LoadPending,
        )
    }

    /// Starts to release a source.
    pub fn unban_ip(&self, ip: IpAddr) -> (r: (BanTask, Action))
        ensures
            (Step { task: r.0@, manager: self@, action: r.1@ }) == start(
                OperationView::Unban { ip },
                self@,
            ),
    {
        (
            BanTask { operation: Operation::Unban { ip }, phase: Phase::Load, recovered: false },
            Action::LoadPending,
        )
    }

    /// Starts to replace the snapshot and the journal by one snapshot.
    pub fn compact_state(&self) -> (r: (BanTask, Action))
        ensures
            (Step { task: r.0@, manager: self@, action: r.1@ }) == start(
                OperationView::Compact,
                self@,
            ),
    {
        (
            BanTask { operation: Operation::Compact, phase: Phase::Load, recovered: false },
            Action::LoadPending,
        )
    }

    fn finish(&self, task: &mut BanTask, outcome: Outcome) -> (action: Action)
        ensures
            (Step { task: final(task)@, manager: self@, action: action@ }) == finish(
                old(task)@,
                self@,
                outcome,
            ),
    {
        let telling = match outcome {
            Outcome::Restored => true,
            Outcome::Ban { ban: BanOutcome::Banned } => true,
            Outcome::Unban { unban: UnbanOutcome::Unbanned } => true,
            _ => false,
        };
        if self.sync && (task.recovered || telling) {
            task.wait(Phase::Notify { outcome });
            Action::Notify { records: self.records_snapshot() }
        } else {
            task.wait(Phase::End { outcome });
            Action::Finish { outcome }
        }
    }

    fn restore_from(&self, task: &mut BanTask, records: Vec<BanRecord>, at: usize) -> (action:
        Action)
        ensures
            (Step { task: final(task)@, manager: self@, action: action@ }) == restore_from(
                old(task)@,
                self@,
                store::record_views(records@),
                at as int,
            ),
    {
        if at < records.len() {
            let record = records[at].clone();
            task.wait(Phase::Restore { records, at });
            Action::RestoreBan { record }
        } else {
            task.wait(Phase::Load);
            Action::LoadPending
        }
    }

    fn save(&self, task: &mut BanTask, change: BanStateChange) -> (action: Action)
        ensures
            (Step { task: final(task)@, manager: self@, action: action@ }) == wait(
                old(task)@,
                self@,
                PhaseView::Save { change: change@ },
                ActionView::SavePending { change: change@ },
            ),
    {
        let copy = change.clone();
        task.wait(Phase::Save { change });
        Action::SavePending { change: copy }
    }

    fn proceed(&self, task: &mut BanTask, now: Timestamp) -> (action: Action)
        ensures
            (Step { task: final(task)@, manager: self@, action: action@ }) == proceed(
                old(task)@,
                self@,
                now,
            ),
    {
        match &task.operation {
            Operation::Restore => self.finish(task, Outcome::Restored),
            Operation::Ban { ip, reason } => {
                if self.records.contains_key(*ip) {
                    self.finish(task, Outcome::Ban { ban: BanOutcome::AlreadyBanned })
                } else {
                    let record = BanRecord::at(*ip, now, reason.as_str());
                    self.save(task, BanStateChange::Ban { record })
                }
            },
            Operation::Unban { ip } => {
                let ip = *ip;
                if !self.records.contains_key(ip) {
                    self.finish(task, Outcome::Unban { unban: UnbanOutcome::NotBanned })
                } else {
                    self.save(task, BanStateChange::Unban { ip })
                }
            },
            Operation::Compact => {
                task.wait(Phase::Compact);
                Action::Compact { updated_at: now, ips: self.records_snapshot() }
            },
        }
    }

    /// Takes note of how the last action of an operation went and gives the
    /// next one. What is dated in the step is dated with what the wall clock
    /// gave in it.
    pub fn step(&mut self, task: &mut BanTask, event: Event) -> (action: Action)
        ensures
            exists|now: Timestamp|
                now.nanos < 1_000_000_000 && store::clock_gave(now) && #[trigger] next(
                    old(task)@,
                    old(self)@,
                    event@,
                    now,
                ) == (Step { task: final(task)@, manager: final(self)@, action: action@ }),
    {
        let now = store::utc_now();
        proof {
            store::lemma_clock_gave(now);
        }
        self.step_at(task, event, now)
    }

    /// The same at a given moment.
    pub fn step_at(&mut self, task: &mut BanTask, event: Event, now: Timestamp) -> (action: Action)
        ensures
            (Step { task: final(task)@, manager: final(self)@, action: action@ }) == next(
                old(task)@,
                old(self)@,
                event@,
                now,
            ),
    {
        let ok = match &event {
            Event::Succeeded => true,
            _ => false,
        };
        let mut phase = Phase::Load;
        std::mem::swap(&mut phase, &mut task.phase);
        match phase {
            Phase::Setup => {
                if ok {
                    let records = self.records_snapshot();
                    self.restore_from(task, records, 0)
                } else {
                    self.finish(task, Outcome::Failed)
                }
            },
            Phase::Restore { records, at } => {
                if ok && at < records.len() {
                    self.restore_from(task, records, at + 1)
                } else if ok {
                    task.wait(Phase::Load);
                    Action::LoadPending
                } else {
                    self.finish(task, Outcome::Failed)
                }
            },
            Phase::Load => match event {
                Event::Pending { change: Some(change) } => {
                    let copy = change.clone();
                    task.wait(Phase::Recover { change, stage: Stage::Firewall });
                    Action::ChangeFirewall { change: copy }
                },
                Event::Pending { change: None } => self.proceed(task, now),
                _ => self.finish(task, Outcome::Failed),
            },
            Phase::Recover { change, stage } => match stage {
                Stage::Clear => {
                    task.recovered = true;
                    self.proceed(task, now)
                },
                Stage::Firewall => {
                    if ok {
                        let copy = change.clone();
                        task.wait(Phase::Recover { change, stage: Stage::Journal });
                        Action::AppendJournal { change: copy }
                    } else {
                        self.finish(task, Outcome::Failed)
                    }
                },
                Stage::Journal => {
                    if ok {
                        change.apply_to(&mut self.records);
                        let ip = change.ip();
                        task.wait(Phase::Recover { change, stage: Stage::Clear });
                        Action::ClearPending { ip }
                    } else {
                        self.finish(task, Outcome::Failed)
                    }
                },
            },
            Phase::Save { change } => {
                if ok {
                    let copy = change.clone();
                    task.wait(Phase::Change { change, stage: Stage::Firewall });
                    Action::ChangeFirewall { change: copy }
                } else {
                    self.finish(task, Outcome::Failed)
                }
            },
            Phase::Change { change, stage } => match stage {
                Stage::Clear => {
                    let outcome = match change {
                        BanStateChange::Ban { .. } => Outcome::Ban { ban: BanOutcome::Banned },
                        BanStateChange::Unban { .. } => Outcome::Unban {
                            unban: UnbanOutcome::Unbanned,
                        },
                    };
                    self.finish(task, outcome)
                },
                Stage::Firewall => {
                    if ok {
                        let copy = change.clone();
                        task.wait(Phase::Change { change, stage: Stage::Journal });
                        Action::AppendJournal { change: copy }
                    } else {
                        self.finish(task, Outcome::Failed)
                    }
                },
                Stage::Journal => {
                    if ok {
                        change.apply_to(&mut self.records);
                        let ip = change.ip();
                        task.wait(Phase::Change { change, stage: Stage::Clear });
                        Action::ClearPending { ip }
                    } else {
                        self.finish(task, Outcome::Failed)
                    }
                },
            },
            Phase::Compact => {
                if ok {
                    self.finish(task, Outcome::Compacted)
                } else {
                    self.finish(task, Outcome::Failed)
                }
            },
            Phase::Notify { outcome } => {
                task.wait(Phase::End { outcome });
                Action::Finish { outcome }
            },
            Phase::End { outcome } => {
                task.wait(Phase::End { outcome });
                Action::Finish { outcome }
            },
        }
    }
}

// ---------------------------------------------------------------------------
// Laws of one step

/// Memory changes only when the firewall and then the journal have taken the
/// change, and then exactly by that change.
pub proof fn law_memory_changes_last(
    task: BanTaskView,
    manager: BanManagerView,
    event: EventView,
    now: Timestamp,
)
    ensures
        next(task, manager, event, now).manager != manager ==> event is Succeeded && (exists|
            change: BanStateChangeView,
        |
            (task.phase == (PhaseView::Recover { change, stage: Stage::Journal }) || task.phase == (
            PhaseView::Change { change, stage: Stage::Journal })) && next(
                task,
                manager,
                event,
                now,
            ).manager == #[trigger] with_change(manager, change)),
{
    match task.phase {
        PhaseView::Recover { change, stage: Stage::Journal } => {
            assert(with_change(manager, change) == with_change(manager, change));
        },
        PhaseView::Change { change, stage: Stage::Journal } => {
            assert(with_change(manager, change) == with_change(manager, change));
        },
        _ => {},
    }
}

/// An action that fails ends the operation with a failure, at most after the
/// records were handed on; nothing is written and memory stays as it was. Only
/// the removal of the pending change may fail without consequence.
pub proof fn law_failure_ends_the_operation(
    task: BanTaskView,
    manager: BanManagerView,
    now: Timestamp,
)
    requires
        !(task.phase matches PhaseView::Recover { stage: Stage::Clear, .. }),
        !(task.phase matches PhaseView::Change { stage: Stage::Clear, .. }),
        !(task.phase is Notify),
        !(task.phase is End),
    ensures
        ({
            let step = next(task, manager, EventView::Failed, now);
            &&& step.manager == manager
            &&& step.task.phase == (PhaseView::Notify { outcome: Outcome::Failed })
                || step.task.phase == (PhaseView::End { outcome: Outcome::Failed })
            &&& step.action is Notify || step.action == (ActionView::Finish {
                outcome: Outcome::Failed,
            })
        }),
{
}

/// A source that is banned already is not banned again: without a pending
/// change the operation ends at once and neither the firewall nor a file is
/// touched. A source that is not banned is released as little.
pub proof fn law_nothing_to_do(
    task: BanTaskView,
    manager: BanManagerView,
    now: Timestamp,
    ip: IpAddr,
    reason: Seq<char>,
)
    requires
        task.phase is Load,
        !task.recovered,
    ensures
        task.operation == (OperationView::Ban { ip, reason }) && manager.records.contains_key(ip)
            ==> next(task, manager, EventView::Pending { change: None }, now).action == (
        ActionView::Finish { outcome: Outcome::Ban { ban: BanOutcome::AlreadyBanned } }),
        task.operation == (OperationView::Unban { ip }) && !manager.records.contains_key(ip)
            ==> next(task, manager, EventView::Pending { change: None }, now).action == (
        ActionView::Finish { outcome: Outcome::Unban { unban: UnbanOutcome::NotBanned } }),
{
}

/// The steps of a change that nothing disturbs: the pending change is kept,
/// then the firewall changed, then the journal, then memory, then the pending
/// change is removed, then the records are handed on.
pub open spec fn undisturbed(
    operation: OperationView,
    manager: BanManagerView,
    change: BanStateChangeView,
    now: Timestamp,
) -> bool {
    let s0 = start(operation, manager);
    let s1 = next(s0.task, s0.manager, EventView::Pending { change: None }, now);
    let s2 = next(s1.task, s1.manager, EventView::Succeeded, now);
    let s3 = next(s2.task, s2.manager, EventView::Succeeded, now);
    let s4 = next(s3.task, s3.manager, EventView::Succeeded, now);
    let s5 = next(s4.task, s4.manager, EventView::Succeeded, now);
    let s6 = next(s5.task, s5.manager, EventView::Succeeded, now);
    &&& s0.action == ActionView::LoadPending
    &&& s1.action == ActionView::SavePending { change }
    &&& s2.action == ActionView::ChangeFirewall { change }
    &&& s3.action == ActionView::AppendJournal { change }
    &&& s3.manager == manager
    &&& s4.action == ActionView::ClearPending { ip: change.ip() }
    &&& s4.manager == with_change(manager, change)
    &&& s5.manager == s4.manager
    &&& s5.action == if manager.sync {
        ActionView::Notify { records: listing(s4.manager.records) }
    } else {
        ActionView::Finish { outcome: changed(change) }
    }
    &&& s6.action == ActionView::Finish { outcome: changed(change) }
    &&& s6.manager == s4.manager
}

/// A ban that nothing disturbs bans the source and no other, and a release
/// that nothing disturbs undoes it.
pub proof fn law_ban_and_unban(
    manager: BanManagerView,
    ip: IpAddr,
    reason: Seq<char>,
    now: Timestamp,
    later: Timestamp,
)
    requires
        !manager.records.contains_key(ip),
    ensures
        ({
            let record = BanRecordView { ip, banned_at: now, reason };
            let banned = with_change(manager, BanStateChangeView::Ban { record });
            &&& undisturbed(
                OperationView::Ban { ip, reason },
                manager,
                BanStateChangeView::Ban { record },
                now,
            )
            &&& banned.records == manager.records.insert(ip, record)
            &&& undisturbed(
                OperationView::Unban { ip },
                banned,
                BanStateChangeView::Unban { ip },
                later,
            )
            &&& with_change(banned, BanStateChangeView::Unban { ip }) == manager
        }),
{
    let record = BanRecordView { ip, banned_at: now, reason };
    let banned = with_change(manager, BanStateChangeView::Ban { record });
    assert(banned.records.remove(ip) =~= manager.records);
}

/// One record goes through a ban: it names the source and the reason that were
/// given and the moment at which it was made, and it is what is kept pending,
/// given to the firewall, journaled, held in memory and handed on for upload,
/// however much later each of that happens. Every other record stays as it was.
pub proof fn law_one_record_goes_through_a_ban(
    manager: BanManagerView,
    ip: IpAddr,
    reason: Seq<char>,
    times: Seq<Timestamp>,
)
    requires
        !manager.records.contains_key(ip),
        times.len() == 6,
    ensures
        ({
            let record = BanRecordView { ip, banned_at: times[0], reason };
            let change = BanStateChangeView::Ban { record };
            let s0 = start(OperationView::Ban { ip, reason }, manager);
            let s1 = next(s0.task, s0.manager, EventView::Pending { change: None }, times[0]);
            let s2 = next(s1.task, s1.manager, EventView::Succeeded, times[1]);
            let s3 = next(s2.task, s2.manager, EventView::Succeeded, times[2]);
            let s4 = next(s3.task, s3.manager, EventView::Succeeded, times[3]);
            let s5 = next(s4.task, s4.manager, EventView::Succeeded, times[4]);
            let s6 = next(s5.task, s5.manager, EventView::Succeeded, times[5]);
            let done = ActionView::Finish { outcome: Outcome::Ban { ban: BanOutcome::Banned } };
            &&& s0.action == ActionView::LoadPending
            &&& s1.action == (ActionView::SavePending { change })
            &&& s2.action == (ActionView::ChangeFirewall { change })
            &&& s3.action == (ActionView::AppendJournal { change })
            &&& s4.action == (ActionView::ClearPending { ip })
            &&& s0.manager == manager && s1.manager == manager && s2.manager == manager
                && s3.manager == manager
            &&& s4.manager.records == manager.records.insert(ip, record)
            &&& s4.manager.sync == manager.sync
            &&& s5.manager == s4.manager
            &&& if manager.sync {
                s5.action == (ActionView::Notify { records: listing(s4.manager.records) })
                    && s6.action == done
            } else {
                s5.action == done
            }
        }),
{
}

/// A release goes the same way and takes away the record of its source and no
/// other.
pub proof fn law_a_release_takes_one_record(
    manager: BanManagerView,
    ip: IpAddr,
    times: Seq<Timestamp>,
)
    requires
        manager.records.contains_key(ip),
        times.len() == 6,
    ensures
        ({
            let change = BanStateChangeView::Unban { ip };
            let s0 = start(OperationView::Unban { ip }, manager);
            let s1 = next(s0.task, s0.manager, EventView::Pending { change: None }, times[0]);
            let s2 = next(s1.task, s1.manager, EventView::Succeeded, times[1]);
            let s3 = next(s2.task, s2.manager, EventView::Succeeded, times[2]);
            let s4 = next(s3.task, s3.manager, EventView::Succeeded, times[3]);
            let s5 = next(s4.task, s4.manager, EventView::Succeeded, times[4]);
            let s6 = next(s5.task, s5.manager, EventView::Succeeded, times[5]);
            let done = ActionView::Finish {
                outcome: Outcome::Unban { unban: UnbanOutcome::Unbanned },
            };
            &&& s0.action == ActionView::LoadPending
            &&& s1.action == (ActionView::SavePending { change })
            &&& s2.action == (ActionView::ChangeFirewall { change })
            &&& s3.action == (ActionView::AppendJournal { change })
            &&& s4.action == (ActionView::ClearPending { ip })
            &&& s1.manager == manager && s2.manager == manager && s3.manager == manager
            &&& s4.manager.records == manager.records.remove(ip)
            &&& s4.manager.sync == manager.sync
            &&& s5.manager == s4.manager
            &&& if manager.sync {
                s5.action == (ActionView::Notify { records: listing(s4.manager.records) })
                    && s6.action == done
            } else {
                s5.action == done
            }
        }),
{
}

/// The records that are listed are exactly those that are held, each under its
/// own address and once, in the order of the addresses.
pub proof fn law_listing_is_complete(records: Map<IpAddr, BanRecordView>)
    requires
        store::valid_records(records),
    ensures
        forall|ip: IpAddr| #[trigger]
            records.contains_key(ip) <==> exists|i: int|
                0 <= i < listing(records).len() && (#[trigger] listing(records)[i]).ip == ip,
        forall|i: int|
            0 <= i < listing(records).len() ==> records.contains_key(
                (#[trigger] listing(records)[i]).ip,
            ) && records[listing(records)[i].ip] == listing(records)[i],
        forall|i: int, j: int|
            0 <= i < j < listing(records).len() ==> (#[trigger] listing(records)[i]).ip.rank() < (
            #[trigger] listing(records)[j]).ip.rank(),
{
    let list = store::lemma_listable(records);
    lemma_listing(list, records);
    store::lemma_by_address(list);
}

/// Where changes are handed on for upload, every operation that changed a
/// record hands all records on before it ends, whether or not any is left: one
/// that banned, released or restored, and one on whose way a pending change
/// was carried out, whatever it comes to. No other operation does.
pub proof fn law_every_change_is_handed_on(
    task: BanTaskView,
    manager: BanManagerView,
    event: EventView,
    now: Timestamp,
    outcome: Outcome,
)
    requires
        next(task, manager, event, now).task.phase == (PhaseView::Notify { outcome }) || next(
            task,
            manager,
            event,
            now,
        ).task.phase == (PhaseView::End { outcome }),
        !(task.phase is Notify),
        !(task.phase is End),
    ensures
        ({
            let step = next(task, manager, event, now);
            let changed = step.task.recovered || outcome is Restored || outcome == (Outcome::Ban {
                ban: BanOutcome::Banned,
            }) || outcome == (Outcome::Unban { unban: UnbanOutcome::Unbanned });
            if manager.sync && changed {
                step.action == (ActionView::Notify { records: listing(step.manager.records) })
            } else {
                step.action == (ActionView::Finish { outcome })
            }
        }),
{
}

/// A change that was found pending is carried out before anything else: the
/// firewall takes it, then the journal, then memory, then the pending file is
/// removed, and only then does the operation itself go on, with what memory
/// holds by then.
pub proof fn law_pending_change_comes_first(
    task: BanTaskView,
    manager: BanManagerView,
    change: BanStateChangeView,
    cleared: EventView,
    times: Seq<Timestamp>,
)
    requires
        task.phase is Load,
        times.len() == 4,
    ensures
        ({
            let s1 = next(task, manager, EventView::Pending { change: Some(change) }, times[0]);
            let s2 = next(s1.task, s1.manager, EventView::Succeeded, times[1]);
            let s3 = next(s2.task, s2.manager, EventView::Succeeded, times[2]);
            let s4 = next(s3.task, s3.manager, cleared, times[3]);
            let after = BanManagerView {
                records: match change {
                    BanStateChangeView::Ban { record } => manager.records.insert(record.ip, record),
                    BanStateChangeView::Unban { ip } => manager.records.remove(ip),
                },
                ..manager
            };
            &&& s1.action == (ActionView::ChangeFirewall { change })
            &&& s2.action == (ActionView::AppendJournal { change })
            &&& s3.action == (ActionView::ClearPending { ip: change.ip() })
            &&& s1.manager == manager && s2.manager == manager
            &&& s3.manager == after
            &&& s4 == next(
                BanTaskView { recovered: true, ..task },
                after,
                EventView::Pending { change: None },
                times[3],
            )
        }),
{
}

/// A restore makes the firewall ready and then blocks every record that is
/// held, one after the other in the order of the addresses, before the
/// pending change is looked at; with nothing pending the operation has then
/// restored all.
pub proof fn law_restore_blocks_every_record(
    manager: BanManagerView,
    task: BanTaskView,
    at: int,
    now: Timestamp,
)
    requires
        task.operation is Restore,
        task.phase is Setup || task.phase == (PhaseView::Restore {
            records: listing(manager.records),
            at,
        }),
        0 <= at,
    ensures
        ({
            let list = listing(manager.records);
            let next_at = if task.phase is Setup {
                0
            } else {
                at + 1
            };
            let step = next(task, manager, EventView::Succeeded, now);
            &&& next_at < list.len() ==> step.action == (ActionView::RestoreBan {
                record: list[next_at],
            }) && step.task.phase == (PhaseView::Restore { records: list, at: next_at })
            &&& next_at >= list.len() ==> step.action == ActionView::LoadPending && step.task.phase
                is Load
            &&& step.manager == manager
        }),
        start(OperationView::Restore, manager).action == ActionView::SetupFirewall,
{
}

/// A compaction replaces the snapshot by all records that are held, dated with
/// the moment at which it was made, whether there are any or not.
pub proof fn law_compaction_takes_all_records(
    manager: BanManagerView,
    now: Timestamp,
    later: Timestamp,
)
    ensures
        ({
            let s0 = start(OperationView::Compact, manager);
            let s1 = next(s0.task, s0.manager, EventView::Pending { change: None }, now);
            let s2 = next(s1.task, s1.manager, EventView::Succeeded, later);
            &&& s0.action == ActionView::LoadPending
            &&& s1.action == (ActionView::Compact {
                updated_at: now,
                ips: listing(manager.records),
            })
            &&& s2.action == (ActionView::Finish { outcome: Outcome::Compacted })
            &&& s2.manager == manager
        }),
{
}

/// Once the journal has taken a change, the operation has succeeded: whether
/// the pending file can be removed makes no difference.
pub proof fn law_journaled_change_has_succeeded(
    task: BanTaskView,
    manager: BanManagerView,
    change: BanStateChangeView,
    event: EventView,
    now: Timestamp,
)
    requires
        task.phase == (PhaseView::Change { change, stage: Stage::Clear }),
    ensures
        ({
            let outcome = match change {
                BanStateChangeView::Ban { .. } => Outcome::Ban { ban: BanOutcome::Banned },
                BanStateChangeView::Unban { .. } => Outcome::Unban {
                    unban: UnbanOutcome::Unbanned,
                },
            };
            let step = next(task, manager, event, now);
            &&& step.manager == manager
            &&& step.task.phase == (PhaseView::Notify { outcome }) || step.task.phase == (
            PhaseView::End { outcome })
        }),
{
}

/// What an operation comes to when nothing is pending, whether or not a change
/// was carried out on its way: a source that is banned is not banned again, one
/// that is not banned is not released, and a restore has restored.
pub proof fn law_nothing_pending_decides(
    task: BanTaskView,
    manager: BanManagerView,
    now: Timestamp,
    ip: IpAddr,
    reason: Seq<char>,
)
    requires
        task.phase is Load,
    ensures
        ({
            let step = next(task, manager, EventView::Pending { change: None }, now);
            let comes_to = |outcome: Outcome|
                step.task.phase == (PhaseView::Notify { outcome }) || step.task.phase == (
                PhaseView::End { outcome });
            let held = manager.records.contains_key(ip);
            &&& step.manager == manager
            &&& step.task.recovered == task.recovered
            &&& step.task.operation == task.operation
            &&& task.operation is Restore ==> comes_to(Outcome::Restored)
            &&& task.operation == (OperationView::Ban { ip, reason }) && held ==> comes_to(
                Outcome::Ban { ban: BanOutcome::AlreadyBanned },
            )
            &&& task.operation == (OperationView::Ban { ip, reason }) && !held ==> step.action == (
            ActionView::SavePending {
                change: BanStateChangeView::Ban {
                    record: BanRecordView { ip, banned_at: now, reason },
                },
            })
            &&& task.operation == (OperationView::Unban { ip }) && !held ==> comes_to(
                Outcome::Unban { unban: UnbanOutcome::NotBanned },
            )
            &&& task.operation == (OperationView::Unban { ip }) && held ==> step.action == (
            ActionView::SavePending { change: BanStateChangeView::Unban { ip } })
            &&& task.operation is Compact ==> step.action == (ActionView::Compact {
                updated_at: now,
                ips: listing(manager.records),
            })
        }),
{
}

/// A change that is under way stays the same from step to step, and so does the
/// operation that it belongs to.
pub proof fn law_change_under_way_stays_the_same(
    task: BanTaskView,
    manager: BanManagerView,
    change: BanStateChangeView,
    now: Timestamp,
)
    ensures
        ({
            let step = next(task, manager, EventView::Succeeded, now);
            &&& step.task.operation == task.operation
            &&& task.phase == (PhaseView::Save { change }) ==> step.task.phase == (
            PhaseView::Change { change, stage: Stage::Firewall }) && step.action == (
            ActionView::ChangeFirewall { change })
            &&& task.phase == (PhaseView::Change { change, stage: Stage::Firewall })
                ==> step.task.phase == (PhaseView::Change { change, stage: Stage::Journal })
                && step.action == (ActionView::AppendJournal { change })
            &&& task.phase == (PhaseView::Change { change, stage: Stage::Journal })
                ==> step.task.phase == (PhaseView::Change { change, stage: Stage::Clear })
                && step.action == (ActionView::ClearPending { ip: change.ip() })
                && step.manager.records == change.applied(manager.records)
        }),
{
}

/// An operation that has come to an outcome stays at it.
pub proof fn law_outcome_stands(
    task: BanTaskView,
    manager: BanManagerView,
    event: EventView,
    now: Timestamp,
    outcome: Outcome,
)
    requires
        task.phase == (PhaseView::Notify { outcome }) || task.phase == (PhaseView::End { outcome }),
    ensures
        next(task, manager, event, now).action == (ActionView::Finish { outcome }),
        next(task, manager, event, now).task.phase == (PhaseView::End { outcome }),
        next(task, manager, event, now).manager == manager,
{
}

// ---------------------------------------------------------------------------
// Memory, files and firewall together

/// What lies outside of memory: the records that the snapshot and the journal
/// hold, the pending change, and the sources that the firewall blocks.
pub struct World {
    pub disk: Map<IpAddr, BanRecordView>,
    pub pending: Option<BanStateChangeView>,
    pub firewall: Set<IpAddr>,
}

pub open spec fn blocked_after(firewall: Set<IpAddr>, change: BanStateChangeView) -> Set<IpAddr> {
    match change {
        BanStateChangeView::Ban { record } => firewall.insert(record.ip),
        BanStateChangeView::Unban { ip } => firewall.remove(ip),
    }
}

/// The world after an action that succeeded.
pub open spec fn performed(world: World, action: ActionView) -> World {
    match action {
        ActionView::RestoreBan { record } => World {
            firewall: world.firewall.insert(record.ip),
            ..world
        },
        ActionView::SavePending { change } => World { pending: Some(change), ..world },
        ActionView::ChangeFirewall { change } => World {
            firewall: blocked_after(world.firewall, change),
            ..world
        },
        ActionView::AppendJournal { change } => World {
            disk: change.applied(world.disk),
            ..world
        },
        ActionView::ClearPending { .. } => World { pending: None, ..world },
        ActionView::Compact { ips, .. } => World { disk: store::by_address(ips), ..world },
        _ => world,
    }
}

/// How the world may answer an action: one that succeeds has its effect, one
/// that fails may have had it or not.
pub open spec fn answers(world: World, action: ActionView, event: EventView, after: World) -> bool {
    match action {
        ActionView::LoadPending => {
            &&& after == world
            &&& event == (EventView::Pending { change: world.pending }) || event is Failed
        },
        _ => match event {
            EventView::Succeeded => after == performed(world, action),
            EventView::Failed => after == world || after == performed(world, action),
            EventView::Pending { .. } => false,
        },
    }
}

pub open spec fn agree_at(
    records: Map<IpAddr, BanRecordView>,
    world: World,
    ip: IpAddr,
) -> bool {
    &&& records.contains_key(ip) == world.disk.contains_key(ip)
    &&& records.contains_key(ip) ==> records[ip] == world.disk[ip]
    &&& records.contains_key(ip) == world.firewall.contains(ip)
}

/// Memory, files and firewall agree on every source but `open`.
pub open spec fn agree_but(
    records: Map<IpAddr, BanRecordView>,
    world: World,
    open: Option<IpAddr>,
) -> bool {
    forall|ip: IpAddr| open != Some(ip) ==> #[trigger] agree_at(records, world, ip)
}

pub open spec fn pending_ip(world: World) -> Option<IpAddr> {
    match world.pending {
        Some(change) => Some(change.ip()),
        None => None,
    }
}

/// The firewall blocks no source but those that the files hold and the one of
/// the pending change. This is what a restart has to start from.
pub open spec fn recoverable(world: World) -> bool {
    &&& store::valid_records(world.disk)
    &&& forall|ip: IpAddr| #[trigger]
        world.firewall.contains(ip) ==> world.disk.contains_key(ip) || pending_ip(world) == Some(ip)
}

/// A change between the firewall and memory is pending, and the firewall is as
/// far as `stage` says.
pub open spec fn changing(step: Step, world: World, change: BanStateChangeView, stage: Stage) -> bool {
    match stage {
        Stage::Firewall => {
            &&& step.action == ActionView::ChangeFirewall { change }
            &&& world.pending == Some(change)
            &&& agree_but(step.manager.records, world, Some(change.ip()))
        },
        Stage::Journal => {
            &&& step.action == ActionView::AppendJournal { change }
            &&& world.pending == Some(change)
            &&& agree_but(step.manager.records, world, Some(change.ip()))
            &&& world.firewall.contains(change.ip()) == (change is Ban)
        },
        Stage::Clear => {
            &&& step.action == ActionView::ClearPending { ip: change.ip() }
            &&& agree_but(step.manager.records, world, None)
        },
    }
}

/// What holds of memory and the world at every point of every operation.
pub open spec fn coherent(step: Step, world: World) -> bool {
    let records = step.manager.records;
    &&& store::valid_records(records)
    &&& recoverable(world)
    &&& match step.task.phase {
        PhaseView::Setup => {
            &&& step.action is SetupFirewall
            &&& step.task.operation is Restore
            &&& records == world.disk
        },
        PhaseView::Restore { records: list, at } => {
            &&& 0 <= at < list.len()
            &&& step.action == ActionView::RestoreBan { record: list[at] }
            &&& step.task.operation is Restore
            &&& records == world.disk
            &&& store::lists(list, records)
            &&& forall|i: int| 0 <= i < at ==> world.firewall.contains((#[trigger] list[i]).ip)
        },
        PhaseView::Load => {
            &&& step.action is LoadPending
            &&& agree_but(records, world, pending_ip(world))
        },
        PhaseView::Recover { change, stage } => changing(step, world, change, stage),
        PhaseView::Save { change } => {
            &&& step.action == ActionView::SavePending { change }
            &&& agree_but(records, world, None)
        },
        PhaseView::Change { change, stage } => changing(step, world, change, stage),
        PhaseView::Compact => {
            &&& step.action matches ActionView::Compact { ips, .. } && store::lists(ips, records)
            &&& agree_but(records, world, None)
        },
        PhaseView::Notify { outcome } => {
            &&& step.action is Notify
            &&& settled(step, world, outcome)
        },
        PhaseView::End { outcome } => {
            &&& step.action is Finish
            &&& settled(step, world, outcome)
        },
    }
}

/// How memory and the world relate once an operation has come to its outcome.
pub open spec fn settled(step: Step, world: World, outcome: Outcome) -> bool {
    if outcome is Failed {
        step.task.operation is Restore || agree_but(
            step.manager.records,
            world,
            pending_ip(world),
        )
    } else {
        agree_but(step.manager.records, world, None)
    }
}

proof fn lemma_valid_after(records: Map<IpAddr, BanRecordView>, change: BanStateChangeView)
    requires
        store::valid_records(records),
    ensures
        store::valid_records(change.applied(records)),
{
    let after = change.applied(records);
    assert forall|ip: IpAddr| #[trigger] after.contains_key(ip) implies after[ip].ip == ip by {
        if records.contains_key(ip) {
            assert(records[ip].ip == ip);
        }
    }
}

proof fn lemma_agree_is_recoverable(
    records: Map<IpAddr, BanRecordView>,
    world: World,
    open: Option<IpAddr>,
)
    requires
        store::valid_records(world.disk),
        agree_but(records, world, open),
        open is None || open == pending_ip(world),
    ensures
        recoverable(world),
{
    assert forall|ip: IpAddr| #[trigger] world.firewall.contains(ip) implies world.disk.contains_key(
        ip,
    ) || pending_ip(world) == Some(ip) by {
        if open != Some(ip) {
            assert(agree_at(records, world, ip));
        }
    }
}

/// Every step of every operation keeps memory, files and firewall coherent,
/// however the world answers.
pub proof fn law_steps_keep_coherence(
    step: Step,
    world: World,
    event: EventView,
    after: World,
    now: Timestamp,
)
    requires
        coherent(step, world),
        answers(world, step.action, event, after),
    ensures
        coherent(next(step.task, step.manager, event, now), after),
{
    let records = step.manager.records;
    let list = store::lemma_listable(records);
    lemma_listing(list, records);
    match step.task.phase {
        PhaseView::Setup => {
            if event is Succeeded {
                lemma_restoring(step, after, list, 0);
            }
        },
        PhaseView::Restore { records: shown, at } => {
            assert(recoverable(after)) by {
                store::lemma_by_address(shown);
                assert(records.contains_key(shown[at].ip));
            }
            if event is Succeeded {
                lemma_restoring(step, after, shown, at + 1);
            }
        },
        PhaseView::Load => {},
        PhaseView::Recover { change, stage } => {
            lemma_changing(step, world, event, after, change, stage);
        },
        PhaseView::Save { change } => {
            assert forall|ip: IpAddr| #[trigger] agree_at(records, after, ip) by {
                assert(agree_at(records, world, ip));
            }
            lemma_agree_is_recoverable(records, after, None);
        },
        PhaseView::Change { change, stage } => {
            lemma_changing(step, world, event, after, change, stage);
        },
        PhaseView::Compact => {
            assert forall|ip: IpAddr| #[trigger] agree_at(records, after, ip) by {
                assert(agree_at(records, world, ip));
            }
            lemma_agree_is_recoverable(records, after, None);
        },
        PhaseView::Notify { .. } => {},
        PhaseView::End { .. } => {},
    }
}

/// When every record has been restored, the firewall blocks what memory holds.
proof fn lemma_restoring(step: Step, world: World, list: Seq<BanRecordView>, at: int)
    requires
        step.task.operation is Restore,
        step.manager.records == world.disk,
        recoverable(world),
        store::lists(list, step.manager.records),
        0 <= at <= list.len(),
        forall|i: int| 0 <= i < at ==> world.firewall.contains((#[trigger] list[i]).ip),
    ensures
        coherent(restore_from(step.task, step.manager, list, at), world),
{
    let records = step.manager.records;
    if at == list.len() {
        store::lemma_by_address(list);
        assert forall|ip: IpAddr| pending_ip(world) != Some(ip) implies #[trigger] agree_at(
            records,
            world,
            ip,
        ) by {
            if records.contains_key(ip) {
                let i = choose|i: int| 0 <= i < list.len() && (#[trigger] list[i]).ip == ip;
                assert(world.firewall.contains(list[i].ip));
            }
            if world.firewall.contains(ip) {
                assert(world.disk.contains_key(ip));
            }
        }
    }
}

proof fn lemma_changing(
    step: Step,
    world: World,
    event: EventView,
    after: World,
    change: BanStateChangeView,
    stage: Stage,
)
    requires
        store::valid_records(step.manager.records),
        recoverable(world),
        changing(step, world, change, stage),
        answers(world, step.action, event, after),
    ensures
        recoverable(after),
        match stage {
            Stage::Firewall => {
                &&& after.pending == Some(change)
                &&& agree_but(step.manager.records, after, Some(change.ip()))
                &&& event is Succeeded ==> after.firewall.contains(change.ip()) == (change is Ban)
            },
            Stage::Journal => {
                &&& after.pending == Some(change)
                &&& agree_but(step.manager.records, after, Some(change.ip()))
                &&& event is Succeeded ==> agree_but(
                    change.applied(step.manager.records),
                    after,
                    None,
                )
                &&& store::valid_records(change.applied(step.manager.records))
            },
            Stage::Clear => agree_but(step.manager.records, after, None),
        },
{
    let records = step.manager.records;
    lemma_valid_after(records, change);
    lemma_valid_after(world.disk, change);
    assert forall|ip: IpAddr| change.ip() != ip || stage is Clear implies #[trigger] agree_at(
        records,
        after,
        ip,
    ) by {
        assert(agree_at(records, world, ip));
    }
    if stage is Journal && event is Succeeded {
        assert forall|ip: IpAddr| #[trigger] agree_at(change.applied(records), after, ip) by {
            if ip != change.ip() {
                assert(agree_at(records, after, ip));
            }
        }
    }
    if stage is Clear {
        lemma_agree_is_recoverable(records, after, None);
    } else {
        lemma_agree_is_recoverable(records, after, Some(change.ip()));
    }
}

/// Once an operation has not failed, memory, files and firewall agree: what is
/// banned in memory is what a restart would load and what the firewall blocks.
pub proof fn law_outcome_is_agreement(step: Step, world: World)
    requires
        coherent(step, world),
        step.task.phase matches PhaseView::End { outcome } && !(outcome is Failed),
    ensures
        step.manager.records == world.disk,
        step.manager.records.dom() == world.firewall,
{
    let records = step.manager.records;
    assert forall|ip: IpAddr| #[trigger] records.contains_key(ip) == world.disk.contains_key(ip)
        && (records.contains_key(ip) ==> records[ip] == world.disk[ip]) by {
        assert(agree_at(records, world, ip));
    }
    assert(records =~= world.disk);
    assert forall|ip: IpAddr| #[trigger] records.dom().contains(ip) == world.firewall.contains(
        ip,
    ) by {
        assert(agree_at(records, world, ip));
    }
    assert(records.dom() =~= world.firewall);
}

/// After an operation has ended, whether well or not, the next one starts
/// coherent; only a restore that failed has to be repeated.
pub proof fn law_next_operation_starts_coherent(step: Step, world: World, operation: OperationView)
    requires
        coherent(step, world),
        step.task.phase matches PhaseView::End { outcome } && !(outcome is Failed
            && step.task.operation is Restore),
        !(operation is Restore),
    ensures
        coherent(start(operation, step.manager), world),
{
    let records = step.manager.records;
    assert forall|ip: IpAddr| pending_ip(world) != Some(ip) implies #[trigger] agree_at(
        records,
        world,
        ip,
    ) by {
    }
}

/// A process may stop at any point of any operation. A new one that loads its
/// records from the files starts coherent, whether the firewall has kept its
/// rules or has lost some or all of them.
pub proof fn law_restart_is_coherent(step: Step, world: World, after: World, sync: bool)
    requires
        coherent(step, world),
        after.disk == world.disk,
        after.pending == world.pending,
        after.firewall.subset_of(world.firewall),
    ensures
        coherent(
            start(OperationView::Restore, BanManagerView { records: after.disk, sync }),
            after,
        ),
{
    assert forall|ip: IpAddr| #[trigger] after.firewall.contains(ip) implies after.disk.contains_key(
        ip,
    ) || pending_ip(after) == Some(ip) by {
        assert(world.firewall.contains(ip));
    }
}

} // verus!

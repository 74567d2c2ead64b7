use honeypot::addr::{IpAddr, Ipv4Addr};
use honeypot::ban::{Action, BanManager, BanOutcome, BanTask, Event, Outcome, UnbanOutcome};
use honeypot::store::{load_snapshot, BanRecord, BanStateChange, BanTable, Timestamp};

fn ip(last_octet: u8) -> IpAddr {
    IpAddr::V4(Ipv4Addr::new(203, 0, 113, last_octet))
}

/// The files and the firewall around a manager, any part of which can fail.
#[derive(Default)]
struct World {
    snapshot: Vec<BanRecord>,
    journal: Vec<BanStateChange>,
    pending: Option<BanStateChange>,
    bans: usize,
    unbans: usize,
    notified: Vec<Vec<IpAddr>>,
    log: Vec<&'static str>,
    fail: Option<&'static str>,
}

impl World {
    fn load(&self, sync: bool) -> BanManager {
        let mut records = load_snapshot(self.snapshot.clone());
        for change in &self.journal {
            change.apply_to(&mut records);
        }
        BanManager::load(records, sync)
    }

    fn note(&mut self, what: &'static str) -> bool {
        self.log.push(what);
        self.fail != Some(what)
    }

    fn perform(&mut self, action: Action) -> Result<Event, Outcome> {
        let ok = match action {
            Action::SetupFirewall => self.note("setup"),
            Action::RestoreBan { .. } => {
                self.bans += 1;
                self.note("restore")
            }
            Action::LoadPending => {
                return Ok(if self.note("load") {
                    Event::Pending { change: self.pending.clone() }
                } else {
                    Event::Failed
                });
            }
            Action::SavePending { change } => {
                let ok = self.note("save");
                if ok {
                    self.pending = Some(change);
                }
                ok
            }
            Action::ChangeFirewall { change } => {
                match change {
                    BanStateChange::Ban { .. } => self.bans += 1,
                    BanStateChange::Unban { .. } => self.unbans += 1,
                }
                self.note("firewall")
            }
            Action::AppendJournal { change } => {
                let ok = self.note("journal");
                if ok {
                    self.journal.push(change);
                }
                ok
            }
            Action::ClearPending { .. } => {
                let ok = self.note("clear");
                if ok {
                    self.pending = None;
                }
                ok
            }
            Action::Compact { ips, .. } => {
                let ok = self.note("compact");
                if ok {
                    self.snapshot = ips;
                    self.journal.clear();
                }
                ok
            }
            Action::Notify { records } => {
                self.notified.push(records.iter().map(|r| r.ip).collect());
                self.note("notify")
            }
            Action::Finish { outcome } => return Err(outcome),
        };
        Ok(if ok { Event::Succeeded } else { Event::Failed })
    }

    fn run(&mut self, manager: &mut BanManager, (mut task, mut action): (BanTask, Action)) -> Outcome {
        loop {
            match self.perform(action) {
                Ok(event) => action = manager.step(&mut task, event),
                Err(outcome) => return outcome,
            }
        }
    }

    fn ban(&mut self, manager: &mut BanManager, ip: IpAddr) -> Outcome {
        let start = manager.ban_ip(ip, "test");
        self.run(manager, start)
    }

    fn unban(&mut self, manager: &mut BanManager, ip: IpAddr) -> Outcome {
        let start = manager.unban_ip(ip);
        self.run(manager, start)
    }

    fn restore(&mut self, manager: &mut BanManager) -> Outcome {
        let start = manager.setup_and_restore();
        self.run(manager, start)
    }
}

const BANNED: Outcome = Outcome::Ban { ban: BanOutcome::Banned };
const ALREADY_BANNED: Outcome = Outcome::Ban { ban: BanOutcome::AlreadyBanned };
const UNBANNED: Outcome = Outcome::Unban { unban: UnbanOutcome::Unbanned };
const NOT_BANNED: Outcome = Outcome::Unban { unban: UnbanOutcome::NotBanned };

#[test]
fn ban_is_idempotent_in_state() {
    let mut world = World::default();
    let mut manager = world.load(false);

    assert_eq!(world.ban(&mut manager, ip(1)), BANNED);
    assert_eq!(world.ban(&mut manager, ip(1)), ALREADY_BANNED);

    assert_eq!(world.bans, 1);
}

#[test]
fn unban_removes_record() {
    let mut world = World::default();
    let mut manager = world.load(false);

    world.ban(&mut manager, ip(2));
    assert_eq!(world.unban(&mut manager, ip(2)), UNBANNED);
    assert!(!manager.is_banned(ip(2)));
    assert_eq!(world.unbans, 1);
    assert_eq!(world.unban(&mut manager, ip(2)), NOT_BANNED);
    assert_eq!(world.unbans, 1);
}

#[test]
fn pending_ban_is_recovered_during_startup() {
    let record = BanRecord::new(ip(3), "pending");
    let mut world = World {
        pending: Some(BanStateChange::Ban { record: record.clone() }),
        ..World::default()
    };
    let mut manager = world.load(false);

    assert_eq!(world.restore(&mut manager), Outcome::Restored);

    assert!(manager.is_banned(record.ip));
    assert_eq!(world.bans, 1);
    assert!(world.pending.is_none());
    assert!(world.load(false).is_banned(record.ip));
}

#[test]
fn pending_unban_is_recovered_during_startup() {
    let mut world = World {
        snapshot: vec![BanRecord::new(ip(4), "snapshot")],
        pending: Some(BanStateChange::Unban { ip: ip(4) }),
        ..World::default()
    };
    let mut manager = world.load(false);

    assert_eq!(world.restore(&mut manager), Outcome::Restored);

    assert!(!manager.is_banned(ip(4)));
    assert_eq!(world.bans, 1);
    assert_eq!(world.unbans, 1);
    assert!(world.pending.is_none());
}

#[test]
fn journal_failure_keeps_memory_unchanged_and_next_operation_recovers() {
    let mut world = World { fail: Some("journal"), ..World::default() };
    let mut manager = world.load(false);

    assert_eq!(world.ban(&mut manager, ip(5)), Outcome::Failed);
    assert!(!manager.is_banned(ip(5)));
    assert!(world.pending.is_some());

    world.fail = None;
    assert_eq!(world.ban(&mut manager, ip(5)), ALREADY_BANNED);
    assert!(manager.is_banned(ip(5)));
    assert_eq!(world.bans, 2);
    assert!(world.pending.is_none());
}

#[test]
fn pending_persistence_failure_does_not_touch_firewall_or_memory() {
    let mut world = World { fail: Some("save"), ..World::default() };
    let mut manager = world.load(false);

    assert_eq!(world.ban(&mut manager, ip(9)), Outcome::Failed);

    assert!(!manager.is_banned(ip(9)));
    assert_eq!(world.bans, 0);
}

#[test]
fn compact_state_preserves_records_and_clears_journal() {
    let mut world = World::default();
    let mut manager = world.load(false);
    world.ban(&mut manager, ip(6));
    assert_eq!(world.journal.len(), 1);

    let start = manager.compact_state();
    assert_eq!(world.run(&mut manager, start), Outcome::Compacted);

    assert!(world.journal.is_empty());
    assert!(world.load(false).is_banned(ip(6)));
}

#[test]
fn watch_sync_keeps_latest_snapshot() {
    let mut world = World::default();
    let mut manager = world.load(true);

    world.ban(&mut manager, ip(7));
    world.ban(&mut manager, ip(8));

    let latest = world.notified.last().unwrap();
    assert_eq!(latest.len(), 2);
    assert_eq!(latest[0], ip(7));
    assert_eq!(latest[1], ip(8));
}

#[test]
fn records_are_handed_on_by_address() {
    let mut world = World::default();
    let mut manager = world.load(true);
    world.ban(&mut manager, ip(8));
    world.ban(&mut manager, ip(7));
    world.unban(&mut manager, ip(8));
    assert_eq!(world.notified, vec![vec![ip(8)], vec![ip(7), ip(8)], vec![ip(7)]]);
}

#[test]
fn a_change_goes_through_its_stages_in_order() {
    let mut world = World::default();
    let mut manager = world.load(true);
    world.ban(&mut manager, ip(1));
    assert_eq!(world.log, vec!["load", "save", "firewall", "journal", "clear", "notify"]);
    world.log.clear();
    world.ban(&mut manager, ip(1));
    assert_eq!(world.log, vec!["load"]);
    world.log.clear();
    world.unban(&mut manager, ip(1));
    assert_eq!(world.log, vec!["load", "save", "firewall", "journal", "clear", "notify"]);
}

#[test]
fn each_failure_ends_the_operation() {
    for (fail, bans, pending) in [("load", 0, false), ("save", 0, false), ("firewall", 1, true), ("journal", 1, true)] {
        let mut world = World { fail: Some(fail), ..World::default() };
        let mut manager = world.load(true);
        assert_eq!(world.ban(&mut manager, ip(1)), Outcome::Failed);
        assert!(!manager.is_banned(ip(1)));
        assert_eq!(world.bans, bans);
        assert_eq!(world.pending.is_some(), pending);
        assert!(world.notified.is_empty());
    }
}

#[test]
fn a_pending_change_that_stays_is_harmless() {
    let mut world = World { fail: Some("clear"), ..World::default() };
    let mut manager = world.load(true);
    assert_eq!(world.ban(&mut manager, ip(1)), BANNED);
    assert!(world.pending.is_some());
    assert!(manager.is_banned(ip(1)));
    world.fail = None;
    assert_eq!(world.unban(&mut manager, ip(1)), UNBANNED);
    assert!(!manager.is_banned(ip(1)));
    assert!(!world.load(false).is_banned(ip(1)));
    assert!(world.pending.is_none());
}

#[test]
fn a_recovered_change_is_told_even_where_the_operation_fails() {
    let mut world = World {
        pending: Some(BanStateChange::Ban { record: BanRecord::new(ip(3), "pending") }),
        fail: Some("save"),
        ..World::default()
    };
    let mut manager = world.load(true);
    assert_eq!(world.ban(&mut manager, ip(4)), Outcome::Failed);
    assert_eq!(world.notified, vec![vec![ip(3)]]);
    assert!(manager.is_banned(ip(3)));
    assert!(!manager.is_banned(ip(4)));
}

#[test]
fn a_restore_bans_all_records_in_order() {
    let mut world = World {
        snapshot: vec![BanRecord::new(ip(9), "a"), BanRecord::new(ip(2), "b")],
        ..World::default()
    };
    let mut manager = world.load(true);
    assert_eq!(world.restore(&mut manager), Outcome::Restored);
    assert_eq!(world.log, vec!["setup", "restore", "restore", "load", "notify"]);
    assert_eq!(world.bans, 2);
    assert_eq!(world.notified, vec![vec![ip(2), ip(9)]]);

    let mut world = World { fail: Some("setup"), ..World::default() };
    let mut manager = world.load(true);
    assert_eq!(world.restore(&mut manager), Outcome::Failed);
    assert_eq!(world.log, vec!["setup"]);
}

#[test]
fn a_ban_bears_the_moment_it_was_asked_at() {
    let mut manager = BanManager::load(BanTable::new(), false);
    let (mut task, _) = manager.ban_ip(ip(1), "reason");
    let now = Timestamp { secs: 42, nanos: 7 };
    let action = manager.step_at(&mut task, Event::Pending { change: None }, now);
    match action {
        Action::SavePending { change } => assert_eq!(
            change,
            BanStateChange::Ban { record: BanRecord::at(ip(1), now, "reason") }
        ),
        _ => panic!("unexpected action"),
    }
}

#[test]
fn an_interrupted_change_is_recovered_by_a_restart() {
    for fail in ["save", "firewall", "journal", "clear"] {
        let mut world = World { fail: Some(fail), ..World::default() };
        let mut manager = world.load(false);
        world.ban(&mut manager, ip(1));
        world.fail = None;
        let mut restarted = world.load(false);
        assert_eq!(world.restore(&mut restarted), Outcome::Restored);
        assert_eq!(restarted.is_banned(ip(1)), fail != "save");
        assert!(world.pending.is_none());
        assert_eq!(world.load(false).is_banned(ip(1)), fail != "save");
        assert_eq!(restarted.records_snapshot().len(), usize::from(fail != "save"));
    }
}

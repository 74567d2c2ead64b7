use honeypot::addr::{IpAddr, Ipv4Addr};
use honeypot::store::{
    compact_banned_ips, complete_len, copy_records, journal_line, journal_lines, journal_name,
    load_banned_ips, load_snapshot, pending_name, replay_journal, save_banned_ips, temp_name,
    BanRecord, BanStateChange, BanTable, BannedIpsFile, CompactionStep, JournalLine,
    JournalParseError, Timestamp,
};

fn ip(last_octet: u8) -> IpAddr {
    IpAddr::V4(Ipv4Addr::new(203, 0, 113, last_octet))
}

fn line(number: usize, text: &str) -> JournalLine {
    JournalLine { number, bytes: text.as_bytes().to_vec() }
}

fn lines(n: usize) -> Vec<JournalLine> {
    (1..=n).map(|i| line(i, "entry")).collect()
}

#[test]
fn save_and_load_round_trip() {
    let mut records = BanTable::new();
    records.insert(BanRecord::new(ip(9), "test"));

    let file = save_banned_ips(&records);
    let loaded = load_banned_ips(file.ips, &Vec::new(), &Vec::new()).unwrap();

    assert_eq!(loaded.len(), 1);
    assert_eq!(loaded.get(ip(9)).unwrap().reason, "test");
}

#[test]
fn missing_state_file_loads_empty() {
    let loaded = load_banned_ips(Vec::new(), &Vec::new(), &Vec::new()).unwrap();

    assert!(loaded.is_empty());
}

#[test]
fn journal_replays_bans_and_unbans_over_snapshot() {
    let mut records = BanTable::new();
    records.insert(BanRecord::new(ip(1), "snapshot"));
    let file = save_banned_ips(&records);
    let changes = vec![
        Some(BanStateChange::Unban { ip: ip(1) }),
        Some(BanStateChange::Ban { record: BanRecord::new(ip(2), "journal") }),
    ];

    let loaded = load_banned_ips(file.ips, &lines(2), &changes).unwrap();
    assert!(!loaded.contains_key(ip(1)));
    assert_eq!(loaded.get(ip(2)).unwrap().reason, "journal");
}

#[test]
fn compact_writes_replayed_state_and_clears_journal() {
    let changes = vec![Some(BanStateChange::Ban { record: BanRecord::new(ip(3), "journal") })];
    let records = load_banned_ips(Vec::new(), &lines(1), &changes).unwrap();

    let file = compact_banned_ips(&records);

    let loaded = load_banned_ips(copy_records(&file.ips), &Vec::new(), &Vec::new()).unwrap();
    assert_eq!(loaded.to_vec(), records.to_vec());
    let again = load_banned_ips(file.ips, &lines(1), &changes).unwrap();
    assert_eq!(again.to_vec(), records.to_vec());
}

#[test]
fn load_repairs_a_torn_final_journal_entry() {
    let mut raw = journal_line(b"{\"action\":\"ban\",\"record\":\"complete\"}".to_vec());
    let complete = raw.len();
    raw.extend_from_slice(b"{\"action\":\"ban\"");

    assert_eq!(complete_len(&raw), complete);
    let found = journal_lines(&raw);
    assert_eq!(found, journal_lines(&raw[..complete]));
    assert_eq!(
        found,
        vec![line(1, "{\"action\":\"ban\",\"record\":\"complete\"}")]
    );
    let changes = vec![Some(BanStateChange::Ban { record: BanRecord::new(ip(5), "complete") })];
    let loaded = load_banned_ips(Vec::new(), &found, &changes).unwrap();
    assert!(loaded.contains_key(ip(5)));
}

#[test]
fn blank_lines_are_skipped_but_counted() {
    let raw = b"one\n\n \t\r\x0c\ntwo\nrest";
    assert_eq!(journal_lines(raw), vec![line(1, "one"), line(4, "two")]);
    assert_eq!(complete_len(raw), raw.len() - 4);
    assert_eq!(journal_lines(b""), vec![]);
    assert_eq!(journal_lines(b"\n"), vec![]);
    assert_eq!(journal_lines(b"torn"), vec![]);
    assert_eq!(complete_len(b"torn"), 0);
    assert_eq!(journal_lines(b"\x0b\n"), vec![line(1, "\x0b")]);
}

#[test]
fn a_line_that_is_no_change_is_an_error() {
    let found = vec![line(2, "good"), line(5, "bad"), line(6, "good")];
    let changes = vec![
        Some(BanStateChange::Ban { record: BanRecord::new(ip(1), "a") }),
        None,
        Some(BanStateChange::Unban { ip: ip(1) }),
    ];
    let mut records = BanTable::new();
    assert_eq!(
        replay_journal(&found, &changes, &mut records),
        Err(JournalParseError { line: 5 })
    );
    assert!(records.contains_key(ip(1)));
    assert!(matches!(
        load_banned_ips(Vec::new(), &found, &changes),
        Err(JournalParseError { line: 5 })
    ));
}

#[test]
fn later_records_of_one_address_win() {
    let at = |secs| Timestamp { secs, nanos: 0 };
    let records = load_snapshot(vec![
        BanRecord::at(ip(7), at(1), "first"),
        BanRecord::at(ip(3), at(2), "other"),
        BanRecord::at(ip(7), at(3), "second"),
    ]);
    assert_eq!(records.len(), 2);
    assert_eq!(records.get(ip(7)).unwrap().reason, "second");
    assert_eq!(records.get(ip(7)).unwrap().banned_at, at(3));
    assert!(records.get(ip(8)).is_none());
}

#[test]
fn records_are_listed_by_address() {
    let mut records = BanTable::new();
    for last in [9, 1, 5, 7, 3, 5] {
        records.insert(BanRecord::new(ip(last), "x"));
    }
    let v6 = IpAddr::V6(honeypot::addr::Ipv6Addr { bits: 1 });
    records.insert(BanRecord::new(v6, "x"));
    records.remove(ip(7));
    records.remove(ip(8));
    let listed: Vec<String> = records.to_vec().iter().map(|r| r.ip.to_string()).collect();
    assert_eq!(
        listed,
        vec!["203.0.113.1", "203.0.113.3", "203.0.113.5", "203.0.113.9", "::1"]
    );
    let file = BannedIpsFile::from_records(&records);
    assert_eq!(file.ips, records.to_vec());
    assert_eq!(records.clone().to_vec(), records.to_vec());
}

#[test]
fn changes_are_applied_to_the_records() {
    let mut records = BanTable::new();
    let ban = BanStateChange::Ban { record: BanRecord::new(ip(4), "pending") };
    assert_eq!(ban.ip(), ip(4));
    assert_eq!(ban.clone(), ban);
    ban.apply_to(&mut records);
    assert!(records.contains_key(ip(4)));
    let unban = BanStateChange::Unban { ip: ip(4) };
    assert_eq!(unban.ip(), ip(4));
    unban.apply_to(&mut records);
    assert!(records.is_empty());
}

#[test]
fn records_bear_the_present_moment() {
    let before = chrono::Utc::now().timestamp();
    let record = BanRecord::new(ip(1), "test");
    let after = chrono::Utc::now().timestamp();
    assert!(before <= record.banned_at.secs && record.banned_at.secs <= after);
    assert!(record.banned_at.nanos < 1_000_000_000);
    assert_eq!(record.ip, ip(1));
    assert_eq!(record.reason, "test");
}

#[test]
fn files_beside_the_snapshot_have_their_names() {
    assert_eq!(journal_name(Some("bans.json")), "bans.json.journal");
    assert_eq!(pending_name(Some("bans.json")), "bans.json.pending");
    assert_eq!(temp_name(Some("bans.json")), "bans.json.tmp");
    assert_eq!(journal_name(None), "banned_ips.json.journal");
    assert_eq!(temp_name(Some("bans.json.pending")), "bans.json.pending.tmp");
}

#[test]
fn appended_lines_are_read_back() {
    let mut raw = Vec::new();
    for entry in ["{\"a\":1}", "{\"b\":2}", "{\"c\":3}"] {
        raw.extend(journal_line(entry.as_bytes().to_vec()));
    }
    assert_eq!(complete_len(&raw), raw.len());
    assert_eq!(
        journal_lines(&raw),
        vec![line(1, "{\"a\":1}"), line(2, "{\"b\":2}"), line(3, "{\"c\":3}")]
    );
}

/// Lines of the form `+n` and `-n`.
fn read(line: &JournalLine) -> Option<BanStateChange> {
    let text = String::from_utf8(line.bytes.clone()).ok()?;
    let last = text[1..].parse().ok()?;
    match &text[..1] {
        "+" => Some(BanStateChange::Ban { record: BanRecord::new(ip(last), &text) }),
        "-" => Some(BanStateChange::Unban { ip: ip(last) }),
        _ => None,
    }
}

fn load(raw: &[u8]) -> BanTable {
    let found = journal_lines(raw);
    let parsed: Vec<_> = found.iter().map(read).collect();
    load_banned_ips(Vec::new(), &found, &parsed).unwrap()
}

#[test]
fn a_change_that_is_appended_is_loaded() {
    let mut raw = b"+1\n\n+2\n+3".to_vec();
    assert_eq!(load(&raw).len(), 2);
    raw.truncate(complete_len(&raw));
    raw.extend(journal_line(b"+4".to_vec()));
    let loaded = load(&raw);
    assert_eq!(loaded.len(), 3);
    assert_eq!(loaded.get(ip(4)).unwrap().reason, "+4");
    raw.extend(journal_line(b"-1".to_vec()));
    let loaded = load(&raw);
    assert_eq!(loaded.len(), 2);
    assert!(!loaded.contains_key(ip(1)));
    assert_eq!(loaded.get(ip(2)).unwrap().reason, "+2");
    assert!(load(b"").is_empty());
}

#[test]
fn the_journal_goes_only_after_the_snapshot() {
    let step = CompactionStep::start();
    assert_eq!(step, CompactionStep::ReplaceSnapshot);
    assert_eq!(step.after(false), CompactionStep::Failed);
    let step = step.after(true);
    assert_eq!(step, CompactionStep::RemoveJournal);
    assert_eq!(step.after(false), CompactionStep::Failed);
    assert_eq!(step.after(true), CompactionStep::Done);
    assert_eq!(CompactionStep::Done.after(false), CompactionStep::Done);
    assert_eq!(CompactionStep::Failed.after(true), CompactionStep::Failed);
}

use honeypot::addr::{parse_ip, IpAddr, Ipv4Addr};
use honeypot::calls::Calls;
use honeypot::config::{FirewallBackend, FirewallConfig};
use honeypot::firewall::{
    backend_scaling_note, carry_out, ipset_rule_check_command, ipset_rule_insert_command,
    ipset_setup_commands, local_loopback_ips, log_firewall_backend, planned_ban_commands,
    planned_unban_commands, require_success, start_ban, start_setup, start_unban, CommandResult, CommandRunner, CommandSpec, Firewall, FirewallAction,
    FirewallError, SystemFirewall,
};
use std::sync::Mutex;

#[test]
fn ipset_setup_creates_ipv4_and_ipv6_sets() {
    let config = FirewallConfig::default();
    let commands = ipset_setup_commands(&config);

    assert_eq!(commands.len(), 2);
    assert_eq!(commands[0].program, "ipset");
    assert_eq!(
        commands[0].args[0..5],
        ["create", "honeypot_banned_v4", "hash:ip", "family", "inet"]
    );
    assert_eq!(
        commands[1].args[0..5],
        ["create", "honeypot_banned_v6", "hash:ip", "family", "inet6"]
    );
}

#[test]
fn ipset_ban_uses_single_set_add_command() {
    let config = FirewallConfig::default();
    let ip = IpAddr::V4(Ipv4Addr::new(203, 0, 113, 10));

    let commands = planned_ban_commands(&config, ip);

    assert_eq!(
        commands,
        vec![CommandSpec::new(
            "ipset",
            ["add", "honeypot_banned_v4", "203.0.113.10", "-exist"]
        )]
    );
}

#[test]
fn plain_iptables_plans_check_then_insert() {
    let config = FirewallConfig {
        backend: FirewallBackend::Iptables,
        ..FirewallConfig::default()
    };
    let ip = IpAddr::V4(Ipv4Addr::new(198, 51, 100, 7));

    let commands = planned_ban_commands(&config, ip);

    assert_eq!(commands[0].args[0], "-C");
    assert_eq!(commands[1].args[0], "-I");
    assert_eq!(commands[1].args[2], "1");
}

/// Answers each command by the program and first argument, and keeps what was
/// run.
struct Recorder {
    failing: Vec<&'static str>,
    missing: bool,
    ran: Mutex<Vec<String>>,
}

impl Recorder {
    fn new(failing: Vec<&'static str>) -> Self {
        Recorder { failing, missing: false, ran: Mutex::new(Vec::new()) }
    }
}

impl CommandRunner for &'static Recorder {
    fn run(&self, command: &CommandSpec) -> Result<CommandResult, String> {
        let line = format!("{} {}", command.program, command.args.join(" "));
        self.ran.lock().unwrap().push(line.clone());
        if self.missing {
            return Err(format!("failed to execute {}", command.program));
        }
        let failed = self.failing.iter().any(|part| line.contains(part));
        Ok(CommandResult {
            success: !failed,
            status_code: Some(if failed { 1 } else { 0 }),
            stdout: String::new(),
            stderr: if failed { "no".to_string() } else { String::new() },
        })
    }
}

fn firewall(
    backend: FirewallBackend,
    recorder: Recorder,
) -> (SystemFirewall<&'static Recorder>, &'static Recorder) {
    let recorder: &'static Recorder = Box::leak(Box::new(recorder));
    let config = FirewallConfig { backend, ..FirewallConfig::default() };
    (SystemFirewall::new(config, recorder), recorder)
}

fn ran(recorder: &Recorder) -> Vec<String> {
    recorder.ran.lock().unwrap().clone()
}

#[test]
fn ipset_rules_are_inserted_only_where_they_are_missing() {
    let (mut fw, recorder) = firewall(FirewallBackend::IptablesIpset, Recorder::new(vec!["ip6tables -C"]));
    assert_eq!(fw.setup(), Ok(()));
    assert_eq!(
        ran(recorder),
        vec![
            "ipset create honeypot_banned_v4 hash:ip family inet hashsize 4096 maxelem 1000000 -exist",
            "ipset create honeypot_banned_v6 hash:ip family inet6 hashsize 4096 maxelem 1000000 -exist",
            "iptables -C INPUT -m set --match-set honeypot_banned_v4 src -j DROP",
            "ip6tables -C INPUT -m set --match-set honeypot_banned_v6 src -j DROP",
            "ip6tables -I INPUT 1 -m set --match-set honeypot_banned_v6 src -j DROP",
        ]
    );
}

#[test]
fn setup_stops_at_the_first_failure() {
    let (mut fw, recorder) = firewall(FirewallBackend::IptablesIpset, Recorder::new(vec!["ipset create"]));
    let error = fw.setup().unwrap_err();
    assert_eq!(
        error.to_string(),
        "command failed: ipset create honeypot_banned_v4 hash:ip family inet hashsize 4096 maxelem 1000000 -exist; status=Some(1); stderr=no"
    );
    assert_eq!(ran(recorder).len(), 1);
}

#[test]
fn iptables_inserts_a_rule_only_once() {
    let ip = parse_ip("198.51.100.7").unwrap();
    let (mut fw, recorder) = firewall(FirewallBackend::Iptables, Recorder::new(vec![]));
    assert_eq!(fw.ban(ip), Ok(()));
    assert_eq!(ran(recorder), vec!["iptables -C INPUT -s 198.51.100.7 -j DROP"]);

    let (mut fw, recorder) = firewall(FirewallBackend::Iptables, Recorder::new(vec!["-C"]));
    assert_eq!(fw.ban(ip), Ok(()));
    assert_eq!(
        ran(recorder),
        vec![
            "iptables -C INPUT -s 198.51.100.7 -j DROP",
            "iptables -I INPUT 1 -s 198.51.100.7 -j DROP",
        ]
    );

    let ip = parse_ip("2001:db8::7").unwrap();
    let (mut fw, recorder) = firewall(FirewallBackend::Iptables, Recorder::new(vec![]));
    assert_eq!(fw.unban(ip), Ok(()));
    assert_eq!(ran(recorder), vec!["ip6tables -D INPUT -s 2001:db8::7 -j DROP"]);
}

#[test]
fn each_backend_has_its_commands() {
    let v4 = parse_ip("203.0.113.10").unwrap();
    let v6 = parse_ip("2001:db8::1").unwrap();
    let (mut fw, recorder) = firewall(FirewallBackend::Ufw, Recorder::new(vec![]));
    fw.setup().unwrap();
    fw.ban(v4).unwrap();
    fw.unban(v4).unwrap();
    assert_eq!(
        ran(recorder),
        vec!["ufw prepend deny from 203.0.113.10", "ufw delete deny from 203.0.113.10"]
    );

    let (mut fw, recorder) = firewall(FirewallBackend::IptablesIpset, Recorder::new(vec![]));
    fw.ban(v6).unwrap();
    fw.unban(v6).unwrap();
    assert_eq!(
        ran(recorder),
        vec![
            "ipset add honeypot_banned_v6 2001:db8::1 -exist",
            "ipset del honeypot_banned_v6 2001:db8::1 -exist",
        ]
    );

    let (mut fw, recorder) = firewall(FirewallBackend::DryRun, Recorder::new(vec![]));
    fw.setup().unwrap();
    fw.ban(v4).unwrap();
    fw.unban(v4).unwrap();
    assert!(ran(recorder).is_empty());

    let (mut fw, recorder) = firewall(FirewallBackend::Nftables, Recorder::new(vec![]));
    fw.setup().unwrap();
    fw.ban(v4).unwrap();
    fw.unban(v6).unwrap();
    assert_eq!(
        ran(recorder),
        vec![
            "nft add table inet honeypot",
            "nft add set inet honeypot banned_v4 { type ipv4_addr; }",
            "nft add set inet honeypot banned_v6 { type ipv6_addr; }",
            "nft add chain inet honeypot input { type filter hook input priority filter; policy accept; }",
            "nft flush chain inet honeypot input",
            "nft add rule inet honeypot input ip saddr @banned_v4 drop",
            "nft add rule inet honeypot input ip6 saddr @banned_v6 drop",
            "nft add element inet honeypot banned_v4 { 203.0.113.10 }",
            "nft add element inet honeypot banned_v6 { 2001:db8::1 }",
            "nft delete element inet honeypot banned_v6 { 2001:db8::1 }",
        ]
    );
}

#[test]
fn plans_name_what_is_run() {
    let ip = parse_ip("203.0.113.10").unwrap();
    for backend in [
        FirewallBackend::Nftables,
        FirewallBackend::Ufw,
        FirewallBackend::IptablesIpset,
        FirewallBackend::DryRun,
    ] {
        let config = FirewallConfig { backend, ..FirewallConfig::default() };
        let planned: Vec<String> = planned_unban_commands(&config, ip)
            .iter()
            .map(|c| format!("{} {}", c.program, c.args.join(" ")))
            .collect();
        let (mut fw, recorder) = firewall(backend, Recorder::new(vec![]));
        fw.unban(ip).unwrap();
        assert_eq!(ran(recorder), planned);
    }
    let config = FirewallConfig { backend: FirewallBackend::Iptables, ..FirewallConfig::default() };
    assert_eq!(planned_unban_commands(&config, ip).len(), 1);
    let (fw, _) = firewall(FirewallBackend::IptablesIpset, Recorder::new(vec![]));
    assert_eq!(fw.setup_commands(), ipset_setup_commands(&FirewallConfig::default()));
}

#[test]
fn a_command_that_cannot_be_run_is_an_error() {
    let mut recorder = Recorder::new(vec![]);
    recorder.missing = true;
    let (mut fw, recorder) = firewall(FirewallBackend::Iptables, recorder);
    let ip = parse_ip("203.0.113.10").unwrap();
    assert_eq!(
        fw.ban(ip),
        Err(FirewallError::NotRun { message: "failed to execute iptables".to_string() })
    );
    assert_eq!(ran(recorder).len(), 1);
    assert_eq!(
        fw.unban(ip).unwrap_err().to_string(),
        "failed to execute iptables"
    );
}

#[test]
fn a_required_command_is_judged_by_its_result() {
    let command = CommandSpec::new("tool", ["a", "b"]);
    let result = |success, status_code| CommandResult {
        success,
        status_code,
        stdout: "out".to_string(),
        stderr: "err".to_string(),
    };
    assert_eq!(require_success(&command, Ok(result(true, Some(0)))), Ok(()));
    assert_eq!(
        require_success(&command, Ok(result(false, None))).unwrap_err().to_string(),
        "command failed: tool a b; status=None; stderr=err"
    );
    assert_eq!(
        require_success(&command, Ok(result(false, Some(-1)))).unwrap_err().to_string(),
        "command failed: tool a b; status=Some(-1); stderr=err"
    );
    assert_eq!(
        require_success(&command, Err("gone".to_string())).unwrap_err().to_string(),
        "gone"
    );
}

#[test]
fn backends_have_notes() {
    let config = FirewallConfig { backend: FirewallBackend::Ufw, ..FirewallConfig::default() };
    let log = log_firewall_backend(&config);
    assert_eq!(log.backend, FirewallBackend::Ufw);
    assert_eq!(
        log.scaling,
        "one ufw rule per banned IP; convenient but not ideal for large lists"
    );
    assert_eq!(
        log.warning,
        Some("large ban lists are more efficient with firewall.backend = \"iptables_ipset\"")
    );
    assert_eq!(log_firewall_backend(&FirewallConfig::default()).warning, None);
    assert_eq!(
        backend_scaling_note(&FirewallBackend::DryRun),
        "no firewall changes; for local testing only"
    );
    assert_eq!(
        backend_scaling_note(&FirewallBackend::IptablesIpset),
        "one iptables rule plus O(1)-style ipset membership checks; recommended for many IPs"
    );
    assert_eq!(
        backend_scaling_note(&FirewallBackend::Iptables),
        "one iptables rule per banned IP; simple but rule traversal grows with list size"
    );
}

#[test]
fn a_release_takes_back_what_the_ban_put_in_place() {
    let ip = parse_ip("203.0.113.10").unwrap();
    for backend in [
        FirewallBackend::Nftables,
        FirewallBackend::Ufw,
        FirewallBackend::Iptables,
        FirewallBackend::IptablesIpset,
    ] {
        let config = FirewallConfig { backend, ..FirewallConfig::default() };
        let ban = planned_ban_commands(&config, ip).pop().unwrap();
        let release = planned_unban_commands(&config, ip).pop().unwrap();
        let mut args = ban.args.clone();
        if backend == FirewallBackend::Iptables {
            assert_eq!(args.remove(2), "1");
        }
        assert_eq!(ban.program, release.program);
        assert_eq!(args[1..], release.args[1..]);
        assert_ne!(args[0], release.args[0]);
        assert_eq!(ban.clone(), ban);
    }
}

fn ended(success: bool) -> Result<CommandResult, String> {
    Ok(CommandResult {
        success,
        status_code: Some(if success { 0 } else { 1 }),
        stdout: String::new(),
        stderr: if success { String::new() } else { "no".to_string() },
    })
}

fn line(action: &FirewallAction) -> String {
    match action {
        FirewallAction::Run { command } => {
            format!("{} {}", command.program, command.args.join(" "))
        }
        FirewallAction::Finish { result } => format!("{result:?}"),
    }
}

#[test]
fn a_ban_asks_for_one_command_at_a_time() {
    let ip = parse_ip("198.51.100.7").unwrap();
    let config = FirewallConfig {
        backend: FirewallBackend::Iptables,
        ..FirewallConfig::default()
    };
    let check = "iptables -C INPUT -s 198.51.100.7 -j DROP";
    let insert = "iptables -I INPUT 1 -s 198.51.100.7 -j DROP";

    let (mut run, action) = start_ban(&config, ip);
    assert_eq!(line(&action), check);
    assert_eq!(run.step(ended(true)), FirewallAction::Finish { result: Ok(()) });

    let (mut run, _) = start_ban(&config, ip);
    assert_eq!(line(&run.step(ended(false))), insert);
    assert_eq!(run.step(ended(true)), FirewallAction::Finish { result: Ok(()) });
    assert_eq!(run.step(ended(false)), FirewallAction::Finish { result: Ok(()) });

    let (mut run, _) = start_ban(&config, ip);
    run.step(ended(false));
    let failed = run.step(ended(false));
    match &failed {
        FirewallAction::Finish {
            result: Err(FirewallError::CommandFailed { program, args, status_code, stderr }),
        } => {
            assert_eq!(format!("{program} {}", args.join(" ")), insert);
            assert_eq!(*status_code, Some(1));
            assert_eq!(stderr, "no");
        }
        other => panic!("{other:?}"),
    }
    assert_eq!(run.step(ended(true)), failed);

    let (mut run, _) = start_ban(&config, ip);
    assert_eq!(
        run.step(Err("gone".to_string())),
        FirewallAction::Finish {
            result: Err(FirewallError::NotRun { message: "gone".to_string() })
        }
    );

    let config = FirewallConfig { backend: FirewallBackend::DryRun, ..FirewallConfig::default() };
    for (_, action) in [start_setup(&config), start_ban(&config, ip), start_unban(&config, ip)] {
        assert_eq!(action, FirewallAction::Finish { result: Ok(()) });
    }
}

#[test]
fn setup_asks_for_sets_then_rules() {
    let config = FirewallConfig {
        backend: FirewallBackend::IptablesIpset,
        ..FirewallConfig::default()
    };
    let (mut run, action) = start_setup(&config);
    assert!(line(&action).starts_with("ipset create honeypot_banned_v4 "));
    assert!(line(&run.step(ended(true))).starts_with("ipset create honeypot_banned_v6 "));
    let check = line(&run.step(ended(true)));
    assert!(check.starts_with("iptables -C "));
    let insert = line(&run.step(ended(false)));
    assert_eq!(insert, check.replacen("-C INPUT", "-I INPUT 1", 1));
    let check = line(&run.step(ended(true)));
    assert!(check.starts_with("ip6tables -C "));
    assert_eq!(run.step(ended(true)), FirewallAction::Finish { result: Ok(()) });
}

#[test]
fn work_is_carried_out_command_by_command() {
    let ip = parse_ip("203.0.113.10").unwrap();
    let config = FirewallConfig {
        backend: FirewallBackend::Iptables,
        ..FirewallConfig::default()
    };
    let recorder: &'static Recorder = Box::leak(Box::new(Recorder::new(vec!["-C"])));
    let mut calls = Calls::new(recorder);
    assert_eq!(carry_out(&mut calls, start_ban(&config, ip)), Ok(()));
    assert_eq!(carry_out(&mut calls, start_unban(&config, ip)), Ok(()));
    assert_eq!(
        ran(recorder),
        vec![
            "iptables -C INPUT -s 203.0.113.10 -j DROP",
            "iptables -I INPUT 1 -s 203.0.113.10 -j DROP",
            "iptables -D INPUT -s 203.0.113.10 -j DROP",
        ]
    );
}

#[test]
fn loopback_addresses_are_local() {
    let ips = local_loopback_ips();
    assert_eq!(ips[0].to_string(), "127.0.0.1");
    assert_eq!(ips[1].to_string(), "::1");
}

#[test]
fn an_insert_is_the_check_with_a_place() {
    let config = FirewallConfig { rule_position: 7, ..FirewallConfig::default() };
    for (ipv6, program, set) in [
        (false, "iptables", "honeypot_banned_v4"),
        (true, "ip6tables", "honeypot_banned_v6"),
    ] {
        let check = ipset_rule_check_command(&config, ipv6);
        let insert = ipset_rule_insert_command(&config, ipv6);
        let mut args = check.args.clone();
        assert_eq!(args[0], "-C");
        args[0] = "-I".to_string();
        args.insert(2, "7".to_string());
        assert_eq!(insert.args, args);
        assert_eq!(insert.program, check.program);
        assert_eq!(check.program, program);
        assert_eq!(check.args[5], set);
    }
}

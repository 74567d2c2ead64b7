//! The commands by which a source is blocked and released.

use vstd::prelude::*;

use crate::addr;
use crate::addr::{IpAddr, Ipv4Addr, Ipv6Addr};
use crate::calls::Calls;
use crate::config::{FirewallBackend, FirewallConfig};
use crate::text;

verus! {

// ---------------------------------------------------------------------------
// Commands

#[derive(Debug, PartialEq, Eq)]
pub struct CommandSpec {
    pub program: String,
    pub args: Vec<String>,
}

pub struct CommandView {
    pub program: Seq<char>,
    pub args: Seq<Seq<char>>,
}

impl View for CommandSpec {
    type V = CommandView;

    open spec fn view(&self) -> CommandView {
        CommandView { program: self.program@, args: text::views(self.args@) }
    }
}

pub open spec fn command(program: Seq<char>, args: Seq<Seq<char>>) -> CommandView {
    CommandView { program, args }
}

pub open spec fn command_views(commands: Seq<CommandSpec>) -> Seq<CommandView> {
    commands.map_values(|c: CommandSpec| c@)
}

impl CommandSpec {
    pub fn new<const N: usize>(program: &str, args: [&str; N]) -> (r: CommandSpec)
        ensures
            r@ == command(program@, args@.map_values(|a: &str| a@)),
    {
        let mut list: Vec<String> = Vec::new();
        let mut i: usize = 0;
        while i < N
            invariant
                i <= N,
                args@.len() == N,
                text::views(list@) == args@.map_values(|a: &str| a@).take(i as int),
            decreases N - i,
        {
            let arg = args[i].to_string();
            proof {
                let all = args@.map_values(|a: &str| a@);
                assert(text::views(list@.push(arg)) =~= text::views(list@).push(arg@));
                assert(all.take(i + 1) =~= all.take(i as int).push(all[i as int]));
            }
            list.push(arg);
            i += 1;
        }
        let ghost all = args@.map_values(|a: &str| a@);
        assert(all.take(i as int) =~= all);
        CommandSpec { program: program.to_string(), args: list }
    }
}

fn copy_strings(list: &Vec<String>) -> (r: Vec<String>)
    ensures
        text::views(r@) == text::views(list@),
{
    let mut r: Vec<String> = Vec::new();
    let mut i: usize = 0;
    while i < list.len()
        invariant
            i <= list@.len(),
            text::views(r@) == text::views(list@).take(i as int),
        decreases list@.len() - i,
    {
        let s = list[i].clone();
        proof {
            let all = text::views(list@);
            assert(text::views(r@.push(s)) =~= text::views(r@).push(s@));
            assert(all.take(i + 1) =~= all.take(i as int).push(all[i as int]));
        }
        r.push(s);
        i += 1;
    }
    assert(text::views(list@).take(i as int) =~= text::views(list@));
    r
}

impl Clone for CommandSpec {
    fn clone(&self) -> (r: CommandSpec)
        ensures
            r@ == self@,
    {
        CommandSpec { program: self.program.clone(), args: copy_strings(&self.args) }
    }
}

/// How a command ended.
#[derive(Debug, PartialEq, Eq)]
pub struct CommandResult {
    pub success: bool,
    pub status_code: Option<i32>,
    pub stdout: String,
    pub stderr: String,
}

pub struct CommandResultView {
    pub success: bool,
    pub status_code: Option<i32>,
    pub stdout: Seq<char>,
    pub stderr: Seq<char>,
}

impl View for CommandResult {
    type V = CommandResultView;

    open spec fn view(&self) -> CommandResultView {
        CommandResultView {
            success: self.success,
            status_code: self.status_code,
            stdout: self.stdout@,
            stderr: self.stderr@,
        }
    }
}

impl Clone for CommandResult {
    fn clone(&self) -> (r: CommandResult)
        ensures
            r@ == self@,
    {
        CommandResult {
            success: self.success,
            status_code: self.status_code,
            stdout: self.stdout.clone(),
            stderr: self.stderr.clone(),
        }
    }
}

/// Why the firewall is not as it was asked to be.
#[derive(Debug, PartialEq, Eq)]
pub enum FirewallError {
    /// A command could not be run.
    NotRun { message: String },
    /// A command ended without success.
    CommandFailed {
        program: String,
        args: Vec<String>,
        status_code: Option<i32>,
        stderr: String,
    },
}

pub enum FirewallErrorView {
    NotRun { message: Seq<char> },
    CommandFailed { command: CommandView, status_code: Option<i32>, stderr: Seq<char> },
}

impl View for FirewallError {
    type V = FirewallErrorView;

    open spec fn view(&self) -> FirewallErrorView {
        match self {
            FirewallError::NotRun { message } => FirewallErrorView::NotRun { message: message@ },
            FirewallError::CommandFailed {
                program,
                args,
                status_code,
                stderr,
            } => FirewallErrorView::CommandFailed {
                command: command(program@, text::views(args@)),
                status_code: *status_code,
                stderr: stderr@,
            },
        }
    }
}

pub open spec fn status_text(status_code: Option<i32>) -> Seq<char> {
    match status_code {
        Some(code) => "Some("@ + text::signed_decimal(code as int) + ")"@,
        None => "None"@,
    }
}

impl FirewallErrorView {
    pub open spec fn message(self) -> Seq<char> {
        match self {
            FirewallErrorView::NotRun { message } => message,
            FirewallErrorView::CommandFailed {
                command,
                status_code,
                stderr,
            } => "command failed: "@ + command.program + " "@ + text::join(command.args, " "@)
                + "; status="@ + status_text(status_code) + "; stderr="@ + stderr,
        }
    }
}

pub(crate) fn status_to_text(status_code: Option<i32>) -> (r: String)
    ensures
        r@ == status_text(status_code),
{
    match status_code {
        Some(code) => "Some(".to_string().concat(
            text::signed_decimal_text(code).as_str(),
        ).concat(")"),
        None => "None".to_string(),
    }
}

impl Clone for FirewallError {
    fn clone(&self) -> (r: FirewallError)
        ensures
            r@ == self@,
    {
        match self {
            FirewallError::NotRun { message } => FirewallError::NotRun { message: message.clone() },
            FirewallError::CommandFailed {
                program,
                args,
                status_code,
                stderr,
            } => FirewallError::CommandFailed {
                program: program.clone(),
                args: copy_strings(args),
                status_code: *status_code,
                stderr: stderr.clone(),
            },
        }
    }
}

impl FirewallError {
    /// The message of the error.
    pub fn to_string(&self) -> (r: String)
        ensures
            r@ == self@.message(),
    {
        match self {
            FirewallError::NotRun { message } => message.clone(),
            FirewallError::CommandFailed {
                program,
                args,
                status_code,
                stderr,
            } => "command failed: ".to_string().concat(program.as_str()).concat(" ").concat(
                text::join_strings(args, " ").as_str(),
            ).concat("; status=").concat(status_to_text(*status_code).as_str()).concat(
                "; stderr=",
            ).concat(stderr.as_str()),
        }
    }
}

// ---------------------------------------------------------------------------
// Running commands

/// What runs commands.
pub trait CommandRunner: Send + Sync {
    /// Runs a command to its end, or tells why it could not be run.
    fn run(&self, command: &CommandSpec) -> Result<CommandResult, String>;
}

pub type RunResult = Result<CommandResult, String>;

/// The runner has answered a command in this way.
pub open spec fn answered<R: CommandRunner>(
    runner: R,
    command: CommandView,
    result: RunResult,
) -> bool {
    exists|c: CommandSpec| c@ == command && #[trigger] call_ensures(R::run, (&runner, &c), result)
}

/// What a command comes to that has to succeed.
pub open spec fn required(command: CommandView, result: RunResult) -> Result<
    (),
    FirewallErrorView,
> {
    match result {
        Err(message) => Err(FirewallErrorView::NotRun { message: message@ }),
        Ok(done) => if done.success {
            Ok(())
        } else {
            Err(
                FirewallErrorView::CommandFailed {
                    command,
                    status_code: done.status_code,
                    stderr: done.stderr@,
                },
            )
        },
    }
}

pub open spec fn result_view(r: Result<(), FirewallError>) -> Result<(), FirewallErrorView> {
    match r {
        Ok(()) => Ok(()),
        Err(e) => Err(e@),
    }
}

/// The outcome of a command that has to succeed, given how it was answered.
pub fn require_success(command: &CommandSpec, result: RunResult) -> (r: Result<(), FirewallError>)
    ensures
        result_view(r) == required(command@, result),
{
    match result {
        Err(message) => Err(FirewallError::NotRun { message }),
        Ok(done) => {
            if done.success {
                Ok(())
            } else {
                let args = copy_strings(&command.args);
                Err(
                    FirewallError::CommandFailed {
                        program: command.program.clone(),
                        args,
                        status_code: done.status_code,
                        stderr: done.stderr,
                    },
                )
            }
        },
    }
}

// ---------------------------------------------------------------------------
// The commands of each backend

pub open spec fn ufw_ban(config: FirewallConfig, ip: IpAddr) -> CommandView {
    command(config.ufw_binary@, seq!["prepend"@, "deny"@, "from"@, ip.text()])
}

pub open spec fn ufw_unban(config: FirewallConfig, ip: IpAddr) -> CommandView {
    command(config.ufw_binary@, seq!["delete"@, "deny"@, "from"@, ip.text()])
}

pub open spec fn iptables_for(config: FirewallConfig, ipv6: bool) -> Seq<char> {
    if ipv6 {
        config.ip6tables_binary@
    } else {
        config.iptables_binary@
    }
}

pub open spec fn iptables_check(config: FirewallConfig, ip: IpAddr) -> CommandView {
    command(
        iptables_for(config, ip is V6),
        seq!["-C"@, config.chain@, "-s"@, ip.text(), "-j"@, "DROP"@],
    )
}

pub open spec fn iptables_ban(config: FirewallConfig, ip: IpAddr) -> CommandView {
    command(
        iptables_for(config, ip is V6),
        seq![
            "-I"@,
            config.chain@,
            text::decimal(config.rule_position as nat),
            "-s"@,
            ip.text(),
            "-j"@,
            "DROP"@,
        ],
    )
}

pub open spec fn iptables_unban(config: FirewallConfig, ip: IpAddr) -> CommandView {
    command(
        iptables_for(config, ip is V6),
        seq!["-D"@, config.chain@, "-s"@, ip.text(), "-j"@, "DROP"@],
    )
}

pub open spec fn ipset_name(config: FirewallConfig, ipv6: bool) -> Seq<char> {
    if ipv6 {
        config.ipset_name_v6@
    } else {
        config.ipset_name_v4@
    }
}

pub open spec fn ipset_add(config: FirewallConfig, ip: IpAddr) -> CommandView {
    command(
        config.ipset_binary@,
        seq!["add"@, ipset_name(config, ip is V6), ip.text(), "-exist"@],
    )
}

pub open spec fn ipset_delete(config: FirewallConfig, ip: IpAddr) -> CommandView {
    command(
        config.ipset_binary@,
        seq!["del"@, ipset_name(config, ip is V6), ip.text(), "-exist"@],
    )
}

pub open spec fn ipset_create(config: FirewallConfig, ipv6: bool) -> CommandView {
    command(
        config.ipset_binary@,
        seq![
            "create"@,
            ipset_name(config, ipv6),
            "hash:ip"@,
            "family"@,
            if ipv6 {
                "inet6"@
            } else {
                "inet"@
            },
            "hashsize"@,
            text::decimal(config.ipset_hash_size as nat),
            "maxelem"@,
            text::decimal(config.ipset_max_elements as nat),
            "-exist"@,
        ],
    )
}

pub open spec fn ipset_rule_check(config: FirewallConfig, ipv6: bool) -> CommandView {
    command(
        iptables_for(config, ipv6),
        seq![
            "-C"@,
            config.chain@,
            "-m"@,
            "set"@,
            "--match-set"@,
            ipset_name(config, ipv6),
            "src"@,
            "-j"@,
            "DROP"@,
        ],
    )
}

pub open spec fn ipset_rule_insert(config: FirewallConfig, ipv6: bool) -> CommandView {
    command(
        iptables_for(config, ipv6),
        seq![
            "-I"@,
            config.chain@,
            text::decimal(config.rule_position as nat),
            "-m"@,
            "set"@,
            "--match-set"@,
            ipset_name(config, ipv6),
            "src"@,
            "-j"@,
            "DROP"@,
        ],
    )
}

pub open spec fn nft_set(config: FirewallConfig, ipv6: bool) -> Seq<char> {
    if ipv6 {
        config.nft_set_name_v6@
    } else {
        config.nft_set_name_v4@
    }
}

pub open spec fn nft_add_table(config: FirewallConfig) -> CommandView {
    command(config.nft_binary@, seq!["add"@, "table"@, "inet"@, config.nft_table@])
}

pub open spec fn nft_add_set(config: FirewallConfig, ipv6: bool) -> CommandView {
    command(
        config.nft_binary@,
        seq![
            "add"@,
            "set"@,
            "inet"@,
            config.nft_table@,
            nft_set(config, ipv6),
            if ipv6 {
                "{ type ipv6_addr; }"@
            } else {
                "{ type ipv4_addr; }"@
            },
        ],
    )
}

pub open spec fn nft_add_chain(config: FirewallConfig) -> CommandView {
    command(
        config.nft_binary@,
        seq![
            "add"@,
            "chain"@,
            "inet"@,
            config.nft_table@,
            config.nft_chain@,
            "{ type filter hook "@ + config.nft_hook@ + " priority "@ + config.nft_priority@
                + "; policy accept; }"@,
        ],
    )
}

pub open spec fn nft_flush_chain(config: FirewallConfig) -> CommandView {
    command(
        config.nft_binary@,
        seq!["flush"@, "chain"@, "inet"@, config.nft_table@, config.nft_chain@],
    )
}

pub open spec fn nft_add_rule(config: FirewallConfig, ipv6: bool) -> CommandView {
    command(
        config.nft_binary@,
        seq![
            "add"@,
            "rule"@,
            "inet"@,
            config.nft_table@,
            config.nft_chain@,
            if ipv6 {
                "ip6"@
            } else {
                "ip"@
            },
            "saddr"@,
            "@"@ + nft_set(config, ipv6),
            "drop"@,
        ],
    )
}

pub open spec fn nft_element(config: FirewallConfig, verb: Seq<char>, ip: IpAddr) -> CommandView {
    command(
        config.nft_binary@,
        seq![
            verb,
            "element"@,
            "inet"@,
            config.nft_table@,
            nft_set(config, ip is V6),
            "{ "@ + ip.text() + " }"@,
        ],
    )
}

/// The commands that a ban may run, in their order.
pub open spec fn ban_commands(config: FirewallConfig, ip: IpAddr) -> Seq<CommandView> {
    match config.backend {
        FirewallBackend::Nftables => seq![nft_element(config, "add"@, ip)],
        FirewallBackend::Ufw => seq![ufw_ban(config, ip)],
        FirewallBackend::Iptables => seq![iptables_check(config, ip), iptables_ban(config, ip)],
        FirewallBackend::IptablesIpset => seq![ipset_add(config, ip)],
        FirewallBackend::DryRun => Seq::empty(),
    }
}

/// The commands that a release runs, in their order. An element of a set of
/// `nft` is added before it is deleted, so that it is there to be deleted.
pub open spec fn unban_commands(config: FirewallConfig, ip: IpAddr) -> Seq<CommandView> {
    match config.backend {
        FirewallBackend::Nftables => seq![
            nft_element(config, "add"@, ip),
            nft_element(config, "delete"@, ip),
        ],
        FirewallBackend::Ufw => seq![ufw_unban(config, ip)],
        FirewallBackend::Iptables => seq![iptables_unban(config, ip)],
        FirewallBackend::IptablesIpset => seq![ipset_delete(config, ip)],
        FirewallBackend::DryRun => Seq::empty(),
    }
}

pub open spec fn ipset_setup(config: FirewallConfig) -> Seq<CommandView> {
    seq![ipset_create(config, false), ipset_create(config, true)]
}

pub open spec fn nft_setup(config: FirewallConfig) -> Seq<CommandView> {
    seq![
        nft_add_table(config),
        nft_add_set(config, false),
        nft_add_set(config, true),
        nft_add_chain(config),
        nft_flush_chain(config),
        nft_add_rule(config, false),
        nft_add_rule(config, true),
    ]
}

pub open spec fn setup_plan(config: FirewallConfig) -> Seq<CommandView> {
    match config.backend {
        FirewallBackend::IptablesIpset => ipset_setup(config),
        FirewallBackend::Nftables => nft_setup(config),
        _ => Seq::empty(),
    }
}

fn ufw_ban_command(config: &FirewallConfig, ip: IpAddr) -> (r: CommandSpec)
    ensures
        r@ == ufw_ban(*config, ip),
{
    let text = ip.to_string();
    let r = CommandSpec::new(config.ufw_binary.as_str(), ["prepend", "deny", "from", text.as_str()]);
    assert(r@.args =~= ufw_ban(*config, ip).args);
    r
}

fn ufw_unban_command(config: &FirewallConfig, ip: IpAddr) -> (r: CommandSpec)
    ensures
        r@ == ufw_unban(*config, ip),
{
    let text = ip.to_string();
    let r = CommandSpec::new(config.ufw_binary.as_str(), ["delete", "deny", "from", text.as_str()]);
    assert(r@.args =~= ufw_unban(*config, ip).args);
    r
}

fn iptables_program(config: &FirewallConfig, ipv6: bool) -> (r: &str)
    ensures
        r@ == iptables_for(*config, ipv6),
{
    if ipv6 {
        config.ip6tables_binary.as_str()
    } else {
        config.iptables_binary.as_str()
    }
}

fn iptables_check_command(config: &FirewallConfig, ip: IpAddr) -> (r: CommandSpec)
    ensures
        r@ == iptables_check(*config, ip),
{
    let text = ip.to_string();
    let r = CommandSpec::new(
        iptables_program(config, ip.is_ipv6()),
        ["-C", config.chain.as_str(), "-s", text.as_str(), "-j", "DROP"],
    );
    assert(r@.args =~= iptables_check(*config, ip).args);
    r
}

fn iptables_ban_command(config: &FirewallConfig, ip: IpAddr) -> (r: CommandSpec)
    ensures
        r@ == iptables_ban(*config, ip),
{
    let text = ip.to_string();
    let position = text::decimal_text(config.rule_position as u64);
    let r = CommandSpec::new(
        iptables_program(config, ip.is_ipv6()),
        ["-I", config.chain.as_str(), position.as_str(), "-s", text.as_str(), "-j", "DROP"],
    );
    assert(r@.args =~= iptables_ban(*config, ip).args);
    r
}

fn iptables_unban_command(config: &FirewallConfig, ip: IpAddr) -> (r: CommandSpec)
    ensures
        r@ == iptables_unban(*config, ip),
{
    let text = ip.to_string();
    let r = CommandSpec::new(
        iptables_program(config, ip.is_ipv6()),
        ["-D", config.chain.as_str(), "-s", text.as_str(), "-j", "DROP"],
    );
    assert(r@.args =~= iptables_unban(*config, ip).args);
    r
}

fn ipset_name_for(config: &FirewallConfig, ipv6: bool) -> (r: &str)
    ensures
        r@ == ipset_name(*config, ipv6),
{
    if ipv6 {
        config.ipset_name_v6.as_str()
    } else {
        config.ipset_name_v4.as_str()
    }
}

fn ipset_add_command(config: &FirewallConfig, ip: IpAddr) -> (r: CommandSpec)
    ensures
        r@ == ipset_add(*config, ip),
{
    let text = ip.to_string();
    let r = CommandSpec::new(
        config.ipset_binary.as_str(),
        ["add", ipset_name_for(config, ip.is_ipv6()), text.as_str(), "-exist"],
    );
    assert(r@.args =~= ipset_add(*config, ip).args);
    r
}

fn ipset_delete_command(config: &FirewallConfig, ip: IpAddr) -> (r: CommandSpec)
    ensures
        r@ == ipset_delete(*config, ip),
{
    let text = ip.to_string();
    let r = CommandSpec::new(
        config.ipset_binary.as_str(),
        ["del", ipset_name_for(config, ip.is_ipv6()), text.as_str(), "-exist"],
    );
    assert(r@.args =~= ipset_delete(*config, ip).args);
    r
}

fn ipset_create_command(config: &FirewallConfig, ipv6: bool) -> (r: CommandSpec)
    ensures
        r@ == ipset_create(*config, ipv6),
{
    let family = if ipv6 {
        "inet6"
    } else {
        "inet"
    };
    let hash_size = text::decimal_text(config.ipset_hash_size as u64);
    let max_elements = text::decimal_text(config.ipset_max_elements as u64);
    let r = CommandSpec::new(
        config.ipset_binary.as_str(),
        [
            "create",
            ipset_name_for(config, ipv6),
            "hash:ip",
            "family",
            family,
            "hashsize",
            hash_size.as_str(),
            "maxelem",
            max_elements.as_str(),
            "-exist",
        ],
    );
    assert(r@.args =~= ipset_create(*config, ipv6).args);
    r
}

pub fn ipset_rule_check_command(config: &FirewallConfig, ipv6: bool) -> (r: CommandSpec)
    ensures
        r@ == ipset_rule_check(*config, ipv6),
{
    let r = CommandSpec::new(
        iptables_program(config, ipv6),
        [
            "-C",
            config.chain.as_str(),
            "-m",
            "set",
            "--match-set",
            ipset_name_for(config, ipv6),
            "src",
            "-j",
            "DROP",
        ],
    );
    assert(r@.args =~= ipset_rule_check(*config, ipv6).args);
    r
}

pub fn ipset_rule_insert_command(config: &FirewallConfig, ipv6: bool) -> (r: CommandSpec)
    ensures
        r@ == ipset_rule_insert(*config, ipv6),
{
    let position = text::decimal_text(config.rule_position as u64);
    let r = CommandSpec::new(
        iptables_program(config, ipv6),
        [
            "-I",
            config.chain.as_str(),
            position.as_str(),
            "-m",
            "set",
            "--match-set",
            ipset_name_for(config, ipv6),
            "src",
            "-j",
            "DROP",
        ],
    );
    assert(r@.args =~= ipset_rule_insert(*config, ipv6).args);
    r
}

fn nft_set_for(config: &FirewallConfig, ipv6: bool) -> (r: &str)
    ensures
        r@ == nft_set(*config, ipv6),
{
    if ipv6 {
        config.nft_set_name_v6.as_str()
    } else {
        config.nft_set_name_v4.as_str()
    }
}

fn nft_add_table_command(config: &FirewallConfig) -> (r: CommandSpec)
    ensures
        r@ == nft_add_table(*config),
{
    let r = CommandSpec::new(
        config.nft_binary.as_str(),
        ["add", "table", "inet", config.nft_table.as_str()],
    );
    assert(r@.args =~= nft_add_table(*config).args);
    r
}

fn nft_add_set_command(config: &FirewallConfig, ipv6: bool) -> (r: CommandSpec)
    ensures
        r@ == nft_add_set(*config, ipv6),
{
    let definition = if ipv6 {
        "{ type ipv6_addr; }"
    } else {
        "{ type ipv4_addr; }"
    };
    let r = CommandSpec::new(
        config.nft_binary.as_str(),
        [
            "add",
            "set",
            "inet",
            config.nft_table.as_str(),
            nft_set_for(config, ipv6),
            definition,
        ],
    );
    assert(r@.args =~= nft_add_set(*config, ipv6).args);
    r
}

fn nft_add_chain_command(config: &FirewallConfig) -> (r: CommandSpec)
    ensures
        r@ == nft_add_chain(*config),
{
    let definition = "{ type filter hook ".to_string().concat(config.nft_hook.as_str()).concat(
        " priority ",
    ).concat(config.nft_priority.as_str()).concat("; policy accept; }");
    let r = CommandSpec::new(
        config.nft_binary.as_str(),
        [
            "add",
            "chain",
            "inet",
            config.nft_table.as_str(),
            config.nft_chain.as_str(),
            definition.as_str(),
        ],
    );
    assert(r@.args =~= nft_add_chain(*config).args);
    r
}

fn nft_flush_chain_command(config: &FirewallConfig) -> (r: CommandSpec)
    ensures
        r@ == nft_flush_chain(*config),
{
    let r = CommandSpec::new(
        config.nft_binary.as_str(),
        ["flush", "chain", "inet", config.nft_table.as_str(), config.nft_chain.as_str()],
    );
    assert(r@.args =~= nft_flush_chain(*config).args);
    r
}

fn nft_add_rule_command(config: &FirewallConfig, ipv6: bool) -> (r: CommandSpec)
    ensures
        r@ == nft_add_rule(*config, ipv6),
{
    let family = if ipv6 {
        "ip6"
    } else {
        "ip"
    };
    let set = "@".to_string().concat(nft_set_for(config, ipv6));
    let r = CommandSpec::new(
        config.nft_binary.as_str(),
        [
            "add",
            "rule",
            "inet",
            config.nft_table.as_str(),
            config.nft_chain.as_str(),
            family,
            "saddr",
            set.as_str(),
            "drop",
        ],
    );
    assert(r@.args =~= nft_add_rule(*config, ipv6).args);
    r
}

fn nft_element_command(config: &FirewallConfig, verb: &str, ip: IpAddr) -> (r: CommandSpec)
    ensures
        r@ == nft_element(*config, verb@, ip),
{
    let element = "{ ".to_string().concat(ip.to_string().as_str()).concat(" }");
    let r = CommandSpec::new(
        config.nft_binary.as_str(),
        [
            verb,
            "element",
            "inet",
            config.nft_table.as_str(),
            nft_set_for(config, ip.is_ipv6()),
            element.as_str(),
        ],
    );
    assert(r@.args =~= nft_element(*config, verb@, ip).args);
    r
}

/// The commands that a ban may run, in their order.
pub fn planned_ban_commands(config: &FirewallConfig, ip: IpAddr) -> (r: Vec<CommandSpec>)
    ensures
        command_views(r@) == ban_commands(*config, ip),
{
    let mut r: Vec<CommandSpec> = Vec::new();
    match config.backend {
        FirewallBackend::Nftables => r.push(nft_element_command(config, "add", ip)),
        FirewallBackend::Ufw => r.push(ufw_ban_command(config, ip)),
        FirewallBackend::Iptables => {
            r.push(iptables_check_command(config, ip));
            r.push(iptables_ban_command(config, ip));
        },
        FirewallBackend::IptablesIpset => r.push(ipset_add_command(config, ip)),
        FirewallBackend::DryRun => {},
    }
    assert(command_views(r@) =~= ban_commands(*config, ip));
    r
}

/// The commands that a release runs, in their order.
pub fn planned_unban_commands(config: &FirewallConfig, ip: IpAddr) -> (r: Vec<CommandSpec>)
    ensures
        command_views(r@) == unban_commands(*config, ip),
{
    let mut r: Vec<CommandSpec> = Vec::new();
    match config.backend {
        FirewallBackend::Nftables => {
            r.push(nft_element_command(config, "add", ip));
            r.push(nft_element_command(config, "delete", ip));
        },
        FirewallBackend::Ufw => r.push(ufw_unban_command(config, ip)),
        FirewallBackend::Iptables => r.push(iptables_unban_command(config, ip)),
        FirewallBackend::IptablesIpset => r.push(ipset_delete_command(config, ip)),
        FirewallBackend::DryRun => {},
    }
    assert(command_views(r@) =~= unban_commands(*config, ip));
    r
}

/// The commands that make the two sets of `ipset`.
pub fn ipset_setup_commands(config: &FirewallConfig) -> (r: Vec<CommandSpec>)
    ensures
        command_views(r@) == ipset_setup(*config),
{
    let mut r: Vec<CommandSpec> = Vec::new();
    r.push(ipset_create_command(config, false));
    r.push(ipset_create_command(config, true));
    assert(command_views(r@) =~= ipset_setup(*config));
    r
}

fn nft_setup_commands(config: &FirewallConfig) -> (r: Vec<CommandSpec>)
    ensures
        command_views(r@) == nft_setup(*config),
{
    let mut r: Vec<CommandSpec> = Vec::new();
    r.push(nft_add_table_command(config));
    r.push(nft_add_set_command(config, false));
    r.push(nft_add_set_command(config, true));
    r.push(nft_add_chain_command(config));
    r.push(nft_flush_chain_command(config));
    r.push(nft_add_rule_command(config, false));
    r.push(nft_add_rule_command(config, true));
    assert(command_views(r@) =~= nft_setup(*config));
    r
}

// ---------------------------------------------------------------------------
// The firewall of the system

/// What blocks and releases sources.
pub trait Firewall: Send + Sync {
    fn setup(&mut self) -> Result<(), FirewallError>;

    fn ban(&mut self, ip: IpAddr) -> Result<(), FirewallError>;

    fn unban(&mut self, ip: IpAddr) -> Result<(), FirewallError>;
}

/// A firewall that is changed by commands.
pub struct SystemFirewall<R> {
    config: FirewallConfig,
    calls: Calls<R>,
}

/// One part of the work: a command that has to succeed, or one that is run
/// where a check before it does not succeed.
pub enum Task {
    Require { command: CommandView },
    Ensure { check: CommandView, insert: CommandView },
}

pub open spec fn require_each(commands: Seq<CommandView>) -> Seq<Task> {
    commands.map_values(|c: CommandView| Task::Require { command: c })
}

pub open spec fn ipset_rule(config: FirewallConfig, ipv6: bool) -> Task {
    Task::Ensure {
        check: ipset_rule_check(config, ipv6),
        insert: ipset_rule_insert(config, ipv6),
    }
}

/// The parts of making the firewall ready.
pub open spec fn setup_tasks(config: FirewallConfig) -> Seq<Task> {
    require_each(setup_plan(config)) + if config.backend == FirewallBackend::IptablesIpset {
        seq![ipset_rule(config, false), ipset_rule(config, true)]
    } else {
        Seq::empty()
    }
}

/// The parts of a ban.
pub open spec fn ban_tasks(config: FirewallConfig, ip: IpAddr) -> Seq<Task> {
    if config.backend == FirewallBackend::Iptables {
        seq![
            Task::Ensure { check: iptables_check(config, ip), insert: iptables_ban(config, ip) },
        ]
    } else {
        require_each(ban_commands(config, ip))
    }
}

/// The parts of a release.
pub open spec fn unban_tasks(config: FirewallConfig, ip: IpAddr) -> Seq<Task> {
    require_each(unban_commands(config, ip))
}

impl<R> SystemFirewall<R> {
    pub closed spec fn spec_config(self) -> FirewallConfig {
        self.config
    }

    pub closed spec fn spec_runner(self) -> R {
        self.calls.spec_runner()
    }

    /// The commands that the runner was given since the start, with its answers.
    pub closed spec fn log(self) -> Seq<(CommandView, RunResult)> {
        self.calls.log()
    }

    pub fn new(config: FirewallConfig, runner: R) -> (r: SystemFirewall<R>)
        ensures
            r.spec_config() == config,
            r.spec_runner() == runner,
            r.log() == Seq::<(CommandView, RunResult)>::empty(),
    {
        SystemFirewall { config, calls: Calls::new(runner) }
    }
}

// ---------------------------------------------------------------------------
// The order of work

/// One part of the work, as it is carried out.
pub enum FirewallTask {
    Require { command: CommandSpec },
    Ensure { check: CommandSpec, insert: CommandSpec },
}

impl View for FirewallTask {
    type V = Task;

    open spec fn view(&self) -> Task {
        match self {
            FirewallTask::Require { command } => Task::Require { command: command@ },
            FirewallTask::Ensure { check, insert } => Task::Ensure {
                check: check@,
                insert: insert@,
            },
        }
    }
}

pub open spec fn task_views(tasks: Seq<FirewallTask>) -> Seq<Task> {
    tasks.map_values(|t: FirewallTask| t@)
}

/// What is to be done next.
#[derive(Debug, PartialEq, Eq)]
pub enum FirewallAction {
    /// Run a command and report how it was answered.
    Run { command: CommandSpec },
    /// Nothing more: the work has come to this.
    Finish { result: Result<(), FirewallError> },
}

pub enum FirewallActionView {
    Run { command: CommandView },
    Finish { result: Result<(), FirewallErrorView> },
}

impl View for FirewallAction {
    type V = FirewallActionView;

    open spec fn view(&self) -> FirewallActionView {
        match self {
            FirewallAction::Run { command } => FirewallActionView::Run { command: command@ },
            FirewallAction::Finish { result } => FirewallActionView::Finish {
                result: result_view(*result),
            },
        }
    }
}

/// Work under way, one command at a time.
pub struct FirewallRun {
    tasks: Vec<FirewallTask>,
    at: usize,
    inserting: bool,
    failure: Option<FirewallError>,
}

pub struct FirewallRunView {
    pub tasks: Seq<Task>,
    /// The part that is being carried out.
    pub at: int,
    /// Whether its check has ended without success.
    pub inserting: bool,
    pub failure: Option<FirewallErrorView>,
}

pub open spec fn failure_view(failure: Option<FirewallError>) -> Option<FirewallErrorView> {
    match failure {
        Some(e) => Some(e@),
        None => None,
    }
}

impl View for FirewallRun {
    type V = FirewallRunView;

    closed spec fn view(&self) -> FirewallRunView {
        FirewallRunView {
            tasks: task_views(self.tasks@),
            at: self.at as int,
            inserting: self.inserting,
            failure: failure_view(self.failure),
        }
    }
}

/// The command of a part that comes next.
pub open spec fn current(task: Task, inserting: bool) -> CommandView {
    match task {
        Task::Require { command } => command,
        Task::Ensure { check, insert } => if inserting {
            insert
        } else {
            check
        },
    }
}

/// The action that the work waits for.
pub open spec fn asked(run: FirewallRunView) -> FirewallActionView {
    match run.failure {
        Some(e) => FirewallActionView::Finish { result: Err(e) },
        None => if 0 <= run.at < run.tasks.len() {
            FirewallActionView::Run { command: current(run.tasks[run.at], run.inserting) }
        } else {
            FirewallActionView::Finish { result: Ok(()) }
        },
    }
}

/// The work before anything is done.
pub open spec fn begin(tasks: Seq<Task>) -> (FirewallRunView, FirewallActionView) {
    let run = FirewallRunView { tasks, at: 0, inserting: false, failure: None };
    (run, asked(run))
}

/// Where the work stands after an answer. A check that succeeds makes the
/// command behind it needless, and one that ends without success calls for it.
/// Any other command that does not succeed, and any that was not run, is the
/// failure of the work.
pub open spec fn advanced(run: FirewallRunView, answer: RunResult) -> FirewallRunView {
    let done = FirewallRunView { at: run.at + 1, inserting: false, ..run };
    if run.failure is Some || !(0 <= run.at < run.tasks.len()) {
        run
    } else {
        let task = run.tasks[run.at];
        match required(current(task, run.inserting), answer) {
            Ok(()) => done,
            Err(e) => if task is Ensure && !run.inserting && answer is Ok {
                FirewallRunView { inserting: true, ..run }
            } else {
                FirewallRunView { failure: Some(e), ..run }
            },
        }
    }
}

/// One step: a command was answered so, and the next action follows.
pub open spec fn next(run: FirewallRunView, answer: RunResult) -> (
    FirewallRunView,
    FirewallActionView,
) {
    (advanced(run, answer), asked(advanced(run, answer)))
}

impl FirewallRun {
    fn ask(&self) -> (a: FirewallAction)
        ensures
            a@ == asked(self@),
    {
        match &self.failure {
            Some(e) => FirewallAction::Finish { result: Err(e.clone()) },
            None => {
                if self.at < self.tasks.len() {
                    assert(task_views(self.tasks@)[self.at as int] == self.tasks@[self.at as int]@);
                    let command = match &self.tasks[self.at] {
                        FirewallTask::Require { command } => command.clone(),
                        FirewallTask::Ensure { check, insert } => {
                            if self.inserting {
                                insert.clone()
                            } else {
                                check.clone()
                            }
                        },
                    };
                    FirewallAction::Run { command }
                } else {
                    FirewallAction::Finish { result: Ok(()) }
                }
            },
        }
    }

    fn start(tasks: Vec<FirewallTask>) -> (r: (FirewallRun, FirewallAction))
        ensures
            (r.0@, r.1@) == begin(task_views(tasks@)),
    {
        let run = FirewallRun { tasks, at: 0, inserting: false, failure: None };
        let action = run.ask();
        (run, action)
    }

    /// Takes note of how the last command was answered and gives the next
    /// action.
    pub fn step(&mut self, answer: RunResult) -> (a: FirewallAction)
        ensures
            (final(self)@, a@) == next(old(self)@, answer),
    {
        if self.failure.is_none() && self.at < self.tasks.len() {
            assert(task_views(self.tasks@)[self.at as int] == self.tasks@[self.at as int]@);
            let checking = !self.inserting && match &self.tasks[self.at] {
                FirewallTask::Require { .. } => false,
                FirewallTask::Ensure { .. } => true,
            };
            let was_run = answer.is_ok();
            let outcome = match &self.tasks[self.at] {
                FirewallTask::Require { command } => require_success(command, answer),
                FirewallTask::Ensure { check, insert } => {
                    if self.inserting {
                        require_success(insert, answer)
                    } else {
                        require_success(check, answer)
                    }
                },
            };
            match outcome {
                Ok(()) => {
                    self.at = self.at + 1;
                    self.inserting = false;
                },
                Err(e) => {
                    if checking && was_run {
                        self.inserting = true;
                    } else {
                        self.failure = Some(e);
                    }
                },
            }
        }
        self.ask()
    }
}

fn require_all(commands: Vec<CommandSpec>) -> (r: Vec<FirewallTask>)
    ensures
        task_views(r@) == require_each(command_views(commands@)),
{
    let mut r: Vec<FirewallTask> = Vec::new();
    let mut i: usize = 0;
    let ghost all = require_each(command_views(commands@));
    while i < commands.len()
        invariant
            i <= commands@.len(),
            all == require_each(command_views(commands@)),
            task_views(r@) == all.take(i as int),
        decreases commands@.len() - i,
    {
        let task = FirewallTask::Require { command: commands[i].clone() };
        proof {
            assert(task_views(r@.push(task)) =~= task_views(r@).push(task@));
            assert(all.take(i + 1) =~= all.take(i as int).push(all[i as int]));
        }
        r.push(task);
        i += 1;
    }
    assert(all.take(i as int) =~= all);
    r
}

fn setup_commands_of(config: &FirewallConfig) -> (r: Vec<CommandSpec>)
    ensures
        command_views(r@) == setup_plan(*config),
{
    match config.backend {
        FirewallBackend::IptablesIpset => ipset_setup_commands(config),
        FirewallBackend::Nftables => nft_setup_commands(config),
        _ => {
            let r: Vec<CommandSpec> = Vec::new();
            assert(command_views(r@) =~= Seq::empty());
            r
        },
    }
}

fn ensure_ipset_rule(config: &FirewallConfig, ipv6: bool) -> (r: FirewallTask)
    ensures
        r@ == ipset_rule(*config, ipv6),
{
    FirewallTask::Ensure {
        check: ipset_rule_check_command(config, ipv6),
        insert: ipset_rule_insert_command(config, ipv6),
    }
}

fn ensure_iptables_drop(config: &FirewallConfig, ip: IpAddr) -> (r: FirewallTask)
    ensures
        r@ == (Task::Ensure {
            check: iptables_check(*config, ip),
            insert: iptables_ban(*config, ip),
        }),
{
    FirewallTask::Ensure {
        check: iptables_check_command(config, ip),
        insert: iptables_ban_command(config, ip),
    }
}

/// Starts to make the firewall ready.
pub fn start_setup(config: &FirewallConfig) -> (r: (FirewallRun, FirewallAction))
    ensures
        (r.0@, r.1@) == begin(setup_tasks(*config)),
{
    let mut tasks = require_all(setup_commands_of(config));
    let ghost plan = task_views(tasks@);
    if config.backend == FirewallBackend::IptablesIpset {
        tasks.push(ensure_ipset_rule(config, false));
        tasks.push(ensure_ipset_rule(config, true));
    }
    assert(task_views(tasks@) =~= setup_tasks(*config));
    FirewallRun::start(tasks)
}

/// Starts to block a source.
pub fn start_ban(config: &FirewallConfig, ip: IpAddr) -> (r: (FirewallRun, FirewallAction))
    ensures
        (r.0@, r.1@) == begin(ban_tasks(*config, ip)),
{
    let tasks = if config.backend == FirewallBackend::Iptables {
        let task = ensure_iptables_drop(config, ip);
        let tasks = vec![task];
        assert(task_views(tasks@) =~= ban_tasks(*config, ip));
        tasks
    } else {
        require_all(planned_ban_commands(config, ip))
    };
    FirewallRun::start(tasks)
}

/// Starts to release a source.
pub fn start_unban(config: &FirewallConfig, ip: IpAddr) -> (r: (FirewallRun, FirewallAction))
    ensures
        (r.0@, r.1@) == begin(unban_tasks(*config, ip)),
{
    FirewallRun::start(require_all(planned_unban_commands(config, ip)))
}

/// Where the work stands, and what it waits for, after answers one after the
/// other.
pub open spec fn after(
    start: (FirewallRunView, FirewallActionView),
    answers: Seq<RunResult>,
) -> (FirewallRunView, FirewallActionView)
    decreases answers.len(),
{
    if answers.len() == 0 {
        start
    } else {
        next(after(start, answers.drop_last()).0, answers.last())
    }
}

/// Each answer was to a command that was asked for.
pub open spec fn all_asked(
    start: (FirewallRunView, FirewallActionView),
    answers: Seq<RunResult>,
) -> bool {
    forall|i: int| 0 <= i < answers.len() ==> after(start, #[trigger] answers.take(i)).1 is Run
}

/// The commands that were asked for, each with its answer.
pub open spec fn exchanges(
    start: (FirewallRunView, FirewallActionView),
    answers: Seq<RunResult>,
) -> Seq<(CommandView, RunResult)> {
    Seq::new(
        answers.len(),
        |i: int| (after(start, answers.take(i)).1->command, answers[i]),
    )
}

/// The work comes to `r` by these answers.
pub open spec fn leads_to(
    start: (FirewallRunView, FirewallActionView),
    answers: Seq<RunResult>,
    r: Result<(), FirewallErrorView>,
) -> bool {
    all_asked(start, answers) && after(start, answers).1 == (FirewallActionView::Finish {
        result: r,
    })
}

/// A runner answers commands in this way.
pub open spec fn all_answered<R: CommandRunner>(
    runner: R,
    log: Seq<(CommandView, RunResult)>,
) -> bool {
    forall|i: int| 0 <= i < log.len() ==> answered(runner, (#[trigger] log[i]).0, log[i].1)
}

/// The work was carried out with the runner: it was given the commands that
/// the work asks for, in their order and no others, and by its answers the
/// work comes to `r`.
pub open spec fn carried_out<R: CommandRunner>(
    runner: R,
    start: (FirewallRunView, FirewallActionView),
    before: Seq<(CommandView, RunResult)>,
    log: Seq<(CommandView, RunResult)>,
    r: Result<(), FirewallErrorView>,
) -> bool {
    exists|answers: Seq<RunResult>| #[trigger]
        leads_to(start, answers, r) && log == before + exchanges(start, answers) && all_answered(
            runner,
            exchanges(start, answers),
        )
}

/// The commands of work that are still to come, at most.
spec fn left(run: FirewallRunView) -> int {
    if run.failure is Some {
        0
    } else if run.inserting {
        2 * (run.tasks.len() - run.at) - 1
    } else {
        2 * (run.tasks.len() - run.at)
    }
}

/// Carries work through: gives the runner the commands that are asked for and
/// reports its answers.
pub fn carry_out<R: CommandRunner>(
    calls: &mut Calls<R>,
    start: (FirewallRun, FirewallAction),
) -> (r: Result<(), FirewallError>)
    requires
        start.1@ == asked(start.0@),
    ensures
        final(calls).spec_runner() == old(calls).spec_runner(),
        carried_out(
            old(calls).spec_runner(),
            (start.0@, start.1@),
            old(calls).log(),
            final(calls).log(),
            result_view(r),
        ),
{
    let ghost first = (start.0@, start.1@);
    let ghost mut answers: Seq<RunResult> = Seq::empty();
    let ghost before = calls.log();
    let (mut run, mut action) = start;
    assert(before + exchanges(first, answers) =~= before);
    loop
        invariant
            (run@, action@) == after(first, answers),
            action@ == asked(run@),
            all_asked(first, answers),
            calls.spec_runner() == old(calls).spec_runner(),
            before == old(calls).log(),
            first == (start.0@, start.1@),
            calls.log() == before + exchanges(first, answers),
            all_answered(calls.spec_runner(), exchanges(first, answers)),
        decreases left(run@),
    {
        match action {
            FirewallAction::Finish { result } => {
                assert(leads_to(first, answers, result_view(result)));
                return result;
            },
            FirewallAction::Run { command } => {
                let answer = calls.run(&command);
                proof {
                    let more = answers.push(answer);
                    assert(more.drop_last() =~= answers);
                    assert forall|i: int| 0 <= i < more.len() implies after(
                        first,
                        #[trigger] more.take(i),
                    ).1 is Run by {
                        if i < answers.len() {
                            assert(more.take(i) =~= answers.take(i));
                        } else {
                            assert(more.take(i) =~= answers);
                        }
                    }
                    assert(exchanges(first, more) =~= exchanges(first, answers).push(
                        (command@, answer),
                    )) by {
                        assert forall|i: int| 0 <= i < more.len() implies exchanges(first, more)[i]
                            == exchanges(first, answers).push((command@, answer))[i] by {
                            if i < answers.len() {
                                assert(more.take(i) =~= answers.take(i));
                            } else {
                                assert(more.take(i) =~= answers);
                            }
                        }
                    }
                    assert(before + exchanges(first, more) =~= (before + exchanges(
                        first,
                        answers,
                    )).push((command@, answer)));
                    answers = more;
                }
                action = run.step(answer);
            },
        }
    }
}

impl<R: CommandRunner> SystemFirewall<R> {
    /// The commands that make the firewall ready, before any rule is checked.
    pub fn setup_commands(&self) -> (r: Vec<CommandSpec>)
        ensures
            command_views(r@) == setup_plan(self.spec_config()),
    {
        setup_commands_of(&self.config)
    }
}

impl<R: CommandRunner> Firewall for SystemFirewall<R> {
    /// Makes the firewall ready.
    fn setup(&mut self) -> (r: Result<(), FirewallError>)
        ensures
            final(self).spec_config() == old(self).spec_config(),
            final(self).spec_runner() == old(self).spec_runner(),
            carried_out(
                old(self).spec_runner(),
                begin(setup_tasks(old(self).spec_config())),
                old(self).log(),
                final(self).log(),
                result_view(r),
            ),
    {
        let start = start_setup(&self.config);
        carry_out(&mut self.calls, start)
    }

    /// Blocks a source.
    fn ban(&mut self, ip: IpAddr) -> (r: Result<(), FirewallError>)
        ensures
            final(self).spec_config() == old(self).spec_config(),
            final(self).spec_runner() == old(self).spec_runner(),
            carried_out(
                old(self).spec_runner(),
                begin(ban_tasks(old(self).spec_config(), ip)),
                old(self).log(),
                final(self).log(),
                result_view(r),
            ),
    {
        let start = start_ban(&self.config, ip);
        carry_out(&mut self.calls, start)
    }

    /// Releases a source.
    fn unban(&mut self, ip: IpAddr) -> (r: Result<(), FirewallError>)
        ensures
            final(self).spec_config() == old(self).spec_config(),
            final(self).spec_runner() == old(self).spec_runner(),
            carried_out(
                old(self).spec_runner(),
                begin(unban_tasks(old(self).spec_config(), ip)),
                old(self).log(),
                final(self).log(),
                result_view(r),
            ),
    {
        let start = start_unban(&self.config, ip);
        carry_out(&mut self.calls, start)
    }
}

// ---------------------------------------------------------------------------
// Notes on the backends

pub open spec fn scaling_note(backend: FirewallBackend) -> Seq<char> {
    match backend {
        FirewallBackend::Nftables =>
            "one nftables rule per address family plus native set membership checks; recommended for modern Debian/Ubuntu"@,
        FirewallBackend::IptablesIpset =>
            "one iptables rule plus O(1)-style ipset membership checks; recommended for many IPs"@,
        FirewallBackend::Iptables =>
            "one iptables rule per banned IP; simple but rule traversal grows with list size"@,
        FirewallBackend::Ufw =>
            "one ufw rule per banned IP; convenient but not ideal for large lists"@,
        FirewallBackend::DryRun => "no firewall changes; for local testing only"@,
    }
}

/// How a backend copes with many banned sources.
pub fn backend_scaling_note(backend: &FirewallBackend) -> (r: &'static str)
    ensures
        r@ == scaling_note(*backend),
{
    match backend {
        FirewallBackend::Nftables =>
            "one nftables rule per address family plus native set membership checks; recommended for modern Debian/Ubuntu",
        FirewallBackend::IptablesIpset =>
            "one iptables rule plus O(1)-style ipset membership checks; recommended for many IPs",
        FirewallBackend::Iptables =>
            "one iptables rule per banned IP; simple but rule traversal grows with list size",
        FirewallBackend::Ufw =>
            "one ufw rule per banned IP; convenient but not ideal for large lists",
        FirewallBackend::DryRun => "no firewall changes; for local testing only",
    }
}

/// What the log says of the backend.
pub struct BackendLog {
    pub backend: FirewallBackend,
    pub scaling: &'static str,
    /// A warning where another backend would cope better.
    pub warning: Option<&'static str>,
}

pub fn log_firewall_backend(config: &FirewallConfig) -> (r: BackendLog)
    ensures
        r.backend == config.backend,
        r.scaling@ == scaling_note(config.backend),
        match r.warning {
            Some(warning) => (config.backend == FirewallBackend::Ufw || config.backend
                == FirewallBackend::Iptables) && warning@
                == "large ban lists are more efficient with firewall.backend = \"iptables_ipset\""@,
            None => config.backend != FirewallBackend::Ufw && config.backend
                != FirewallBackend::Iptables,
        },
{
    let warning = match config.backend {
        FirewallBackend::Ufw | FirewallBackend::Iptables => Some(
            "large ban lists are more efficient with firewall.backend = \"iptables_ipset\"",
        ),
        _ => None,
    };
    BackendLog {
        backend: config.backend,
        scaling: backend_scaling_note(&config.backend),
        warning,
    }
}

pub fn local_loopback_ips() -> (r: [IpAddr; 2])
    ensures
        r@ == seq![
            IpAddr::V4(Ipv4Addr { bits: 0x7f00_0001 }),
            IpAddr::V6(Ipv6Addr { bits: 1 }),
        ],
        r@[0].loopback(),
        r@[1].loopback(),
{
    let r = [
        IpAddr::V4(Ipv4Addr { bits: 0x7f00_0001 }),
        IpAddr::V6(Ipv6Addr { bits: 1 }),
    ];
    assert(r@ =~= seq![
        IpAddr::V4(Ipv4Addr { bits: 0x7f00_0001 }),
        IpAddr::V6(Ipv6Addr { bits: 1 }),
    ]);
    r
}

// ---------------------------------------------------------------------------
// Laws

proof fn lemma_text_injective(a: IpAddr, b: IpAddr)
    requires
        a.text() == b.text(),
    ensures
        a == b,
{
    addr::law_address_round_trip(a);
    addr::law_address_round_trip(b);
}

/// The commands of a ban, and those of a release, tell which source they are
/// about: different sources have different commands.
pub proof fn law_commands_name_their_source(config: FirewallConfig, a: IpAddr, b: IpAddr)
    requires
        config.backend != FirewallBackend::DryRun,
        ban_commands(config, a) == ban_commands(config, b) || unban_commands(config, a)
            == unban_commands(config, b),
    ensures
        a == b,
{
    let x = if ban_commands(config, a) == ban_commands(config, b) {
        ban_commands(config, a)[0]
    } else {
        unban_commands(config, a)[0]
    };
    let y = if ban_commands(config, a) == ban_commands(config, b) {
        ban_commands(config, b)[0]
    } else {
        unban_commands(config, b)[0]
    };
    assert(x == y);
    match config.backend {
        FirewallBackend::Nftables => {
            reveal_strlit("{ ");
            reveal_strlit(" }");
            let s = "{ "@ + a.text() + " }"@;
            let t = "{ "@ + b.text() + " }"@;
            assert(x.args[5] == s);
            assert(y.args[5] == t);
            assert(s.subrange(2, s.len() - 2) =~= a.text());
            assert(t.subrange(2, t.len() - 2) =~= b.text());
        },
        FirewallBackend::IptablesIpset => {
            assert(x.args[2] == a.text());
            assert(y.args[2] == b.text());
        },
        _ => {
            assert(x.args[3] == a.text());
            assert(y.args[3] == b.text());
        },
    }
    lemma_text_injective(a, b);
}

/// With sets a ban is one command, and the rules that point to the sets do not
/// depend on the sources: their number stays constant however many are banned.
pub proof fn law_sets_keep_the_rules_constant(config: FirewallConfig, ip: IpAddr)
    requires
        config.backend == FirewallBackend::IptablesIpset || config.backend
            == FirewallBackend::Nftables,
    ensures
        ban_commands(config, ip).len() == 1,
        config.backend == FirewallBackend::IptablesIpset ==> setup_tasks(config).len() == 4,
        config.backend == FirewallBackend::Nftables ==> setup_tasks(config).len() == 7,
{
}

/// A dry run runs no command.
pub proof fn law_dry_run_runs_nothing(config: FirewallConfig, ip: IpAddr)
    requires
        config.backend == FirewallBackend::DryRun,
    ensures
        setup_tasks(config).len() == 0,
        ban_tasks(config, ip).len() == 0,
        unban_tasks(config, ip).len() == 0,
{
}

/// A release takes back what the ban put in place: the last command of the one
/// says of the same rule or element what the last command of the other does,
/// but for the verb, and for the place that a rule of `iptables` is inserted
/// at.
pub proof fn law_release_undoes_the_ban(config: FirewallConfig, ip: IpAddr)
    requires
        config.backend != FirewallBackend::DryRun,
    ensures
        ({
            let ban = ban_commands(config, ip).last();
            let release = unban_commands(config, ip).last();
            &&& ban.program == release.program
            &&& if config.backend == FirewallBackend::Iptables {
                ban.args.remove(2).skip(1) == release.args.skip(1)
            } else {
                ban.args.skip(1) == release.args.skip(1)
            }
            &&& (ban.args[0], release.args[0]) == match config.backend {
                FirewallBackend::Ufw => ("prepend"@, "delete"@),
                FirewallBackend::Iptables => ("-I"@, "-D"@),
                FirewallBackend::IptablesIpset => ("add"@, "del"@),
                _ => ("add"@, "delete"@),
            }
        }),
{
    let ban = ban_commands(config, ip).last();
    let release = unban_commands(config, ip).last();
    if config.backend == FirewallBackend::Iptables {
        assert(ban.args.remove(2).skip(1) =~= release.args.skip(1));
    } else {
        assert(ban.args.skip(1) =~= release.args.skip(1));
    }
}

/// The command that inserts a rule is the one that checks for it, with the verb
/// of an insertion and the place of the rule behind the chain. So what is
/// checked for is what would be inserted.
pub proof fn law_insert_is_the_check_with_a_place(config: FirewallConfig, ipv6: bool, ip: IpAddr)
    ensures
        ({
            let place = text::decimal(config.rule_position as nat);
            &&& ipset_rule_insert(config, ipv6).program == ipset_rule_check(config, ipv6).program
            &&& ipset_rule_insert(config, ipv6).args == ipset_rule_check(config, ipv6).args.update(
                0,
                "-I"@,
            ).insert(2, place)
            &&& ipset_rule_check(config, ipv6).args[0] == "-C"@
            &&& ipset_rule_check(config, ipv6).program == iptables_for(config, ipv6)
            &&& ipset_rule_check(config, ipv6).args[5] == ipset_name(config, ipv6)
            &&& iptables_ban(config, ip).program == iptables_check(config, ip).program
            &&& iptables_ban(config, ip).args == iptables_check(config, ip).args.update(
                0,
                "-I"@,
            ).insert(2, place)
            &&& iptables_check(config, ip).args[0] == "-C"@
        }),
{
    let place = text::decimal(config.rule_position as nat);
    assert(ipset_rule_insert(config, ipv6).args =~= ipset_rule_check(config, ipv6).args.update(
        0,
        "-I"@,
    ).insert(2, place));
    assert(iptables_ban(config, ip).args =~= iptables_check(config, ip).args.update(
        0,
        "-I"@,
    ).insert(2, place));
}

pub open spec fn succeeded(answer: RunResult) -> bool {
    answer matches Ok(done) && done.success
}

/// A rule is inserted only directly after a check that ended without success;
/// a check that succeeded is followed by the next part of the work.
pub proof fn law_insert_follows_a_failed_check(run: FirewallRunView, answer: RunResult)
    requires
        run.failure is None,
        0 <= run.at < run.tasks.len(),
        run.tasks[run.at] is Ensure,
        !run.inserting,
    ensures
        ({
            let (later, action) = next(run, answer);
            &&& later.inserting <==> answer is Ok && !succeeded(answer)
            &&& later.inserting ==> later.at == run.at && action == (FirewallActionView::Run {
                command: run.tasks[run.at]->insert,
            })
            &&& succeeded(answer) ==> later.at == run.at + 1 && later.failure is None
            &&& answer matches Err(message) ==> action == (FirewallActionView::Finish {
                result: Err(FirewallErrorView::NotRun { message: message@ }),
            })
        }),
{
}

/// The first failure ends the work and is what it comes to: no command is
/// asked for after it, whatever is reported.
pub proof fn law_first_failure_is_the_outcome(
    run: FirewallRunView,
    answer: RunResult,
    later: RunResult,
)
    requires
        run.failure is None,
        0 <= run.at < run.tasks.len(),
        !succeeded(answer),
        answer is Err || run.inserting || run.tasks[run.at] is Require,
    ensures
        ({
            let failed = next(run, answer);
            let command = current(run.tasks[run.at], run.inserting);
            &&& failed.1 == (FirewallActionView::Finish { result: required(command, answer) })
            &&& required(command, answer) is Err
            &&& next(failed.0, later) == failed
        }),
{
}

/// A run of commands that all have to succeed.
proof fn lemma_required_run(commands: Seq<CommandView>, answers: Seq<RunResult>)
    requires
        all_asked(begin(require_each(commands)), answers),
    ensures
        ({
            let start = begin(require_each(commands));
            let n = answers.len() as int;
            let failed = n > 0 && !succeeded(answers.last());
            &&& n <= commands.len()
            &&& after(start, answers) == {
                let run = FirewallRunView {
                    tasks: require_each(commands),
                    at: if failed {
                        n - 1
                    } else {
                        n
                    },
                    inserting: false,
                    failure: if failed {
                        Some(required(commands[n - 1], answers.last())->Err_0)
                    } else {
                        None
                    },
                };
                (run, asked(run))
            }
            &&& forall|i: int| 0 <= i < n ==> (#[trigger] exchanges(start, answers)[i]).0
                == commands[i]
        }),
    decreases answers.len(),
{
    let start = begin(require_each(commands));
    if answers.len() > 0 {
        let earlier = answers.drop_last();
        let n = answers.len() as int;
        assert forall|i: int| 0 <= i < earlier.len() implies after(
            start,
            #[trigger] earlier.take(i),
        ).1 is Run by {
            assert(earlier.take(i) =~= answers.take(i));
        }
        lemma_required_run(commands, earlier);
        assert(answers.take(n - 1) =~= earlier);
        assert(after(start, answers.take(n - 1)).1 is Run);
        assert forall|i: int| 0 <= i < n implies (#[trigger] exchanges(start, answers)[i]).0
            == commands[i] by {
            if i < n - 1 {
                assert(earlier.take(i) =~= answers.take(i));
                assert(exchanges(start, earlier)[i].0 == commands[i]);
            }
        }
    }
}

/// A ban asks for the commands that are planned for it, one after the other. It
/// is cut short only by a command that could not be run or, with `iptables`, by
/// a check that finds the rule in place, and it succeeds exactly when the last
/// command did.
pub proof fn law_ban_asks_for_its_plan(config: FirewallConfig, ip: IpAddr, answers: Seq<RunResult>)
    requires
        all_asked(begin(ban_tasks(config, ip)), answers),
    ensures
        ({
            let start = begin(ban_tasks(config, ip));
            let plan = ban_commands(config, ip);
            let n = answers.len();
            let action = after(start, answers).1;
            &&& n <= plan.len()
            &&& forall|i: int| 0 <= i < n ==> (#[trigger] exchanges(start, answers)[i]).0 == plan[i]
            &&& action matches FirewallActionView::Run { command } ==> n < plan.len() && command
                == plan[n as int]
            &&& action matches FirewallActionView::Finish { result } ==> (result is Ok <==> n == 0
                || succeeded(answers.last()))
            &&& action is Finish && n < plan.len() ==> n > 0 && (answers.last() is Err
                || config.backend == FirewallBackend::Iptables && succeeded(answers.last()))
        }),
{
    let start = begin(ban_tasks(config, ip));
    if config.backend == FirewallBackend::Iptables {
        reveal_with_fuel(after, 4);
        let n = answers.len() as int;
        if n >= 1 {
            assert(answers.take(0) =~= Seq::empty());
            assert(after(start, answers.take(0)).1 is Run);
            assert(answers.take(1).drop_last() =~= Seq::empty());
        }
        if n >= 2 {
            assert(after(start, answers.take(1)).1 is Run);
            assert(answers.take(2).drop_last() =~= answers.take(1));
        }
        if n >= 3 {
            assert(after(start, answers.take(2)).1 is Run);
        }
        if n == 1 {
            assert(answers.drop_last() =~= Seq::empty());
        }
        if n == 2 {
            assert(answers.drop_last() =~= answers.take(1));
        }
        assert forall|i: int| 0 <= i < n implies (#[trigger] exchanges(start, answers)[i]).0
            == ban_commands(config, ip)[i] by {
            if i == 0 {
                assert(answers.take(i) =~= answers.take(0));
            } else {
                assert(answers.take(i) =~= answers.take(1));
            }
        }
    } else {
        lemma_required_run(ban_commands(config, ip), answers);
    }
}

/// A release asks for the commands that are planned for it, one after the other,
/// up to the first that does not succeed.
pub proof fn law_release_asks_for_its_plan(config: FirewallConfig, ip: IpAddr, answers: Seq<RunResult>)
    requires
        all_asked(begin(unban_tasks(config, ip)), answers),
    ensures
        ({
            let start = begin(unban_tasks(config, ip));
            let plan = unban_commands(config, ip);
            let n = answers.len();
            let action = after(start, answers).1;
            &&& n <= plan.len()
            &&& forall|i: int| 0 <= i < n ==> (#[trigger] exchanges(start, answers)[i]).0 == plan[i]
            &&& action matches FirewallActionView::Run { command } ==> n < plan.len() && command
                == plan[n as int]
            &&& action matches FirewallActionView::Finish { result } ==> (result is Ok <==> n == 0
                || succeeded(answers.last()))
            &&& action is Finish && n < plan.len() ==> n > 0 && !succeeded(answers.last())
        }),
{
    lemma_required_run(unban_commands(config, ip), answers);
}

/// What a ban adds to the log of the runner: the commands that are planned for
/// it, in their order and no others. It is cut short only by a command that
/// could not be run or, with `iptables`, by a check that finds the rule in
/// place, and it succeeds exactly when the last command did.
pub proof fn law_ban_runs_its_plan<R: CommandRunner>(
    runner: R,
    config: FirewallConfig,
    ip: IpAddr,
    before: Seq<(CommandView, RunResult)>,
    log: Seq<(CommandView, RunResult)>,
    r: Result<(), FirewallErrorView>,
)
    requires
        carried_out(runner, begin(ban_tasks(config, ip)), before, log, r),
    ensures
        ({
            let plan = ban_commands(config, ip);
            let n = log.len() - before.len();
            &&& 0 <= n <= plan.len()
            &&& log.take(before.len() as int) == before
            &&& forall|i: int| 0 <= i < n ==> (#[trigger] log[before.len() + i]).0 == plan[i]
            &&& r is Ok <==> n == 0 || succeeded(log.last().1)
            &&& n < plan.len() ==> n > 0 && (log.last().1 is Err || config.backend
                == FirewallBackend::Iptables && succeeded(log.last().1))
            &&& config.backend == FirewallBackend::DryRun ==> n == 0
        }),
{
    let start = begin(ban_tasks(config, ip));
    let answers = choose|answers: Seq<RunResult>| #[trigger]
        leads_to(start, answers, r) && log == before + exchanges(start, answers) && all_answered(
            runner,
            exchanges(start, answers),
        );
    law_ban_asks_for_its_plan(config, ip, answers);
    assert(log.take(before.len() as int) =~= before);
    assert forall|i: int| 0 <= i < answers.len() implies (#[trigger] log[before.len() + i]).0
        == ban_commands(config, ip)[i] by {
        assert(log[before.len() + i] == exchanges(start, answers)[i]);
    }
}

/// What a release adds to the log of the runner: the commands that are planned
/// for it, in their order and no others, up to the first that does not succeed.
pub proof fn law_release_runs_its_plan<R: CommandRunner>(
    runner: R,
    config: FirewallConfig,
    ip: IpAddr,
    before: Seq<(CommandView, RunResult)>,
    log: Seq<(CommandView, RunResult)>,
    r: Result<(), FirewallErrorView>,
)
    requires
        carried_out(runner, begin(unban_tasks(config, ip)), before, log, r),
    ensures
        ({
            let plan = unban_commands(config, ip);
            let n = log.len() - before.len();
            &&& 0 <= n <= plan.len()
            &&& log.take(before.len() as int) == before
            &&& forall|i: int| 0 <= i < n ==> (#[trigger] log[before.len() + i]).0 == plan[i]
            &&& r is Ok <==> n == 0 || succeeded(log.last().1)
            &&& n < plan.len() ==> n > 0 && !succeeded(log.last().1)
            &&& config.backend == FirewallBackend::DryRun ==> n == 0
        }),
{
    let start = begin(unban_tasks(config, ip));
    let answers = choose|answers: Seq<RunResult>| #[trigger]
        leads_to(start, answers, r) && log == before + exchanges(start, answers) && all_answered(
            runner,
            exchanges(start, answers),
        );
    law_release_asks_for_its_plan(config, ip, answers);
    assert(log.take(before.len() as int) =~= before);
    assert forall|i: int| 0 <= i < answers.len() implies (#[trigger] log[before.len() + i]).0
        == unban_commands(config, ip)[i] by {
        assert(log[before.len() + i] == exchanges(start, answers)[i]);
    }
}

/// A ban blocks its source, of either family. With `ufw` a rule that denies
/// the address comes before all others. With `iptables` the tool of the family
/// inserts a rule that drops what comes from the address, after a check for
/// the same rule. With sets the address goes into the set of its family, and
/// the setup has made that set and a rule that drops what comes from it.
pub proof fn law_ban_blocks_its_source(config: FirewallConfig, ip: IpAddr)
    ensures
        ({
            let v6 = ip is V6;
            let tool = if v6 {
                config.ip6tables_binary@
            } else {
                config.iptables_binary@
            };
            let ipset = if v6 {
                config.ipset_name_v6@
            } else {
                config.ipset_name_v4@
            };
            let nft_set = if v6 {
                config.nft_set_name_v6@
            } else {
                config.nft_set_name_v4@
            };
            let place = text::decimal(config.rule_position as nat);
            let address = ip.text();
            let chain = config.chain@;
            let table = config.nft_table@;
            match config.backend {
                FirewallBackend::Ufw => ban_commands(config, ip) == seq![
                    CommandView {
                        program: config.ufw_binary@,
                        args: seq!["prepend"@, "deny"@, "from"@, address],
                    },
                ],
                FirewallBackend::Iptables => ban_commands(config, ip) == seq![
                    CommandView {
                        program: tool,
                        args: seq!["-C"@, chain, "-s"@, address, "-j"@, "DROP"@],
                    },
                    CommandView {
                        program: tool,
                        args: seq!["-I"@, chain, place, "-s"@, address, "-j"@, "DROP"@],
                    },
                ],
                FirewallBackend::IptablesIpset => {
                    &&& ban_commands(config, ip) == seq![
                        CommandView {
                            program: config.ipset_binary@,
                            args: seq!["add"@, ipset, address, "-exist"@],
                        },
                    ]
                    &&& setup_tasks(config).contains(
                        Task::Require {
                            command: CommandView {
                                program: config.ipset_binary@,
                                args: seq![
                                    "create"@,
                                    ipset,
                                    "hash:ip"@,
                                    "family"@,
                                    if v6 {
                                        "inet6"@
                                    } else {
                                        "inet"@
                                    },
                                    "hashsize"@,
                                    text::decimal(config.ipset_hash_size as nat),
                                    "maxelem"@,
                                    text::decimal(config.ipset_max_elements as nat),
                                    "-exist"@,
                                ],
                            },
                        },
                    )
                    &&& setup_tasks(config).contains(
                        Task::Ensure {
                            check: CommandView {
                                program: tool,
                                args: seq![
                                    "-C"@,
                                    chain,
                                    "-m"@,
                                    "set"@,
                                    "--match-set"@,
                                    ipset,
                                    "src"@,
                                    "-j"@,
                                    "DROP"@,
                                ],
                            },
                            insert: CommandView {
                                program: tool,
                                args: seq![
                                    "-I"@,
                                    chain,
                                    place,
                                    "-m"@,
                                    "set"@,
                                    "--match-set"@,
                                    ipset,
                                    "src"@,
                                    "-j"@,
                                    "DROP"@,
                                ],
                            },
                        },
                    )
                },
                FirewallBackend::Nftables => {
                    &&& ban_commands(config, ip) == seq![
                        CommandView {
                            program: config.nft_binary@,
                            args: seq![
                                "add"@,
                                "element"@,
                                "inet"@,
                                table,
                                nft_set,
                                "{ "@ + address + " }"@,
                            ],
                        },
                    ]
                    &&& setup_tasks(config).contains(
                        Task::Require {
                            command: CommandView {
                                program: config.nft_binary@,
                                args: seq![
                                    "add"@,
                                    "set"@,
                                    "inet"@,
                                    table,
                                    nft_set,
                                    if v6 {
                                        "{ type ipv6_addr; }"@
                                    } else {
                                        "{ type ipv4_addr; }"@
                                    },
                                ],
                            },
                        },
                    )
                    &&& setup_tasks(config).contains(
                        Task::Require {
                            command: CommandView {
                                program: config.nft_binary@,
                                args: seq![
                                    "add"@,
                                    "rule"@,
                                    "inet"@,
                                    table,
                                    config.nft_chain@,
                                    if v6 {
                                        "ip6"@
                                    } else {
                                        "ip"@
                                    },
                                    "saddr"@,
                                    "@"@ + nft_set,
                                    "drop"@,
                                ],
                            },
                        },
                    )
                },
                FirewallBackend::DryRun => ban_commands(config, ip).len() == 0,
            }
        }),
{
    let tasks = setup_tasks(config);
    match config.backend {
        FirewallBackend::IptablesIpset => {
            if ip is V6 {
                assert(tasks.contains(tasks[1]));
                assert(tasks.contains(tasks[3]));
            } else {
                assert(tasks.contains(tasks[0]));
                assert(tasks.contains(tasks[2]));
            }
        },
        FirewallBackend::Nftables => {
            if ip is V6 {
                assert(tasks.contains(tasks[2]));
                assert(tasks.contains(tasks[6]));
            } else {
                assert(tasks.contains(tasks[1]));
                assert(tasks.contains(tasks[5]));
            }
        },
        _ => {},
    }
}

/// A release lets its source through again, of either family: what it deletes
/// is the rule or the element that the ban has put in place. An element of a
/// set of `nft` is added first, so that it is there to be deleted.
pub proof fn law_release_lets_its_source_through(config: FirewallConfig, ip: IpAddr)
    ensures
        ({
            let v6 = ip is V6;
            let tool = if v6 {
                config.ip6tables_binary@
            } else {
                config.iptables_binary@
            };
            let ipset = if v6 {
                config.ipset_name_v6@
            } else {
                config.ipset_name_v4@
            };
            let nft_set = if v6 {
                config.nft_set_name_v6@
            } else {
                config.nft_set_name_v4@
            };
            let address = ip.text();
            let element = seq![
                "element"@,
                "inet"@,
                config.nft_table@,
                nft_set,
                "{ "@ + address + " }"@,
            ];
            unban_commands(config, ip) == match config.backend {
                FirewallBackend::Ufw => seq![
                    CommandView {
                        program: config.ufw_binary@,
                        args: seq!["delete"@, "deny"@, "from"@, address],
                    },
                ],
                FirewallBackend::Iptables => seq![
                    CommandView {
                        program: tool,
                        args: seq!["-D"@, config.chain@, "-s"@, address, "-j"@, "DROP"@],
                    },
                ],
                FirewallBackend::IptablesIpset => seq![
                    CommandView {
                        program: config.ipset_binary@,
                        args: seq!["del"@, ipset, address, "-exist"@],
                    },
                ],
                FirewallBackend::Nftables => seq![
                    CommandView { program: config.nft_binary@, args: seq!["add"@] + element },
                    CommandView { program: config.nft_binary@, args: seq!["delete"@] + element },
                ],
                FirewallBackend::DryRun => Seq::empty(),
            }
        }),
{
    let element = seq![
        "element"@,
        "inet"@,
        config.nft_table@,
        nft_set(config, ip is V6),
        "{ "@ + ip.text() + " }"@,
    ];
    assert(nft_element(config, "add"@, ip).args =~= seq!["add"@] + element);
    assert(nft_element(config, "delete"@, ip).args =~= seq!["delete"@] + element);
}

/// The setup makes, for both families, what the bans refer to, and nothing
/// else. With `nft` it makes the table before the sets and the chain in it,
/// empties the chain, and puts one rule for each family into it, so that a
/// second setup leaves no rule twice. The backends without sets need no setup.
pub proof fn law_setup_is_complete(config: FirewallConfig)
    ensures
        ({
            let nft = |args: Seq<Seq<char>>| Task::Require {
                command: CommandView { program: config.nft_binary@, args },
            };
            let table = config.nft_table@;
            let chain = config.nft_chain@;
            match config.backend {
                FirewallBackend::Nftables => {
                    let tasks = setup_tasks(config);
                    &&& tasks.len() == 7
                    &&& tasks[0] == nft(seq!["add"@, "table"@, "inet"@, table])
                    &&& tasks[1] is Require && tasks[1]->command.args[1] == "set"@
                    &&& tasks[2] is Require && tasks[2]->command.args[1] == "set"@
                    &&& tasks[3] == nft(
                        seq![
                            "add"@,
                            "chain"@,
                            "inet"@,
                            table,
                            chain,
                            "{ type filter hook "@ + config.nft_hook@ + " priority "@
                                + config.nft_priority@ + "; policy accept; }"@,
                        ],
                    )
                    &&& tasks[4] == nft(seq!["flush"@, "chain"@, "inet"@, table, chain])
                    &&& tasks[5] is Require && tasks[5]->command.args[1] == "rule"@
                    &&& tasks[6] is Require && tasks[6]->command.args[1] == "rule"@
                },
                FirewallBackend::IptablesIpset => {
                    let tasks = setup_tasks(config);
                    &&& tasks.len() == 4
                    &&& tasks[0] is Require && tasks[0]->command.args[1] == config.ipset_name_v4@
                    &&& tasks[1] is Require && tasks[1]->command.args[1] == config.ipset_name_v6@
                    &&& tasks[2] is Ensure && tasks[2]->check.program == config.iptables_binary@
                    &&& tasks[3] is Ensure && tasks[3]->check.program == config.ip6tables_binary@
                },
                _ => setup_tasks(config).len() == 0,
            }
        }),
{
}

/// A command that has to succeed comes to nothing else than success where it
/// ended well. Where it was not run, the error is the reason that was given.
/// Where it ended otherwise, the error names the command, the status and what
/// the command said.
pub proof fn law_required_command(command: CommandView, result: RunResult)
    ensures
        match result {
            Err(message) => required(command, result) == Err::<(), _>(
                FirewallErrorView::NotRun { message: message@ },
            ),
            Ok(done) => if done.success {
                required(command, result) is Ok
            } else {
                required(command, result) == Err::<(), _>(
                    FirewallErrorView::CommandFailed {
                        command,
                        status_code: done.status_code,
                        stderr: done.stderr@,
                    },
                )
            },
        },
{
}

/// Work goes through its parts in their order: it starts with the first, a
/// command that succeeded is followed by the next part, and after the last the
/// work has succeeded. Without parts it has succeeded at once.
pub proof fn law_work_goes_in_order(tasks: Seq<Task>, at: int, inserting: bool, answer: RunResult)
    requires
        0 <= at < tasks.len(),
        succeeded(answer),
    ensures
        ({
            let here = FirewallRunView { tasks, at, inserting, failure: None };
            let (later, action) = next(here, answer);
            let first = |t: Task| match t {
                Task::Require { command } => command,
                Task::Ensure { check, .. } => check,
            };
            &&& begin(tasks).1 == (FirewallActionView::Run { command: first(tasks[0]) })
            &&& begin(tasks).0 == (FirewallRunView {
                tasks,
                at: 0,
                inserting: false,
                failure: None,
            })
            &&& later == (FirewallRunView { tasks, at: at + 1, inserting: false, failure: None })
            &&& action == if at + 1 < tasks.len() {
                FirewallActionView::Run { command: first(tasks[at + 1]) }
            } else {
                FirewallActionView::Finish { result: Ok(()) }
            }
        }),
        begin(Seq::empty()).1 == (FirewallActionView::Finish { result: Ok(()) }),
{
}

/// What is told of a failure: the reason why a command was not run, or the
/// command as it was given, its status and what it said.
pub proof fn law_failures_are_told(
    message: Seq<char>,
    command: CommandView,
    code: i32,
    stderr: Seq<char>,
)
    ensures
        (FirewallErrorView::NotRun { message }).message() == message,
        (FirewallErrorView::CommandFailed {
            command,
            status_code: Some(code),
            stderr,
        }).message() == "command failed: "@ + command.program + " "@ + text::join(
            command.args,
            " "@,
        ) + "; status="@ + ("Some("@ + text::signed_decimal(code as int) + ")"@) + "; stderr="@
            + stderr,
        (FirewallErrorView::CommandFailed { command, status_code: None, stderr }).message()
            == "command failed: "@ + command.program + " "@ + text::join(command.args, " "@)
            + "; status="@ + "None"@ + "; stderr="@ + stderr,
        code >= 0 ==> text::signed_decimal(code as int) == text::decimal(code as nat),
        code < 0 ==> text::signed_decimal(code as int) == seq!['-'] + text::decimal((-code) as nat),
{
}

} // verus!

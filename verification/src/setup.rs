//! Decisions behind installing and removing the DNS integration: a
//! NetworkManager dummy interface `devbind0` that sends `*.test` queries to
//! the embedded resolver. Probing the system and running `nmcli` happen
//! outside the library; these functions say what to do with what was found.
use vstd::prelude::*;
use crate::dns::DNS_LISTEN_ADDR;
use crate::text::{concat, strings_view, to_owned};

verus! {

/// What to do next when installing or removing the DNS integration.
#[derive(Debug, Clone, PartialEq, Eq)]
pub enum DnsSetupStep {
    /// Nothing to change; `message` says why.
    Done { message: String },
    /// Run `program args` with elevated privileges; when that fails, report `failure`.
    RunElevated { program: String, args: Vec<String>, failure: String },
    /// Stop with this error.
    Fail { message: String },
}

/// The error shown when NetworkManager or systemd-resolved is missing.
pub open spec fn requirements_message(dns_listen_addr: Seq<char>) -> Seq<char> {
    "DevBind auto-DNS integration requires both NetworkManager and systemd-resolved.\nPlease configure your DNS manually to forward .test queries to "@
        + dns_listen_addr
}

/// The `nmcli` arguments that create the `devbind0` dummy interface.
pub open spec fn install_args() -> Seq<&'static str> {
    seq![
        "connection", "add", "type", "dummy", "ifname", "devbind0", "con-name", "devbind0",
        "ipv4.method", "manual", "ipv4.addresses", "10.254.254.254/32", "ipv4.ignore-auto-dns",
        "yes", "ipv4.dns", "127.0.2.1", "ipv4.dns-search", "~test",
    ]
}

/// The `nmcli` arguments that delete the `devbind0` interface.
pub open spec fn uninstall_args() -> Seq<&'static str> {
    seq!["connection", "delete", "devbind0"]
}

/// The texts of a list of literals.
pub open spec fn texts(parts: Seq<&'static str>) -> Seq<Seq<char>> {
    parts.map_values(|s: &str| s@)
}

pub(crate) fn owned_all(parts: &[&'static str]) -> (v: Vec<String>)
    ensures
        strings_view(v@) == texts(parts@),
{
    let mut v: Vec<String> = Vec::new();
    let mut i: usize = 0;
    while i < parts.len()
        invariant
            i <= parts@.len(),
            v@.len() == i,
            strings_view(v@) == texts(parts@).take(i as int),
        decreases parts@.len() - i,
    {
        let ghost before = v@;
        v.push(to_owned(parts[i]));
        assert(strings_view(v@) =~= strings_view(before).push(parts@[i as int]@));
        i = i + 1;
        assert(strings_view(v@) =~= texts(parts@).take(i as int));
    }
    assert(texts(parts@).take(parts@.len() as int) =~= texts(parts@));
    v
}

/// Decides how to install the DNS integration, given whether NetworkManager
/// and systemd-resolved are active and whether `devbind0` already exists.
pub fn install_dns(dns_listen_addr: &str, networkmanager_available: bool, resolved_available: bool, installed: bool) -> (step: DnsSetupStep)
    ensures
        !(networkmanager_available && resolved_available) ==> (step matches DnsSetupStep::Fail { message }
            && message@ == requirements_message(dns_listen_addr@)),
        networkmanager_available && resolved_available && installed ==> (step matches DnsSetupStep::Done { message }
            && message@ == "DNS integration is already installed."@),
        networkmanager_available && resolved_available && !installed ==> (step matches DnsSetupStep::RunElevated {
            program,
            args,
            failure,
        } && program@ == "nmcli"@ && strings_view(args@) == texts(install_args())
            && failure@ == "Failed to create devbind0 network interface. Try running with sudo."@),
{
    if !networkmanager_available || !resolved_available {
        return DnsSetupStep::Fail {
            message: concat(
                "DevBind auto-DNS integration requires both NetworkManager and systemd-resolved.\nPlease configure your DNS manually to forward .test queries to ",
                dns_listen_addr,
            ),
        };
    }
    if installed {
        return DnsSetupStep::Done { message: to_owned("DNS integration is already installed.") };
    }
    let parts: &[&'static str] = &[
        "connection", "add", "type", "dummy", "ifname", "devbind0", "con-name", "devbind0",
        "ipv4.method", "manual", "ipv4.addresses", "10.254.254.254/32", "ipv4.ignore-auto-dns",
        "yes", "ipv4.dns", "127.0.2.1", "ipv4.dns-search", "~test",
    ];
    assert(parts@ =~= install_args());
    DnsSetupStep::RunElevated {
        program: to_owned("nmcli"),
        args: owned_all(parts),
        failure: to_owned("Failed to create devbind0 network interface. Try running with sudo."),
    }
}

/// The nameserver that the `devbind0` interface is created with (the
/// argument after `ipv4.dns`) is the host part of [`DNS_LISTEN_ADDR`], the
/// address the embedded resolver listens on: the two differ only by its
/// `:53` port suffix.
pub proof fn law_install_uses_resolver_address()
    ensures
        texts(install_args()).contains("ipv4.dns"@),
        forall|i: int|
            0 <= i < texts(install_args()).len() && #[trigger] texts(install_args())[i] == "ipv4.dns"@ ==> {
                &&& i + 1 < texts(install_args()).len()
                &&& texts(install_args())[i + 1] + ":53"@ == DNS_LISTEN_ADDR@
            },
{
    let a = texts(install_args());
    reveal_strlit("127.0.2.1:53");
    reveal_strlit("127.0.2.1");
    reveal_strlit(":53");
    reveal_strlit("ipv4.dns");
    reveal_strlit("ipv4.dns-search");
    reveal_strlit("connection");
    reveal_strlit("add");
    reveal_strlit("type");
    reveal_strlit("dummy");
    reveal_strlit("ifname");
    reveal_strlit("devbind0");
    reveal_strlit("con-name");
    reveal_strlit("ipv4.method");
    reveal_strlit("manual");
    reveal_strlit("ipv4.addresses");
    reveal_strlit("10.254.254.254/32");
    reveal_strlit("ipv4.ignore-auto-dns");
    reveal_strlit("yes");
    reveal_strlit("~test");
    assert(a.len() == 18 && a[14] == "ipv4.dns"@);
    assert("ipv4.dns"@.len() == 8 && "ipv4.dns"@[0] == 'i');
    assert("connection"@.len() == 10 && "add"@.len() == 3 && "type"@.len() == 4 && "dummy"@.len() == 5);
    assert("ifname"@.len() == 6 && "devbind0"@[0] == 'd' && "con-name"@[0] == 'c');
    assert("ipv4.method"@.len() == 11 && "manual"@.len() == 6 && "ipv4.addresses"@.len() == 14);
    assert("10.254.254.254/32"@.len() == 17 && "ipv4.ignore-auto-dns"@.len() == 20 && "yes"@.len() == 3);
    assert("127.0.2.1"@.len() == 9 && "ipv4.dns-search"@.len() == 15 && "~test"@.len() == 5);
    assert forall|i: int| 0 <= i < a.len() && #[trigger] a[i] == "ipv4.dns"@ implies i == 14 by {
        assert(a[i] == install_args()[i]@);
    }
    assert("127.0.2.1"@ + ":53"@ =~= "127.0.2.1:53"@);
}

/// Decides how to remove the DNS integration, given whether `devbind0` exists.
pub fn uninstall_dns(installed: bool) -> (step: DnsSetupStep)
    ensures
        !installed ==> (step matches DnsSetupStep::Done { message } && message@ == "DNS integration is not installed."@),
        installed ==> (step matches DnsSetupStep::RunElevated { program, args, failure } && program@ == "nmcli"@
            && strings_view(args@) == texts(uninstall_args())
            && failure@ == "Failed to remove devbind0 network interface. Try running with sudo."@),
{
    if !installed {
        return DnsSetupStep::Done { message: to_owned("DNS integration is not installed.") };
    }
    let parts: &[&'static str] = &["connection", "delete", "devbind0"];
    assert(parts@ =~= uninstall_args());
    DnsSetupStep::RunElevated {
        program: to_owned("nmcli"),
        args: owned_all(parts),
        failure: to_owned("Failed to remove devbind0 network interface. Try running with sudo."),
    }
}

/// The privilege-escalation launchers to try, in order: `pkexec` first in a
/// graphical session (it can prompt there), then `sudo`. The command counts
/// as run when one of them succeeds.
pub fn elevation_launchers(graphical_session: bool) -> (v: Vec<String>)
    ensures
        graphical_session ==> strings_view(v@) == seq!["pkexec"@, "sudo"@],
        !graphical_session ==> strings_view(v@) == seq!["sudo"@],
{
    let mut v: Vec<String> = Vec::new();
    if graphical_session {
        v.push(to_owned("pkexec"));
    }
    v.push(to_owned("sudo"));
    if graphical_session {
        assert(strings_view(v@) =~= seq!["pkexec"@, "sudo"@]);
    } else {
        assert(strings_view(v@) =~= seq!["sudo"@]);
    }
    v
}

} // verus!

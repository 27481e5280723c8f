//! The systemd user service that keeps the proxy running: its unit file and
//! the `systemctl --user` commands that install and remove it. Writing the
//! unit and running `systemctl` happen outside the library.
use vstd::prelude::*;
use crate::setup::{owned_all, texts};
use crate::text::{concat, join, join_path, join_strings, path_join, push_str, strings_view, to_owned};

verus! {

/// The unit file for a service that runs `<bin> start`.
pub open spec fn unit_text(bin: Seq<char>) -> Seq<char> {
    "[Unit]\nDescription=DevBind Local Dev SSL Reverse Proxy\nAfter=network.target\n\n[Service]\nExecStart="@
        + bin + " start\nRestart=on-failure\nRestartSec=5\n\n[Install]\nWantedBy=default.target\n"@
}

/// `<home>/.config/systemd/user`.
pub open spec fn unit_dir_of(home: Seq<char>) -> Seq<char> {
    path_join(home, ".config/systemd/user"@)
}

/// `<home>/.config/systemd/user/devbind.service`.
pub open spec fn unit_path_of(home: Seq<char>) -> Seq<char> {
    path_join(unit_dir_of(home), "devbind.service"@)
}

/// The `systemctl` argument lists run to install the service, in order.
pub open spec fn install_commands() -> Seq<Seq<Seq<char>>> {
    seq![
        texts(seq!["--user", "daemon-reload"]),
        texts(seq!["--user", "enable", "devbind"]),
        texts(seq!["--user", "start", "devbind"]),
    ]
}

/// The `systemctl` argument lists run before the unit file is removed.
pub open spec fn uninstall_commands() -> Seq<Seq<Seq<char>>> {
    seq![texts(seq!["--user", "stop", "devbind"]), texts(seq!["--user", "disable", "devbind"])]
}

/// The model of a list of argument lists.
pub open spec fn commands_view(v: Seq<Vec<String>>) -> Seq<Seq<Seq<char>>> {
    v.map_values(|a: Vec<String>| strings_view(a@))
}

/// What installing the service takes: where the unit goes, what it says, and
/// the `systemctl` commands to run after writing it.
pub struct ServiceInstall {
    pub unit_dir: String,
    pub unit_path: String,
    pub unit: String,
    pub commands: Vec<Vec<String>>,
}

/// The unit file for a service that runs `<bin> start`.
pub fn service_unit(bin: &str) -> (u: String)
    ensures
        u@ == unit_text(bin@),
{
    let mut u = concat(
        "[Unit]\nDescription=DevBind Local Dev SSL Reverse Proxy\nAfter=network.target\n\n[Service]\nExecStart=",
        bin,
    );
    push_str(&mut u, " start\nRestart=on-failure\nRestartSec=5\n\n[Install]\nWantedBy=default.target\n");
    u
}

/// What installing the service for the binary `bin` takes, or the error when
/// there is no home directory.
pub fn install_service(home: Option<&str>, bin: &str) -> (r: Result<ServiceInstall, String>)
    ensures
        home is None ==> (r matches Err(e) && e@ == "Cannot find home directory"@),
        home matches Some(h) ==> (r matches Ok(s) && s.unit_dir@ == unit_dir_of(h@) && s.unit_path@
            == unit_path_of(h@) && s.unit@ == unit_text(bin@) && commands_view(s.commands@)
            == install_commands()),
{
    match home {
        None => Err(to_owned("Cannot find home directory")),
        Some(h) => {
            let unit_dir = join_path(h, ".config/systemd/user");
            let unit_path = join_path(unit_dir.as_str(), "devbind.service");
            let mut commands: Vec<Vec<String>> = Vec::new();
            let pa: &[&'static str] = &["--user", "daemon-reload"];
            let pb: &[&'static str] = &["--user", "enable", "devbind"];
            let pc: &[&'static str] = &["--user", "start", "devbind"];
            assert(pa@ =~= seq!["--user", "daemon-reload"]);
            assert(pb@ =~= seq!["--user", "enable", "devbind"]);
            assert(pc@ =~= seq!["--user", "start", "devbind"]);
            let a = owned_all(pa);
            let b = owned_all(pb);
            let c = owned_all(pc);
            commands.push(a);
            commands.push(b);
            commands.push(c);
            assert(commands_view(commands@) =~= install_commands());
            Ok(ServiceInstall { unit_dir, unit_path, unit: service_unit(bin), commands })
        },
    }
}

/// The `systemctl` commands that stop and disable the service; afterwards the
/// unit file is removed and systemd reloaded, whatever these returned.
pub fn uninstall_service_commands() -> (v: Vec<Vec<String>>)
    ensures
        commands_view(v@) == uninstall_commands(),
{
    let mut v: Vec<Vec<String>> = Vec::new();
    let pa: &[&'static str] = &["--user", "stop", "devbind"];
    let pb: &[&'static str] = &["--user", "disable", "devbind"];
    assert(pa@ =~= seq!["--user", "stop", "devbind"]);
    assert(pb@ =~= seq!["--user", "disable", "devbind"]);
    v.push(owned_all(pa));
    v.push(owned_all(pb));
    assert(commands_view(v@) =~= uninstall_commands());
    v
}

/// The unit file's path under `home`.
pub fn service_unit_path(home: &str) -> (p: String)
    ensures
        p@ == unit_path_of(home@),
{
    let dir = join_path(home, ".config/systemd/user");
    join_path(dir.as_str(), "devbind.service")
}

/// The error reported when `systemctl <args>` fails during installation.
pub fn systemctl_failure(args: &Vec<String>) -> (e: String)
    ensures
        e@ == "systemctl "@ + join(strings_view(args@), ' ') + " failed"@,
{
    let joined = join_strings(args, ' ');
    let mut e = concat("systemctl ", joined.as_str());
    push_str(&mut e, " failed");
    e
}

} // verus!

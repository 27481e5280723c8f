//! Installing the DevBind root CA into the system and browser trust stores,
//! and removing it again. The library builds the shell scripts and picks the
//! privilege-escalation program; writing the script to a temporary file and
//! running it happen outside.
use vstd::prelude::*;
use crate::text::{concat, join_path, path_join, push_str, to_owned};

verus! {

/// Install script, up to the first use of the certificate path.
pub const INSTALL_PART_1: &'static str = "#!/bin/bash\nset -e\necho \"Installing DevBind CA to system certificates...\"\nif command -v update-ca-trust &> /dev/null; then\n    # Fedora/Arch/RHEL\n    mkdir -p /etc/ca-certificates/trust-source/anchors/\n    cp \"";

/// Install script, between the first and second use of the certificate path.
pub const INSTALL_PART_2: &'static str = "\" /etc/ca-certificates/trust-source/anchors/devbind.crt\n    update-ca-trust\nelif command -v update-ca-certificates &> /dev/null; then\n    # Debian/Ubuntu\n    mkdir -p /usr/local/share/ca-certificates/\n    cp \"";

/// Install script, between the second and third use of the certificate path.
pub const INSTALL_PART_3: &'static str = "\" /usr/local/share/ca-certificates/devbind.crt\n    update-ca-certificates\nelse\n    echo \"Warning: Could not find system CA update tool. Browsers may still work if certutil succeeds.\"\nfi\n\necho \"Installing DevBind CA into loaded NSS databases (Chrome/Firefox/Brave/Zen)...\"\nif command -v certutil &> /dev/null; then\n    # Safely find cert9.db and cert8.db across all known browser profiles (Chrome, Brave, Firefox, Librewolf, etc.)\n    # Chromium-based browsers use ~/.pki/nssdb. Flatpaks use ~/.var/app. Snaps use ~/snap.\n    find /home/*/.mozilla /home/*/.pki/nssdb /home/*/.zen /home/*/.waterfox /home/*/.librewolf /home/*/.var/app /home/*/snap -maxdepth 6 -type f \\( -name \"cert9.db\" -o -name \"cert8.db\" \\) 2>/dev/null | while read certDB; do\n        certdir=$(dirname \"${certDB}\")\n        echo \"Injecting into ${certdir}...\"\n        certutil -A -n \"DevBind Root CA\" -t \"TCu,Cu,Tu\" -i \"";

/// Install script, after the last use of the certificate path.
pub const INSTALL_PART_4: &'static str = "\" -d sql:\"${certdir}\" || true\n    done\nelse\n    echo \"Warning: 'certutil' is not installed. Browser specific DBs skipped. Please install 'libnss3-tools' for automatic browser trusting.\"\nfi\necho \"Trust installation complete!\"\n";

/// The script that removes the root CA from every trust store it was added to.
pub const UNINSTALL_SCRIPT: &'static str = "#!/bin/bash\nset -e\necho \"Removing DevBind CA from system certificates...\"\nif command -v update-ca-trust &> /dev/null; then\n    # Fedora/Arch/RHEL\n    rm -f /etc/ca-certificates/trust-source/anchors/devbind.crt\n    update-ca-trust\nelif command -v update-ca-certificates &> /dev/null; then\n    # Debian/Ubuntu\n    rm -f /usr/local/share/ca-certificates/devbind.crt\n    update-ca-certificates\nelse\n    echo \"Warning: Could not find system CA update tool.\"\nfi\n\necho \"Removing DevBind CA from NSS databases (Chrome/Firefox/Brave/Zen)...\"\nif command -v certutil &> /dev/null; then\n    find /home/*/.mozilla /home/*/.pki/nssdb /home/*/.zen /home/*/.waterfox /home/*/.librewolf /home/*/.var/app /home/*/snap -maxdepth 6 -type f \\( -name \"cert9.db\" -o -name \"cert8.db\" \\) 2>/dev/null | while read certDB; do\n        certdir=$(dirname \"${certDB}\")\n        echo \"Removing from ${certdir}...\"\n        certutil -D -n \"DevBind Root CA\" -d sql:\"${certdir}\" || true\n    done\nelse\n    echo \"Warning: 'certutil' is not installed. Browser specific DBs skipped.\"\nfi\necho \"DevBind CA removal complete!\"\n";

/// `<config_dir>/certs/devbind-rootCA.crt`.
pub open spec fn root_ca_cert_path_of(config_dir: Seq<char>) -> Seq<char> {
    path_join(path_join(config_dir, "certs"@), "devbind-rootCA.crt"@)
}

/// The install script for the certificate at `cert_path`: it copies the
/// certificate into the system anchors and every NSS database it finds.
pub open spec fn install_script_text(cert_path: Seq<char>) -> Seq<char> {
    INSTALL_PART_1@ + cert_path + INSTALL_PART_2@ + cert_path + INSTALL_PART_3@ + cert_path
        + INSTALL_PART_4@
}

/// The error given when the root CA has not been generated yet.
pub open spec fn missing_root_ca_message(cert_path: Seq<char>) -> Seq<char> {
    "Root CA certificate not found at "@ + path_debug(cert_path) + ". Please start the proxy first to generate it."@
}

/// How a path prints with `{:?}` (`Path`'s `Debug`): between double quotes,
/// with quotes, backslashes and control or non-printable characters escaped.
pub uninterp spec fn path_debug(p: Seq<char>) -> Seq<char>;

/// `Path`'s `Debug` output for `p`, through `format!("{:?}")`; named by
/// [`path_debug`].
#[verifier::external_body]
fn path_debug_text(p: &str) -> (r: String)
    ensures
        r@ == path_debug(p@),
{
    format!("{:?}", std::path::Path::new(p))
}

/// Where the root CA certificate lives under the configuration directory.
pub fn root_ca_cert_path(config_dir: &str) -> (p: String)
    ensures
        p@ == root_ca_cert_path_of(config_dir@),
{
    let certs = join_path(config_dir, "certs");
    join_path(certs.as_str(), "devbind-rootCA.crt")
}

/// The install script for the certificate at `cert_path`.
pub fn install_script(cert_path: &str) -> (s: String)
    ensures
        s@ == install_script_text(cert_path@),
{
    let mut s = concat(INSTALL_PART_1, cert_path);
    push_str(&mut s, INSTALL_PART_2);
    push_str(&mut s, cert_path);
    push_str(&mut s, INSTALL_PART_3);
    push_str(&mut s, cert_path);
    push_str(&mut s, INSTALL_PART_4);
    s
}

/// The script to run with elevated privileges to trust the root CA kept
/// under `config_dir`, or the error when the certificate is not there
/// (`cert_present` says whether the file at [`root_ca_cert_path`] exists).
pub fn install_root_ca(config_dir: &str, cert_present: bool) -> (r: Result<String, String>)
    ensures
        cert_present ==> (r matches Ok(s) && s@ == install_script_text(root_ca_cert_path_of(config_dir@))),
        !cert_present ==> (r matches Err(e) && e@ == missing_root_ca_message(root_ca_cert_path_of(config_dir@))),
{
    let cert_path = root_ca_cert_path(config_dir);
    if cert_present {
        Ok(install_script(cert_path.as_str()))
    } else {
        let quoted = path_debug_text(cert_path.as_str());
        let mut e = concat("Root CA certificate not found at ", quoted.as_str());
        push_str(&mut e, ". Please start the proxy first to generate it.");
        Err(e)
    }
}

/// The script to run with elevated privileges to remove the root CA.
pub fn uninstall_root_ca() -> (s: String)
    ensures
        s@ == UNINSTALL_SCRIPT@,
{
    to_owned(UNINSTALL_SCRIPT)
}

/// The program that runs the script: `pkexec` in a graphical session
/// (`display_set`) where it is installed, `sudo` otherwise.
pub fn escalation_program(display_set: bool, pkexec_found: bool) -> (p: String)
    ensures
        p@ == (if display_set && pkexec_found { "pkexec"@ } else { "sudo"@ }),
{
    if display_set && pkexec_found {
        to_owned("pkexec")
    } else {
        to_owned("sudo")
    }
}

/// The error given when the elevated script did not succeed; `status` is
/// how its exit status prints.
pub fn escalation_failure(status: &str) -> (e: String)
    ensures
        e@ == "Privilege escalation failed or script error. Status: "@ + status@,
{
    concat("Privilege escalation failed or script error. Status: ", status)
}

} // verus!

use devbind::trust::{
    escalation_failure, escalation_program, install_root_ca, install_script, root_ca_cert_path,
    uninstall_root_ca,
};

#[test]
fn trust_cert_path_under_config_dir() {
    assert_eq!(
        root_ca_cert_path("/home/dev/.config/devbind"),
        "/home/dev/.config/devbind/certs/devbind-rootCA.crt"
    );
    assert_eq!(root_ca_cert_path("cfg/"), "cfg/certs/devbind-rootCA.crt");
}

#[test]
fn trust_install_script_uses_cert_path_everywhere() {
    let script = install_script("/x/ca.crt");
    assert!(script.starts_with("#!/bin/bash\nset -e\n"));
    assert_eq!(script.matches("\"/x/ca.crt\"").count(), 3);
    assert!(script.contains("cp \"/x/ca.crt\" /etc/ca-certificates/trust-source/anchors/devbind.crt"));
    assert!(script.contains("cp \"/x/ca.crt\" /usr/local/share/ca-certificates/devbind.crt"));
    assert!(script.contains("certutil -A -n \"DevBind Root CA\" -t \"TCu,Cu,Tu\" -i \"/x/ca.crt\" -d sql:\"${certdir}\" || true"));
    assert!(script.contains("certdir=$(dirname \"${certDB}\")"));
    assert!(script.ends_with("echo \"Trust installation complete!\"\n"));
}

#[test]
fn trust_install_refused_without_certificate() {
    let err = install_root_ca("/cfg/devbind", false).unwrap_err();
    assert_eq!(
        err,
        "Root CA certificate not found at \"/cfg/devbind/certs/devbind-rootCA.crt\". Please start the proxy first to generate it."
    );
    let err = install_root_ca("/c\"d", false).unwrap_err();
    assert_eq!(
        err,
        "Root CA certificate not found at \"/c\\\"d/certs/devbind-rootCA.crt\". Please start the proxy first to generate it."
    );
    let script = install_root_ca("/cfg/devbind", true).unwrap();
    assert_eq!(script, install_script("/cfg/devbind/certs/devbind-rootCA.crt"));
}

#[test]
fn trust_uninstall_script_removes_everywhere() {
    let script = uninstall_root_ca();
    assert!(script.starts_with("#!/bin/bash\nset -e\necho \"Removing DevBind CA from system certificates...\"\n"));
    assert!(script.contains("rm -f /etc/ca-certificates/trust-source/anchors/devbind.crt"));
    assert!(script.contains("certutil -D -n \"DevBind Root CA\" -d sql:\"${certdir}\" || true"));
    assert!(script.ends_with("echo \"DevBind CA removal complete!\"\n"));
}

#[test]
fn trust_escalation_choice() {
    assert_eq!(escalation_program(true, true), "pkexec");
    assert_eq!(escalation_program(true, false), "sudo");
    assert_eq!(escalation_program(false, true), "sudo");
    assert_eq!(escalation_program(false, false), "sudo");
    assert_eq!(
        escalation_failure("exit status: 1"),
        "Privilege escalation failed or script error. Status: exit status: 1"
    );
}

use devbind::service::{install_service, service_unit, service_unit_path, systemctl_failure, uninstall_service_commands};

#[test]
fn service_unit_text() {
    assert_eq!(
        service_unit("/usr/bin/devbind"),
        "[Unit]\nDescription=DevBind Local Dev SSL Reverse Proxy\nAfter=network.target\n\n[Service]\nExecStart=/usr/bin/devbind start\nRestart=on-failure\nRestartSec=5\n\n[Install]\nWantedBy=default.target\n"
    );
}

#[test]
fn service_install_plan() {
    let plan = install_service(Some("/home/dev"), "devbind").unwrap();
    assert_eq!(plan.unit_dir, "/home/dev/.config/systemd/user");
    assert_eq!(plan.unit_path, "/home/dev/.config/systemd/user/devbind.service");
    assert_eq!(plan.unit, service_unit("devbind"));
    assert_eq!(
        plan.commands,
        vec![
            vec!["--user".to_string(), "daemon-reload".to_string()],
            vec!["--user".to_string(), "enable".to_string(), "devbind".to_string()],
            vec!["--user".to_string(), "start".to_string(), "devbind".to_string()],
        ]
    );
    assert_eq!(install_service(None, "devbind").err().unwrap(), "Cannot find home directory");
}

#[test]
fn service_uninstall_and_failures() {
    assert_eq!(
        uninstall_service_commands(),
        vec![
            vec!["--user".to_string(), "stop".to_string(), "devbind".to_string()],
            vec!["--user".to_string(), "disable".to_string(), "devbind".to_string()],
        ]
    );
    assert_eq!(service_unit_path("/h"), "/h/.config/systemd/user/devbind.service");
    let args = vec!["--user".to_string(), "enable".to_string(), "devbind".to_string()];
    assert_eq!(systemctl_failure(&args), "systemctl --user enable devbind failed");
}

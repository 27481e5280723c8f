use devbind::runner::{resolve_command, validate_command, EphemeralSession, RunError};

/// The outcome of a port allocation, as the CLI hands it to a new session.
fn free_port() -> Result<u16, String> {
    Ok(41234)
}

// ── validate_command ─────────────────────────────────────────────────────

#[test]
fn test_validate_command_ok_with_non_empty_slice() {
    let cmd = vec!["node".to_string(), "server.js".to_string()];
    assert!(
        validate_command(&cmd).is_ok(),
        "non-empty command must be valid"
    );
}

#[test]
fn test_validate_command_errors_on_empty_slice() {
    let empty: Vec<String> = vec![];
    let result = validate_command(&empty);
    assert!(result.is_err(), "empty command list must return an error");
    let msg = result.unwrap_err().to_string();
    assert!(
        msg.contains("No command specified"),
        "error message must mention missing command, got: {}",
        msg
    );
}

#[test]
fn test_validate_command_ok_with_single_element() {
    // Edge-case: just the binary name, no arguments
    let cmd = vec!["npm".to_string()];
    assert!(validate_command(&cmd).is_ok());
}

// ── EphemeralSession domain normalisation ────────────────────────────────

#[test]
fn test_domain_normalisation_appends_test_suffix() {
    let session = EphemeralSession::new("myapp", free_port()).expect("should create session");
    assert_eq!(session.domain, "myapp.test");
}

#[test]
fn test_domain_already_has_test_suffix_not_doubled() {
    let session = EphemeralSession::new("myapp.test", free_port()).expect("should create session");
    assert_eq!(
        session.domain, "myapp.test",
        ".test suffix must not be appended twice"
    );
}

#[test]
fn test_domain_with_hyphen_normalises_correctly() {
    let session = EphemeralSession::new("my-cool-app", free_port()).unwrap();
    assert_eq!(session.domain, "my-cool-app.test");
}

#[test]
fn test_domain_with_numbers_normalises_correctly() {
    let session = EphemeralSession::new("app123", free_port()).unwrap();
    assert_eq!(session.domain, "app123.test");
}

// ── EphemeralSession port ────────────────────────────────────────────────

#[test]
fn test_ephemeral_session_allocates_nonzero_port() {
    let session = EphemeralSession::new("porttest", free_port()).unwrap();
    assert!(session.port > 0, "allocated port must be > 0");
}

// ── EphemeralSession env_vars ────────────────────────────────────────────

#[test]
fn test_env_vars_contains_required_keys() {
    let session = EphemeralSession::new("envtest", free_port()).expect("should create session");
    let vars: std::collections::HashMap<_, _> = session.env_vars().into_iter().collect();
    assert!(vars.contains_key("PORT"), "PORT must be set");
    assert!(vars.contains_key("HOST"), "HOST must be set");
    assert!(
        vars.contains_key("DEVBIND_DOMAIN"),
        "DEVBIND_DOMAIN must be set"
    );
    assert_eq!(vars["HOST"], "0.0.0.0");
    assert!(vars["DEVBIND_DOMAIN"].starts_with("https://"));
    let port: u16 = vars["PORT"].parse().expect("PORT should be numeric");
    assert!(port > 0);
}

#[test]
fn test_env_vars_port_matches_session_port() {
    let session = EphemeralSession::new("portmatch", free_port()).unwrap();
    let expected_port = session.port;
    let vars: std::collections::HashMap<_, _> = session.env_vars().into_iter().collect();
    let env_port: u16 = vars["PORT"].parse().expect("PORT must be numeric");
    assert_eq!(
        env_port, expected_port,
        "PORT env var must equal the session's allocated port"
    );
}

#[test]
fn test_env_vars_devbind_domain_contains_domain() {
    let session = EphemeralSession::new("domaincheck", free_port()).unwrap();
    let domain = session.domain.clone();
    let vars: std::collections::HashMap<_, _> = session.env_vars().into_iter().collect();
    assert!(
        vars["DEVBIND_DOMAIN"].contains(&domain),
        "DEVBIND_DOMAIN '{}' must contain the session domain '{}'",
        vars["DEVBIND_DOMAIN"],
        domain
    );
    assert_eq!(vars["DEVBIND_DOMAIN"], format!("https://{}", domain));
}

#[test]
fn test_env_vars_has_exactly_three_entries() {
    let session = EphemeralSession::new("counttest", free_port()).unwrap();
    let vars = session.env_vars();
    assert_eq!(
        vars.len(),
        3,
        "env_vars must return exactly PORT, HOST, DEVBIND_DOMAIN"
    );
}

// ── further cases ────────────────────────────────────────────────────────

#[test]
fn session_reports_port_allocation_failure() {
    let r = EphemeralSession::new("x", Err("no ports".to_string()));
    assert_eq!(
        r,
        Err(RunError::PortAllocation {
            message: "no ports".to_string()
        })
    );
}

#[test]
fn env_vars_exact_values() {
    let session = EphemeralSession::new("exact", Ok(65535)).unwrap();
    let vars = session.env_vars();
    assert_eq!(
        vars,
        vec![
            ("PORT".to_string(), "65535".to_string()),
            ("HOST".to_string(), "0.0.0.0".to_string()),
            ("DEVBIND_DOMAIN".to_string(), "https://exact.test".to_string()),
        ]
    );
    let zero = EphemeralSession::new("zero", Ok(0)).unwrap();
    assert_eq!(zero.env_vars()[0].1, "0");
}

#[test]
fn placeholders_are_substituted() {
    let session = EphemeralSession::new("php", Ok(8123)).unwrap();
    assert_eq!(session.expand_placeholders("0.0.0.0:$PORT"), "0.0.0.0:8123");
    assert_eq!(session.expand_placeholders("${PORT}-${HOST}"), "8123-0.0.0.0");
    assert_eq!(
        session.expand_placeholders("--url=$DEVBIND_DOMAIN/x"),
        "--url=https://php.test/x"
    );
    assert_eq!(session.expand_placeholders("$PORT$PORT"), "81238123");
    assert_eq!(session.expand_placeholders("no placeholders"), "no placeholders");
    let cmd = vec!["php".to_string(), "-S".to_string(), "0.0.0.0:$PORT".to_string()];
    assert_eq!(session.child_args(&cmd), vec!["-S".to_string(), "0.0.0.0:8123".to_string()]);
}

#[test]
fn resolve_command_prefers_given_then_detected() {
    let given = vec!["npm".to_string(), "start".to_string()];
    assert_eq!(resolve_command("a", &given, None), Ok(given.clone()));
    let detected = vec!["pnpm".to_string()];
    assert_eq!(resolve_command("a", &[], Some(detected.clone())), Ok(detected));
    let err = resolve_command("blog", &[], None).unwrap_err();
    assert_eq!(err, RunError::NotDetected { name: "blog".to_string() });
    assert!(err.to_string().contains("devbind run blog <command...>"));
}

use devbind::config::{DevBindConfig, RouteConfig};

// ── Default values ───────────────────────────────────────────────────────

#[test]
fn test_default_proxy_ports() {
    let cfg = DevBindConfig::default();
    assert_eq!(cfg.proxy.port_http, 80);
    assert_eq!(cfg.proxy.port_https, 443);
}

#[test]
fn test_default_routes_empty() {
    let cfg = DevBindConfig::default();
    assert!(cfg.routes.is_empty(), "default config has no routes");
}

// ── add_route ────────────────────────────────────────────────────────────

#[test]
fn test_add_route_appends_new_domain() {
    let mut cfg = DevBindConfig::default();
    cfg.add_route("myapp.test".to_string(), 3000);
    assert_eq!(cfg.routes.len(), 1);
    assert_eq!(cfg.routes[0].domain, "myapp.test");
    assert_eq!(cfg.routes[0].port, 3000);
}

#[test]
fn test_add_route_updates_port_for_existing_domain() {
    let mut cfg = DevBindConfig::default();
    cfg.add_route("myapp.test".to_string(), 3000);
    // Adding same domain again with different port should update in-place
    cfg.add_route("myapp.test".to_string(), 4000);

    assert_eq!(
        cfg.routes.len(),
        1,
        "duplicate domain must not create a second entry"
    );
    assert_eq!(
        cfg.routes[0].port, 4000,
        "port must be updated to new value"
    );
}

#[test]
fn test_add_route_multiple_distinct_domains() {
    let mut cfg = DevBindConfig::default();
    cfg.add_route("alpha.test".to_string(), 3000);
    cfg.add_route("beta.test".to_string(), 4000);
    cfg.add_route("gamma.test".to_string(), 5000);
    assert_eq!(cfg.routes.len(), 3);
}

// ── remove_route ─────────────────────────────────────────────────────────

#[test]
fn test_remove_route_deletes_existing_domain() {
    let mut cfg = DevBindConfig::default();
    cfg.add_route("myapp.test".to_string(), 3000);
    cfg.add_route("api.test".to_string(), 8080);

    cfg.remove_route("myapp.test");

    assert_eq!(cfg.routes.len(), 1);
    assert_eq!(cfg.routes[0].domain, "api.test");
}

#[test]
fn test_remove_route_is_noop_for_missing_domain() {
    let mut cfg = DevBindConfig::default();
    cfg.add_route("myapp.test".to_string(), 3000);

    // Removing a domain that was never added should be a no-op
    cfg.remove_route("nonexistent.test");

    assert_eq!(cfg.routes.len(), 1, "unrelated routes must be unaffected");
}

#[test]
fn test_remove_route_on_empty_config_is_safe() {
    let mut cfg = DevBindConfig::default();
    // Must not panic
    cfg.remove_route("something.test");
    assert!(cfg.routes.is_empty());
}

#[test]
fn test_remove_route_clears_last_entry() {
    let mut cfg = DevBindConfig::default();
    cfg.add_route("solo.test".to_string(), 9000);
    cfg.remove_route("solo.test");
    assert!(cfg.routes.is_empty());
}

// ── further cases ────────────────────────────────────────────────────────

#[test]
fn add_route_keeps_ephemeral_flag_of_existing_route() {
    let mut cfg = DevBindConfig::default();
    cfg.routes.push(RouteConfig {
        domain: "kept.test".to_string(),
        port: 1000,
        ephemeral: true,
    });
    cfg.add_route("kept.test".to_string(), 2000);
    assert_eq!(cfg.routes.len(), 1);
    assert_eq!(cfg.routes[0].port, 2000);
    assert!(cfg.routes[0].ephemeral);
}

#[test]
fn add_route_new_route_is_not_ephemeral() {
    let mut cfg = DevBindConfig::default();
    cfg.add_route("fresh.test".to_string(), 1234);
    assert!(!cfg.routes[0].ephemeral);
}

#[test]
fn add_route_updates_first_of_duplicate_domains() {
    let mut cfg = DevBindConfig::default();
    for port in [1u16, 2u16] {
        cfg.routes.push(RouteConfig {
            domain: "dup.test".to_string(),
            port,
            ephemeral: false,
        });
    }
    cfg.add_route("dup.test".to_string(), 9);
    assert_eq!(cfg.routes[0].port, 9);
    assert_eq!(cfg.routes[1].port, 2);
}

#[test]
fn remove_route_drops_all_duplicates_and_keeps_order() {
    let mut cfg = DevBindConfig::default();
    for (d, p) in [("a.test", 1u16), ("x.test", 2), ("b.test", 3), ("x.test", 4), ("c.test", 5)] {
        cfg.routes.push(RouteConfig {
            domain: d.to_string(),
            port: p,
            ephemeral: false,
        });
    }
    cfg.remove_route("x.test");
    let domains: Vec<&str> = cfg.routes.iter().map(|r| r.domain.as_str()).collect();
    assert_eq!(domains, vec!["a.test", "b.test", "c.test"]);
}

#[test]
fn remove_after_add_restores_routes() {
    let mut cfg = DevBindConfig::default();
    cfg.add_route("one.test".to_string(), 1);
    let before = cfg.clone();
    cfg.add_route("two.test".to_string(), 2);
    cfg.remove_route("two.test");
    assert_eq!(cfg, before);
}

#[test]
fn add_route_twice_is_same_as_once() {
    let mut once = DevBindConfig::default();
    once.add_route("a.test".to_string(), 5);
    let mut twice = once.clone();
    twice.add_route("a.test".to_string(), 5);
    assert_eq!(once, twice);
}

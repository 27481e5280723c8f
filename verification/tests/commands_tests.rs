use devbind::commands::{add_mapping, added_message, pad_right_to, route_table};
use devbind::config::{DevBindConfig, RouteConfig};

#[test]
fn test_handle_add_creates_new_config() {
    let mut config = DevBindConfig::default();
    let domain = add_mapping(&mut config, "newapp", 3000);
    assert_eq!(domain, "newapp.test");
    assert_eq!(config.routes.len(), 1);
    assert_eq!(config.routes[0].port, 3000);
}

#[test]
fn test_handle_add_appends_test_suffix() {
    let mut config = DevBindConfig::default();
    add_mapping(&mut config, "my-api", 8080);
    assert_eq!(config.routes[0].domain, "my-api.test");
    assert_eq!(config.routes[0].port, 8080);
}

#[test]
fn test_handle_add_does_not_double_suffix() {
    let mut config = DevBindConfig::default();
    add_mapping(&mut config, "already-has.test", 4000);
    assert_eq!(config.routes[0].domain, "already-has.test");
    assert_eq!(config.routes[0].port, 4000);
}

#[test]
fn test_handle_add_updates_existing_route() {
    let mut config = DevBindConfig::default();
    add_mapping(&mut config, "frontend", 3000);
    add_mapping(&mut config, "frontend", 5173);
    assert_eq!(config.routes.len(), 1);
    assert_eq!(config.routes[0].domain, "frontend.test");
    assert_eq!(config.routes[0].port, 5173);
}

#[test]
fn commands_added_message() {
    assert_eq!(added_message("app.test", 3000), "  ✅  app.test → localhost:3000");
}

#[test]
fn commands_pad_right() {
    assert_eq!(pad_right_to("ab", 5), "ab   ");
    assert_eq!(pad_right_to("abcdef", 3), "abcdef");
    assert_eq!(pad_right_to("é", 3), "é  ");
}

#[test]
fn test_handle_list_empty_config_does_not_error() {
    let config = DevBindConfig::default();
    let lines = route_table(&config);
    assert_eq!(
        lines,
        vec![
            "DevBind Configuration (Proxy Port: 443):".to_string(),
            "-".repeat(40),
            format!("{:<25} | {:<8}", "Domain", "Port"),
            "-".repeat(40),
            "  (no routes configured)".to_string(),
        ]
    );
}

#[test]
fn test_handle_list_with_routes_does_not_error() {
    let mut config = DevBindConfig::default();
    config.routes.push(RouteConfig { domain: "app.test".to_string(), port: 3000, ephemeral: false });
    let lines = route_table(&config);
    assert_eq!(lines.len(), 5);
    assert_eq!(lines[4], format!("{:<25} | {:<8}", "app.test", 3000));
}

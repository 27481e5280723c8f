use devbind::config::{DevBindConfig, RouteConfig};
use devbind::proxy::{build_route_map, route_request, ProxyDecision, ProxyServer, RouteMap};

#[test]
fn test_build_route_map_lowercases_domains() {
    let mut config = DevBindConfig::default();
    config.routes.push(RouteConfig {
        domain: "MyApp.Test".to_string(),
        port: 3000,
        ephemeral: false,
    });
    config.routes.push(RouteConfig {
        domain: "Another-APP.TEST".to_string(),
        port: 8080,
        ephemeral: true,
    });

    let map = build_route_map(&config);

    assert_eq!(map.len(), 2);
    assert_eq!(map.get("myapp.test"), Some(&3000));
    assert_eq!(map.get("another-app.test"), Some(&8080));
    // the mixed-case spellings are not keys
    assert!(!map.contains_key("MyApp.Test"));
}

#[test]
fn test_build_route_map_empty() {
    let config = DevBindConfig::default();
    let map = build_route_map(&config);
    assert!(map.is_empty());
}

#[test]
fn route_map_first_spelling_wins_for_same_domain() {
    let mut config = DevBindConfig::default();
    config.add_route("Same.test".to_string(), 1);
    config.add_route("same.TEST".to_string(), 2);
    let map = build_route_map(&config);
    assert_eq!(map.len(), 1);
    assert_eq!(map.get("same.test"), Some(&1));
}

#[test]
fn route_map_insert_replaces() {
    let mut map = RouteMap::new();
    map.insert("a.test".to_string(), 1);
    map.insert("a.test".to_string(), 7);
    assert_eq!(map.len(), 1);
    assert_eq!(map.get("a.test"), Some(&7));
    assert_eq!(map.get("b.test"), None);
}

#[test]
fn route_request_forwards_with_path_and_query() {
    let mut config = DevBindConfig::default();
    config.add_route("myapp.test".to_string(), 3000);
    let map = build_route_map(&config);
    let d = route_request(&map, Some("MyApp.test:443"), Some("/api/x?y=1"));
    assert_eq!(
        d,
        ProxyDecision::Forward {
            port: 3000,
            uri: "http://127.0.0.1:3000/api/x?y=1".to_string()
        }
    );
}

#[test]
fn route_request_defaults_path_to_root() {
    let mut config = DevBindConfig::default();
    config.add_route("myapp.test".to_string(), 5173);
    let map = build_route_map(&config);
    let d = route_request(&map, Some("myapp.test"), None);
    assert_eq!(
        d,
        ProxyDecision::Forward {
            port: 5173,
            uri: "http://127.0.0.1:5173/".to_string()
        }
    );
}

#[test]
fn route_request_unknown_or_missing_host_is_not_found() {
    let mut config = DevBindConfig::default();
    config.add_route("myapp.test".to_string(), 3000);
    let map = build_route_map(&config);
    assert_eq!(route_request(&map, Some("other.test"), Some("/")), ProxyDecision::NotFound);
    assert_eq!(route_request(&map, None, Some("/")), ProxyDecision::NotFound);
}

#[test]
fn proxy_server_serves_its_configuration() {
    let mut config = DevBindConfig::default();
    config.add_route("p.test".to_string(), 4321);
    let server = ProxyServer::new(config.clone());
    assert_eq!(server.configuration(), &config);
    assert_eq!(server.route_map().get("p.test"), Some(&4321));
}

#[test]
fn proxy_route_map_first_route_wins() {
    let mut config = DevBindConfig::default();
    config.routes.push(RouteConfig { domain: "App.test".to_string(), port: 3000, ephemeral: false });
    config.routes.push(RouteConfig { domain: "app.TEST".to_string(), port: 4000, ephemeral: false });
    let map = build_route_map(&config);
    assert_eq!(map.len(), 1);
    assert_eq!(map.get("app.test"), Some(&3000));
}

#[test]
fn proxy_forwards_to_first_route() {
    let mut config = DevBindConfig::default();
    config.routes.push(RouteConfig { domain: "a.test".to_string(), port: 1, ephemeral: false });
    config.routes.push(RouteConfig { domain: "a.test".to_string(), port: 2, ephemeral: false });
    let map = build_route_map(&config);
    assert_eq!(
        route_request(&map, Some("a.test:443"), Some("/x?y=1")),
        ProxyDecision::Forward { port: 1, uri: "http://127.0.0.1:1/x?y=1".to_string() }
    );
}

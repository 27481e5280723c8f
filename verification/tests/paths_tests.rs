use devbind::paths::{get_config_dir, get_config_path, local_devbind_path, which_devbind};

#[test]
fn test_get_config_path_has_correct_suffix() {
    let path = get_config_path(None, Some("/home/dev/.config"));
    assert!(path.ends_with("devbind/config.toml"));
}

#[test]
fn test_get_config_dir_is_parent_of_path() {
    let path = get_config_path(None, Some("/home/dev/.config"));
    let dir = get_config_dir(None, Some("/home/dev/.config"));
    assert_eq!(
        dir.as_str(),
        std::path::Path::new(&path).parent().unwrap().to_str().unwrap()
    );
    assert!(dir.ends_with("devbind"));
}

#[test]
fn test_which_devbind_returns_a_string() {
    let bin = which_devbind(Some("/home/dev"), false);
    assert!(!bin.is_empty());
    assert!(bin.contains("devbind"));
}

#[test]
fn paths_sudo_user_wins() {
    assert_eq!(
        get_config_path(Some("alice"), Some("/root/.config")),
        "/home/alice/.config/devbind/config.toml"
    );
    assert_eq!(get_config_dir(Some("alice"), None), "/home/alice/.config/devbind");
}

#[test]
fn paths_fallbacks() {
    assert_eq!(get_config_dir(None, Some("/xdg/")), "/xdg/devbind");
    assert_eq!(get_config_path(None, None), "~/.config/devbind/config.toml");
}

#[test]
fn paths_local_binary() {
    assert_eq!(local_devbind_path("/home/dev"), "/home/dev/.local/bin/devbind");
    assert_eq!(which_devbind(Some("/home/dev"), true), "/home/dev/.local/bin/devbind");
    assert_eq!(which_devbind(None, true), "devbind");
}

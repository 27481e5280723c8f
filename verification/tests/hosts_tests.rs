use devbind::hosts::{updated_hosts_content, HostsManager, MARKER_END, MARKER_START};

/// An in-memory hosts file, rewritten the way the CLI rewrites the real one.
struct HostsFile {
    manager: HostsManager,
    contents: Option<String>,
}

impl HostsFile {
    fn new() -> Self {
        Self::with_contents("")
    }

    fn with_contents(s: &str) -> Self {
        HostsFile {
            manager: HostsManager::new("/etc/hosts"),
            contents: Some(s.to_string()),
        }
    }

    fn missing() -> Self {
        HostsFile {
            manager: HostsManager::new("/tmp/new_hosts"),
            contents: None,
        }
    }

    fn update(&mut self, domains: &[String]) {
        let current = self.contents.clone().unwrap_or_default();
        self.contents = Some(self.manager.updated_content(&current, domains));
    }

    fn read(&self) -> String {
        self.contents.clone().unwrap()
    }

    fn is_present(&self) -> bool {
        self.contents.is_some()
    }
}

#[test]
fn hosts_test_update_routes_basic_insert_and_removal() {
    let mut file = HostsFile::new();
    file.update(&["example.test".to_string()]);
    let content = file.read();
    assert!(content.contains(MARKER_START));
    assert!(content.contains("127.0.0.1 example.test"));

    file.update(&["example.test".to_string(), "foo.test".to_string()]);
    let content2 = file.read();
    assert!(content2.contains("127.0.0.1 example.test"));
    assert!(content2.contains("127.0.0.1 foo.test"));
    assert_eq!(content2.matches(MARKER_START).count(), 1);

    file.update(&[]);
    let content3 = file.read();
    assert!(!content3.contains(MARKER_START));
    assert!(!content3.contains("127.0.0.1 example.test"));
}

#[test]
fn hosts_test_update_routes_single_domain() {
    let mut file = HostsFile::new();
    file.update(&["myapp.test".to_string()]);
    let content = file.read();
    assert!(content.contains("127.0.0.1 myapp.test"));
    assert!(content.contains(MARKER_START));
    assert!(content.contains(MARKER_END));
}

#[test]
fn hosts_test_update_routes_empty_list_produces_no_markers() {
    let mut file = HostsFile::new();
    file.update(&["alpha.test".to_string()]);
    file.update(&[]);
    let content = file.read();
    assert!(
        !content.contains(MARKER_START),
        "no block when domain list is empty"
    );
    assert!(!content.contains(MARKER_END));
}

#[test]
fn hosts_test_update_routes_empty_list_on_empty_file_is_noop() {
    let mut file = HostsFile::new();
    file.update(&[]);
    let content = file.read();
    // Only a trailing newline should be present — no markers
    assert!(!content.contains(MARKER_START));
}

#[test]
fn hosts_test_pre_existing_non_devbind_content_is_preserved() {
    let seed = "127.0.0.1 localhost\n127.0.1.1 mymachine\n";
    let mut file = HostsFile::with_contents(seed);
    file.update(&["devapp.test".to_string()]);
    let result = file.read();
    assert!(
        result.contains("127.0.0.1 localhost"),
        "existing localhost entry must be retained"
    );
    assert!(
        result.contains("127.0.1.1 mymachine"),
        "existing mymachine entry must be retained"
    );
    assert!(result.contains("127.0.0.1 devapp.test"));
}

#[test]
fn hosts_test_previous_devbind_block_is_replaced_not_duplicated() {
    let mut file = HostsFile::new();
    file.update(&["first.test".to_string()]);
    file.update(&["second.test".to_string()]);
    let content = file.read();
    assert_eq!(
        content.matches(MARKER_START).count(),
        1,
        "only one DevBind block must exist after two consecutive writes"
    );
    assert!(
        !content.contains("127.0.0.1 first.test"),
        "old domain must be removed after update"
    );
    assert!(content.contains("127.0.0.1 second.test"));
}

#[test]
fn hosts_test_duplicate_domains_in_input_are_deduplicated() {
    let mut file = HostsFile::new();
    let domains = vec![
        "dup.test".to_string(),
        "dup.test".to_string(),
        "other.test".to_string(),
    ];
    file.update(&domains);
    let content = file.read();
    assert_eq!(
        content.matches("127.0.0.1 dup.test").count(),
        1,
        "duplicate domains must produce only one hosts entry"
    );
}

#[test]
fn hosts_test_output_ends_with_newline() {
    let mut file = HostsFile::new();
    file.update(&["newline.test".to_string()]);
    let bytes = file.read().into_bytes();
    assert_eq!(
        bytes.last(),
        Some(&b'\n'),
        "hosts file must always end with a newline"
    );
}

#[test]
fn hosts_test_nonexistent_hosts_file_is_created() {
    let mut file = HostsFile::missing();
    file.update(&["fresh.test".to_string()]);
    assert!(
        file.is_present(),
        "hosts file must be created when it does not exist"
    );
    let content = file.read();
    assert!(content.contains("127.0.0.1 fresh.test"));
}

#[test]
fn hosts_tests_test_update_routes_basic_insert_and_removal() {
    let mut file = HostsFile::new();
    file.update(&["example.test".to_string()]);
    let content = file.read();
    assert!(content.contains(MARKER_START));
    assert!(content.contains("127.0.0.1 example.test"));

    file.update(&["example.test".to_string(), "foo.test".to_string()]);
    let content2 = file.read();
    assert!(content2.contains("127.0.0.1 example.test"));
    assert!(content2.contains("127.0.0.1 foo.test"));
    assert_eq!(content2.matches(MARKER_START).count(), 1);

    file.update(&[]);
    let content3 = file.read();
    assert!(!content3.contains(MARKER_START));
    assert!(!content3.contains("127.0.0.1 example.test"));
}

#[test]
fn hosts_tests_test_update_routes_single_domain() {
    let mut file = HostsFile::new();
    file.update(&["myapp.test".to_string()]);
    let content = file.read();
    assert!(content.contains("127.0.0.1 myapp.test"));
    assert!(content.contains(MARKER_START));
    assert!(content.contains(MARKER_END));
}

#[test]
fn hosts_tests_test_update_routes_empty_list_produces_no_markers() {
    let mut file = HostsFile::new();
    file.update(&["alpha.test".to_string()]);
    file.update(&[]);
    let content = file.read();
    assert!(
        !content.contains(MARKER_START),
        "no block when domain list is empty"
    );
    assert!(!content.contains(MARKER_END));
}

#[test]
fn hosts_tests_test_update_routes_empty_list_on_empty_file_is_noop() {
    let mut file = HostsFile::new();
    file.update(&[]);
    let content = file.read();
    // Only a trailing newline should be present — no markers
    assert!(!content.contains(MARKER_START));
}

#[test]
fn hosts_tests_test_pre_existing_non_devbind_content_is_preserved() {
    let seed = "127.0.0.1 localhost\n127.0.1.1 mymachine\n";
    let mut file = HostsFile::with_contents(seed);
    file.update(&["devapp.test".to_string()]);
    let result = file.read();
    assert!(
        result.contains("127.0.0.1 localhost"),
        "existing localhost entry must be retained"
    );
    assert!(
        result.contains("127.0.1.1 mymachine"),
        "existing mymachine entry must be retained"
    );
    assert!(result.contains("127.0.0.1 devapp.test"));
}

#[test]
fn hosts_tests_test_previous_devbind_block_is_replaced_not_duplicated() {
    let mut file = HostsFile::new();
    file.update(&["first.test".to_string()]);
    file.update(&["second.test".to_string()]);
    let content = file.read();
    assert_eq!(
        content.matches(MARKER_START).count(),
        1,
        "only one DevBind block must exist after two consecutive writes"
    );
    assert!(
        !content.contains("127.0.0.1 first.test"),
        "old domain must be removed after update"
    );
    assert!(content.contains("127.0.0.1 second.test"));
}

#[test]
fn hosts_tests_test_duplicate_domains_in_input_are_deduplicated() {
    let mut file = HostsFile::new();
    let domains = vec![
        "dup.test".to_string(),
        "dup.test".to_string(),
        "other.test".to_string(),
    ];
    file.update(&domains);
    let content = file.read();
    assert_eq!(
        content.matches("127.0.0.1 dup.test").count(),
        1,
        "duplicate domains must produce only one hosts entry"
    );
}

#[test]
fn hosts_tests_test_output_ends_with_newline() {
    let mut file = HostsFile::new();
    file.update(&["newline.test".to_string()]);
    let bytes = file.read().into_bytes();
    assert_eq!(
        bytes.last(),
        Some(&b'\n'),
        "hosts file must always end with a newline"
    );
}

#[test]
fn hosts_tests_test_nonexistent_hosts_file_is_created() {
    let mut file = HostsFile::missing();
    file.update(&["fresh.test".to_string()]);
    assert!(
        file.is_present(),
        "hosts file must be created when it does not exist"
    );
    let content = file.read();
    assert!(content.contains("127.0.0.1 fresh.test"));
}

// ── further cases ────────────────────────────────────────────────────────

#[test]
fn hosts_exact_output_sorted_and_deduplicated() {
    let out = updated_hosts_content(
        "127.0.0.1 localhost\n",
        &["b.test".to_string(), "a.test".to_string(), "b.test".to_string()],
    );
    assert_eq!(
        out,
        "127.0.0.1 localhost\n# --- DevBind Start ---\n127.0.0.1 a.test\n127.0.0.1 b.test\n# --- DevBind End ---\n"
    );
}

#[test]
fn hosts_block_in_the_middle_is_moved_to_the_end() {
    let current = "a\n  # --- DevBind Start ---  \n127.0.0.1 old.test\n# --- DevBind End ---\r\nb\r\n";
    let out = updated_hosts_content(current, &["new.test".to_string()]);
    assert_eq!(
        out,
        "a\nb\n# --- DevBind Start ---\n127.0.0.1 new.test\n# --- DevBind End ---\n"
    );
}

#[test]
fn hosts_empty_input_gives_single_newline() {
    assert_eq!(updated_hosts_content("", &[]), "\n");
    assert_eq!(updated_hosts_content("x", &[]), "x\n");
}

#[test]
fn hosts_rewrite_is_idempotent() {
    let domains = vec!["z.test".to_string(), "m.test".to_string()];
    let once = updated_hosts_content("127.0.0.1 localhost\n\n", &domains);
    let twice = updated_hosts_content(&once, &domains);
    assert_eq!(once, twice);
}

#[test]
fn hosts_manager_keeps_its_path() {
    assert_eq!(HostsManager::new("/etc/hosts").hosts_file(), "/etc/hosts");
}

#[test]
fn hosts_unterminated_block_drops_the_rest() {
    let out = updated_hosts_content("keep\n# --- DevBind Start ---\nlost\n", &[]);
    assert_eq!(out, "keep\n");
}

#[test]
fn hosts_rewrite_without_domains_is_idempotent() {
    let no_domains: Vec<String> = vec![];
    let once = updated_hosts_content("127.0.0.1 localhost\n\n# --- DevBind Start ---\n127.0.0.1 a.test\n# --- DevBind End ---\n", &no_domains);
    assert_eq!(once, "127.0.0.1 localhost\n");
    assert_eq!(updated_hosts_content(&once, &no_domains), once);
}

#[test]
fn hosts_trailing_empty_lines_shrink_one_per_rewrite() {
    let no_domains: Vec<String> = vec![];
    let once = updated_hosts_content("a\n\n\n", &no_domains);
    assert_eq!(once, "a\n\n");
    let twice = updated_hosts_content(&once, &no_domains);
    assert_eq!(twice, "a\n");
}

#[test]
fn hosts_block_lists_sorted_distinct_domains() {
    let domains = vec!["b.test".to_string(), "a.test".to_string(), "b.test".to_string()];
    let out = updated_hosts_content("", &domains);
    assert_eq!(
        out,
        format!("{}\n127.0.0.1 a.test\n127.0.0.1 b.test\n{}\n", MARKER_START, MARKER_END)
    );
}

#[test]
fn hosts_second_update_replaces_first() {
    let base = "127.0.0.1 localhost\n";
    let first = updated_hosts_content(base, &["first.test".to_string()]);
    let second = updated_hosts_content(&first, &["second.test".to_string()]);
    assert_eq!(second, updated_hosts_content(base, &["second.test".to_string()]));
    assert!(!second.contains("127.0.0.1 first.test"));
}

#[test]
fn hosts_empty_update_restores_text() {
    let base = "127.0.0.1 localhost\n\n127.0.1.1 box\n";
    let with_block = updated_hosts_content(base, &["a.test".to_string(), "b.test".to_string()]);
    let no_domains: Vec<String> = vec![];
    assert_eq!(updated_hosts_content(&with_block, &no_domains), base);
}

#[test]
fn hosts_second_update_replaces_even_with_a_newline_in_a_domain() {
    let base = "127.0.0.1 localhost\n";
    let first = updated_hosts_content(base, &["x\ny".to_string()]);
    let second = updated_hosts_content(&first, &["second.test".to_string()]);
    assert_eq!(second, updated_hosts_content(base, &["second.test".to_string()]));
    let no_domains: Vec<String> = vec![];
    assert_eq!(updated_hosts_content(&first, &no_domains), base);
}

#[test]
fn hosts_end_marker_inside_a_domain_leaks_lines() {
    let base = "127.0.0.1 localhost\n";
    let first = updated_hosts_content(base, &[format!("x\n{}\nleak", MARKER_END)]);
    let no_domains: Vec<String> = vec![];
    assert_ne!(updated_hosts_content(&first, &no_domains), base);
}

#[test]
fn hosts_empty_first_update_keeps_a_trailing_line() {
    let no_domains: Vec<String> = vec![];
    let d2 = vec!["b.test".to_string()];
    let base = "a\n";
    let once = updated_hosts_content(base, &no_domains);
    assert_eq!(updated_hosts_content(&once, &d2), updated_hosts_content(base, &d2));
}

use devbind::detect::{detect_command, marker_files, ProjectFiles};

/// A project holding the given files (with contents where they matter).
fn project(files: &[(&str, &str)]) -> ProjectFiles {
    let mut p = ProjectFiles {
        files: Vec::new(),
        package_json: String::new(),
        pyproject: String::new(),
    };
    for (name, contents) in files {
        if marker_files().iter().any(|m| m == name) {
            p.files.push(name.to_string());
        }
        if *name == "package.json" {
            p.package_json = contents.to_string();
        }
        if *name == "pyproject.toml" {
            p.pyproject = contents.to_string();
        }
    }
    p
}

// Helper: join args into a string for readable assertions
fn joined(cmd: Option<Vec<String>>) -> Option<String> {
    cmd.map(|v| v.join(" "))
}

#[test]
fn empty_dir_returns_none() {
    assert!(detect_command(&project(&[])).is_none());
}

#[test]
fn detects_nextjs_via_config() {
    let p = project(&[("next.config.ts", ""), ("pnpm-lock.yaml", "")]);
    let cmd = joined(detect_command(&p)).unwrap();
    assert!(cmd.contains("pnpm"), "expected pnpm, got: {cmd}");
    assert!(cmd.contains("dev"), "expected dev script, got: {cmd}");
    assert!(
        cmd.contains("--hostname"),
        "expected --hostname, got: {cmd}"
    );
    assert!(cmd.contains("$PORT"), "expected $PORT, got: {cmd}");
}

#[test]
fn detects_nestjs_via_nest_cli_json() {
    let p = project(&[("nest-cli.json", ""), ("pnpm-lock.yaml", "")]);
    let cmd = joined(detect_command(&p)).unwrap();
    assert!(cmd.contains("start:dev"), "expected start:dev, got: {cmd}");
}

#[test]
fn detects_nuxt_via_package_json() {
    let p = project(&[
        ("package.json", r#"{"dependencies":{"nuxt":"^3.0.0"}}"#),
        ("pnpm-lock.yaml", ""),
    ]);
    let cmd = joined(detect_command(&p)).unwrap();
    assert!(cmd.contains("dev"), "expected dev, got: {cmd}");
    assert!(cmd.contains("--host"), "expected --host, got: {cmd}");
}

#[test]
fn detects_vite_via_config() {
    let p = project(&[
        ("vite.config.ts", ""),
        ("package.json", r#"{"scripts":{"dev":"vite"}}"#),
    ]);
    let cmd = joined(detect_command(&p)).unwrap();
    assert!(cmd.contains("dev"), "expected dev, got: {cmd}");
    assert!(cmd.contains("--host"), "expected --host, got: {cmd}");
}

#[test]
fn detects_svelte_via_config() {
    let p = project(&[("svelte.config.js", ""), ("pnpm-lock.yaml", "")]);
    let cmd = joined(detect_command(&p)).unwrap();
    assert!(cmd.contains("dev"), "got: {cmd}");
    assert!(cmd.contains("--host"), "got: {cmd}");
}

#[test]
fn detects_angular_via_angular_json() {
    let p = project(&[("angular.json", "")]);
    let cmd = joined(detect_command(&p)).unwrap();
    assert!(cmd.contains("start"), "expected start script, got: {cmd}");
    assert!(cmd.contains("--port"), "got: {cmd}");
    assert!(cmd.contains("0.0.0.0"), "got: {cmd}");
}

#[test]
fn detects_astro_via_config() {
    let p = project(&[("astro.config.mjs", ""), ("pnpm-lock.yaml", "")]);
    let cmd = joined(detect_command(&p)).unwrap();
    assert!(cmd.contains("dev"), "got: {cmd}");
    assert!(cmd.contains("--host"), "got: {cmd}");
}

#[test]
fn detects_django_via_manage_py() {
    let p = project(&[("manage.py", "")]);
    let cmd = joined(detect_command(&p)).unwrap();
    assert!(cmd.contains("manage.py"), "got: {cmd}");
    assert!(cmd.contains("runserver"), "got: {cmd}");
    assert!(cmd.contains("$PORT"), "got: {cmd}");
}

#[test]
fn detects_flask_via_pyproject() {
    let p = project(&[
        ("pyproject.toml", "[project]\ndependencies = [\"flask>=3.0\"]"),
        ("main.py", ""),
    ]);
    let cmd = joined(detect_command(&p)).unwrap();
    assert!(cmd.contains("flask"), "got: {cmd}");
    assert!(cmd.contains("--app main"), "got: {cmd}");
    assert!(cmd.contains("$PORT"), "got: {cmd}");
}

#[test]
fn detects_fastapi_via_pyproject() {
    let p = project(&[
        ("pyproject.toml", "[project]\ndependencies = [\"fastapi\"]"),
        ("main.py", ""),
    ]);
    let cmd = joined(detect_command(&p)).unwrap();
    assert!(cmd.contains("uvicorn"), "got: {cmd}");
    assert!(cmd.contains("main:app"), "got: {cmd}");
    assert!(cmd.contains("$PORT"), "got: {cmd}");
}

#[test]
fn detects_laravel_via_artisan() {
    let p = project(&[("artisan", "")]);
    let cmd = joined(detect_command(&p)).unwrap();
    assert!(cmd.contains("artisan"), "got: {cmd}");
    assert!(cmd.contains("serve"), "got: {cmd}");
}

#[test]
fn detects_rails_via_bin_rails() {
    let p = project(&[("bin/rails", "")]);
    let cmd = joined(detect_command(&p)).unwrap();
    assert!(cmd.contains("rails server"), "got: {cmd}");
    assert!(cmd.contains("$PORT"), "got: {cmd}");
}

#[test]
fn generic_package_json_with_dev_script() {
    let p = project(&[("package.json", r#"{"scripts":{"dev":"node server.js"}}"#)]);
    let cmd = joined(detect_command(&p)).unwrap();
    assert!(cmd.contains("dev"), "got: {cmd}");
}

#[test]
fn flask_detects_app_module_when_no_main_py() {
    let p = project(&[("pyproject.toml", "[project]\ndependencies = [\"flask\"]")]);
    // no main.py — should fall back to "app"
    let cmd = joined(detect_command(&p)).unwrap();
    assert!(cmd.contains("--app app"), "got: {cmd}");
}

#[test]
fn uses_venv_interpreter_when_present() {
    let p = project(&[
        ("pyproject.toml", "[project]\ndependencies = [\"flask\"]"),
        (".venv/bin/python", ""),
    ]);
    let cmd = joined(detect_command(&p)).unwrap();
    assert!(cmd.contains(".venv/bin/python"), "got: {cmd}");
}

#[test]
fn npm_used_when_no_pnpm_lockfile() {
    let p = project(&[("next.config.js", "")]);
    // No pnpm-lock.yaml → should use npm
    let cmd = joined(detect_command(&p)).unwrap();
    assert!(cmd.starts_with("npm"), "expected npm, got: {cmd}");
}

// ── further cases ────────────────────────────────────────────────────────

#[test]
fn nextjs_exact_command() {
    let p = project(&[("next.config.mjs", ""), ("pnpm-workspace.yaml", "")]);
    assert_eq!(
        joined(detect_command(&p)).unwrap(),
        "pnpm run dev --port $PORT --hostname 0.0.0.0"
    );
}

#[test]
fn nuxt_mention_is_case_insensitive() {
    let p = project(&[("package.json", r#"{"dependencies":{"NUXT":"^3"}}"#)]);
    assert_eq!(
        joined(detect_command(&p)).unwrap(),
        "npm run dev --port $PORT --host 0.0.0.0"
    );
}

#[test]
fn remix_and_ember_and_laravel_exact() {
    let remix = project(&[("package.json", r#"{"dependencies":{"@remix-run/node":"2"}}"#)]);
    assert_eq!(joined(detect_command(&remix)).unwrap(), "npm run dev --port $PORT --host");
    let ember = project(&[("ember-cli-build.js", "")]);
    assert_eq!(joined(detect_command(&ember)).unwrap(), "pnpm dlx http-server -p $PORT");
    let laravel = project(&[("artisan", "")]);
    assert_eq!(
        joined(detect_command(&laravel)).unwrap(),
        "php artisan serve --host=0.0.0.0 --port=$PORT"
    );
}

#[test]
fn earlier_rule_wins() {
    // Next.js outranks Django
    let p = project(&[("next.config.js", ""), ("manage.py", "")]);
    assert!(joined(detect_command(&p)).unwrap().starts_with("npm run dev"));
    // A package.json without markers does not stop Python detection
    let q = project(&[("package.json", "{}"), ("pyproject.toml", "uvicorn")]);
    assert_eq!(
        joined(detect_command(&q)).unwrap(),
        "python3 -m uvicorn main:app --host 0.0.0.0 --port $PORT"
    );
}

#[test]
fn angular_uses_pnpm_when_locked() {
    let p = project(&[("angular.json", ""), ("pnpm-lock.yaml", "")]);
    assert_eq!(
        joined(detect_command(&p)).unwrap(),
        "pnpm run start -- --port $PORT --host 0.0.0.0"
    );
}

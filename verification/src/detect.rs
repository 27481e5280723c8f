//! Framework / dev-server auto-detection for `devbind run`.
//!
//! [`detect_command`] looks at what a project directory holds and returns
//! the inferred dev-server command (program and arguments), or `None` when the
//! directory cannot be identified as a known project type. Detection follows a
//! priority-ordered rule list; the first match wins. Returned `$PORT` tokens
//! are literal: the caller substitutes the real port before spawning.
use vstd::prelude::*;
use crate::text::{contains_seq, lowercased, str_contains, str_eq, strings_view, to_lowercase, to_owned};

verus! {

/// What detection reads from a project directory.
#[derive(Debug, Clone, PartialEq, Eq)]
pub struct ProjectFiles {
    /// The relative paths, among [`marker_files`], that name regular files.
    pub files: Vec<String>,
    /// The contents of `package.json` (empty when absent or unreadable).
    pub package_json: String,
    /// The contents of `pyproject.toml` (empty when absent or unreadable).
    pub pyproject: String,
}

/// The relative paths whose presence detection depends on.
pub open spec fn spec_marker_files() -> Seq<Seq<char>> {
    seq![
        "next.config.js"@, "next.config.ts"@, "next.config.mjs"@, "next.config.cjs"@,
        "nest-cli.json"@, "astro.config.js"@, "astro.config.ts"@, "astro.config.mjs"@,
        "angular.json"@, "ember-cli-build.js"@, "vite.config.js"@, "vite.config.ts"@,
        "vite.config.mjs"@, "vite.config.cjs"@, "svelte.config.js"@, "svelte.config.ts"@,
        "manage.py"@, "artisan"@, "bin/rails"@, "pnpm-lock.yaml"@, "pnpm-workspace.yaml"@,
        ".venv/bin/python"@, "main.py"@,
    ]
}

/// Strings from literals.
fn strings(parts: &[&str]) -> (v: Vec<String>)
    ensures
        strings_view(v@) == parts@.map_values(|s: &str| s@),
{
    let mut v: Vec<String> = Vec::new();
    let mut i: usize = 0;
    while i < parts.len()
        invariant
            i <= parts@.len(),
            v@.len() == i,
            strings_view(v@) == parts@.map_values(|s: &str| s@).take(i as int),
        decreases parts@.len() - i,
    {
        let ghost before = v@;
        v.push(to_owned(parts[i]));
        assert(v@[i as int]@ == parts@[i as int]@);
        assert(strings_view(v@) =~= strings_view(before).push(parts@[i as int]@));
        i = i + 1;
        assert(strings_view(v@) =~= parts@.map_values(|s: &str| s@).take(i as int));
    }
    assert(parts@.map_values(|s: &str| s@).take(parts@.len() as int) =~= parts@.map_values(|s: &str| s@));
    v
}

/// The relative paths whose presence detection depends on.
pub fn marker_files() -> (v: Vec<String>)
    ensures
        strings_view(v@) == spec_marker_files(),
{
    let v = strings(
        &[
            "next.config.js", "next.config.ts", "next.config.mjs", "next.config.cjs",
            "nest-cli.json", "astro.config.js", "astro.config.ts", "astro.config.mjs",
            "angular.json", "ember-cli-build.js", "vite.config.js", "vite.config.ts",
            "vite.config.mjs", "vite.config.cjs", "svelte.config.js", "svelte.config.ts",
            "manage.py", "artisan", "bin/rails", "pnpm-lock.yaml", "pnpm-workspace.yaml",
            ".venv/bin/python", "main.py",
        ],
    );
    assert(strings_view(v@) =~= spec_marker_files());
    v
}

/// One of `names` is among `files`.
pub open spec fn has_any(files: Seq<Seq<char>>, names: Seq<&str>) -> bool {
    exists|i: int| 0 <= i < names.len() && files.contains((#[trigger] names[i])@)
}

/// `text` mentions `needle`, ignoring case.
pub open spec fn mentions(text: Seq<char>, needle: Seq<char>) -> bool {
    contains_seq(lowercased(text), lowercased(needle))
}

/// The texts of a list of literals.
pub open spec fn lits(parts: Seq<&str>) -> Seq<Seq<char>> {
    parts.map_values(|s: &str| s@)
}

/// The Node package manager: pnpm when a pnpm lockfile or workspace is present.
pub open spec fn spec_node_pm(files: Seq<Seq<char>>) -> &'static str {
    if files.contains("pnpm-lock.yaml"@) || files.contains("pnpm-workspace.yaml"@) {
        "pnpm"
    } else {
        "npm"
    }
}

/// The Python interpreter: the project's virtualenv when there is one.
pub open spec fn spec_interpreter(files: Seq<Seq<char>>) -> &'static str {
    if files.contains(".venv/bin/python"@) { ".venv/bin/python" } else { "python3" }
}

/// The command `detect_command` infers, rule by rule.
pub open spec fn spec_detect(files: Seq<Seq<char>>, pkg: Seq<char>, py: Seq<char>) -> Option<Seq<&'static str>> {
    let pm = spec_node_pm(files);
    if has_any(files, seq!["next.config.js", "next.config.ts", "next.config.mjs", "next.config.cjs"]) {
        Some(seq![pm, "run", "dev", "--port", "$PORT", "--hostname", "0.0.0.0"])
    } else if has_any(files, seq!["nest-cli.json"]) {
        Some(seq![pm, "run", "start:dev"])
    } else if pkg.len() > 0 && (mentions(pkg, "\"nuxt\""@) || mentions(pkg, "'nuxt'"@)) {
        Some(seq![pm, "run", "dev", "--port", "$PORT", "--host", "0.0.0.0"])
    } else if pkg.len() > 0 && mentions(pkg, "@remix-run"@) {
        Some(seq![pm, "run", "dev", "--port", "$PORT", "--host"])
    } else if has_any(files, seq!["astro.config.js", "astro.config.ts", "astro.config.mjs"]) {
        Some(seq![pm, "run", "dev", "--port", "$PORT", "--host"])
    } else if has_any(files, seq!["angular.json"]) {
        Some(seq![pm, "run", "start", "--", "--port", "$PORT", "--host", "0.0.0.0"])
    } else if has_any(files, seq!["ember-cli-build.js"]) {
        Some(seq!["pnpm", "dlx", "http-server", "-p", "$PORT"])
    } else if has_any(files, seq!["vite.config.js", "vite.config.ts", "vite.config.mjs", "vite.config.cjs"]) {
        Some(seq![pm, "run", "dev", "--port", "$PORT", "--host"])
    } else if has_any(files, seq!["svelte.config.js", "svelte.config.ts"]) {
        Some(seq![pm, "run", "dev", "--port", "$PORT", "--host"])
    } else if pkg.len() > 0 && mentions(pkg, "\"dev\""@) {
        Some(seq![pm, "run", "dev", "--port", "$PORT", "--host"])
    } else if has_any(files, seq!["manage.py"]) {
        Some(seq!["python3", "manage.py", "runserver", "0.0.0.0:$PORT"])
    } else if py.len() > 0 && mentions(py, "flask"@) {
        let module = if files.contains("main.py"@) { "main" } else { "app" };
        Some(seq![spec_interpreter(files), "-m", "flask", "--app", module, "run", "--host", "0.0.0.0", "--port", "$PORT"])
    } else if py.len() > 0 && (mentions(py, "fastapi"@) || mentions(py, "uvicorn"@)) {
        Some(seq![spec_interpreter(files), "-m", "uvicorn", "main:app", "--host", "0.0.0.0", "--port", "$PORT"])
    } else if has_any(files, seq!["artisan"]) {
        Some(seq!["php", "artisan", "serve", "--host=0.0.0.0", "--port=$PORT"])
    } else if has_any(files, seq!["bin/rails"]) {
        Some(seq!["rails", "server", "-p", "$PORT", "-b", "0.0.0.0"])
    } else {
        None
    }
}

/// A detected Python command (one that runs a module with `-m`: Flask or
/// FastAPI/uvicorn) runs the project's virtualenv interpreter
/// `.venv/bin/python` exactly when that file is present, and `python3`
/// otherwise; the module it runs is `flask` or `uvicorn`.
pub proof fn law_python_interpreter(files: Seq<Seq<char>>, pkg: Seq<char>, py: Seq<char>)
    ensures
        spec_detect(files, pkg, py) matches Some(parts) ==> (parts.len() >= 2 && parts[1]@ == "-m"@ ==> parts.len()
            >= 3 && parts[0]@ == (if files.contains(".venv/bin/python"@) { ".venv/bin/python"@ } else { "python3"@ })
            && (parts[2]@ == "flask"@ || parts[2]@ == "uvicorn"@)),
{
    reveal_strlit("-m");
    reveal_strlit("run");
    reveal_strlit("dlx");
    reveal_strlit("manage.py");
    reveal_strlit("artisan");
    reveal_strlit("server");
    assert("run"@.len() == 3 && "dlx"@.len() == 3 && "-m"@.len() == 2);
    assert("run"@ != "-m"@);
    assert("dlx"@ != "-m"@);
    assert("manage.py"@ != "-m"@);
    assert("artisan"@ != "-m"@);
    assert("server"@ != "-m"@);
}

/// A detected Node command (one that runs a package script with `run`) uses
/// `pnpm` exactly when a pnpm lockfile or workspace file is present, and
/// `npm` otherwise.
pub proof fn law_node_package_manager(files: Seq<Seq<char>>, pkg: Seq<char>, py: Seq<char>)
    ensures
        spec_detect(files, pkg, py) matches Some(parts) ==> (parts.len() >= 2 && parts[1]@ == "run"@ ==> parts[0]@
            == (if files.contains("pnpm-lock.yaml"@) || files.contains("pnpm-workspace.yaml"@) {
            "pnpm"@
        } else {
            "npm"@
        })),
{
    reveal_strlit("-m");
    reveal_strlit("run");
    reveal_strlit("dlx");
    reveal_strlit("manage.py");
    reveal_strlit("artisan");
    reveal_strlit("server");
    assert("run"@.len() == 3 && "dlx"@.len() == 3 && "-m"@.len() == 2 && "run"@[0] == 'r' && "dlx"@[0] == 'd');
    assert("manage.py"@ != "run"@);
    assert("artisan"@ != "run"@);
    assert("server"@ != "run"@);
}

/// Whether `files` holds `name`.
fn has_file(files: &[String], name: &str) -> (b: bool)
    ensures
        b == strings_view(files@).contains(name@),
{
    let mut i: usize = 0;
    while i < files.len()
        invariant
            i <= files@.len(),
            forall|j: int| 0 <= j < i ==> files@[j]@ != name@,
        decreases files@.len() - i,
    {
        if str_eq(files[i].as_str(), name) {
            assert(strings_view(files@)[i as int] == name@);
            return true;
        }
        i = i + 1;
    }
    proof {
        if strings_view(files@).contains(name@) {
            let j = choose|j: int| 0 <= j < strings_view(files@).len() && strings_view(files@)[j] == name@;
            assert(files@[j]@ == name@);
        }
    }
    false
}

/// Whether `files` holds one of `names`.
fn has_any_file(files: &[String], names: &[&str]) -> (b: bool)
    ensures
        b == has_any(strings_view(files@), names@),
{
    let mut i: usize = 0;
    while i < names.len()
        invariant
            i <= names@.len(),
            forall|j: int| 0 <= j < i ==> !strings_view(files@).contains((#[trigger] names@[j])@),
        decreases names@.len() - i,
    {
        if has_file(files, names[i]) {
            return true;
        }
        i = i + 1;
    }
    false
}

/// Whether `text` mentions `needle`, ignoring case.
fn text_mentions(text: &str, needle: &str) -> (b: bool)
    ensures
        b == mentions(text@, needle@),
{
    let t = to_lowercase(text);
    let n = to_lowercase(needle);
    str_contains(t.as_str(), n.as_str())
}

/// Which Node package manager to use (pnpm when its lockfile or workspace is present).
fn node_pm(files: &[String]) -> (pm: &'static str)
    ensures
        pm == spec_node_pm(strings_view(files@)),
{
    if has_file(files, "pnpm-lock.yaml") || has_file(files, "pnpm-workspace.yaml") {
        "pnpm"
    } else {
        "npm"
    }
}

/// The Python interpreter to run (the project's virtualenv when present).
fn interpreter(files: &[String]) -> (i: &'static str)
    ensures
        i == spec_interpreter(strings_view(files@)),
{
    if has_file(files, ".venv/bin/python") { ".venv/bin/python" } else { "python3" }
}

/// Infers the dev-server command for a project, or `None`.
///
/// Returned tokens may contain the literal string `$PORT`; it is substituted
/// by the caller before the process is spawned.
pub fn detect_command(project: &ProjectFiles) -> (cmd: Option<Vec<String>>)
    ensures
        match cmd {
            Some(c) => (spec_detect(strings_view(project.files@), project.package_json@, project.pyproject@)
                matches Some(parts) && strings_view(c@) == lits(parts)),
            None => spec_detect(strings_view(project.files@), project.package_json@, project.pyproject@) is None,
        },
{
    let files = project.files.as_slice();
    let pkg = project.package_json.as_str();
    let py = project.pyproject.as_str();
    let pm = node_pm(files);
    let pkg_present = !pkg.is_empty();
    let py_present = !py.is_empty();
    let ghost fs = strings_view(project.files@);
    let ghost spec = spec_detect(fs, pkg@, py@);
    if has_any_file(files, &["next.config.js", "next.config.ts", "next.config.mjs", "next.config.cjs"]) {
        assert(seq!["next.config.js", "next.config.ts", "next.config.mjs", "next.config.cjs"] =~= ["next.config.js", "next.config.ts", "next.config.mjs", "next.config.cjs"]@);
        let c = strings(&[pm, "run", "dev", "--port", "$PORT", "--hostname", "0.0.0.0"]);
        assert(strings_view(c@) =~= lits(spec.unwrap()));
        return Some(c);
    }
    if has_any_file(files, &["nest-cli.json"]) {
        assert(seq!["nest-cli.json"] =~= ["nest-cli.json"]@);
        let c = strings(&[pm, "run", "start:dev"]);
        assert(strings_view(c@) =~= lits(spec.unwrap()));
        return Some(c);
    }
    if pkg_present && (text_mentions(pkg, "\"nuxt\"") || text_mentions(pkg, "'nuxt'")) {
        let c = strings(&[pm, "run", "dev", "--port", "$PORT", "--host", "0.0.0.0"]);
        assert(strings_view(c@) =~= lits(spec.unwrap()));
        return Some(c);
    }
    if pkg_present && text_mentions(pkg, "@remix-run") {
        let c = strings(&[pm, "run", "dev", "--port", "$PORT", "--host"]);
        assert(strings_view(c@) =~= lits(spec.unwrap()));
        return Some(c);
    }
    if has_any_file(files, &["astro.config.js", "astro.config.ts", "astro.config.mjs"]) {
        assert(seq!["astro.config.js", "astro.config.ts", "astro.config.mjs"] =~= ["astro.config.js", "astro.config.ts", "astro.config.mjs"]@);
        let c = strings(&[pm, "run", "dev", "--port", "$PORT", "--host"]);
        assert(strings_view(c@) =~= lits(spec.unwrap()));
        return Some(c);
    }
    if has_any_file(files, &["angular.json"]) {
        assert(seq!["angular.json"] =~= ["angular.json"]@);
        let c = strings(&[pm, "run", "start", "--", "--port", "$PORT", "--host", "0.0.0.0"]);
        assert(strings_view(c@) =~= lits(spec.unwrap()));
        return Some(c);
    }
    if has_any_file(files, &["ember-cli-build.js"]) {
        assert(seq!["ember-cli-build.js"] =~= ["ember-cli-build.js"]@);
        let c = strings(&["pnpm", "dlx", "http-server", "-p", "$PORT"]);
        assert(strings_view(c@) =~= lits(spec.unwrap()));
        return Some(c);
    }
    if has_any_file(files, &["vite.config.js", "vite.config.ts", "vite.config.mjs", "vite.config.cjs"]) {
        assert(seq!["vite.config.js", "vite.config.ts", "vite.config.mjs", "vite.config.cjs"] =~= ["vite.config.js", "vite.config.ts", "vite.config.mjs", "vite.config.cjs"]@);
        let c = strings(&[pm, "run", "dev", "--port", "$PORT", "--host"]);
        assert(strings_view(c@) =~= lits(spec.unwrap()));
        return Some(c);
    }
    if has_any_file(files, &["svelte.config.js", "svelte.config.ts"]) {
        assert(seq!["svelte.config.js", "svelte.config.ts"] =~= ["svelte.config.js", "svelte.config.ts"]@);
        let c = strings(&[pm, "run", "dev", "--port", "$PORT", "--host"]);
        assert(strings_view(c@) =~= lits(spec.unwrap()));
        return Some(c);
    }
    if pkg_present && text_mentions(pkg, "\"dev\"") {
        let c = strings(&[pm, "run", "dev", "--port", "$PORT", "--host"]);
        assert(strings_view(c@) =~= lits(spec.unwrap()));
        return Some(c);
    }
    if has_any_file(files, &["manage.py"]) {
        assert(seq!["manage.py"] =~= ["manage.py"]@);
        let c = strings(&["python3", "manage.py", "runserver", "0.0.0.0:$PORT"]);
        assert(strings_view(c@) =~= lits(spec.unwrap()));
        return Some(c);
    }
    if py_present && text_mentions(py, "flask") {
        let interp = interpreter(files);
        let module = if has_file(files, "main.py") { "main" } else { "app" };
        let c = strings(&[interp, "-m", "flask", "--app", module, "run", "--host", "0.0.0.0", "--port", "$PORT"]);
        assert(strings_view(c@) =~= lits(spec.unwrap()));
        return Some(c);
    }
    if py_present && (text_mentions(py, "fastapi") || text_mentions(py, "uvicorn")) {
        let interp = interpreter(files);
        let c = strings(&[interp, "-m", "uvicorn", "main:app", "--host", "0.0.0.0", "--port", "$PORT"]);
        assert(strings_view(c@) =~= lits(spec.unwrap()));
        return Some(c);
    }
    if has_any_file(files, &["artisan"]) {
        assert(seq!["artisan"] =~= ["artisan"]@);
        let c = strings(&["php", "artisan", "serve", "--host=0.0.0.0", "--port=$PORT"]);
        assert(strings_view(c@) =~= lits(spec.unwrap()));
        return Some(c);
    }
    if has_any_file(files, &["bin/rails"]) {
        assert(seq!["bin/rails"] =~= ["bin/rails"]@);
        let c = strings(&["rails", "server", "-p", "$PORT", "-b", "0.0.0.0"]);
        assert(strings_view(c@) =~= lits(spec.unwrap()));
        return Some(c);
    }
    None
}

} // verus!

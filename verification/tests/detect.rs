use ideps::detect::{
    declares_project, detect, nested_mise_configs, PackageManager, PythonMode, Scan, Toolchain,
};

fn scan(names: &[&str]) -> Scan {
    Scan {
        paths: names.iter().map(|name| name.to_string()).collect(),
        pyproject: None,
    }
}

fn toolchains(names: &[&str]) -> Vec<Toolchain> {
    detect(&scan(names))
        .into_iter()
        .map(|detection| detection.toolchain)
        .collect()
}

fn evidence(names: &[&str]) -> Vec<String> {
    detect(&scan(names))
        .into_iter()
        .map(|detection| detection.evidence)
        .collect()
}

fn python_toolchains(pyproject: &str, names: &[&str]) -> Vec<Toolchain> {
    let scan = Scan {
        pyproject: Some(pyproject.to_string()),
        ..scan(names)
    };
    detect(&scan)
        .into_iter()
        .map(|detection| detection.toolchain)
        .collect()
}

#[test]
fn empty_directory_has_no_toolchains() {
    assert_eq!(toolchains(&[]), vec![]);
}

#[test]
fn unrelated_files_are_ignored() {
    assert_eq!(toolchains(&["README.md", "LICENSE", ".gitignore"]), vec![]);
}

#[test]
fn tool_versions_counts_as_a_mise_project() {
    assert_eq!(toolchains(&[".tool-versions"]), vec![Toolchain::Mise]);
}

#[test]
fn nested_mise_config_counts_as_a_mise_project() {
    assert_eq!(
        toolchains(&[".config/mise/config.toml"]),
        vec![Toolchain::Mise]
    );
}

#[test]
fn lockfile_selects_the_node_package_manager() {
    let cases = [
        (vec!["package.json", "bun.lock"], PackageManager::Bun),
        (vec!["package.json", "bun.lockb"], PackageManager::Bun),
        (vec!["package.json", "pnpm-lock.yaml"], PackageManager::Pnpm),
        (vec!["package.json", "yarn.lock"], PackageManager::Yarn),
        (
            vec!["package.json", "package-lock.json"],
            PackageManager::Npm,
        ),
        (vec!["package.json"], PackageManager::Npm),
    ];
    for (files, expected) in cases {
        assert_eq!(
            toolchains(&files),
            vec![Toolchain::Node(expected)],
            "{files:?}"
        );
    }
}

#[test]
fn bun_wins_over_other_lockfiles() {
    let files = [
        "package.json",
        "bun.lock",
        "pnpm-lock.yaml",
        "yarn.lock",
        "package-lock.json",
    ];
    assert_eq!(
        toolchains(&files),
        vec![Toolchain::Node(PackageManager::Bun)]
    );
}

#[test]
fn a_lockfile_alone_is_not_a_node_project() {
    assert_eq!(toolchains(&["package-lock.json"]), vec![]);
}

#[test]
fn build_wrappers_are_reported_when_present() {
    assert_eq!(
        toolchains(&["pom.xml", "mvnw"]),
        vec![Toolchain::Maven { wrapper: true }]
    );
    assert_eq!(
        toolchains(&["pom.xml"]),
        vec![Toolchain::Maven { wrapper: false }]
    );
    assert_eq!(
        toolchains(&["build.gradle.kts", "gradlew"]),
        vec![Toolchain::Gradle { wrapper: true }]
    );
}

#[test]
fn a_python_project_wins_over_bare_requirements() {
    assert_eq!(
        python_toolchains(
            "[project]\nname = \"x\"",
            &["pyproject.toml", "requirements.txt"]
        ),
        vec![Toolchain::Python(PythonMode::Project)]
    );
    assert_eq!(
        toolchains(&["requirements.txt"]),
        vec![Toolchain::Python(PythonMode::Requirements)]
    );
}

#[test]
fn a_pyproject_that_only_configures_tools_is_not_a_python_project() {
    assert_eq!(
        python_toolchains(
            "[tool.ruff]\ntarget-version = \"py313\"",
            &["pyproject.toml"]
        ),
        vec![]
    );
}

#[test]
fn a_tool_only_pyproject_still_falls_back_to_requirements() {
    assert_eq!(
        python_toolchains("[tool.ruff]", &["pyproject.toml", "requirements.txt"]),
        vec![Toolchain::Python(PythonMode::Requirements)]
    );
}

#[test]
fn a_lockfile_makes_a_python_project_without_reading_the_manifest() {
    assert_eq!(
        toolchains(&["pyproject.toml", "uv.lock"]),
        vec![Toolchain::Python(PythonMode::Project)]
    );
}

#[test]
fn project_tables_are_recognised_around_comments_and_arrays() {
    assert!(declares_project("# comment\n[project]\nname = \"x\""));
    assert!(declares_project("  [project]  "));
    assert!(!declares_project("[project.optional-dependencies]"));
    assert!(!declares_project("[[project]]"));
    assert!(!declares_project("[tool.poetry]\nname = \"x\""));
    assert!(!declares_project(""));
}

#[test]
fn any_terraform_file_makes_a_terraform_project() {
    assert_eq!(toolchains(&["main.tf"]), vec![Toolchain::Terraform]);
    assert_eq!(toolchains(&["notes.tfnotes"]), vec![]);
}

#[test]
fn detection_order_is_stable_across_a_polyglot_project() {
    let files = [
        "main.tf",
        "package.json",
        "bun.lock",
        "Cargo.toml",
        "mise.toml",
        "go.mod",
        "deps.edn",
    ];
    assert_eq!(
        toolchains(&files),
        vec![
            Toolchain::Mise,
            Toolchain::Rust,
            Toolchain::Go,
            Toolchain::Node(PackageManager::Bun),
            Toolchain::Clojure,
            Toolchain::Terraform,
        ]
    );
}

#[test]
fn evidence_names_the_files_that_matched() {
    assert_eq!(
        evidence(&["mise.toml", "package.json", "pnpm-lock.yaml", "main.tf"]),
        vec!["mise.toml", "package.json + pnpm-lock.yaml", "main.tf"]
    );
}

#[test]
fn evidence_reports_a_lockless_node_project_by_its_manifest_alone() {
    assert_eq!(evidence(&["package.json"]), vec!["package.json"]);
}

#[test]
fn evidence_includes_the_build_wrapper_when_it_is_used() {
    assert_eq!(evidence(&["pom.xml", "mvnw"]), vec!["pom.xml + mvnw"]);
    assert_eq!(evidence(&["pom.xml"]), vec!["pom.xml"]);
}

#[test]
fn the_first_terraform_file_in_name_order_is_the_evidence() {
    assert_eq!(evidence(&["zeta.tf", "alpha.tf", "b.tf"]), vec!["alpha.tf"]);
    assert_eq!(evidence(&["main.tf", "Main.tf"]), vec!["Main.tf"]);
}

#[test]
fn the_order_and_repetition_of_paths_change_nothing() {
    let a = detect(&scan(&["go.mod", "Cargo.toml", "mise.toml", "b.tf", "a.tf"]));
    let b = detect(&scan(&["a.tf", "mise.toml", "Cargo.toml", "go.mod", "go.mod", "b.tf"]));
    assert_eq!(a, b);
}

#[test]
fn the_preferred_mise_config_is_the_evidence() {
    assert_eq!(
        evidence(&[".tool-versions", "mise.toml", ".config/mise.toml"]),
        vec!["mise.toml"]
    );
}

#[test]
fn deno_and_gradle_name_their_first_config() {
    assert_eq!(evidence(&["deno.lock", "deno.jsonc"]), vec!["deno.jsonc"]);
    assert_eq!(
        evidence(&["settings.gradle", "build.gradle.kts", "gradlew"]),
        vec!["build.gradle.kts + gradlew"]
    );
    assert_eq!(
        toolchains(&["settings.gradle"]),
        vec![Toolchain::Gradle { wrapper: false }]
    );
}

#[test]
fn every_toolchain_in_one_project_is_reported_once_in_order() {
    let mut s = scan(&[
        "uv.lock",
        "requirements.txt",
        "bb.edn",
        "deno.json",
        "deps.edn",
        "pom.xml",
        "build.gradle",
        "infra.tf",
        "package.json",
        "yarn.lock",
        "go.mod",
        "Cargo.toml",
        ".mise.toml",
    ]);
    s.pyproject = Some("[tool.ruff]".to_string());
    let found: Vec<Toolchain> = detect(&s).into_iter().map(|d| d.toolchain).collect();
    assert_eq!(
        found,
        vec![
            Toolchain::Mise,
            Toolchain::Rust,
            Toolchain::Go,
            Toolchain::Node(PackageManager::Yarn),
            Toolchain::Deno,
            Toolchain::Clojure,
            Toolchain::Babashka,
            Toolchain::Maven { wrapper: false },
            Toolchain::Gradle { wrapper: false },
            Toolchain::Python(PythonMode::Project),
            Toolchain::Terraform,
        ]
    );
}

#[test]
fn a_pyproject_without_its_text_is_not_a_python_project() {
    assert_eq!(toolchains(&["pyproject.toml"]), vec![]);
}

#[test]
fn headers_need_a_closing_bracket_and_a_line_of_their_own() {
    assert!(!declares_project("[project"));
    assert!(!declares_project("name = \"x\" [project]"));
    assert!(declares_project("[tool.ruff]\r\n[ project ]\r\n"));
    assert!(declares_project("\u{a0}[project] # trailing"));
}

#[test]
fn inserting_a_path_twice_records_it_once() {
    let mut s = Scan::new();
    s.insert("go.mod".to_string());
    s.insert("go.mod".to_string());
    s.insert("Cargo.toml".to_string());
    assert_eq!(s.paths, vec!["go.mod".to_string(), "Cargo.toml".to_string()]);
    s.pyproject = Some("[project]".to_string());
    assert_eq!(s.pyproject.as_deref(), Some("[project]"));
}

#[test]
fn only_directory_configs_need_looking_up() {
    assert_eq!(
        nested_mise_configs(),
        vec![
            ".mise/config.toml",
            "mise/config.toml",
            ".config/mise.toml",
            ".config/mise/config.toml"
        ]
    );
}

#[test]
fn the_first_lockfile_in_order_chooses_whatever_else_is_there() {
    let node = |names: &[&str]| detect(&scan(names))[0].clone();
    let chosen = node(&["package.json", "yarn.lock", "pnpm-lock.yaml", "package-lock.json"]);
    assert_eq!(chosen.toolchain, Toolchain::Node(PackageManager::Pnpm));
    assert_eq!(chosen.evidence, "package.json + pnpm-lock.yaml");
    let chosen = node(&["package.json", "package-lock.json", "bun.lockb"]);
    assert_eq!(chosen.toolchain, Toolchain::Node(PackageManager::Bun));
    assert_eq!(chosen.evidence, "package.json + bun.lockb");
    let chosen = node(&["package.json"]);
    assert_eq!(chosen.toolchain, Toolchain::Node(PackageManager::Npm));
    assert_eq!(chosen.evidence, "package.json");
}

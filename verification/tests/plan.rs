use ideps::detect::{detect, Detection, PackageManager, PythonMode, Scan, Toolchain};
use ideps::plan::{parallel_steps, plan, step, through_mise, Step};
use ideps::run::{Outcome, Status};
use std::time::Duration;

fn detections(toolchains: &[Toolchain]) -> Vec<Detection> {
    toolchains
        .iter()
        .map(|&toolchain| Detection {
            toolchain,
            evidence: String::new(),
        })
        .collect()
}

fn step_for(toolchain: Toolchain) -> Step {
    step(&Detection {
        toolchain,
        evidence: String::new(),
    })
}

fn outcome(name: &'static str, status: Status) -> Outcome {
    Outcome {
        name,
        status,
        output: String::new(),
        duration: Duration::from_millis(5),
    }
}

#[test]
fn mise_is_separated_from_the_parallel_steps() {
    let plan = plan(&detections(&[
        Toolchain::Rust,
        Toolchain::Mise,
        Toolchain::Go,
    ]));

    assert_eq!(
        plan.mise.map(|step| step.command_line()),
        Some("mise install".to_string())
    );
    assert_eq!(
        plan.parallel
            .iter()
            .map(Step::command_line)
            .collect::<Vec<_>>(),
        vec!["cargo fetch", "go mod download"]
    );
}

#[test]
fn a_plan_without_mise_runs_everything_in_parallel() {
    let plan = plan(&detections(&[Toolchain::Rust]));

    assert_eq!(plan.mise, None);
    assert_eq!(plan.parallel.len(), 1);
}

#[test]
fn an_empty_toolchain_list_yields_an_empty_plan() {
    assert!(plan(&[]).is_empty());
}

#[test]
fn build_wrappers_are_preferred_over_the_system_tool() {
    assert_eq!(
        step_for(Toolchain::Maven { wrapper: true }).command_line(),
        "./mvnw -B dependency:go-offline"
    );
    assert_eq!(
        step_for(Toolchain::Maven { wrapper: false }).command_line(),
        "mvn -B dependency:go-offline"
    );
    assert_eq!(
        step_for(Toolchain::Gradle { wrapper: true }).command_line(),
        "./gradlew dependencies"
    );
}

#[test]
fn wrapping_in_mise_keeps_the_label_and_arguments() {
    let wrapped = through_mise(step_for(Toolchain::Node(PackageManager::Bun)));

    assert_eq!(wrapped.name, "bun");
    assert_eq!(wrapped.command_line(), "mise exec -- bun install");
}

#[test]
fn steps_carry_the_evidence_that_selected_them() {
    let plan = plan(&[Detection {
        toolchain: Toolchain::Node(PackageManager::Bun),
        evidence: "package.json + bun.lock".to_string(),
    }]);

    assert_eq!(plan.parallel[0].evidence, "package.json + bun.lock");
}

#[test]
fn steps_are_listed_with_mise_first() {
    let plan = plan(&detections(&[Toolchain::Rust, Toolchain::Mise]));

    assert_eq!(
        plan.steps().iter().map(|step| step.name).collect::<Vec<_>>(),
        vec!["mise", "rust"]
    );
}

#[test]
fn every_toolchain_has_its_install_command() {
    let cases = [
        (Toolchain::Mise, "mise", "mise install"),
        (Toolchain::Rust, "rust", "cargo fetch"),
        (Toolchain::Go, "go", "go mod download"),
        (Toolchain::Node(PackageManager::Bun), "bun", "bun install"),
        (Toolchain::Node(PackageManager::Pnpm), "pnpm", "pnpm install"),
        (Toolchain::Node(PackageManager::Yarn), "yarn", "yarn install"),
        (Toolchain::Node(PackageManager::Npm), "npm", "npm install"),
        (Toolchain::Deno, "deno", "deno install"),
        (Toolchain::Clojure, "clojure", "clojure -P"),
        (Toolchain::Babashka, "babashka", "bb prepare"),
        (Toolchain::Gradle { wrapper: false }, "gradle", "gradle dependencies"),
        (Toolchain::Python(PythonMode::Project), "python", "uv sync"),
        (
            Toolchain::Python(PythonMode::Requirements),
            "python",
            "uv pip install -r requirements.txt",
        ),
        (Toolchain::Terraform, "terraform", "terraform init -input=false"),
    ];
    for (toolchain, name, command) in cases {
        let step = step_for(toolchain);
        assert_eq!(step.name, name);
        assert_eq!(step.command_line(), command);
    }
}

#[test]
fn a_wrapped_command_is_the_plain_one_behind_mise_exec() {
    let plain = step_for(Toolchain::Python(PythonMode::Requirements));
    let line = plain.command_line();
    let wrapped = through_mise(plain);
    assert_eq!(wrapped.command_line(), format!("mise exec -- {line}"));
    assert_eq!(wrapped.program, "mise");
    assert_eq!(wrapped.name, "python");
}

#[test]
fn the_plan_of_a_detection_has_one_step_per_toolchain() {
    let scan = Scan {
        paths: vec!["go.mod".into(), "mise.toml".into(), "main.tf".into()],
        pyproject: None,
    };
    let plan = plan(&detect(&scan));
    let names: Vec<&str> = plan.steps().iter().map(|s| s.name).collect();
    assert_eq!(names, vec!["mise", "go", "terraform"]);
    let evidence: Vec<&str> = plan.steps().iter().map(|s| s.evidence.as_str()).collect();
    assert_eq!(evidence, vec!["mise.toml", "go.mod", "main.tf"]);
}

#[test]
fn a_second_mise_detection_replaces_the_first() {
    let plan = plan(&[
        Detection { toolchain: Toolchain::Mise, evidence: "a".into() },
        Detection { toolchain: Toolchain::Mise, evidence: "b".into() },
    ]);
    assert_eq!(plan.mise.map(|s| s.evidence), Some("b".to_string()));
    assert!(plan.parallel.is_empty());
}

#[test]
fn steps_run_under_mise_only_once_it_installed() {
    let plan = plan(&detections(&[Toolchain::Mise, Toolchain::Rust, Toolchain::Go]));
    let installed = outcome("mise", Status::Installed);
    let steps = parallel_steps(plan.parallel.clone(), Some(&installed));
    assert_eq!(
        steps.iter().map(Step::command_line).collect::<Vec<_>>(),
        vec!["mise exec -- cargo fetch", "mise exec -- go mod download"]
    );

    let failed = outcome("mise", Status::Failed { code: Some(1) });
    let steps = parallel_steps(plan.parallel.clone(), Some(&failed));
    assert_eq!(
        steps.iter().map(Step::command_line).collect::<Vec<_>>(),
        vec!["cargo fetch", "go mod download"]
    );

    let steps = parallel_steps(plan.parallel, None);
    assert_eq!(steps.len(), 2);
    assert_eq!(steps[0].program, "cargo");
}

#[test]
fn parallel_steps_wait_for_mise() {
    let with_mise = plan(&detections(&[Toolchain::Mise, Toolchain::Rust, Toolchain::Go]));
    let deps = with_mise.dependencies();
    let view: Vec<(&str, Option<&str>)> = deps.iter().map(|n| (n.name, n.after)).collect();
    assert_eq!(
        view,
        vec![("mise", None), ("rust", Some("mise")), ("go", Some("mise"))]
    );

    let without = plan(&detections(&[Toolchain::Rust]));
    let deps = without.dependencies();
    assert_eq!(deps.len(), 1);
    assert_eq!(deps[0].after, None);
}

#[test]
fn listing_rows_follow_the_steps() {
    let plan = plan(&[
        Detection { toolchain: Toolchain::Go, evidence: "go.mod".into() },
        Detection { toolchain: Toolchain::Mise, evidence: "mise.toml".into() },
    ]);
    let rows = plan.rows();
    assert_eq!(rows.len(), 2);
    assert_eq!((rows[0].name, rows[0].evidence, rows[0].command.as_str()), ("mise", "mise.toml", "mise install"));
    assert_eq!((rows[1].name, rows[1].evidence, rows[1].command.as_str()), ("go", "go.mod", "go mod download"));
}

#[test]
fn a_command_line_splits_back_into_program_and_arguments() {
    for toolchain in [
        Toolchain::Go,
        Toolchain::Rust,
        Toolchain::Maven { wrapper: false },
        Toolchain::Python(PythonMode::Requirements),
    ] {
        let step = step_for(toolchain);
        let line = step.command_line();
        let pieces: Vec<&str> = line.split(' ').collect();
        let mut expected = vec![step.program];
        expected.extend(step.args.iter().copied());
        assert_eq!(pieces, expected);
    }
}

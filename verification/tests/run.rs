use ideps::detect::{Detection, Toolchain};
use ideps::plan::step;
use ideps::run::{
    any_failed, line_text, lines, run, transcript, trim_line_end, Execution, Outcome, Status,
};
use std::time::Duration;

fn collect(source: &[u8]) -> Vec<String> {
    lines(source)
}

#[test]
fn lines_are_reported_without_their_endings() {
    assert_eq!(collect(b"one\r\ntwo\n\nthree"), ["one", "two", "", "three"]);
}

#[test]
fn an_empty_stream_reports_nothing() {
    assert!(collect(b"").is_empty());
}

#[test]
fn invalid_utf8_stays_readable() {
    assert_eq!(collect(&[0xff, b'a', b'\n']), ["\u{fffd}a"]);
}

#[test]
fn a_line_keeps_no_ending_at_all() {
    assert_eq!(line_text(b"done\r\r\n"), "done");
    assert_eq!(line_text(b"\n"), "");
    assert_eq!(collect(b"a\nb\n"), ["a", "b"]);
    assert_eq!(collect("caf\u{e9}\n".as_bytes()), ["caf\u{e9}"]);
}

fn maven_step() -> ideps::plan::Step {
    step(&Detection {
        toolchain: Toolchain::Maven { wrapper: false },
        evidence: "pom.xml".into(),
    })
}

#[test]
fn a_missing_tool_is_a_skip_not_a_failure() {
    let outcome = run(&maven_step(), Execution::NotFound, Duration::from_millis(3));
    assert_eq!(outcome.name, "maven");
    assert_eq!(
        outcome.status,
        Status::Skipped {
            reason: "mvn not found".into()
        }
    );
    assert!(outcome.output.is_empty());
    assert!(!outcome.failed());
}

#[test]
fn exit_status_decides_installed_or_failed() {
    let ok = run(
        &maven_step(),
        Execution::Exited { success: true, code: Some(0), output: "fine".into() },
        Duration::from_millis(3),
    );
    assert_eq!(ok.status, Status::Installed);
    assert_eq!(ok.output, "fine");
    assert!(!ok.failed());

    let bad = run(
        &maven_step(),
        Execution::Exited { success: false, code: Some(2), output: "boom".into() },
        Duration::from_millis(3),
    );
    assert_eq!(bad.status, Status::Failed { code: Some(2) });
    assert!(bad.failed());

    let killed = run(
        &maven_step(),
        Execution::Exited { success: false, code: None, output: String::new() },
        Duration::from_millis(3),
    );
    assert_eq!(killed.status, Status::Failed { code: None });
}

#[test]
fn a_command_that_cannot_start_fails_with_no_output() {
    let outcome = run(
        &maven_step(),
        Execution::Error { message: "permission denied".into() },
        Duration::from_millis(3),
    );
    assert_eq!(outcome.status, Status::Failed { code: None });
    assert_eq!(outcome.output, "");
}

#[test]
fn the_transcript_drops_trailing_whitespace() {
    let lines = vec!["one".to_string(), "two  ".to_string(), String::new()];
    assert_eq!(transcript(&lines), "one\ntwo");
    assert_eq!(transcript(&Vec::new()), "");
}

fn outcome(status: Status) -> Outcome {
    Outcome { name: "x", status, output: String::new(), duration: Duration::from_millis(1) }
}

#[test]
fn only_failures_make_a_run_fail() {
    assert!(!any_failed(&vec![
        outcome(Status::Installed),
        outcome(Status::Skipped { reason: "x not found".into() }),
    ]));
    assert!(any_failed(&vec![
        outcome(Status::Installed),
        outcome(Status::Failed { code: Some(1) }),
    ]));
    assert!(!any_failed(&Vec::new()));
}

#[test]
fn line_endings_are_trimmed_from_decoded_text() {
    assert_eq!(trim_line_end("ok\r\n\n"), "ok");
    assert_eq!(trim_line_end("a\rb"), "a\rb");
    assert_eq!(trim_line_end(""), "");
}

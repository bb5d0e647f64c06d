use ideps::run::{Outcome, Status};
use ideps::detect::{Detection, Toolchain};
use ideps::plan::step;
use ideps::ui::{
    activity, colour, command_echo, details, failure_details, failure_reason, group, last_visible_frame, layout, padding,
    pending_line, plan_listing,
    prefix_parts, prefixes, skip_notice, status_line, summary, waiting, Groups, Hue, Node, Paint, Piece,
    PlanRow, Slot, INDENT,
};
use std::time::Duration;

fn outcome(name: &'static str, status: Status) -> Outcome {
    Outcome {
        name,
        status,
        output: String::new(),
        duration: Duration::from_millis(120),
    }
}

fn text(line: &[Piece]) -> String {
    line.iter().map(|piece| piece.text.as_str()).collect()
}

#[test]
fn prefixes_are_padded_to_a_single_column() {
    let (label, padding) = prefix_parts("go", 7);
    assert_eq!(
        (label.len() + padding.len(), label),
        (10, "[go]".to_string())
    );

    let (label, padding) = prefix_parts("clojure", 7);
    assert_eq!(
        (label.len() + padding.len(), label),
        (10, "[clojure]".to_string())
    );
}

#[test]
fn the_plan_listing_shows_every_column() {
    let rows = [
        PlanRow {
            name: "mise",
            evidence: "mise.toml",
            command: "mise install".to_string(),
        },
        PlanRow {
            name: "bun",
            evidence: "package.json + bun.lock",
            command: "bun install".to_string(),
        },
    ];

    let lines = plan_listing(&rows);

    assert_eq!(lines.len(), 2);
    for (line, row) in lines.iter().zip(&rows) {
        let line = text(line);
        assert!(line.contains(row.name), "{line}");
        assert!(line.contains(row.evidence), "{line}");
        assert!(line.contains(&format!("$ {}", row.command)), "{line}");
    }
}

#[test]
fn every_step_gets_a_prefix() {
    let names = ["mise", "rust", "bun"];
    let prefixes = prefixes(&names);

    assert_eq!(prefixes.len(), names.len());
    for (prefix, name) in prefixes.iter().zip(names) {
        let prefix = text(prefix);
        assert!(prefix.contains(&format!("[{name}]")), "{prefix}");
    }
}

#[test]
fn steps_that_wait_are_indented_under_the_step_they_wait_for() {
    let slots = layout(&[
        Node {
            name: "mise",
            after: None,
        },
        Node {
            name: "terraform",
            after: Some("mise"),
        },
    ]);

    assert_eq!(
        slots,
        [
            Slot {
                indent: "",
                name: "mise       ".to_string(),
            },
            Slot {
                indent: INDENT,
                name: "terraform".to_string(),
            },
        ]
    );
}

#[test]
fn a_tree_without_dependencies_is_flat() {
    let slots = layout(&[
        Node {
            name: "go",
            after: None,
        },
        Node {
            name: "rust",
            after: None,
        },
    ]);

    assert!(slots.iter().all(|slot| slot.indent.is_empty()));
    assert_eq!(slots[0].name, "go  ");
}

#[test]
fn activity_is_the_last_visible_frame_of_a_line() {
    assert_eq!(activity("  fetching  "), Some("fetching".to_string()));
    assert_eq!(activity("\x1b[32mdone\x1b[0m"), Some("done".to_string()));
    assert_eq!(activity("10%\r50%\r"), Some("50%".to_string()));
}

#[test]
fn blank_output_is_not_activity() {
    assert_eq!(activity(""), None);
    assert_eq!(activity("   \r  "), None);
}

#[test]
fn grouping_reports_skips_and_failures_in_planned_order() {
    let outcomes = [
        outcome("mise", Status::Installed),
        outcome(
            "maven",
            Status::Skipped {
                reason: "mvn not found".to_string(),
            },
        ),
        outcome("go", Status::Failed { code: Some(1) }),
        outcome("rust", Status::Installed),
    ];

    assert_eq!(
        group(&outcomes),
        Groups {
            skipped: vec!["maven (mvn not found)".to_string()],
            failed: vec!["go".to_string()],
        }
    );
}

#[test]
fn grouping_an_empty_run_yields_nothing() {
    assert_eq!(group(&[]), Groups::default());
}

#[test]
fn failures_report_the_exit_code_when_there_is_one() {
    assert_eq!(failure_reason(Some(2)), "exit 2");
    assert_eq!(failure_reason(None), "did not run");
}

#[test]
fn exit_codes_are_written_in_decimal_with_their_sign() {
    assert_eq!(failure_reason(Some(0)), "exit 0");
    assert_eq!(failure_reason(Some(130)), "exit 130");
    assert_eq!(failure_reason(Some(-9)), "exit -9");
    assert_eq!(failure_reason(Some(i32::MIN)), "exit -2147483648");
    assert_eq!(failure_reason(Some(i32::MAX)), "exit 2147483647");
}

#[test]
fn padding_fills_to_the_width_in_bytes() {
    assert_eq!(padding("go", 5), "   ");
    assert_eq!(padding("toolong", 3), "");
    assert_eq!(padding("\u{e9}", 3), " ");
}

#[test]
fn colours_cycle_in_plan_order() {
    assert_eq!(colour(0), Hue::Cyan);
    assert_eq!(colour(1), Hue::Magenta);
    assert_eq!(colour(4), Hue::Blue);
    assert_eq!(colour(5), Hue::Cyan);
    let prefixes = prefixes(&["a", "b"]);
    let rows = [
        PlanRow { name: "a", evidence: "x", command: "a".into() },
        PlanRow { name: "b", evidence: "y", command: "b".into() },
    ];
    let listing = plan_listing(&rows);
    for i in 0..2 {
        assert_eq!(prefixes[i][0].paint, listing[i][0].paint);
    }
}

#[test]
fn prefixes_line_up_behind_the_longest_name() {
    let lines = prefixes(&["mise", "terraform"]);
    assert_eq!(text(&lines[0]), "[mise]      ");
    assert_eq!(text(&lines[1]), "[terraform] ");
    assert_eq!(lines[1][0].paint, Paint::Hue(Hue::Magenta));
}

#[test]
fn the_listing_aligns_its_columns() {
    let rows = [
        PlanRow { name: "mise", evidence: "mise.toml", command: "mise install".into() },
        PlanRow { name: "go", evidence: "go.mod", command: "go mod download".into() },
    ];
    let lines = plan_listing(&rows);
    assert_eq!(text(&lines[0]), "mise  mise.toml  $ mise install");
    assert_eq!(text(&lines[1]), "go    go.mod     $ go mod download");
    assert_eq!(lines[0][3].paint, Paint::Dim);
}

#[test]
fn a_waiting_step_says_what_it_waits_for() {
    assert_eq!(waiting(Some("mise")), "waiting for mise");
    assert_eq!(waiting(None), "queued");
    let slot = Slot { indent: INDENT, name: "go".into() };
    let line = pending_line(&slot, Some("mise"));
    assert_eq!(text(&line), "  \u{25cc} go  waiting for mise");
}

#[test]
fn status_lines_show_how_each_step_ended() {
    let slot = Slot { indent: "", name: "go  ".into() };
    let done = status_line(&outcome("go", Status::Installed), &slot, "120ms");
    assert_eq!(text(&done), "\u{2714} go    120ms");
    assert_eq!(done[1].paint, Paint::Green);

    let skipped = status_line(
        &outcome("go", Status::Skipped { reason: "go not found".into() }),
        &slot,
        "0ms",
    );
    assert_eq!(text(&skipped), "\u{25cb} go    go not found");

    let failed = status_line(&outcome("go", Status::Failed { code: Some(3) }), &slot, "1.0s");
    assert_eq!(text(&failed), "\u{2716} go    exit 3");
    assert_eq!(failed[5].paint, Paint::Red);
}

#[test]
fn the_summary_lists_skips_failures_and_the_total() {
    let outcomes = [
        outcome("mise", Status::Installed),
        outcome("maven", Status::Skipped { reason: "mvn not found".into() }),
        outcome("gradle", Status::Skipped { reason: "gradle not found".into() }),
        outcome("go", Status::Failed { code: Some(1) }),
    ];
    let lines = summary(&outcomes, "3.5s");
    let texts: Vec<String> = lines.iter().map(|l| text(l)).collect();
    assert_eq!(
        texts,
        vec![
            String::new(),
            "skipped    maven (mvn not found), gradle (gradle not found)".to_string(),
            "failed     go".to_string(),
            "total      3.5s".to_string(),
        ]
    );

    let quiet = summary(&[outcome("mise", Status::Installed)], "2.1s");
    let texts: Vec<String> = quiet.iter().map(|l| text(l)).collect();
    assert_eq!(texts, vec![String::new(), "total      2.1s".to_string()]);
}

#[test]
fn details_show_captured_output_under_a_heading() {
    let mut failed = outcome("go", Status::Failed { code: Some(1) });
    failed.output = "go: bad".into();
    let silent = outcome("rust", Status::Failed { code: None });
    let lines = details(&vec![&failed, &silent]);
    let texts: Vec<String> = lines.iter().map(|l| text(l)).collect();
    assert_eq!(
        texts,
        vec![String::new(), "\u{2500}\u{2500} go \u{2500}\u{2500}".to_string(), "go: bad".to_string()]
    );
}

#[test]
fn the_longest_entry_sets_the_tree_column() {
    let slots = layout(&[
        Node { name: "mise", after: None },
        Node { name: "go", after: Some("mise") },
        Node { name: "rust", after: Some("mise") },
    ]);
    assert_eq!(slots[0].name, "mise  ");
    assert_eq!(slots[1].name, "go  ");
    assert_eq!(slots[2].name, "rust");
    for slot in &slots {
        assert_eq!(slot.indent.len() + slot.name.len(), 6);
    }
}

#[test]
fn the_last_visible_frame_skips_blank_frames() {
    assert_eq!(last_visible_frame("a\r b \r  \r"), Some("b".to_string()));
    assert_eq!(last_visible_frame("\x1b[1m"), Some("\x1b[1m".to_string()));
    assert_eq!(last_visible_frame("\r\r"), None);
}

#[test]
fn only_failed_steps_show_their_output_once_the_tree_is_done() {
    let mut failed = outcome("go", Status::Failed { code: Some(1) });
    failed.output = "go: bad".into();
    let mut installed = outcome("rust", Status::Installed);
    installed.output = "fetched".into();
    let mut skipped = outcome("maven", Status::Skipped { reason: "mvn not found".into() });
    skipped.output = "ignored".into();
    let silent = outcome("bun", Status::Failed { code: None });
    let outcomes = vec![installed, failed, skipped, silent];
    let texts: Vec<String> = failure_details(&outcomes, false).iter().map(|l| text(l)).collect();
    assert_eq!(
        texts,
        vec![String::new(), "\u{2500}\u{2500} go \u{2500}\u{2500}".to_string(), "go: bad".to_string()]
    );
    assert_eq!(failure_details(&outcomes, false)[1][0].paint, Paint::Dim);
    assert_eq!(failure_details(&outcomes, false)[2][0].paint, Paint::Plain);
}

#[test]
fn streamed_output_is_not_shown_twice() {
    let mut failed = outcome("go", Status::Failed { code: Some(1) });
    failed.output = "go: bad".into();
    assert!(failure_details(&[failed], true).is_empty());
    assert!(failure_details(&[], false).is_empty());
}

#[test]
fn a_streamed_step_announces_its_command() {
    let go = step(&Detection { toolchain: Toolchain::Go, evidence: "go.mod".into() });
    assert_eq!(command_echo(&go), "$ go mod download");
    let rust = step(&Detection { toolchain: Toolchain::Rust, evidence: "Cargo.toml".into() });
    assert_eq!(command_echo(&rust), "$ cargo fetch");
}

#[test]
fn a_streamed_skip_says_why() {
    assert_eq!(skip_notice("mvn not found"), "skipped: mvn not found");
    assert_eq!(skip_notice(""), "skipped: ");
}

#[test]
fn plain_activity_is_read_as_written() {
    assert_eq!(activity("  fetching  "), Some("fetching".to_string()));
    assert_eq!(activity("10%\r50%\r"), Some("50%".to_string()));
    assert_eq!(activity("   \r  "), None);
    assert_eq!(activity(""), None);
}

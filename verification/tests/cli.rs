use ideps::cli::{mode, Mode};

#[test]
fn a_dry_run_and_log_exclude_each_other() {
    assert_eq!(
        mode(true, true),
        Err("--dry-run cannot be used with 'log'".to_string())
    );
    assert_eq!(mode(true, false), Ok(Mode::DryRun));
    assert_eq!(mode(false, true), Ok(Mode::Log));
    assert_eq!(mode(false, false), Ok(Mode::Tree));
}

use rcat::config::ResolvedConfig;
use rcat::lines::split_lines;
use rcat::transform::{cat, parse_line, RunState};

fn texts(items: &[&str]) -> Vec<Vec<u8>> {
    items.iter().map(|s| s.as_bytes().to_vec()).collect()
}

fn run(config: &ResolvedConfig, items: &[&str]) -> String {
    String::from_utf8(cat(config, &texts(items))).unwrap()
}

#[test]
fn numbering_tabs_and_ends_across_sources() {
    let mut config = ResolvedConfig::new();
    config.number = true;
    config.show_tabs = true;
    config.show_ends = true;
    assert_eq!(
        run(&config, &["hello\tworld\n\n", "done"]),
        "     1\thello^Iworld$\n     2\t$\n     3\tdone$\n"
    );
}

#[test]
fn plain_config_is_identity() {
    let config = ResolvedConfig::new();
    assert_eq!(run(&config, &["a\n\tb\n", "\n\nc\n"]), "a\n\tb\n\n\nc\n");
}

#[test]
fn plain_config_adds_missing_final_newline() {
    let config = ResolvedConfig::new();
    assert_eq!(run(&config, &["abc", "", "x\ny"]), "abc\nx\ny\n");
}

#[test]
fn show_nonprinting_changes_nothing() {
    let mut config = ResolvedConfig::new();
    config.show_nonprinting = true;
    assert_eq!(run(&config, &["a\x01\tb\n"]), "a\x01\tb\n");
}

#[test]
fn empty_sources_emit_nothing() {
    let mut config = ResolvedConfig::new();
    config.number = true;
    assert_eq!(run(&config, &[]), "");
    assert_eq!(run(&config, &["", ""]), "");
}

#[test]
fn numbers_run_on_across_sources() {
    let mut config = ResolvedConfig::new();
    config.number = true;
    assert_eq!(
        run(&config, &["a\n\n", "b\n", "c"]),
        "     1\ta\n     2\t\n     3\tb\n     4\tc\n"
    );
}

#[test]
fn squeeze_collapses_blank_runs() {
    let mut config = ResolvedConfig::new();
    config.squeeze_blank = true;
    assert_eq!(run(&config, &["a\n\n\n\nb\n\n"]), "a\n\nb\n\n");
    assert_eq!(run(&config, &["\n\n\nx\n"]), "\nx\n");
}

#[test]
fn squeeze_stops_at_source_boundary() {
    let mut config = ResolvedConfig::new();
    config.squeeze_blank = true;
    assert_eq!(run(&config, &["a\n\n", "\nb\n"]), "a\n\n\nb\n");
}

#[test]
fn squeezed_lines_take_no_number() {
    let mut config = ResolvedConfig::new();
    config.squeeze_blank = true;
    config.number = true;
    assert_eq!(
        run(&config, &["a\n\n\n\nb\n"]),
        "     1\ta\n     2\t\n     3\tb\n"
    );
}

#[test]
fn nonblank_numbering_skips_blank_lines() {
    let mut config = ResolvedConfig::new();
    config.number = true;
    config.number_nonblank = true;
    assert_eq!(
        run(&config, &["a\n\nb\n", "\nc\n"]),
        "     1\ta\n\n     2\tb\n\n     3\tc\n"
    );
}

#[test]
fn show_tabs_replaces_every_tab() {
    let mut config = ResolvedConfig::new();
    config.show_tabs = true;
    assert_eq!(run(&config, &["\t\ta\tb\t\n"]), "^I^Ia^Ib^I\n");
}

#[test]
fn show_ends_marks_blank_lines_too() {
    let mut config = ResolvedConfig::new();
    config.show_ends = true;
    assert_eq!(run(&config, &["a\n\nb"]), "a$\n$\nb$\n");
}

#[test]
fn wide_numbers_are_not_truncated() {
    let mut config = ResolvedConfig::new();
    config.number = true;
    let mut state = RunState { line_counter: 999_998 };
    let out = state.parse_source(&config, &b"x\ny\n".to_vec());
    assert_eq!(String::from_utf8(out).unwrap(), "999999\tx\n1000000\ty\n");
    assert_eq!(state.line_counter, 1_000_000);
}

#[test]
fn run_state_carries_counter_between_sources() {
    let mut config = ResolvedConfig::new();
    config.number = true;
    config.squeeze_blank = true;
    let mut state = RunState::new();
    let first = state.parse_source(&config, &b"a\n\n".to_vec());
    let second = state.parse_source(&config, &b"\n\nb\n".to_vec());
    assert_eq!(String::from_utf8(first).unwrap(), "     1\ta\n     2\t\n");
    assert_eq!(String::from_utf8(second).unwrap(), "     3\t\n     4\tb\n");
    assert_eq!(state.line_counter, 4);
}

#[test]
fn parse_line_drops_repeated_blank() {
    let mut config = ResolvedConfig::new();
    config.squeeze_blank = true;
    config.number = true;
    let mut counter: u64 = 7;
    let mut last_blank = true;
    let mut out: Vec<u8> = b"keep".to_vec();
    parse_line(&config, &Vec::new(), &mut counter, &mut last_blank, &mut out);
    assert_eq!(out, b"keep".to_vec());
    assert_eq!(counter, 7);
    assert!(last_blank);
    parse_line(&config, &b"z".to_vec(), &mut counter, &mut last_blank, &mut out);
    assert_eq!(out, b"keep     8\tz\n".to_vec());
    assert_eq!(counter, 8);
    assert!(!last_blank);
}

#[test]
fn split_lines_keeps_unterminated_last_line() {
    let lines = split_lines(&b"a\n\nbc".to_vec());
    assert_eq!(lines, vec![b"a".to_vec(), Vec::new(), b"bc".to_vec()]);
    assert_eq!(split_lines(&b"a\n".to_vec()), vec![b"a".to_vec()]);
    assert_eq!(split_lines(&Vec::new()), Vec::<Vec<u8>>::new());
    assert_eq!(split_lines(&b"\n".to_vec()), vec![Vec::<u8>::new()]);
}

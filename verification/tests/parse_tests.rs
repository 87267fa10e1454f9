use rbwchain::parse::{classify_line, parse_env_vars, split_into_lines, LineOutcome};
use rbwchain::text::trim_str;

fn get_owned(m: &rbwchain::env_map::EnvMap, k: &str) -> Option<String> {
    m.get(&k.to_string()).cloned()
}

#[test]
fn parses_simple_pair() {
    let m = parse_env_vars("DB_USER=alice");
    assert_eq!(get_owned(&m, "DB_USER"), Some("alice".to_string()));
}

#[test]
fn parses_trimmed_key_and_value() {
    let m = parse_env_vars("   DB_USER  =   alice   ");
    assert_eq!(get_owned(&m, "DB_USER"), Some("alice".to_string()));
    assert_eq!(get_owned(&m, "DB_USER  "), None);
}

#[test]
fn parses_scenario_a_payload() {
    let m = parse_env_vars("DB_USER=alice\nDB_PASS=s3cret\n");
    assert_eq!(get_owned(&m, "DB_USER"), Some("alice".to_string()));
    assert_eq!(get_owned(&m, "DB_PASS"), Some("s3cret".to_string()));
}

#[test]
fn empty_payload_yields_no_pairs() {
    let m = parse_env_vars("");
    assert!(m.entries().is_empty());
}

#[test]
fn blank_and_comment_lines_contribute_nothing() {
    let m = parse_env_vars("\n   \n# comment\n  # indented comment\n\t\n");
    assert!(m.entries().is_empty());
}

#[test]
fn lines_without_equals_contribute_nothing() {
    let m = parse_env_vars("cert body text\nanother line\n");
    assert!(m.entries().is_empty());
}

#[test]
fn empty_key_lines_contribute_nothing() {
    let m = parse_env_vars("=value\n   = another\n");
    assert!(m.entries().is_empty());
}

#[test]
fn skippable_lines_between_pairs_are_ignored() {
    let m = parse_env_vars("A=1\n# comment\n\nnot a pair\nB=2\n");
    assert_eq!(get_owned(&m, "A"), Some("1".to_string()));
    assert_eq!(get_owned(&m, "B"), Some("2".to_string()));
    assert_eq!(m.entries().len(), 2);
}

#[test]
fn duplicate_key_last_occurrence_wins() {
    let m = parse_env_vars("KEY=first\nOTHER=x\nKEY=second\n");
    assert_eq!(get_owned(&m, "KEY"), Some("second".to_string()));
}

#[test]
fn value_keeps_later_equals_signs() {
    let m = parse_env_vars("A=B=C\n");
    assert_eq!(get_owned(&m, "A"), Some("B=C".to_string()));
}

#[test]
fn empty_value_is_kept() {
    let m = parse_env_vars("EMPTY=\n");
    assert_eq!(get_owned(&m, "EMPTY"), Some("".to_string()));
}

#[test]
fn crlf_line_endings_are_handled() {
    let m = parse_env_vars("A=1\r\nB=2\r\n");
    assert_eq!(get_owned(&m, "A"), Some("1".to_string()));
    assert_eq!(get_owned(&m, "B"), Some("2".to_string()));
}

#[test]
fn unicode_whitespace_is_trimmed() {
    let m = parse_env_vars("\u{00A0}A\u{2003}=\u{3000}1\u{00A0}\n");
    assert_eq!(get_owned(&m, "A"), Some("1".to_string()));
}

#[test]
fn parsing_twice_gives_the_same_mapping() {
    let payload = "A=1\nA=2\n# c\nB = spaced out \n";
    let m1 = parse_env_vars(payload);
    let m2 = parse_env_vars(payload);
    assert_eq!(m1.entries(), m2.entries());
}

#[test]
fn split_into_lines_splits_on_newlines() {
    let lines = split_into_lines("a\nb\nc");
    assert_eq!(lines, vec!["a", "b", "c"]);
    let lines = split_into_lines("a\n");
    assert_eq!(lines, vec!["a", ""]);
    let lines = split_into_lines("");
    assert_eq!(lines, vec![""]);
}

#[test]
fn keys_are_not_validated_against_naming_rules() {
    // a key is any non-empty trimmed text before the first `=`; it is
    // passed through as-is, inner spaces included
    let m = parse_env_vars("MY KEY=v\n");
    assert_eq!(get_owned(&m, "MY KEY"), Some("v".to_string()));
}

#[test]
fn hash_inside_a_line_is_not_a_comment() {
    let m = parse_env_vars("A#B=1\n");
    assert_eq!(get_owned(&m, "A#B"), Some("1".to_string()));
}

#[test]
fn trim_removes_surrounding_whitespace() {
    assert_eq!(trim_str("  a b  "), "a b");
    assert_eq!(trim_str("\u{00A0}x\u{2003}"), "x");
    assert_eq!(trim_str("   "), "");
    assert_eq!(trim_str(""), "");
    assert_eq!(trim_str("tight"), "tight");
}

#[test]
fn classify_line_names_each_skip_reason() {
    assert!(matches!(classify_line("   "), LineOutcome::Blank));
    assert!(matches!(classify_line("# note"), LineOutcome::Comment));
    assert!(matches!(classify_line("no equals here"), LineOutcome::NoEquals));
    assert!(matches!(classify_line("  = value"), LineOutcome::EmptyKey));
    match classify_line(" K = v ") {
        LineOutcome::Pair(k, v) => {
            assert_eq!(k, "K");
            assert_eq!(v, "v");
        },
        _ => panic!("expected a pair"),
    }
}

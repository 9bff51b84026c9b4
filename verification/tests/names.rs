use moxide::helpers::{apply_if_some, dir_name, escape_shell_arg, expand_tilde, format_name};
use moxide::tmux::{attach, get_unused_name, numbered_candidate, TmuxPrimitive};
use moxide::strutil::{parse_usize, split_str, str_eq, str_lt, usize_to_string};

#[test]
fn test_absolute_path() {
    let home = "TEST_HOME";
    assert_eq!(expand_tilde("~/foo", home), format!("{}/foo", home));
}

#[test]
fn tilde_alone_is_the_home_directory() {
    assert_eq!(expand_tilde("~", "/home/u"), "/home/u");
    assert_eq!(expand_tilde("~/sub", "/home/u"), "/home/u/sub");
}

#[test]
fn tilde_expansion_edge_cases() {
    // a root home directory does not double the separator
    assert_eq!(expand_tilde("~/sub", "/"), "/sub");
    assert_eq!(expand_tilde("~", "/"), "/");
    // a home directory that already ends in a separator is not doubled either
    assert_eq!(expand_tilde("~/s", "/home/u/"), "/home/u/s");
    // paths without a leading tilde component are untouched
    assert_eq!(expand_tilde("/abs/path", "/home/u"), "/abs/path");
    assert_eq!(expand_tilde("~backup", "/home/u"), "~backup");
}

#[test]
fn unused_name_scenarios() {
    let none: Vec<String> = Vec::new();
    assert_eq!(get_unused_name("foo", &none), "foo");

    let one = vec!["foo".to_string()];
    assert_eq!(get_unused_name("foo", &one), "foo(1)");

    let two = vec!["foo".to_string(), "foo(1)".to_string()];
    assert_eq!(get_unused_name("foo", &two), "foo(2)");
}

#[test]
fn unused_name_skips_holes() {
    let used = vec!["foo(1)".to_string(), "bar".to_string()];
    assert_eq!(get_unused_name("foo", &used), "foo");
}

#[test]
fn candidate_names_are_numbered() {
    assert_eq!(numbered_candidate("s", 0), "s");
    assert_eq!(numbered_candidate("s", 7), "s(7)");
    assert_eq!(numbered_candidate("s", 12), "s(12)");
}

#[test]
fn numbers_are_written_in_decimal() {
    assert_eq!(usize_to_string(0), "0");
    assert_eq!(usize_to_string(10), "10");
    assert_eq!(usize_to_string(90210), "90210");
}

#[test]
fn numbers_are_read_back() {
    assert_eq!(parse_usize("42"), Some(42));
    assert_eq!(parse_usize("+42"), Some(42));
    assert_eq!(parse_usize("0"), Some(0));
    assert_eq!(parse_usize(""), None);
    assert_eq!(parse_usize("+"), None);
    assert_eq!(parse_usize("4x2"), None);
    assert_eq!(parse_usize("99999999999999999999999999"), None);
}

#[test]
fn dir_name_cases() {
    assert_eq!(dir_name("/home/u/proj"), "proj");
    assert_eq!(dir_name("/home/u/proj/"), "proj");
    assert_eq!(dir_name("/"), "");
    assert_eq!(dir_name(""), "");
    assert_eq!(dir_name(".."), "");
    assert_eq!(dir_name("a/.."), "");
    assert_eq!(dir_name("a/."), "a");
}

#[test]
fn format_name_substitutes_braces() {
    assert_eq!(format_name(None, "n"), "n");
    assert_eq!(format_name(Some("[{}]"), "n"), "[n]");
    assert_eq!(format_name(Some("{} and {}"), "x"), "x and x");
    assert_eq!(format_name(Some("plain"), "x"), "plain");
    assert_eq!(format_name(Some("{"), "x"), "{");
}

#[test]
fn escaping_backslash_and_quote() {
    assert_eq!(escape_shell_arg(r#"a"b\c"#), r#"a\"b\\c"#);
    assert_eq!(escape_shell_arg("plain"), "plain");
    assert_eq!(escape_shell_arg(""), "");
}

#[test]
fn apply_if_some_applies_only_on_some() {
    let r = apply_if_some(2u64, Some(3u64), |a: u64, b: u64| a + b);
    assert_eq!(r, 5);
    let r = apply_if_some(2u64, None::<u64>, |a: u64, b: u64| a + b);
    assert_eq!(r, 2);
}

#[test]
fn attach_picks_switch_inside_tmux() {
    assert!(matches!(attach("s", true), TmuxPrimitive::SwitchClient { name } if name == "s"));
    assert!(matches!(attach("s", false), TmuxPrimitive::AttachSession { name } if name == "s"));
}

#[test]
fn string_helpers() {
    assert!(str_eq("abc", "abc"));
    assert!(!str_eq("abc", "abd"));
    assert!(str_lt("abc", "abd"));
    assert!(str_lt("ab", "abc"));
    assert!(!str_lt("abc", "abc"));
    let fields = split_str("a\tb\t\tc", '\t');
    assert_eq!(fields, vec!["a", "b", "", "c"]);
    let fields = split_str("", '\t');
    assert_eq!(fields, vec![""]);
}

use flow_state::commands::filter_options;
use flow_state::config::config_dir_in;
use flow_state::latex::split_lines;
use flow_state::paths::{is_single_plain_name, same_path};
use flow_state::selection::normalize_newlines;
use flow_state::spell::is_ignored_context;
use flow_state::text::{str_byte_len, utf8_width};

fn chars(s: &str) -> Vec<char> {
    s.chars().collect()
}

#[test]
fn links_paths_addresses_and_markup_are_not_prose() {
    assert!(is_ignored_context("see https://x.io now", 4, 9));
    assert!(is_ignored_context("mail me@x.org", 5, 7));
    assert!(is_ignored_context("open src/main soon", 5, 8));
    assert!(is_ignored_context("\\emph text", 1, 5));
    assert!(is_ignored_context("`code` here", 1, 5));
    assert!(!is_ignored_context("hello wurld", 6, 11));
    assert!(!is_ignored_context("café wurld", 6, 11));
}

#[test]
fn a_single_plain_name_has_one_component() {
    assert!(is_single_plain_name(&chars("notes.md")));
    assert!(is_single_plain_name(&chars("notes/")));
    assert!(is_single_plain_name(&chars("notes/.")));
    assert!(!is_single_plain_name(&chars("a/b")));
    assert!(!is_single_plain_name(&chars("..")));
    assert!(!is_single_plain_name(&chars(".")));
    assert!(!is_single_plain_name(&chars("/abs")));
    assert!(!is_single_plain_name(&chars("")));
}

#[test]
fn lines_split_like_str_lines() {
    let ls: Vec<String> = split_lines(&chars("a\r\nb\n\nc\n"))
        .into_iter()
        .map(|l| l.into_iter().collect())
        .collect();
    assert_eq!(ls, vec!["a", "b", "", "c"]);
    assert!(split_lines(&chars("")).is_empty());
    let one: Vec<String> = split_lines(&chars("x")).into_iter().map(|l| l.into_iter().collect()).collect();
    assert_eq!(one, vec!["x"]);
}

#[test]
fn carriage_returns_become_line_feeds() {
    let out: String = normalize_newlines(&chars("a\r\nb\rc\n")).into_iter().collect();
    assert_eq!(out, "a\nb\nc\n");
}

#[test]
fn byte_lengths_follow_utf8() {
    assert_eq!(str_byte_len("café"), 5);
    assert_eq!(utf8_width('a'), 1);
    assert_eq!(utf8_width('é'), 2);
    assert_eq!(utf8_width('€'), 3);
    assert_eq!(utf8_width('😀'), 4);
}

#[test]
fn options_filter_by_case_insensitive_substring() {
    let options = vec!["Ferra".to_string(), "catppuccin".to_string(), "(default)".to_string()];
    assert_eq!(filter_options(&options, " FE "), vec!["Ferra".to_string()]);
    assert_eq!(filter_options(&options, ""), options);
    assert!(filter_options(&options, "zz").is_empty());
}

#[test]
fn the_app_directory_sits_in_the_config_base() {
    assert_eq!(config_dir_in("/home/u/.config"), "/home/u/.config/flow-state");
    assert_eq!(config_dir_in("/home/u/.config/"), "/home/u/.config/flow-state");
}

#[test]
fn paths_compare_component_by_component() {
    assert!(same_path("/w/a.md", "/w/a.md"));
    assert!(same_path("/w//a.md", "/w/a.md"));
    assert!(same_path("/w/a/", "/w/a"));
    assert!(same_path("/w/./a", "/w/a"));
    assert!(same_path("./a", "./a/"));
    assert!(!same_path("./a", "a"));
    assert!(!same_path("/a", "a"));
    assert!(!same_path("/w/a/..", "/w"));
    assert!(!same_path("/w/ab", "/w/a"));
}

use poem_todo::matcher::{match_path, match_action, match_segments, split_segments};
use poem_todo::text::{chars_eq, chars_of, is_star};

fn chars(s: &str) -> Vec<char> {
    s.chars().collect()
}

#[test]
fn wildcard_matches_one_segment() {
    assert!(match_path("/todo/*", "/todo/42"));
    assert!(match_path("/todo/*", "/todo/abc"));
}

#[test]
fn wildcard_does_not_match_deeper_or_shorter_paths() {
    assert!(!match_path("/todo/*", "/todo/42/sub"));
    assert!(!match_path("/todo/*", "/todo"));
}

#[test]
fn wildcard_in_the_middle_of_a_pattern() {
    assert!(match_path("/user/*/todos", "/user/carol/todos"));
    assert!(!match_path("/user/*/todos", "/user/carol"));
    assert!(!match_path("/user/*/todos", "/user/carol/items"));
    assert!(!match_path("/user/*/todos", "/user/carol/x/todos"));
}

#[test]
fn several_wildcards_in_one_pattern() {
    assert!(match_path("/*/*", "/a/b"));
    assert!(!match_path("/*/*", "/a"));
    assert!(!match_path("/*/*", "/a/b/c"));
}

#[test]
fn pattern_without_wildcard_matches_only_itself() {
    assert!(match_path("/todos", "/todos"));
    assert!(!match_path("/todos", "/todo"));
    assert!(!match_path("/todos", "/todos/"));
    assert!(!match_path("/todos", "/Todos"));
    assert!(match_path("", ""));
    assert!(!match_path("", "/"));
}

#[test]
fn first_mismatching_segment_settles_the_answer() {
    assert!(!match_path("/a/*/c", "/x/b/c"));
    assert!(!match_path("/a/*/c", "/a/b/x"));
    assert!(match_path("/a/*/c", "/a/b/c"));
}

#[test]
fn star_inside_a_longer_segment_is_literal() {
    assert!(!match_path("/todo/a*", "/todo/abc"));
    assert!(match_path("/todo/a*", "/todo/a*"));
    assert!(!match_path("/todo/**", "/todo/x"));
}

#[test]
fn wildcard_matches_an_empty_segment() {
    assert!(match_path("/todo/*", "/todo/"));
    assert!(match_path("*", ""));
}

#[test]
fn wildcard_matches_non_ascii_segments() {
    assert!(match_path("/user/*/todos", "/user/zoë/todos"));
    assert!(match_path("/größe/*", "/größe/1"));
    assert!(!match_path("/größe/*", "/grösse/1"));
}

#[test]
fn segments_of_paths() {
    assert_eq!(split_segments(&chars("/todo/42")), vec![chars(""), chars("todo"), chars("42")]);
    assert_eq!(split_segments(&chars("")), vec![chars("")]);
    assert_eq!(split_segments(&chars("abc")), vec![chars("abc")]);
    assert_eq!(split_segments(&chars("/")), vec![chars(""), chars("")]);
    assert_eq!(split_segments(&chars("a//b/")), vec![chars("a"), chars(""), chars("b"), chars("")]);
}

#[test]
fn matching_split_paths() {
    let pattern = vec![chars(""), chars("todo"), chars("*")];
    assert!(match_segments(&pattern, &vec![chars(""), chars("todo"), chars("7")]));
    assert!(!match_segments(&pattern, &vec![chars(""), chars("todo")]));
    assert!(!match_segments(&pattern, &vec![chars(""), chars("user"), chars("7")]));
    assert!(match_segments(&vec![], &vec![]));
}

#[test]
fn action_is_matched_exactly_or_by_star() {
    assert!(match_action(&chars("GET"), &chars("GET")));
    assert!(!match_action(&chars("GET"), &chars("POST")));
    assert!(!match_action(&chars("GET"), &chars("get")));
    assert!(match_action(&chars("*"), &chars("DELETE")));
    assert!(match_action(&chars("*"), &chars("")));
    assert!(!match_action(&chars("GET"), &chars("*")));
}

#[test]
fn characters_of_a_string() {
    assert_eq!(chars_of("a/ö"), vec!['a', '/', 'ö']);
    assert_eq!(chars_of(""), Vec::<char>::new());
}

#[test]
fn comparing_characters() {
    assert!(chars_eq(&chars("abc"), &chars("abc")));
    assert!(!chars_eq(&chars("abc"), &chars("abd")));
    assert!(!chars_eq(&chars("abc"), &chars("ab")));
    assert!(chars_eq(&chars(""), &chars("")));
    assert!(is_star(&chars("*")));
    assert!(!is_star(&chars("**")));
    assert!(!is_star(&chars("")));
    assert!(!is_star(&chars("a")));
}

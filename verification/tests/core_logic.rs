use tsrlog::action::Action;
use tsrlog::buffer::LogBuffer;
use tsrlog::capture::ingest_chunk;
use tsrlog::commands::execute;
use tsrlog::commands::is_failure_line;
use tsrlog::commands::report_failures;
use tsrlog::commands::search;
use tsrlog::commands::Outcome;
use tsrlog::commands::SeenFailureLines;
use tsrlog::config::parse_config;
use tsrlog::text::find_first;
use tsrlog::text::lines_of;
use tsrlog::text::split_str;
use tsrlog::text::str_contains;
use tsrlog::text::str_eq;

fn buffer_with(chunks: &[&str]) -> LogBuffer {
    let mut b = LogBuffer::new();
    for c in chunks {
        b.append(c);
    }
    b
}

#[test]
fn empty_buffer_has_no_lines() {
    let b = LogBuffer::new();
    assert_eq!(b.lines().len(), 0);
    assert_eq!(b.snapshot(), "");
}

#[test]
fn lines_split_at_newlines() {
    let b = buffer_with(&["first\nsecond\nthird"]);
    assert_eq!(b.lines(), vec!["first", "second", "third"]);
}

#[test]
fn trailing_newline_opens_no_empty_line() {
    let b = buffer_with(&["one\ntwo\n"]);
    assert_eq!(b.lines(), vec!["one", "two"]);
    let only_newline = buffer_with(&["\n"]);
    assert_eq!(only_newline.lines(), vec![""]);
}

#[test]
fn lines_ignore_chunk_boundaries() {
    let b = buffer_with(&["req1 st", "art\nCompl", "eted 200 OK\n"]);
    assert_eq!(b.lines(), vec!["req1 start", "Completed 200 OK"]);
}

#[test]
fn snapshot_is_concatenation_of_appends() {
    let b = buffer_with(&["alpha\n", "beta", "\ngamma"]);
    assert_eq!(b.snapshot(), "alpha\nbeta\ngamma");
}

#[test]
fn ingest_decodes_valid_utf8() {
    let mut b = LogBuffer::new();
    ingest_chunk(&mut b, b"hello\nworld");
    assert_eq!(b.snapshot(), "hello\nworld");
}

#[test]
fn ingest_replaces_invalid_bytes() {
    let mut b = LogBuffer::new();
    ingest_chunk(&mut b, &[0x61, 0xff, 0x62]);
    assert_eq!(b.snapshot(), "a\u{fffd}b");
}

#[test]
fn find_first_returns_leftmost() {
    assert_eq!(find_first("abcabc", "bc"), Some(1));
    assert_eq!(find_first("abcabc", "zz"), None);
    assert_eq!(find_first("abc", ""), Some(0));
}

#[test]
fn str_contains_is_substring_test() {
    assert!(str_contains("abcd", "bc"));
    assert!(str_contains("abcd", ""));
    assert!(!str_contains("abcd", "xyz"));
    assert!(!str_contains("ab", "abc"));
}

#[test]
fn str_eq_compares_characters() {
    assert!(str_eq("same", "same"));
    assert!(!str_eq("same", "Same"));
    assert!(!str_eq("same", "sam"));
}

#[test]
fn split_keeps_every_piece() {
    assert_eq!(split_str("a: b: c", ": "), vec!["a", "b", "c"]);
    assert_eq!(split_str("", ": "), vec![""]);
    assert_eq!(split_str("nosep", ": "), vec!["nosep"]);
    assert_eq!(split_str("whole", ""), vec!["whole"]);
}

#[test]
fn lines_of_matches_buffer_lines() {
    assert_eq!(lines_of("x\ny\n"), vec!["x", "y"]);
    assert_eq!(lines_of(""), Vec::<String>::new());
}

#[test]
fn parse_maps_the_command_tokens() {
    assert_eq!(Action::parse(&String::from("fail")), Action::Fail);
    assert_eq!(Action::parse(&String::from("f")), Action::Fail);
    assert_eq!(Action::parse(&String::from("exit")), Action::Exit);
    assert_eq!(Action::parse(&String::from("write")), Action::Save);
    assert_eq!(Action::parse(&String::from("w")), Action::Save);
    assert_eq!(Action::parse(&String::from("save")), Action::Save);
    assert_eq!(Action::parse(&String::from("s")), Action::Save);
}

#[test]
fn parse_empty_line_is_skip() {
    assert_eq!(Action::parse(&String::from("")), Action::Skip);
}

#[test]
fn parse_unrecognized_input_is_a_search() {
    assert_eq!(
        Action::parse(&String::from("banana")),
        Action::Search(String::from("banana"))
    );
}

#[test]
fn parse_lowercases_the_query_and_takes_no_partial_token() {
    assert_eq!(
        Action::parse(&String::from("FAIL")),
        Action::Search(String::from("fail"))
    );
    assert_eq!(
        Action::parse(&String::from("exit now")),
        Action::Search(String::from("exit now"))
    );
}

#[test]
fn failure_line_convention() {
    assert!(is_failure_line("Completed 500 Internal Server Error"));
    assert!(!is_failure_line("Completed 200 OK"));
    assert!(!is_failure_line("Completed 201"));
    assert!(!is_failure_line("nothing to see"));
}

#[test]
fn report_excludes_2xx_completions() {
    let b = buffer_with(&["Completed 200 OK\nCompleted 500 Error\nCompleted 201\n"]);
    let mut seen = SeenFailureLines::new();
    let printed = report_failures(&b, &mut seen);
    assert_eq!(printed, vec!["Completed 500 Error"]);
}

#[test]
fn report_twice_prints_nothing_new() {
    let b = buffer_with(&["Completed 500 boom\nCompleted 404 gone\n"]);
    let mut seen = SeenFailureLines::new();
    let first = report_failures(&b, &mut seen);
    assert_eq!(first, vec!["Completed 500 boom", "Completed 404 gone"]);
    let second = report_failures(&b, &mut seen);
    assert!(second.is_empty());
}

#[test]
fn repeated_failure_text_is_printed_once() {
    let b = buffer_with(&["Completed 500 boom\nCompleted 500 boom\n"]);
    let mut seen = SeenFailureLines::new();
    let printed = report_failures(&b, &mut seen);
    assert_eq!(printed, vec!["Completed 500 boom"]);
}

#[test]
fn search_is_case_insensitive_and_substring_based() {
    let b = buffer_with(&["ERROR: Completed 500\n"]);
    let mut seen = SeenFailureLines::new();
    let lower = execute(&Action::parse(&String::from("error")), &b, &mut seen);
    match lower {
        Outcome::Output(found) => assert_eq!(found, vec!["ERROR: Completed 500"]),
        _ => panic!("search must print matching lines"),
    }
    let upper = execute(&Action::parse(&String::from("ERROR")), &b, &mut seen);
    match upper {
        Outcome::Output(found) => assert_eq!(found, vec!["ERROR: Completed 500"]),
        _ => panic!("search must print matching lines"),
    }
    let miss = execute(&Action::parse(&String::from("xyz")), &b, &mut seen);
    match miss {
        Outcome::Output(found) => assert!(found.is_empty()),
        _ => panic!("search must print matching lines"),
    }
}

#[test]
fn search_returns_lines_in_buffer_order() {
    let b = buffer_with(&["one match\nno hit\nsecond MATCH\n"]);
    let found = search(&b, "match");
    assert_eq!(found, vec!["one match", "second MATCH"]);
}

#[test]
fn session_scenario_fail_then_fail_then_search() {
    let b = buffer_with(&["req1 start\nCompleted 200 OK\nreq2 start\nCompleted 500 boom\n"]);
    let mut seen = SeenFailureLines::new();
    match execute(&Action::parse(&String::from("fail")), &b, &mut seen) {
        Outcome::Output(printed) => assert_eq!(printed, vec!["Completed 500 boom"]),
        _ => panic!("fail must report failure lines"),
    }
    match execute(&Action::parse(&String::from("f")), &b, &mut seen) {
        Outcome::Output(printed) => assert!(printed.is_empty()),
        _ => panic!("fail must report failure lines"),
    }
    match execute(&Action::parse(&String::from("500")), &b, &mut seen) {
        Outcome::Output(found) => assert_eq!(found, vec!["Completed 500 boom"]),
        _ => panic!("search must print matching lines"),
    }
}

#[test]
fn skip_changes_nothing_and_prints_nothing() {
    let b = buffer_with(&["Completed 500 boom\n"]);
    let mut seen = SeenFailureLines::new();
    match execute(&Action::Skip, &b, &mut seen) {
        Outcome::Quiet => {}
        _ => panic!("skip must be quiet"),
    }
    assert!(!seen.contains(&String::from("Completed 500 boom")));
}

#[test]
fn exit_terminates_without_touching_state() {
    let b = LogBuffer::new();
    let mut seen = SeenFailureLines::new();
    match execute(&Action::Exit, &b, &mut seen) {
        Outcome::Terminate => {}
        _ => panic!("exit must terminate"),
    }
}

#[test]
fn save_hands_back_the_exact_content() {
    let b = buffer_with(&["keep\nall of this"]);
    let mut seen = SeenFailureLines::new();
    match execute(&Action::Save, &b, &mut seen) {
        Outcome::Persist(content) => assert_eq!(content, "keep\nall of this"),
        _ => panic!("save must persist the snapshot"),
    }
}

#[test]
fn seen_lines_record_exact_texts() {
    let mut seen = SeenFailureLines::new();
    assert!(!seen.contains(&String::from("a line")));
    seen.insert(String::from("a line"));
    assert!(seen.contains(&String::from("a line")));
    assert!(!seen.contains(&String::from("another")));
}

#[test]
fn config_parses_one_mapping_per_line() {
    let parsed = parse_config("dev: my-app\nprod: other-app\n\n").expect("well-formed");
    assert_eq!(parsed.len(), 2);
    assert_eq!(parsed[0].alias, "dev");
    assert_eq!(parsed[0].heroku_app_name, "my-app");
    assert_eq!(parsed[1].alias, "prod");
    assert_eq!(parsed[1].heroku_app_name, "other-app");
}

#[test]
fn config_line_without_separator_is_refused() {
    assert!(parse_config("dev: my-app\nbroken\n").is_none());
}

#[test]
fn config_keeps_the_first_two_pieces() {
    let parsed = parse_config("a: b: c").expect("well-formed");
    assert_eq!(parsed.len(), 1);
    assert_eq!(parsed[0].alias, "a");
    assert_eq!(parsed[0].heroku_app_name, "b");
}

use scr_launcher::launch::{command_line, APP_NAME, CHECK_INTERVAL_MILLIS, LAUNCH_ARGUMENT};
use scr_launcher::inspect::Event;
use scr_launcher::logbook::{join, LogBook};
use scr_launcher::query::QueryError;
use scr_launcher::scr::{process_handles, query_child, StringExt};
use scr_launcher::settings::Settings;

fn owned(lines: &[&str]) -> Vec<String> {
    lines.iter().map(|line| line.to_string()).collect()
}

#[test]
fn new_log_is_empty() {
    let book = LogBook::new();
    assert!(book.lines().is_empty());
    assert!(LogBook::default().lines().is_empty());
}

#[test]
fn insert_takes_each_line_once_in_ascending_order() {
    let mut book = LogBook::new();
    assert!(book.insert("b".to_string()));
    assert!(book.insert("a".to_string()));
    assert!(!book.insert("b".to_string()));
    assert!(book.insert("c".to_string()));
    assert_eq!(book.lines(), owned(&["a", "b", "c"]));
    assert!(book.contains(&"a".to_string()));
    assert!(!book.contains(&"d".to_string()));
}

#[test]
fn lines_are_ordered_as_strings_are() {
    let mut book = LogBook::new();
    let lines =
        ["b", "", "ab", "a", "B", "\u{e9}", "z", "abc", "a\u{10000}", "a\u{ffff}", "10", "9"];
    for line in lines {
        book.insert(line.to_string());
    }
    let mut expected = owned(&lines);
    expected.sort();
    assert_eq!(book.lines(), expected);
    assert_eq!(book.lines()[0], "");
    assert_eq!(book.lines()[1], "10");
    assert_eq!(book.lines()[11], "\u{e9}");
}

#[test]
fn extend_puts_each_new_line_in_its_place() {
    let mut book = LogBook::new();
    book.insert("x".to_string());
    book.extend(owned(&["y", "x", "z", "y", "w"]));
    assert_eq!(book.lines(), owned(&["w", "x", "y", "z"]));
}

#[test]
fn clear_and_take_empty_the_log() {
    let mut book = LogBook::new();
    book.extend(owned(&["1", "2"]));
    assert_eq!(book.take(), owned(&["1", "2"]));
    assert!(book.lines().is_empty());
    book.insert("3".to_string());
    book.clear();
    assert!(book.lines().is_empty());
    assert!(book.insert("3".to_string()));
}

#[test]
fn join_puts_the_separator_between_parts() {
    assert_eq!(join(&owned(&[]), ", "), "");
    assert_eq!(join(&owned(&["a"]), ", "), "a");
    assert_eq!(join(&owned(&["a", "b", "c"]), ", "), "a, b, c");
    assert_eq!(join(&owned(&["", ""]), "-"), "-");
}

#[test]
fn file_text_merges_old_and_new_lines() {
    let text = LogBook::file_text(
        owned(&["[10:00:00.000] a", "[10:00:01.000] b"]),
        owned(&["[10:00:01.000] b", "[10:00:02.000] c"]),
    );
    assert_eq!(text, "[10:00:00.000] a\r\n[10:00:01.000] b\r\n[10:00:02.000] c");
    assert_eq!(LogBook::file_text(Vec::new(), Vec::new()), "");
    assert_eq!(LogBook::file_text(Vec::new(), owned(&["only"])), "only");
}

#[test]
fn file_text_is_in_ascending_order_whatever_came_first() {
    assert_eq!(LogBook::file_text(owned(&["b"]), owned(&["a"])), "a\r\nb");
    assert_eq!(
        LogBook::file_text(owned(&["c", "a"]), owned(&["d", "b", "a"])),
        "a\r\nb\r\nc\r\nd"
    );
}

#[test]
fn command_line_joins_path_and_arguments_with_spaces() {
    assert_eq!(
        command_line("C:\\Games\\StarCraft.exe", &owned(&[LAUNCH_ARGUMENT])),
        "C:\\Games\\StarCraft.exe -launch"
    );
    assert_eq!(command_line("a.exe", &Vec::new()), "a.exe");
    assert_eq!(command_line("a.exe", &owned(&["-x", "-y"])), "a.exe -x -y");
}

#[test]
fn launcher_constants() {
    assert_eq!(APP_NAME, "SC:R Multi-Launcher");
    assert_eq!(LAUNCH_ARGUMENT, "-launch");
    assert_eq!(CHECK_INTERVAL_MILLIS, 500);
}

#[test]
fn default_settings_have_no_paths() {
    let settings = Settings::default();
    assert_eq!(settings.path_32, "");
    assert_eq!(settings.path_64, "");
}

#[test]
fn settings_are_cloned_field_by_field() {
    let settings = Settings::new("a32".to_string(), "b64".to_string());
    let copy = settings.clone();
    assert_eq!(copy.path_32, "a32");
    assert_eq!(copy.path_64, "b64");
}

#[test]
fn core_is_reached_under_one_roof() {
    assert!(process_handles(&Err(QueryError::NoConvergence), 0).is_empty());
    assert_eq!(query_child(3, None, |_| Event::Opened(None)), None);
    assert!("x".as_log().ends_with("] x"));
    assert_eq!(scr_launcher::APP_NAME, "SC:R Multi-Launcher");
    assert_eq!(scr_launcher::SCRStruct::new(3).pid, 3);
}

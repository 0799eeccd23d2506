use kairotui::data::{SaveData, SaveError};
use kairotui::log::{
    duration_as_hhmmss, get_log_tag_text, parse_input, parse_matches, render_empty_msg,
    render_log, render_log_list, rename_tag, update_logs, Log, LogList, LogType, TagSet,
};
use kairotui::tab::Tab;
use kairotui::tag::TagSys;

fn names(set: &TagSet) -> Vec<String> {
    (0..set.len()).map(|i| set.get(i).to_string()).collect()
}

fn set(list: &[&str]) -> TagSet {
    TagSet::from_names(&list.iter().map(|s| s.to_string()).collect())
}

#[test]
fn durations_are_written_as_hours_minutes_seconds() {
    assert_eq!(duration_as_hhmmss(0), "00:00:00");
    assert_eq!(duration_as_hhmmss(59), "00:00:59");
    assert_eq!(duration_as_hhmmss(60), "00:01:00");
    assert_eq!(duration_as_hhmmss(3661), "01:01:01");
    assert_eq!(duration_as_hhmmss(86399), "23:59:59");
    assert_eq!(duration_as_hhmmss(360000), "100:00:00");
    assert_eq!(duration_as_hhmmss(u64::MAX), "5124095576030431:00:15");
}

#[test]
fn input_is_split_into_name_and_tags() {
    let (name, tags) = parse_input("write report tag: work tag: urgent");
    assert_eq!(name, "write report");
    assert_eq!(tags, vec!["work".to_string(), "urgent".to_string()]);

    let (name, tags) = parse_input("  plain text  ");
    assert_eq!(name, "plain text");
    assert!(tags.is_empty());

    let (name, tags) = parse_input("tag: a");
    assert_eq!(name, "");
    assert_eq!(tags, vec!["a".to_string()]);
}

#[test]
fn a_repeated_tag_is_taken_out_everywhere_and_named_twice() {
    let (name, tags) = parse_input("x tag: a y tag: a");
    assert_eq!(name, "x  y");
    assert_eq!(tags, vec!["a".to_string(), "a".to_string()]);
}

#[test]
fn a_tag_behind_another_white_space_keeps_its_prefix() {
    let (name, tags) = parse_input("x tag:\ta");
    assert_eq!(name, "x");
    assert_eq!(tags, vec!["tag:\ta".to_string()]);
}

#[test]
fn matched_parts_are_taken_out_in_order() {
    let parts = vec!["tag: ab".to_string(), "tag: a".to_string()];
    let (name, tags) = parse_matches("one tag: ab two tag: a", &parts);
    assert_eq!(name, "one  two");
    assert_eq!(tags, vec!["ab".to_string(), "a".to_string()]);

    let parts = vec!["tag: a".to_string(), "tag: ab".to_string()];
    let (name, _) = parse_matches("one tag: ab two tag: a", &parts);
    assert_eq!(name, "one b two");
}

#[test]
fn tag_sets_hold_each_name_once() {
    let mut tags = set(&["a", "b", "a", "c", "b"]);
    assert_eq!(names(&tags), vec!["a", "b", "c"]);
    assert!(tags.contains("b"));
    assert!(!tags.contains("d"));
    assert_eq!(tags.position("c"), Some(2));
    assert!(!tags.insert("a".to_string()));
    assert!(tags.insert("d".to_string()));
    assert!(tags.remove("b"));
    assert!(!tags.remove("b"));
    assert_eq!(names(&tags), vec!["a", "c", "d"]);
    tags.rename("c", "a");
    assert_eq!(names(&tags), vec!["a", "d"]);
    tags.rename("d", "e");
    assert_eq!(names(&tags), vec!["a", "e"]);
    tags.rename("zzz", "y");
    assert_eq!(names(&tags), vec!["a", "e"]);
    assert_eq!(TagSet::new().len(), 0);
    assert_eq!(tags.names(), vec!["a".to_string(), "e".to_string()]);
    assert_eq!(names(&TagSet::from_names(&tags.names())), names(&tags));
}

#[test]
fn new_logs_are_not_done() {
    let log = Log::new("read".to_string(), set(&["book"]));
    assert!(!log.done);
    assert_eq!(log.name, "read");
    assert_eq!(names(&log.tags), vec!["book"]);
    assert!(log.end >= log.start);
    assert!(log.seconds() < 5);
}

#[test]
fn seconds_run_from_start_to_end() {
    let mut log = Log::new("read".to_string(), set(&[]));
    let start = log.start;
    log.set_end(start + std::time::Duration::from_millis(3_725_900));
    assert_eq!(log.start, start);
    assert_eq!(log.end, start + std::time::Duration::from_millis(3_725_900));
    assert_eq!(log.name, "read");
    assert!(!log.done);
    assert_eq!(log.seconds(), 3725);
    log.set_end(start + std::time::Duration::from_millis(999));
    assert_eq!(log.seconds(), 0);
    log.start = start + std::time::Duration::from_secs(10);
    assert_eq!(log.seconds(), 0);
}

#[test]
fn lines_show_the_seconds_of_each_log() {
    let mut data = SaveData::new("save.dat".to_string());
    let mut log = Log::new("long".to_string(), set(&[]));
    log.set_end(log.start + std::time::Duration::from_secs(3661));
    data.logs.push(log);
    let lines = render_log_list(&data, LogType::Active);
    assert_eq!(lines[0][1].text, " 01:01:01");
}

#[test]
fn update_moves_only_the_end() {
    let mut logs = vec![
        Log::new("a".to_string(), set(&["x"])),
        Log::new("b".to_string(), set(&[])),
    ];
    logs[1].done = true;
    let starts: Vec<_> = logs.iter().map(|l| l.start).collect();
    let ends: Vec<_> = logs.iter().map(|l| l.end).collect();
    let mark = std::time::Instant::now();
    while std::time::Instant::now() <= mark {}
    update_logs(&mut logs);
    assert_eq!(logs.len(), 2);
    for i in 0..2 {
        assert_eq!(logs[i].start, starts[i]);
        assert!(logs[i].end > ends[i]);
    }
    assert_eq!(logs[0].name, "a");
    assert!(!logs[0].done);
    assert!(logs[1].done);
    assert_eq!(names(&logs[0].tags), vec!["x"]);
}

#[test]
fn renaming_reaches_every_log_that_carries_the_tag() {
    let mut logs = vec![
        Log::new("a".to_string(), set(&["x", "y"])),
        Log::new("b".to_string(), set(&["y"])),
        Log::new("c".to_string(), set(&["x", "z"])),
    ];
    rename_tag(&mut logs, "x", "z");
    assert_eq!(names(&logs[0].tags), vec!["y", "z"]);
    assert_eq!(names(&logs[1].tags), vec!["y"]);
    assert_eq!(names(&logs[2].tags), vec!["z"]);
}

#[test]
fn log_lines_show_name_time_and_tags() {
    let mut sys = TagSys::new();
    sys.add_ref("x");
    sys.add_ref("y");
    sys.rename(1, "y".to_string(), 0x123456);
    let log = Log::new("task".to_string(), set(&["y", "x"]));
    let spans = get_log_tag_text(&log, &sys);
    assert_eq!(spans.len(), 2);
    assert_eq!(spans[0].text, " y");
    assert_eq!(spans[0].color, Some(0x123456));
    assert_eq!(spans[1].text, " x");
    assert_eq!(spans[1].color, Some(0x00ff0000));

    let line = render_log(&log, &sys, 3725);
    assert_eq!(line.len(), 4);
    assert_eq!(line[0].text, "task");
    assert_eq!(line[0].color, Some(0x00ebdbb2));
    assert_eq!(line[1].text, " 01:02:05");
    assert_eq!(line[1].color, Some(0x83a598));
    assert_eq!(line[2].text, " y");
    assert_eq!(line[3].text, " x");
}

#[test]
fn lists_of_logs_are_rendered_line_by_line() {
    let mut data = SaveData::new("save.dat".to_string());
    data.tags.add_ref("x");
    data.logs.push(Log::new("one".to_string(), set(&["x"])));
    data.logs.push(Log::new("two".to_string(), set(&[])));
    data.past_logs.push(Log::new("old".to_string(), set(&[])));
    let lines = render_log_list(&data, LogType::Active);
    assert_eq!(lines.len(), 2);
    assert_eq!(lines[0][0].text, "one");
    assert_eq!(lines[0][1].text, " 00:00:00");
    assert_eq!(lines[0][2].text, " x");
    assert_eq!(lines[1].len(), 2);
    let lines = render_log_list(&data, LogType::Past);
    assert_eq!(lines.len(), 1);
    assert_eq!(lines[0][0].text, "old");
}

#[test]
fn empty_lists_have_a_message() {
    assert_eq!(render_empty_msg(true), "No completed logs.");
    assert_eq!(render_empty_msg(false), "No active logs.\n Start by creating a log with <S-A>.");
}

#[test]
fn the_log_tab_has_its_title_between_bars() {
    let tab = LogList::new("Logs");
    assert_eq!(tab.get_title(), "| Logs |");
    let line = tab.get_line();
    assert_eq!(line.len(), 2);
    assert_eq!(line[0].text, "\u{f02c} ");
    assert_eq!(line[0].color, Some(0x83a598));
    assert_eq!(line[1].text, "Logs");
}

#[test]
fn blank_data_knows_where_to_save() {
    let data = SaveData::new("here".to_string());
    assert_eq!(data.save_path, Some("here".to_string()));
    assert!(!data.opened_once);
    assert!(data.logs.is_empty());
    assert!(data.past_logs.is_empty());
    assert!(data.tags.tags().is_empty());
    assert_eq!(data.save_target(), Ok("here"));
    let data = SaveData::default();
    assert_eq!(data.save_path, None);
    assert!(data.logs.is_empty());
    assert_eq!(data.save_target(), Err(SaveError::NoSavePath));
    assert_eq!(SaveError::NoSavePath.message(), "no save path set.");
}

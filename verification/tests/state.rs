use kairotui::data::SaveData;
use kairotui::log::{Log, TagSet};
use kairotui::state::{
    add_log, apply_edit, ch_tab, delegate_enter, delete_past_log, delete_selected, display_of,
    edit_matched,
    handle_add, handle_edit, handle_event, handle_input, handle_key, init, render_input_dialog,
    render_popup, Key, State,
};
use kairotui::tab::ListType;
use kairotui::theme::Styled;

fn fresh() -> State {
    init(SaveData::new("save.dat".to_string()))
}

fn tag_names(log: &Log) -> Vec<String> {
    (0..log.tags.len()).map(|i| log.tags.get(i).to_string()).collect()
}

fn counts(state: &State) -> Vec<(String, i32)> {
    state.data.tags.tags().iter().map(|t| (t.name().to_string(), t.refs)).collect()
}

fn type_text(state: &mut State, text: &str) {
    for c in text.chars() {
        assert!(!handle_event(state, Key::Char(c)));
    }
}

#[test]
fn the_application_starts_on_the_active_logs() {
    let state = fresh();
    assert_eq!(state.selected, None);
    assert!(!state.input_dialog_active);
    assert!(!state.popup_active);
    assert_eq!(state.input, "");
    assert_eq!(state.input_default, ("", ""));
    assert!(state.input_display.is_empty());
    assert_eq!(state.main_panel_title, "| Logs |");
    assert_eq!(state.focused_list_idx, 0);
    assert_eq!(state.focused_list, ListType::Log);
    assert_eq!(state.popup_msg.text, "");
    assert_eq!(state.popup_msg.color, None);
}

#[test]
fn reference_counting_over_the_life_of_two_logs() {
    let mut state = fresh();
    handle_add(&mut state, "first tag: work".to_string());
    handle_add(&mut state, "second tag: work".to_string());
    assert_eq!(counts(&state), vec![("work".to_string(), 2)]);
    assert_eq!(state.data.logs.len(), 2);
    assert_eq!(state.data.logs[0].name, "first");
    assert_eq!(tag_names(&state.data.logs[1]), vec!["work"]);

    state.selected = Some(0);
    delete_selected(&mut state);
    assert_eq!(counts(&state), vec![("work".to_string(), 1)]);
    assert_eq!(state.data.logs.len(), 1);
    assert_eq!(state.data.logs[0].name, "second");

    delete_selected(&mut state);
    assert!(counts(&state).is_empty());
    assert!(state.data.logs.is_empty());
}

#[test]
fn a_tag_named_twice_counts_once_for_its_log() {
    let mut state = fresh();
    handle_add(&mut state, "x tag: a y tag: a".to_string());
    assert_eq!(counts(&state), vec![("a".to_string(), 1)]);
    assert_eq!(tag_names(&state.data.logs[0]), vec!["a"]);
    assert_eq!(state.data.logs[0].name, "x  y");
    state.selected = Some(0);
    delete_selected(&mut state);
    assert!(counts(&state).is_empty());
    assert!(state.data.logs.is_empty());

    add_log(&mut state, "z".to_string(), vec!["b".to_string(), "c".to_string(), "b".to_string()]);
    assert_eq!(counts(&state), vec![("b".to_string(), 1), ("c".to_string(), 1)]);
    assert_eq!(tag_names(&state.data.logs[0]), vec!["b", "c"]);
}

#[test]
fn adding_is_refused_where_a_count_would_overflow() {
    let mut state = fresh();
    state.data.tags.add("a").set_refs(i32::MAX - 1);
    handle_add(&mut state, "w tag: a tag: a".to_string());
    assert_eq!(state.data.logs.len(), 1);
    assert_eq!(counts(&state), vec![("a".to_string(), i32::MAX)]);
    state.selected = Some(0);
    delete_selected(&mut state);
    state.selected = None;
    state.data.tags.add("a").refs = i32::MAX;
    handle_add(&mut state, "x tag: a".to_string());
    assert!(state.data.logs.is_empty());
    assert_eq!(counts(&state), vec![("a".to_string(), i32::MAX)]);
    add_log(&mut state, "y".to_string(), vec!["b".to_string()]);
    assert_eq!(state.data.logs.len(), 1);
    assert_eq!(state.data.tags.refs_of("b"), 1);
}

#[test]
fn deleting_without_a_selection_changes_nothing() {
    let mut state = fresh();
    handle_add(&mut state, "first tag: work".to_string());
    delete_selected(&mut state);
    assert_eq!(state.data.logs.len(), 1);
    assert_eq!(counts(&state), vec![("work".to_string(), 1)]);
    state.focused_list = ListType::PastLog;
    delete_past_log(&mut state);
    assert_eq!(state.data.logs.len(), 1);
}

#[test]
fn rename_propagates_and_keeps_the_count() {
    let mut state = fresh();
    handle_add(&mut state, "one tag: work tag: home".to_string());
    handle_add(&mut state, "two tag: work".to_string());
    handle_add(&mut state, "three tag: home".to_string());
    handle_add(&mut state, "four tag: work".to_string());
    state.selected = Some(3);
    delegate_enter(&mut state);
    assert_eq!(tag_names(&state.data.past_logs[0]), vec!["work"]);
    state.selected = Some(0);
    handle_edit(&mut state, "job: #102030".to_string());
    assert!(!state.popup_active);
    let tags = state.data.tags.tags();
    assert_eq!(tags[0].name(), "job");
    assert_eq!(*tags[0].color(), 0x102030);
    assert_eq!(tags[0].refs, 3);
    assert_eq!(tags[1].name(), "home");
    assert_eq!(tags[1].refs, 2);
    assert_eq!(tag_names(&state.data.logs[0]), vec!["home", "job"]);
    assert_eq!(tag_names(&state.data.logs[1]), vec!["job"]);
    assert_eq!(tag_names(&state.data.logs[2]), vec!["home"]);
    assert_eq!(state.data.past_logs.len(), 1);
    assert_eq!(state.data.past_logs[0].name, "four");
    assert!(state.data.past_logs[0].done);
    assert_eq!(tag_names(&state.data.past_logs[0]), vec!["job"]);
    for log in state.data.logs.iter().chain(state.data.past_logs.iter()) {
        for name in tag_names(log) {
            assert!(state.data.tags.position(&name).is_some());
        }
    }
}

#[test]
fn edit_with_a_named_colour() {
    let mut state = fresh();
    handle_add(&mut state, "one tag: work".to_string());
    state.selected = Some(0);
    handle_edit(&mut state, "work: Orange".to_string());
    assert!(!state.popup_active);
    assert_eq!(*state.data.tags.tags()[0].color(), 0xfe8019);
    assert_eq!(state.data.tags.tags()[0].name(), "work");
    assert_eq!(tag_names(&state.data.logs[0]), vec!["work"]);
}

#[test]
fn bad_edits_are_refused_with_a_popup() {
    let inputs = ["nonsense", "work #ff00ff", "work: ff00ff", "work: #zzzzzz", "work: Pink", ""];
    for input in inputs.iter() {
        let mut state = fresh();
        handle_add(&mut state, "one tag: work".to_string());
        state.selected = Some(0);
        handle_edit(&mut state, input.to_string());
        assert!(state.popup_active, "{}", input);
        assert_eq!(state.popup_msg.text, "Bad Input");
        assert_eq!(state.popup_msg.color, Some(0xfb4934));
        assert_eq!(counts(&state), vec![("work".to_string(), 1)]);
        assert_eq!(*state.data.tags.tags()[0].color(), 0x00ff0000);
        assert_eq!(tag_names(&state.data.logs[0]), vec!["work"]);
    }
}

#[test]
fn an_edit_without_a_selected_tag_is_refused() {
    let mut state = fresh();
    handle_add(&mut state, "one tag: work".to_string());
    handle_edit(&mut state, "job: #102030".to_string());
    assert!(state.popup_active);
    assert_eq!(state.data.tags.tags()[0].name(), "work");
    state.popup_active = false;
    state.selected = Some(1);
    handle_edit(&mut state, "job: #102030".to_string());
    assert!(state.popup_active);
    assert_eq!(state.data.tags.tags()[0].name(), "work");
}

#[test]
fn an_edit_is_decided_by_the_match() {
    for matched in [Some(false), None] {
        let mut state = fresh();
        handle_add(&mut state, "one tag: work".to_string());
        state.selected = Some(0);
        edit_matched(&mut state, "job: #102030", matched);
        assert!(state.popup_active);
        assert_eq!(state.data.tags.tags()[0].name(), "work");
    }
    let mut state = fresh();
    handle_add(&mut state, "one tag: work".to_string());
    state.selected = Some(0);
    edit_matched(&mut state, "job: #102030", Some(true));
    assert!(!state.popup_active);
    assert_eq!(state.data.tags.tags()[0].name(), "job");
}

#[test]
fn apply_edit_renames_the_selected_tag() {
    let mut state = fresh();
    handle_add(&mut state, "one tag: a tag: b".to_string());
    state.selected = Some(1);
    apply_edit(&mut state, "a".to_string(), 5);
    assert_eq!(tag_names(&state.data.logs[0]), vec!["a"]);
    assert_eq!(state.data.tags.tags()[1].name(), "a");
    assert_eq!(*state.data.tags.tags()[1].color(), 5);
    assert_eq!(state.data.tags.tags()[1].refs, 1);
}

#[test]
fn enter_finishes_the_selected_log() {
    let mut state = fresh();
    handle_add(&mut state, "one tag: work".to_string());
    handle_add(&mut state, "two".to_string());
    state.selected = Some(0);
    delegate_enter(&mut state);
    assert_eq!(state.data.logs.len(), 1);
    assert_eq!(state.data.logs[0].name, "two");
    assert_eq!(state.data.past_logs.len(), 1);
    assert_eq!(state.data.past_logs[0].name, "one");
    assert!(state.data.past_logs[0].done);
    assert_eq!(tag_names(&state.data.past_logs[0]), vec!["work"]);
    assert_eq!(counts(&state), vec![("work".to_string(), 1)]);

    state.focused_list = ListType::PastLog;
    delegate_enter(&mut state);
    assert_eq!(state.data.past_logs.len(), 1);
    delete_past_log(&mut state);
    assert!(state.data.past_logs.is_empty());
    assert!(counts(&state).is_empty());

    state.focused_list = ListType::Tag;
    delegate_enter(&mut state);
    assert!(state.input_dialog_active);
    assert_eq!(
        state.input_default,
        (" Edit Tag ", "<name>: <hex> (e.g. #FF00FF) or <color name> (e.g. Green)")
    );
}

#[test]
fn tabs_wrap_around() {
    let mut state = fresh();
    state.selected = Some(70000);
    ch_tab(&mut state, true);
    assert_eq!(state.focused_list_idx, 1);
    assert_eq!(state.focused_list, ListType::Tag);
    assert_eq!(state.main_panel_title, "| Tags |");
    assert_eq!(state.selected, Some(70000 - 65535));
    ch_tab(&mut state, true);
    assert_eq!(state.focused_list, ListType::PastLog);
    assert_eq!(state.selected, Some(0));
    ch_tab(&mut state, true);
    assert_eq!(state.focused_list_idx, 0);
    assert_eq!(state.focused_list, ListType::Log);
    ch_tab(&mut state, false);
    assert_eq!(state.focused_list_idx, 2);
    assert_eq!(state.main_panel_title, "| Past Logs |");
    ch_tab(&mut state, false);
    assert_eq!(state.focused_list_idx, 1);
    state.focused_list_idx = usize::MAX;
    ch_tab(&mut state, true);
    assert_eq!(state.focused_list_idx, 2);
    state.selected = None;
    ch_tab(&mut state, false);
    assert_eq!(state.selected, Some(0));
}

#[test]
fn keys_move_the_selection() {
    let mut state = fresh();
    assert!(!handle_key(Key::Char('j'), &mut state));
    assert_eq!(state.selected, Some(0));
    handle_key(Key::Char('n'), &mut state);
    assert_eq!(state.selected, Some(1));
    handle_key(Key::Char('k'), &mut state);
    assert_eq!(state.selected, Some(0));
    handle_key(Key::Char('m'), &mut state);
    assert_eq!(state.selected, Some(0));
    state.selected = None;
    handle_key(Key::Char('k'), &mut state);
    assert_eq!(state.selected, Some(usize::MAX));
    handle_key(Key::Char('j'), &mut state);
    assert_eq!(state.selected, Some(usize::MAX));
}

#[test]
fn command_keys() {
    let mut state = fresh();
    assert!(handle_key(Key::Char('q'), &mut state));
    assert!(!handle_key(Key::Char('x'), &mut state));
    assert!(!handle_key(Key::Esc, &mut state));
    assert!(!handle_key(Key::Other, &mut state));
    handle_key(Key::Tab, &mut state);
    assert_eq!(state.focused_list, ListType::Tag);
    handle_key(Key::Char('A'), &mut state);
    assert!(!state.input_dialog_active);
    handle_key(Key::Char('K'), &mut state);
    assert_eq!(state.focused_list, ListType::Log);
    handle_key(Key::Char('J'), &mut state);
    handle_key(Key::Char('J'), &mut state);
    assert_eq!(state.focused_list, ListType::PastLog);
    handle_key(Key::Char('J'), &mut state);
    handle_key(Key::Char('A'), &mut state);
    assert!(state.input_dialog_active);
    assert_eq!(state.input_default, (" New Log ", "<log_name> (tag: <tag_name>)*"));
}

#[test]
fn a_popup_swallows_the_key() {
    let mut state = fresh();
    state.popup_active = true;
    assert!(!handle_key(Key::Char('q'), &mut state));
    assert!(!state.popup_active);
    assert!(handle_key(Key::Char('q'), &mut state));
}

#[test]
fn delete_key_meets_missing_rows_without_harm() {
    let mut state = fresh();
    handle_add(&mut state, "one tag: work".to_string());
    state.selected = Some(5);
    handle_key(Key::Char('D'), &mut state);
    assert_eq!(state.data.logs.len(), 1);
    handle_key(Key::Enter, &mut state);
    assert_eq!(state.data.logs.len(), 1);
    state.selected = Some(0);
    state.data.tags.rm_ref("work");
    handle_key(Key::Char('D'), &mut state);
    assert_eq!(state.data.logs.len(), 1);
    state.data.tags.add_ref("work");
    handle_key(Key::Char('D'), &mut state);
    assert!(state.data.logs.is_empty());
    assert!(counts(&state).is_empty());

    state.data.past_logs.push(Log::new("old".to_string(), TagSet::new()));
    state.focused_list = ListType::PastLog;
    state.selected = Some(3);
    handle_key(Key::Char('D'), &mut state);
    assert_eq!(state.data.past_logs.len(), 1);
    state.selected = Some(0);
    handle_key(Key::Char('D'), &mut state);
    assert!(state.data.past_logs.is_empty());

    let lost = TagSet::from_names(&vec!["lost".to_string()]);
    state.data.past_logs.push(Log::new("old".to_string(), lost));
    handle_key(Key::Char('D'), &mut state);
    assert_eq!(state.data.past_logs.len(), 1);
    state.data.tags.add_ref("lost");
    state.data.tags.add_ref("lost");
    handle_key(Key::Char('D'), &mut state);
    assert!(state.data.past_logs.is_empty());
    assert_eq!(counts(&state), vec![("lost".to_string(), 1)]);
    state.focused_list = ListType::Tag;
    handle_key(Key::Char('D'), &mut state);
}

#[test]
fn the_dialog_edits_the_input() {
    let mut state = fresh();
    state.input_dialog_active = true;
    assert_eq!(handle_input(Key::Char('a'), &mut state), (None, false));
    assert_eq!(handle_input(Key::Char('b'), &mut state), (None, false));
    assert_eq!(state.input, "ab");
    assert_eq!(handle_input(Key::Backspace, &mut state), (None, false));
    assert_eq!(state.input, "a");
    assert_eq!(handle_input(Key::Tab, &mut state), (None, false));
    assert_eq!(state.input, "a");
    assert_eq!(state.input_display.len(), 1);
    assert_eq!(state.input_display[0].text, "a");
    assert_eq!(handle_input(Key::Esc, &mut state), (None, true));
    assert_eq!(state.input, "a");
    assert_eq!(handle_input(Key::Enter, &mut state), (Some("a".to_string()), true));
    assert_eq!(state.input, "");
    assert_eq!(handle_input(Key::Backspace, &mut state), (None, false));
    assert_eq!(state.input, "");
}

#[test]
fn the_shown_input_marks_the_tags() {
    let mut state = fresh();
    state.input = "write tag: a tag: b".to_string();
    state.update_input_display();
    assert_eq!(state.input_display.len(), 2);
    assert_eq!(state.input_display[0].text, "write");
    assert_eq!(state.input_display[0].color, Some(0x00ebdbb2));
    assert_eq!(state.input_display[1].text, " tag: a tag: b");
    assert_eq!(state.input_display[1].color, Some(0x00fe8019));

    state.input = "write tag: a and".to_string();
    state.update_input_display();
    assert_eq!(state.input_display.len(), 1);
    assert_eq!(state.input_display[0].text, "write tag: a and");
    assert_eq!(state.input_display[0].color, None);

    state.input = "tag: a".to_string();
    state.update_input_display();
    assert_eq!(state.input_display.len(), 1);
    assert_eq!(state.input_display[0].text, "tag: a");
}

#[test]
fn display_depends_on_the_match() {
    let line = display_of("a tag: b", Some(true));
    assert_eq!(line.len(), 2);
    assert_eq!(line[0].text, "a");
    assert_eq!(line[1].text, " tag: b");
    assert_eq!(display_of("a tag: b", Some(false)).len(), 1);
    assert_eq!(display_of("a tag: b", None).len(), 1);
    assert_eq!(display_of("a b", Some(true)).len(), 1);
}

#[test]
fn a_new_log_through_the_dialog() {
    let mut state = fresh();
    assert!(!handle_event(&mut state, Key::Char('A')));
    assert!(state.input_dialog_active);
    type_text(&mut state, "read tag: book");
    assert_eq!(state.input, "read tag: book");
    assert_eq!(state.input_display.len(), 2);
    assert!(!handle_event(&mut state, Key::Enter));
    assert!(!state.input_dialog_active);
    assert_eq!(state.input, "");
    assert_eq!(state.data.logs.len(), 1);
    assert_eq!(state.data.logs[0].name, "read");
    assert_eq!(counts(&state), vec![("book".to_string(), 1)]);
}

#[test]
fn escape_closes_the_dialog_and_keeps_the_input() {
    let mut state = fresh();
    handle_event(&mut state, Key::Char('A'));
    type_text(&mut state, "q");
    assert!(!handle_event(&mut state, Key::Esc));
    assert!(!state.input_dialog_active);
    assert_eq!(state.input, "q");
    assert!(state.data.logs.is_empty());
    assert!(handle_event(&mut state, Key::Char('q')));
}

#[test]
fn a_tag_edit_through_the_dialog() {
    let mut state = fresh();
    handle_add(&mut state, "one tag: work".to_string());
    handle_event(&mut state, Key::Tab);
    assert_eq!(state.selected, Some(0));
    handle_event(&mut state, Key::Enter);
    assert!(state.input_dialog_active);
    type_text(&mut state, "job: Blue");
    handle_event(&mut state, Key::Enter);
    assert!(!state.input_dialog_active);
    assert!(!state.popup_active);
    assert_eq!(state.data.tags.tags()[0].name(), "job");
    assert_eq!(*state.data.tags.tags()[0].color(), 0x83a598);

    handle_event(&mut state, Key::Enter);
    type_text(&mut state, "bad");
    handle_event(&mut state, Key::Enter);
    assert!(state.popup_active);
    assert_eq!(state.data.tags.tags()[0].name(), "job");
    assert!(!handle_event(&mut state, Key::Char('q')));
    assert!(!state.popup_active);
}

#[test]
fn the_dialog_on_past_logs_takes_nothing() {
    let mut state = fresh();
    state.focused_list = ListType::PastLog;
    state.input_dialog_active = true;
    type_text(&mut state, "x tag: y");
    handle_event(&mut state, Key::Enter);
    assert!(!state.input_dialog_active);
    assert!(state.data.logs.is_empty());
    assert!(counts(&state).is_empty());
}

#[test]
fn popup_and_dialog_texts() {
    assert_eq!(render_popup(&Styled { text: "m".to_string(), color: Some(7) }), 7);
    assert_eq!(render_popup(&Styled { text: "m".to_string(), color: None }), 0x00ebdbb2);

    let mut state = fresh();
    state.input_default = (" New Log ", "hint");
    let (line, color) = render_input_dialog(&state);
    assert_eq!(line.len(), 1);
    assert_eq!(line[0].text, "hint");
    assert_eq!(color, 0x00a89984);

    state.input = "a tag: b".to_string();
    state.update_input_display();
    let (line, color) = render_input_dialog(&state);
    assert_eq!(color, 0x00ebdbb2);
    assert_eq!(line.len(), 2);
    assert_eq!(line[0].text, "a");
    assert_eq!(line[1].text, " tag: b\u{2588}");
    assert_eq!(line[1].color, Some(0x00fe8019));
}

use vstd::prelude::*;
use ratatui::widgets::ListState;
use crate::data::SaveData;
use crate::log::{
    deduped, log_name, parse_input, rename_tag, renamed, tag_names, tag_parts, texts, Log, TagSet,
};
use crate::tag::{
    addable, all_added, all_removed, edit_of, parse_edit, removable, TagView, EDIT_PATTERN,
};
use crate::pattern::{is_match, regex_is_match};
use crate::tab::{next_tab_idx, tab_at, ListType, TAB_COUNT};
use crate::text::{chars_of, find, first_at, occurs, slice_chars, string_of};
use crate::theme::{line_view, Styled, StyledView, ORANGE, RED, TEXT, TEXT_ALT};

verus! {

/// A key of the keyboard, as far as the application tells keys apart.
#[derive(Clone, Copy, Debug, PartialEq, Eq, Structural)]
pub enum Key {
    Char(char),
    Enter,
    Tab,
    Esc,
    Backspace,
    Other,
}

/// What the application knows while it runs.
pub struct State {
    pub data: SaveData,
    /// The selected row of the list that is shown.
    pub selected: Option<usize>,
    pub input_dialog_active: bool,
    pub popup_active: bool,
    pub popup_msg: Styled,
    pub input: String,
    /// Title and hint of the input dialog.
    pub input_default: (&'static str, &'static str),
    pub input_display: Vec<Styled>,
    pub main_panel_title: &'static str,
    pub focused_list_idx: usize,
    pub focused_list: ListType,
}

/// The state in which the application starts on `data`: the active logs
/// in focus and nothing selected, no dialog, no popup, no input.
pub fn init(data: SaveData) -> (state: State)
    ensures
        state.data == data,
        state.selected is None,
        !state.input_dialog_active,
        !state.popup_active,
        state.popup_msg@ == (StyledView { text: Seq::empty(), color: None }),
        state.input@ == Seq::<char>::empty(),
        state.input_default == ("", ""),
        state.input_display@ == Seq::<Styled>::empty(),
        state.main_panel_title@ == ListType::Log.title(),
        state.focused_list_idx == 0,
        state.focused_list == ListType::Log,
{
    State {
        data,
        selected: None,
        input_dialog_active: false,
        popup_active: false,
        popup_msg: Styled { text: String::new(), color: None },
        input: String::new(),
        input_default: ("", ""),
        input_display: Vec::new(),
        main_panel_title: ListType::Log.to_str(),
        focused_list_idx: 0,
        focused_list: ListType::Log,
    }
}

/// The selection after a step to the next row: the first row where none
/// was selected.
pub open spec fn next_selected(selected: Option<usize>) -> Option<usize> {
    match selected {
        Some(i) => Some(
            if i == usize::MAX {
                i
            } else {
                (i + 1) as usize
            },
        ),
        None => Some(0),
    }
}

/// The selection after a step to the row before: the last possible row
/// where none was selected.
pub open spec fn previous_selected(selected: Option<usize>) -> Option<usize> {
    match selected {
        Some(i) => Some(
            if i == 0 {
                i
            } else {
                (i - 1) as usize
            },
        ),
        None => Some(usize::MAX),
    }
}

/// The selection after the list was scrolled up by `amount` rows.
pub open spec fn scrolled_up(selected: Option<usize>, amount: u16) -> Option<usize> {
    let i = match selected {
        Some(i) => i,
        None => 0,
    };
    Some(
        if i >= amount {
            (i - amount) as usize
        } else {
            0
        },
    )
}

/// The selection of a list after a step to the next row.
///
/// Trusted: `ratatui::widgets::ListState::select_next` selects the row
/// after the selected one, saturating at the largest index, or row 0
/// where none was selected. The wrapper builds the list state around
/// `selected` with `with_selected` and reads it back with `selected`.
#[verifier::external_body]
fn select_next(selected: Option<usize>) -> (r: Option<usize>)
    ensures
        r == next_selected(selected),
{
    let mut list = ListState::default().with_selected(selected);
    list.select_next();
    list.selected()
}

/// The selection of a list after a step to the row before.
///
/// Trusted: `ratatui::widgets::ListState::select_previous` selects the row
/// before the selected one, saturating at row 0, or the largest index
/// where none was selected.
#[verifier::external_body]
fn select_previous(selected: Option<usize>) -> (r: Option<usize>)
    ensures
        r == previous_selected(selected),
{
    let mut list = ListState::default().with_selected(selected);
    list.select_previous();
    list.selected()
}

/// The selection of a list after it was scrolled up by `amount` rows.
///
/// Trusted: `ratatui::widgets::ListState::scroll_up_by` selects the row
/// `amount` rows before the selected one (before row 0 where none was
/// selected), saturating at row 0.
#[verifier::external_body]
fn scroll_up_by(selected: Option<usize>, amount: u16) -> (r: Option<usize>)
    ensures
        r == scrolled_up(selected, amount),
{
    let mut list = ListState::default().with_selected(selected);
    list.scroll_up_by(amount);
    list.selected()
}

/// `post` is `pre` after the focus moved one tab down or up, wrapping
/// around at the ends: the new tab is shown from its top, under its own
/// title.
pub open spec fn tab_changed(pre: State, post: State, down: bool) -> bool {
    &&& post.focused_list_idx == next_tab_idx(pre.focused_list_idx as int, down)
    &&& post.focused_list == tab_at(post.focused_list_idx as int)
    &&& post.selected == scrolled_up(pre.selected, u16::MAX)
    &&& post.main_panel_title@ == post.focused_list.title()
    &&& post == (State {
        focused_list_idx: post.focused_list_idx,
        focused_list: post.focused_list,
        selected: post.selected,
        main_panel_title: post.main_panel_title,
        ..pre
    })
}

/// Moves the focus one tab down or up.
pub fn ch_tab(state: &mut State, down: bool)
    ensures
        tab_changed(*old(state), *final(state), down),
{
    let prev = state.focused_list_idx;
    let len = TAB_COUNT;
    let moved = if down {
        match prev.checked_add(1) {
            Some(i) => i,
            None => len - 1,
        }
    } else {
        match prev.checked_sub(1) {
            Some(i) => i,
            None => len - 1,
        }
    };
    state.focused_list_idx = moved % len;
    state.focused_list = ListType::at(state.focused_list_idx);
    state.selected = scroll_up_by(state.selected, u16::MAX);
    state.main_panel_title = state.focused_list.to_str();
}

/// `post` is `pre` after the selected active log was deleted: the log is
/// gone, and each of its tags has one reference less. Nothing changes
/// where no row is selected.
pub open spec fn selected_deleted(pre: State, post: State) -> bool {
    match pre.selected {
        None => post == pre,
        Some(i) => {
            &&& post.data.logs@ == pre.data.logs@.remove(i as int)
            &&& post.data.tags@ == all_removed(pre.data.tags@, pre.data.logs@[i as int].tags@)
            &&& post == (State {
                data: SaveData { logs: post.data.logs, tags: post.data.tags, ..pre.data },
                ..pre
            })
        },
    }
}

/// The selected active log can be deleted: it exists, and so do its tags.
pub open spec fn can_delete_selected(pre: State) -> bool {
    pre.selected matches Some(i) ==> i < pre.data.logs@.len() && removable(
        pre.data.tags@,
        pre.data.logs@[i as int].tags@,
    )
}

/// Deletes the selected active log and gives up its references to tags.
pub fn delete_selected(state: &mut State)
    requires
        old(state).focused_list == ListType::Log,
        can_delete_selected(*old(state)),
    ensures
        selected_deleted(*old(state), *final(state)),
{
    if let Some(i) = state.selected {
        state.data.tags.rm_refs(&state.data.logs[i].tags);
        state.data.logs.remove(i);
    }
}

/// `post` is `pre` after the selected past log was deleted: the log is
/// gone, and each of its tags has one reference less. Nothing changes
/// where no row is selected.
pub open spec fn past_log_deleted(pre: State, post: State) -> bool {
    match pre.selected {
        None => post == pre,
        Some(i) => {
            &&& post.data.past_logs@ == pre.data.past_logs@.remove(i as int)
            &&& post.data.tags@ == all_removed(
                pre.data.tags@,
                pre.data.past_logs@[i as int].tags@,
            )
            &&& post == (State {
                data: SaveData {
                    past_logs: post.data.past_logs,
                    tags: post.data.tags,
                    ..pre.data
                },
                ..pre
            })
        },
    }
}

/// The selected past log can be deleted: it exists, and so do its tags.
pub open spec fn can_delete_past_log(pre: State) -> bool {
    pre.selected matches Some(i) ==> i < pre.data.past_logs@.len() && removable(
        pre.data.tags@,
        pre.data.past_logs@[i as int].tags@,
    )
}

/// Deletes the selected past log and gives up its references to tags: a
/// log counts for its tags as long as it is kept, done or not.
pub fn delete_past_log(state: &mut State)
    requires
        old(state).focused_list == ListType::PastLog,
        can_delete_past_log(*old(state)),
    ensures
        past_log_deleted(*old(state), *final(state)),
{
    if let Some(i) = state.selected {
        state.data.tags.rm_refs(&state.data.past_logs[i].tags);
        state.data.past_logs.remove(i);
    }
}

/// `post` is `pre` after a log named `name` with the tags `tags` was
/// added: the new log, not done, carries each of the tags once and is the
/// last active log, and each of its tags has one reference more, however
/// often `tags` names it.
pub open spec fn log_added(pre: State, post: State, name: Seq<char>, tags: Seq<Seq<char>>) -> bool {
    &&& post.data.tags@ == all_added(pre.data.tags@, deduped(tags))
    &&& post.data.logs@.len() == pre.data.logs@.len() + 1
    &&& post.data.logs@.drop_last() == pre.data.logs@
    &&& post.data.logs@.last().name@ == name
    &&& post.data.logs@.last().tags@ == deduped(tags)
    &&& !post.data.logs@.last().done
    &&& post == (State {
        data: SaveData { logs: post.data.logs, tags: post.data.tags, ..pre.data },
        ..pre
    })
}

/// Adds a log named `name` that carries `tags`.
pub fn add_log(state: &mut State, name: String, tags: Vec<String>)
    requires
        addable(old(state).data.tags@, deduped(texts(tags@))),
    ensures
        log_added(*old(state), *final(state), name@, texts(tags@)),
{
    let ghost before = state.data.logs@;
    let carried = TagSet::from_names(&tags);
    state.data.tags.add_refs(&carried.names());
    state.data.logs.push(Log::new(name, carried));
    assert(state.data.logs@.drop_last() =~= before);
}

/// `post` is `pre` after the text `input` of a new log was taken in: the
/// log that the text describes is added, unless a count of references
/// would leave its range; then nothing changes.
pub open spec fn add_handled(pre: State, post: State, input: Seq<char>) -> bool {
    let tags = tag_names(tag_parts(input));
    if addable(pre.data.tags@, deduped(tags)) {
        log_added(pre, post, log_name(input, tag_parts(input)), tags)
    } else {
        post == pre
    }
}

/// Takes the text of a new log in: the log is added to the active logs,
/// and each of its tags is counted once.
pub fn handle_add(state: &mut State, input: String)
    ensures
        add_handled(*old(state), *final(state), input@),
{
    let (name, tags) = parse_input(input.as_str());
    let carried = TagSet::from_names(&tags).names();
    if state.data.tags.can_add_refs(&carried) {
        add_log(state, name, tags);
    }
}

/// `post` is `pre` with the popup up that tells of bad input.
pub open spec fn input_refused(pre: State, post: State) -> bool {
    &&& post.popup_active
    &&& post.popup_msg@ == (StyledView { text: "Bad Input"@, color: Some(RED) })
    &&& post == (State { popup_active: post.popup_active, popup_msg: post.popup_msg, ..pre })
}

/// `logs` are `before` with the tag `from` renamed to `to` on every log.
pub open spec fn logs_renamed(before: Seq<Log>, logs: Seq<Log>, from: Seq<char>, to: Seq<char>) -> bool {
    &&& logs.len() == before.len()
    &&& forall|k: int|
        0 <= k < before.len() ==> (#[trigger] logs[k])@ == before[k]@.with_tags(
            renamed(before[k].tags@, from, to),
        )
}

/// `post` is `pre` after the selected tag got the name `name` and the
/// colour `color`: every log, active or past, that carried the tag's old
/// name carries the new one, and the tag keeps its count.
pub open spec fn edit_applied(pre: State, post: State, name: Seq<char>, color: u32) -> bool {
    let i = pre.selected.unwrap() as int;
    let from = pre.data.tags@[i].name;
    &&& post.data.tags@ == pre.data.tags@.update(
        i,
        TagView { name, color, refs: pre.data.tags@[i].refs },
    )
    &&& logs_renamed(pre.data.logs@, post.data.logs@, from, name)
    &&& logs_renamed(pre.data.past_logs@, post.data.past_logs@, from, name)
    &&& post == (State {
        data: SaveData {
            logs: post.data.logs,
            past_logs: post.data.past_logs,
            tags: post.data.tags,
            ..pre.data
        },
        ..pre
    })
}

/// Gives the selected tag a new name and colour, and renames the tag on
/// every log that carries it.
pub fn apply_edit(state: &mut State, name: String, color: u32)
    requires
        old(state).selected matches Some(i) && i < old(state).data.tags@.len(),
    ensures
        edit_applied(*old(state), *final(state), name@, color),
{
    let i = state.selected.unwrap();
    let from = state.data.tags.get(i).name().to_owned();
    rename_tag(&mut state.data.logs, from.as_str(), name.as_str());
    rename_tag(&mut state.data.past_logs, from.as_str(), name.as_str());
    state.data.tags.rename(i, name, color);
}

/// What a rename does to the tags of one log: a log that carried the old
/// name carries the new one and, where the names differ, the old one no
/// more; a log that did not carry the old name is as it was.
pub open spec fn tag_moved(before: Seq<Seq<char>>, after: Seq<Seq<char>>, from: Seq<char>, to: Seq<char>) -> bool {
    &&& before.contains(from) ==> after.contains(to)
    &&& before.contains(from) && to != from ==> !after.contains(from)
    &&& !before.contains(from) ==> after == before
}

/// Renaming moves the tag on one list of names.
pub proof fn lemma_renamed(tags: Seq<Seq<char>>, from: Seq<char>, to: Seq<char>)
    ensures
        tag_moved(tags, renamed(tags, from, to), from, to),
{
    let after = renamed(tags, from, to);
    if tags.contains(from) {
        let rest = crate::log::without(tags, from);
        let keep = |n: Seq<char>| n != from;
        broadcast use vstd::seq_lib::group_filter_ensures;

        if !rest.contains(to) {
            assert(rest.push(to)[rest.len() as int] == to);
        }
        if to != from && after.contains(from) {
            let j = choose|j: int| 0 <= j < after.len() && after[j] == from;
            if j < rest.len() {
                assert(keep(rest[j]));
            }
        }
    }
}

/// A rename reaches every log: after the selected tag was renamed, each
/// log, active or past, that carried the old name carries the new one
/// and, where the names differ, the old one no more; a log that did not
/// carry the old name is as it was; and the tag has the count it had.
pub proof fn lemma_rename_propagates(pre: State, post: State, name: Seq<char>, color: u32)
    requires
        pre.selected matches Some(i) && i < pre.data.tags@.len(),
        edit_applied(pre, post, name, color),
    ensures
        ({
            let i = pre.selected.unwrap() as int;
            let from = pre.data.tags@[i].name;
            &&& post.data.tags@[i].refs == pre.data.tags@[i].refs
            &&& post.data.tags@[i].name == name
            &&& post.data.tags@.len() == pre.data.tags@.len()
            &&& post.data.logs@.len() == pre.data.logs@.len()
            &&& post.data.past_logs@.len() == pre.data.past_logs@.len()
            &&& forall|k: int|
                0 <= k < pre.data.logs@.len() ==> tag_moved(
                    pre.data.logs@[k].tags@,
                    (#[trigger] post.data.logs@[k]).tags@,
                    from,
                    name,
                )
            &&& forall|k: int|
                0 <= k < pre.data.past_logs@.len() ==> tag_moved(
                    pre.data.past_logs@[k].tags@,
                    (#[trigger] post.data.past_logs@[k]).tags@,
                    from,
                    name,
                )
        }),
{
    let i = pre.selected.unwrap() as int;
    let from = pre.data.tags@[i].name;
    assert forall|k: int| 0 <= k < pre.data.logs@.len() implies tag_moved(
        pre.data.logs@[k].tags@,
        (#[trigger] post.data.logs@[k]).tags@,
        from,
        name,
    ) by {
        lemma_renamed(pre.data.logs@[k].tags@, from, name);
        assert(post.data.logs@[k]@ == pre.data.logs@[k]@.with_tags(
            renamed(pre.data.logs@[k].tags@, from, name),
        ));
    }
    assert forall|k: int| 0 <= k < pre.data.past_logs@.len() implies tag_moved(
        pre.data.past_logs@[k].tags@,
        (#[trigger] post.data.past_logs@[k]).tags@,
        from,
        name,
    ) by {
        lemma_renamed(pre.data.past_logs@[k].tags@, from, name);
        assert(post.data.past_logs@[k]@ == pre.data.past_logs@[k]@.with_tags(
            renamed(pre.data.past_logs@[k].tags@, from, name),
        ));
    }
}

/// An edit is taken where it matches the pattern of edits (`matched`),
/// writes a name and a colour, and a tag is selected.
pub open spec fn edit_taken(pre: State, input: Seq<char>, matched: Option<bool>) -> bool {
    &&& matched == Some(true)
    &&& edit_of(input) is Some
    &&& pre.selected matches Some(i) && i < pre.data.tags@.len()
}

/// `post` is `pre` after the edit `input` of the selected tag was decided
/// on, given whether it matches the pattern of edits: the tag is renamed
/// and recoloured where the edit is taken, else nothing changes but the
/// popup, which tells of bad input.
pub open spec fn edit_decided(pre: State, post: State, input: Seq<char>, matched: Option<bool>) -> bool {
    if edit_taken(pre, input, matched) {
        edit_applied(pre, post, edit_of(input).unwrap().0, edit_of(input).unwrap().1)
    } else {
        input_refused(pre, post)
    }
}

/// `post` is `pre` after the edit `input` of the selected tag was taken
/// in.
pub open spec fn edit_handled(pre: State, post: State, input: Seq<char>) -> bool {
    edit_decided(pre, post, input, regex_is_match(EDIT_PATTERN@, input))
}

/// Decides on an edit, given whether it matches the pattern of edits.
pub fn edit_matched(state: &mut State, input: &str, matched: Option<bool>)
    ensures
        edit_decided(*old(state), *final(state), input@, matched),
{
    let selected_ok = match state.selected {
        Some(i) => i < state.data.tags.len(),
        None => false,
    };
    let edit = if matched == Some(true) && selected_ok {
        parse_edit(input)
    } else {
        None
    };
    match edit {
        Some((name, color)) => {
            apply_edit(state, name, color);
        },
        None => {
            state.popup_msg = Styled { text: "Bad Input".to_owned(), color: Some(RED) };
            state.popup_active = true;
        },
    }
}

/// Takes the edit of the selected tag in, written as a name, a colon and
/// a colour.
pub fn handle_edit(state: &mut State, input: String)
    ensures
        edit_handled(*old(state), *final(state), input@),
{
    let matched = is_match(EDIT_PATTERN, input.as_str());
    edit_matched(state, input.as_str(), matched);
}

/// The regular expression of an input that ends in a tag.
pub const TAIL_PATTERN: &'static str = r"(tag:\s(\w+))+$";

/// What stands before the first tag of an input.
pub const TAG_MARK: &'static str = " tag: ";

/// How an input is shown, given whether it ends in a tag: the text
/// before the first tag mark in the colour of text and the rest in the
/// colour of tags where it ends in a tag and holds a tag mark, else as
/// one piece without a colour of its own.
pub open spec fn displayed(input: Seq<char>, matched: Option<bool>) -> Seq<StyledView> {
    if matched == Some(true) && occurs(input, TAG_MARK@) {
        let i = choose|i: int| first_at(input, TAG_MARK@, i);
        seq![
            StyledView { text: input.take(i), color: Some(TEXT) },
            StyledView { text: input.skip(i), color: Some(ORANGE) },
        ]
    } else {
        seq![StyledView { text: input, color: None }]
    }
}

/// The pieces that show an input, given whether it ends in a tag.
pub fn display_of(input: &str, matched: Option<bool>) -> (line: Vec<Styled>)
    ensures
        line_view(line@) == displayed(input@, matched),
{
    let text = chars_of(input);
    let mut line: Vec<Styled> = Vec::new();
    if matched == Some(true) {
        if let Some(i) = find(&text, &chars_of(TAG_MARK)) {
            proof {
                let k = choose|k: int| first_at(input@, TAG_MARK@, k);
                assert(i == k);
            }
            let n = text.len();
            let head = slice_chars(&text, 0, i);
            let tail = slice_chars(&text, i, n);
            assert(head@ =~= input@.take(i as int));
            assert(tail@ =~= input@.skip(i as int));
            line.push(Styled { text: string_of(&head), color: Some(TEXT) });
            line.push(Styled { text: string_of(&tail), color: Some(ORANGE) });
            assert(line_view(line@) =~= displayed(input@, matched));
            return line;
        }
    }
    line.push(Styled { text: input.to_owned(), color: None });
    assert(line_view(line@) =~= displayed(input@, matched));
    line
}

impl State {
    /// How the input is shown.
    pub open spec fn input_shown(input: Seq<char>) -> Seq<StyledView> {
        displayed(input, regex_is_match(TAIL_PATTERN@, input))
    }

    /// Brings the shown input up to date with the input.
    pub fn update_input_display(&mut self)
        ensures
            line_view(final(self).input_display@) == State::input_shown(old(self).input@),
            *final(self) == (State { input_display: final(self).input_display, ..*old(self) }),
    {
        let matched = is_match(TAIL_PATTERN, self.input.as_str());
        self.input_display = display_of(self.input.as_str(), matched);
    }
}

/// The input after `key` was typed into the dialog.
pub open spec fn typed(input: Seq<char>, key: Key) -> Seq<char> {
    match key {
        Key::Enter => Seq::empty(),
        Key::Backspace => if input.len() > 0 {
            input.drop_last()
        } else {
            input
        },
        Key::Char(c) => input.push(c),
        _ => input,
    }
}

/// `post` is `pre` after `key` was typed into the dialog, and `r` what the
/// dialog hands out: on Enter the input, which is then emptied, and that
/// the dialog is finished; on Escape only that it is finished, with
/// nothing else changed; on any other key the edited input. The shown
/// input follows the input.
pub open spec fn input_handled(pre: State, post: State, key: Key, r: (Option<String>, bool)) -> bool {
    if key == Key::Esc {
        post == pre && r.0 is None && r.1
    } else {
        &&& post.input@ == typed(pre.input@, key)
        &&& line_view(post.input_display@) == State::input_shown(post.input@)
        &&& post == (State { input: post.input, input_display: post.input_display, ..pre })
        &&& r.1 == (key == Key::Enter)
        &&& key == Key::Enter ==> r.0 is Some && r.0.unwrap()@ == pre.input@
        &&& key != Key::Enter ==> r.0 is None
    }
}

/// Handles a key that was typed into the input dialog.
pub fn handle_input(key: Key, state: &mut State) -> (r: (Option<String>, bool))
    ensures
        input_handled(*old(state), *final(state), key, r),
{
    match key {
        Key::Enter => {
            let ret = Some(state.input.clone());
            state.input = String::new();
            state.update_input_display();
            return (ret, true);
        },
        Key::Esc => {
            return (None, true);
        },
        Key::Backspace => {
            let mut text = chars_of(state.input.as_str());
            text.pop();
            state.input = string_of(&text);
        },
        Key::Char(c) => {
            let mut text = chars_of(state.input.as_str());
            text.push(c);
            state.input = string_of(&text);
        },
        _ => {},
    }
    state.update_input_display();
    (None, false)
}

/// Title and hint of the dialog that takes a new log.
pub open spec fn new_log_dialog() -> (&'static str, &'static str) {
    (" New Log ", "<log_name> (tag: <tag_name>)*")
}

/// Title and hint of the dialog that takes the edit of a tag.
pub open spec fn edit_tag_dialog() -> (&'static str, &'static str) {
    (" Edit Tag ", "<name>: <hex> (e.g. #FF00FF) or <color name> (e.g. Green)")
}

/// `post` is `pre` with the input dialog opened under `dialog`.
pub open spec fn dialog_opened(pre: State, post: State, dialog: (&'static str, &'static str)) -> bool {
    post == (State { input_dialog_active: true, input_default: dialog, ..pre })
}

/// `post` is `pre` after the selected active log was finished: it is
/// done and has moved to the end of the past logs. Nothing changes where
/// no row is selected.
pub open spec fn selected_finished(pre: State, post: State) -> bool {
    match pre.selected {
        None => post == pre,
        Some(i) => {
            &&& post.data.logs@ == pre.data.logs@.remove(i as int)
            &&& post.data.past_logs@.len() == pre.data.past_logs@.len() + 1
            &&& post.data.past_logs@.drop_last() == pre.data.past_logs@
            &&& post.data.past_logs@.last()@ == pre.data.logs@[i as int]@.finished()
            &&& post == (State {
                data: SaveData {
                    logs: post.data.logs,
                    past_logs: post.data.past_logs,
                    ..pre.data
                },
                ..pre
            })
        },
    }
}

/// `post` is `pre` after Enter was pressed on the list in focus: on the
/// active logs the selected log is finished, on the tags the dialog
/// opens that edits the selected tag, on the past logs nothing happens.
pub open spec fn enter_delegated(pre: State, post: State) -> bool {
    match pre.focused_list {
        ListType::Log => selected_finished(pre, post),
        ListType::Tag => dialog_opened(pre, post, edit_tag_dialog()),
        ListType::PastLog => post == pre,
    }
}

/// Handles Enter on the list in focus.
pub fn delegate_enter(state: &mut State)
    requires
        old(state).focused_list == ListType::Log ==> (old(state).selected matches Some(i) ==> i
            < old(state).data.logs@.len()),
    ensures
        enter_delegated(*old(state), *final(state)),
{
    match state.focused_list {
        ListType::Log => {
            if let Some(i) = state.selected {
                let ghost before = state.data.past_logs@;
                let mut log = state.data.logs.remove(i);
                log.done = true;
                state.data.past_logs.push(log);
                assert(state.data.past_logs@.drop_last() =~= before);
            }
        },
        ListType::Tag => {
            state.input_dialog_active = true;
            state.input_default.0 = " Edit Tag ";
            state.input_default.1 = "<name>: <hex> (e.g. #FF00FF) or <color name> (e.g. Green)";
        },
        _ => {},
    }
}

/// The colour in which a popup shows `msg`: the message's own, or that
/// of text.
pub fn render_popup(msg: &Styled) -> (color: u32)
    ensures
        color == (match msg.color {
            Some(c) => c,
            None => TEXT,
        }),
{
    match msg.color {
        Some(c) => c,
        None => TEXT,
    }
}

/// The character that marks the place of the next input.
pub const CURSOR: char = '\u{2588}';

/// What the input dialog shows: the hint of the dialog while the input
/// is empty, else the shown input with the cursor behind its last piece.
pub open spec fn dialog_text(pre: State) -> Seq<StyledView> {
    if pre.input@.len() == 0 {
        seq![StyledView { text: pre.input_default.1@, color: None }]
    } else {
        let shown = line_view(pre.input_display@);
        shown.update(
            shown.len() - 1,
            StyledView { text: shown.last().text.push(CURSOR), color: shown.last().color },
        )
    }
}

/// What the input dialog shows, and the colour of the dialog's text: that
/// of text beside an input, a paler one beside the hint.
pub fn render_input_dialog(state: &State) -> (r: (Vec<Styled>, u32))
    requires
        state.input@.len() > 0 ==> state.input_display@.len() > 0,
    ensures
        line_view(r.0@) == dialog_text(*state),
        r.1 == (if state.input@.len() == 0 {
            TEXT_ALT
        } else {
            TEXT
        }),
{
    let mut line: Vec<Styled> = Vec::new();
    if state.input.as_str().is_empty() {
        line.push(Styled { text: state.input_default.1.to_owned(), color: None });
        assert(line_view(line@) =~= dialog_text(*state));
        return (line, TEXT_ALT);
    }
    let n = state.input_display.len();
    let mut i: usize = 0;
    while i < n - 1
        invariant
            n == state.input_display@.len(),
            n > 0,
            i <= n - 1,
            line@.len() == i,
            forall|j: int| 0 <= j < i ==> (#[trigger] line@[j])@ == state.input_display@[j]@,
        decreases n - 1 - i,
    {
        let piece = &state.input_display[i];
        line.push(Styled { text: piece.text.clone(), color: piece.color });
        i += 1;
    }
    let last = &state.input_display[n - 1];
    let mut text = chars_of(last.text.as_str());
    text.push(CURSOR);
    line.push(Styled { text: string_of(&text), color: last.color });
    assert(line_view(line@) =~= dialog_text(*state));
    (line, TEXT)
}

/// Enter can be handled: on the active logs the selected log exists.
pub open spec fn can_delegate_enter(pre: State) -> bool {
    pre.focused_list == ListType::Log ==> (pre.selected matches Some(i) ==> i
        < pre.data.logs@.len())
}

/// `post` is `pre` after the command key `key` was handled outside the
/// input dialog, and `quit` whether the application is to end. A popup
/// swallows the key and goes away. Otherwise `q` quits; `A` opens the
/// dialog for a new log on the active logs; `D` deletes the selected log
/// of the active or the past logs; `n`, `j` select the next row and `m`,
/// `k` the row before; `J`, Tab and `K` change the tab; Enter is handed
/// to the list in focus. A command that meets no row to act on changes
/// nothing.
pub open spec fn key_handled(pre: State, post: State, key: Key, quit: bool) -> bool {
    if pre.popup_active {
        post == (State { popup_active: false, ..pre }) && !quit
    } else {
        match key {
            Key::Char(c) => {
                if c == 'q' {
                    post == pre && quit
                } else if c == 'A' {
                    &&& !quit
                    &&& if pre.focused_list == ListType::Log {
                        dialog_opened(pre, post, new_log_dialog())
                    } else {
                        post == pre
                    }
                } else if c == 'D' {
                    &&& !quit
                    &&& match pre.focused_list {
                        ListType::Log => if can_delete_selected(pre) {
                            selected_deleted(pre, post)
                        } else {
                            post == pre
                        },
                        ListType::PastLog => if can_delete_past_log(pre) {
                            past_log_deleted(pre, post)
                        } else {
                            post == pre
                        },
                        ListType::Tag => post == pre,
                    }
                } else if c == 'n' || c == 'j' {
                    post == (State { selected: next_selected(pre.selected), ..pre }) && !quit
                } else if c == 'm' || c == 'k' {
                    post == (State { selected: previous_selected(pre.selected), ..pre }) && !quit
                } else if c == 'J' {
                    tab_changed(pre, post, true) && !quit
                } else if c == 'K' {
                    tab_changed(pre, post, false) && !quit
                } else {
                    post == pre && !quit
                }
            },
            Key::Enter => {
                &&& !quit
                &&& if can_delegate_enter(pre) {
                    enter_delegated(pre, post)
                } else {
                    post == pre
                }
            },
            Key::Tab => tab_changed(pre, post, true) && !quit,
            _ => post == pre && !quit,
        }
    }
}

/// Handles a command key outside the input dialog, and says whether the
/// application is to end.
pub fn handle_key(key: Key, state: &mut State) -> (quit: bool)
    ensures
        key_handled(*old(state), *final(state), key, quit),
{
    if state.popup_active {
        state.popup_active = false;
        return false;
    }
    match key {
        Key::Char(c) => {
            if c == 'q' {
                return true;
            } else if c == 'A' {
                if state.focused_list == ListType::Log {
                    state.input_dialog_active = true;
                    state.input_default.0 = " New Log ";
                    state.input_default.1 = "<log_name> (tag: <tag_name>)*";
                }
            } else if c == 'D' {
                match state.focused_list {
                    ListType::Log => {
                        let ok = match state.selected {
                            Some(i) => i < state.data.logs.len() && state.data.tags.can_rm_refs(
                                &state.data.logs[i].tags,
                            ),
                            None => true,
                        };
                        if ok {
                            delete_selected(state);
                        }
                    },
                    ListType::PastLog => {
                        let ok = match state.selected {
                            Some(i) => i < state.data.past_logs.len()
                                && state.data.tags.can_rm_refs(&state.data.past_logs[i].tags),
                            None => true,
                        };
                        if ok {
                            delete_past_log(state);
                        }
                    },
                    _ => {},
                }
            } else if c == 'n' || c == 'j' {
                state.selected = select_next(state.selected);
            } else if c == 'm' || c == 'k' {
                state.selected = select_previous(state.selected);
            } else if c == 'J' {
                ch_tab(state, true);
            } else if c == 'K' {
                ch_tab(state, false);
            }
        },
        Key::Enter => {
            let ok = match state.focused_list {
                ListType::Log => match state.selected {
                    Some(i) => i < state.data.logs.len(),
                    None => true,
                },
                _ => true,
            };
            if ok {
                delegate_enter(state);
            }
        },
        Key::Tab => {
            ch_tab(state, true);
        },
        _ => {},
    }
    false
}

/// `post` is `mid` after the text that the dialog handed out, if any, was
/// taken in by the list in focus: as a new log on the active logs, as the
/// edit of the selected tag on the tags.
pub open spec fn text_taken(mid: State, post: State, text: Option<Seq<char>>) -> bool {
    match text {
        Some(input) => match mid.focused_list {
            ListType::Log => add_handled(mid, post, input),
            ListType::Tag => edit_handled(mid, post, input),
            ListType::PastLog => post == mid,
        },
        None => post == mid,
    }
}

/// `post` is `pre` after the key `key` was handled, and `quit` whether
/// the application is to end. Outside the input dialog the key is a
/// command. Inside it the key edits the input; Enter hands the input to
/// the list in focus, and Enter and Escape close the dialog.
pub open spec fn event_handled(pre: State, post: State, key: Key, quit: bool) -> bool {
    if !pre.input_dialog_active {
        key_handled(pre, post, key, quit)
    } else {
        &&& !quit
        &&& post.input_dialog_active == !(key == Key::Enter || key == Key::Esc)
        &&& exists|mid: State, r: (Option<String>, bool)|
            #![trigger input_handled(pre, mid, key, r)]
            {
                &&& input_handled(pre, mid, key, r)
                &&& text_taken(
                    mid,
                    State { input_dialog_active: mid.input_dialog_active, ..post },
                    if key == Key::Enter {
                        Some(pre.input@)
                    } else {
                        None
                    },
                )
            }
    }
}

/// Handles one key of the keyboard, and says whether the application is
/// to end.
pub fn handle_event(state: &mut State, key: Key) -> (quit: bool)
    ensures
        event_handled(*old(state), *final(state), key, quit),
{
    if !state.input_dialog_active {
        return handle_key(key, state);
    }
    let ghost pre = *state;
    let res = handle_input(key, state);
    let ghost mid = *state;
    let ghost r = res;
    let finished = res.1;
    match state.focused_list {
        ListType::Log => {
            if let Some(text) = res.0 {
                handle_add(state, text);
            }
        },
        ListType::Tag => {
            if let Some(text) = res.0 {
                handle_edit(state, text);
            }
        },
        _ => {},
    }
    let ghost taken = *state;
    state.input_dialog_active = !finished;
    proof {
        assert(taken.input_dialog_active == mid.input_dialog_active);
        assert(taken == (State { input_dialog_active: mid.input_dialog_active, ..*state }));
        assert(input_handled(pre, mid, key, r));
    }
    false
}

} // verus!

use vstd::prelude::*;
use crate::theme::{is_icon_text, unicode_icon, Styled, StyledView, AQUA, BLUE, RED};

verus! {

/// The lists that the main panel can show, one per tab.
#[derive(Debug, Clone, Copy, PartialEq, Eq, Structural)]
pub enum ListType {
    Log,
    Tag,
    PastLog,
}

impl Default for ListType {
    fn default() -> (t: Self)
        ensures
            t == ListType::Log,
    {
        ListType::Log
    }
}

/// The code point of the icon of tabs.
pub const TAB_ICON: u32 = 0xf02c;

/// The number of tabs.
pub const TAB_COUNT: usize = 3;

/// The tab at position `idx` in the order in which the tabs are shown.
pub open spec fn tab_at(idx: int) -> ListType {
    if idx == 0 {
        ListType::Log
    } else if idx == 1 {
        ListType::Tag
    } else {
        ListType::PastLog
    }
}

/// The position of the tab reached from position `idx` by one step down
/// or up: a step beyond either end of the positions leads to the last
/// tab, and positions count modulo the number of tabs.
pub open spec fn next_tab_idx(idx: int, down: bool) -> int {
    let moved = if down {
        if idx == usize::MAX {
            TAB_COUNT - 1
        } else {
            idx + 1
        }
    } else {
        if idx == 0 {
            TAB_COUNT - 1
        } else {
            idx - 1
        }
    };
    moved % (TAB_COUNT as int)
}

impl ListType {
    /// The tabs in the order in which they are shown.
    pub const TYPES: [ListType; 3] = [ListType::Log, ListType::Tag, ListType::PastLog];

    /// The tab at position `idx`.
    pub fn at(idx: usize) -> (t: ListType)
        requires
            idx < TAB_COUNT,
        ensures
            t == tab_at(idx as int),
    {
        if idx == 0 {
            ListType::Log
        } else if idx == 1 {
            ListType::Tag
        } else {
            ListType::PastLog
        }
    }

    /// The title of the main panel while this tab is shown.
    pub open spec fn title(self) -> Seq<char> {
        match self {
            ListType::Log => "| Logs |"@,
            ListType::Tag => "| Tags |"@,
            ListType::PastLog => "| Past Logs |"@,
        }
    }

    /// The name of the tab in the list of tabs.
    pub open spec fn label(self) -> Seq<char> {
        match self {
            ListType::Log => "Logs"@,
            ListType::Tag => "Tags"@,
            ListType::PastLog => "Past Logs"@,
        }
    }

    /// The colour of the tab's icon.
    pub open spec fn icon_color(self) -> u32 {
        match self {
            ListType::Log => BLUE,
            ListType::Tag => RED,
            ListType::PastLog => AQUA,
        }
    }

    /// `line` is the line of this tab in the list of tabs: the icon of
    /// tabs in the tab's colour, then the tab's name.
    pub open spec fn is_tab_line(self, line: Seq<Styled>) -> bool {
        &&& line.len() == 2
        &&& is_icon_text(TAB_ICON, line[0].text@)
        &&& line[0].color == Some(self.icon_color())
        &&& line[1]@ == (StyledView { text: self.label(), color: None })
    }

    /// The line of this tab in the list of tabs.
    pub fn to_span(self) -> (line: Vec<Styled>)
        ensures
            self.is_tab_line(line@),
    {
        let (color, name) = match self {
            ListType::Log => (BLUE, "Logs"),
            ListType::Tag => (RED, "Tags"),
            ListType::PastLog => (AQUA, "Past Logs"),
        };
        let mut line: Vec<Styled> = Vec::new();
        line.push(Styled { text: unicode_icon(TAB_ICON), color: Some(color) });
        line.push(Styled { text: name.to_owned(), color: None });
        line
    }

    /// The title of the main panel while this tab is shown.
    pub fn to_str(self) -> (s: &'static str)
        ensures
            s@ == self.title(),
    {
        match self {
            ListType::Log => "| Logs |",
            ListType::Tag => "| Tags |",
            ListType::PastLog => "| Past Logs |",
        }
    }
}

/// What a tab offers to the frame around it.
pub trait Tab {
    /// The list that the tab shows.
    spec fn list(&self) -> ListType;

    /// The title of the main panel while the tab is shown.
    spec fn title(&self) -> Seq<char>;

    /// The title of the main panel while the tab is shown.
    fn get_title(&self) -> (t: &str)
        ensures
            t@ == self.title(),
    ;

    /// The line of the tab in the list of tabs.
    fn get_line(&self) -> (line: Vec<Styled>)
        ensures
            self.list().is_tab_line(line@),
    ;
}

/// The lines of the list of tabs, in the order of the tabs.
pub fn render_tab_list() -> (lines: Vec<Vec<Styled>>)
    ensures
        lines@.len() == TAB_COUNT,
        forall|i: int| 0 <= i < TAB_COUNT ==> tab_at(i).is_tab_line((#[trigger] lines@[i])@),
{
    let mut lines: Vec<Vec<Styled>> = Vec::new();
    let mut i: usize = 0;
    while i < TAB_COUNT
        invariant
            i <= TAB_COUNT,
            lines@.len() == i,
            forall|j: int| 0 <= j < i ==> tab_at(j).is_tab_line((#[trigger] lines@[j])@),
        decreases TAB_COUNT - i,
    {
        lines.push(ListType::at(i).to_span());
        i += 1;
    }
    lines
}

} // verus!

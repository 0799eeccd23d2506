use vstd::prelude::*;
use std::time::{Duration, Instant};
use crate::data::SaveData;
use crate::pattern::{find_all, regex_find_all};
use crate::tab::{ListType, Tab};
use crate::tag::{has_tag, index_of, lemma_index_of, TagSys, TagView};
use crate::text::{
    chars_of, push_str, push_two_digits, remove_all, removed, same_text, string_of, trim,
    trimmed, two_digits,
};
use crate::theme::{line_view, Styled, StyledView, BLUE, TEXT};

verus! {

/// `std::time::Instant`: a point on the monotonic clock. Nothing of it is
/// visible to the verifier.
#[verifier::external_type_specification]
#[verifier::external_body]
pub struct ExInstant(std::time::Instant);

/// The current instant.
///
/// Trusted: `Instant::now` returns; what it returns depends on the clock,
/// so nothing is stated of it.
#[verifier::external_body]
fn now() -> Instant {
    Instant::now()
}

/// The time that passes from the instant `start` to the instant `end`,
/// none where `end` is the earlier, as
/// `Instant::saturating_duration_since` reports it.
pub uninterp spec fn span_between(start: Instant, end: Instant) -> Duration;

/// The whole seconds that a span of time holds, as `Duration::as_secs`
/// reports them.
pub uninterp spec fn whole_seconds_of(span: Duration) -> u64;

/// The time from `start` to `end`, zero where `end` is the earlier.
///
/// Trusted: `Instant::saturating_duration_since` does not panic, and
/// depends on the two instants alone, not on the clock; its result is
/// given the name `span_between`.
#[verifier::external_body]
fn time_between(start: &Instant, end: &Instant) -> (span: Duration)
    ensures
        span == span_between(*start, *end),
{
    end.saturating_duration_since(*start)
}

/// The whole seconds of a span of time.
///
/// Trusted: `Duration::as_secs` does not panic, and depends on the span
/// alone; its result is given the name `whole_seconds_of`.
#[verifier::external_body]
fn whole_seconds(span: &Duration) -> (secs: u64)
    ensures
        secs == whole_seconds_of(*span),
{
    span.as_secs()
}

/// The names of the tags on one log: a set, kept in the order of arrival.
pub struct TagSet {
    names: Vec<String>,
}

/// The texts of a list of strings.
pub open spec fn texts(v: Seq<String>) -> Seq<Seq<char>> {
    v.map_values(|s: String| s@)
}

impl View for TagSet {
    type V = Seq<Seq<char>>;

    closed spec fn view(&self) -> Seq<Seq<char>> {
        texts(self.names@)
    }
}

/// The names of `names` without repetitions, each at its first place.
pub open spec fn deduped(names: Seq<Seq<char>>) -> Seq<Seq<char>>
    decreases names.len(),
{
    if names.len() == 0 {
        names
    } else {
        let init = deduped(names.drop_last());
        if init.contains(names.last()) {
            init
        } else {
            init.push(names.last())
        }
    }
}

/// `deduped` holds each name once, and exactly the names of its argument.
pub proof fn lemma_deduped(names: Seq<Seq<char>>)
    ensures
        deduped(names).no_duplicates(),
        forall|n: Seq<char>| deduped(names).contains(n) <==> names.contains(n),
    decreases names.len(),
{
    if names.len() > 0 {
        let init = names.drop_last();
        lemma_deduped(init);
        let d = deduped(init);
        let e = deduped(names);
        assert forall|n: Seq<char>| e.contains(n) <==> names.contains(n) by {
            assert(d.contains(n) <==> init.contains(n));
            if names.contains(n) {
                let i = choose|i: int| 0 <= i < names.len() && names[i] == n;
                if i < init.len() {
                    assert(init[i] == n);
                    assert(init.contains(n));
                    let k = choose|k: int| 0 <= k < d.len() && d[k] == n;
                    assert(e[k] == n);
                } else if d.contains(n) {
                    let k = choose|k: int| 0 <= k < d.len() && d[k] == n;
                    assert(e[k] == n);
                } else {
                    assert(e[d.len() as int] == n);
                }
            }
            if e.contains(n) {
                let k = choose|k: int| 0 <= k < e.len() && e[k] == n;
                if k < d.len() {
                    assert(d[k] == n);
                    assert(d.contains(n));
                    let i = choose|i: int| 0 <= i < init.len() && init[i] == n;
                    assert(names[i] == n);
                } else {
                    assert(names[names.len() - 1] == n);
                }
            }
        }
    }
}

/// The names of a log after the tag `from` was renamed to `to`: a log
/// that carried `from` carries `to` in its place, once.
pub open spec fn renamed(tags: Seq<Seq<char>>, from: Seq<char>, to: Seq<char>) -> Seq<Seq<char>> {
    if tags.contains(from) {
        let rest = without(tags, from);
        if rest.contains(to) {
            rest
        } else {
            rest.push(to)
        }
    } else {
        tags
    }
}

/// A list without repetitions is its own set of names: a set that is
/// written out with `names` and read back with `from_names` is the set it
/// was.
pub proof fn lemma_deduped_distinct(names: Seq<Seq<char>>)
    requires
        names.no_duplicates(),
    ensures
        deduped(names) == names,
    decreases names.len(),
{
    if names.len() > 0 {
        let init = names.drop_last();
        lemma_deduped_distinct(init);
        assert(!init.contains(names.last())) by {
            if init.contains(names.last()) {
                let i = choose|i: int| 0 <= i < init.len() && init[i] == names.last();
                assert(names[i] == names[names.len() - 1]);
            }
        }
        assert(init.push(names.last()) =~= names);
    }
}

/// The list without the name `name`.
pub open spec fn without(s: Seq<Seq<char>>, name: Seq<char>) -> Seq<Seq<char>> {
    s.filter(|n: Seq<char>| n != name)
}

impl TagSet {
    /// The set's invariant: no name occurs twice.
    #[verifier::type_invariant]
    spec fn inv(&self) -> bool {
        texts(self.names@).no_duplicates()
    }

    /// No name occurs twice in a set.
    pub fn distinct(&self)
        ensures
            self@.no_duplicates(),
    {
        proof {
            use_type_invariant(self);
        }
    }

    /// The empty set.
    pub fn new() -> (s: Self)
        ensures
            s@ == Seq::<Seq<char>>::empty(),
    {
        let names: Vec<String> = Vec::new();
        assert(texts(names@) =~= Seq::<Seq<char>>::empty());
        TagSet { names }
    }

    /// The number of names.
    pub fn len(&self) -> (n: usize)
        ensures
            n == self@.len(),
    {
        self.names.len()
    }

    /// The name at position `i`.
    pub fn get(&self, i: usize) -> (n: &str)
        requires
            i < self@.len(),
        ensures
            n@ == self@[i as int],
    {
        self.names[i].as_str()
    }

    /// The names of the set, in order.
    pub fn names(&self) -> (v: Vec<String>)
        ensures
            texts(v@) == self@,
    {
        let mut v: Vec<String> = Vec::new();
        let mut i: usize = 0;
        while i < self.names.len()
            invariant
                i <= self.names.len(),
                texts(v@) == self@.take(i as int),
            decreases self.names.len() - i,
        {
            let ghost before = v@;
            let name = self.names[i].clone();
            v.push(name);
            assert(self@[i as int] == self.names@[i as int]@);
            assert(texts(v@) =~= texts(before).push(name@));
            assert(texts(v@) =~= self@.take(i as int + 1));
            i += 1;
        }
        assert(self@.take(i as int) =~= self@);
        v
    }

    /// The position of `name`, if the set holds it.
    pub fn position(&self, name: &str) -> (r: Option<usize>)
        ensures
            r is Some <==> self@.contains(name@),
            r matches Some(i) ==> i < self@.len() && self@[i as int] == name@,
    {
        let mut i: usize = 0;
        while i < self.names.len()
            invariant
                i <= self.names.len(),
                self@.len() == self.names.len(),
                forall|j: int| 0 <= j < i ==> self@[j] != name@,
            decreases self.names.len() - i,
        {
            assert(self@[i as int] == self.names[i as int]@);
            if same_text(self.names[i].as_str(), name) {
                return Some(i);
            }
            i += 1;
        }
        None
    }

    /// The set of the names in `names`: each once, at its first place.
    pub fn from_names(names: &Vec<String>) -> (s: Self)
        ensures
            s@ == deduped(texts(names@)),
            forall|n: Seq<char>| s@.contains(n) <==> texts(names@).contains(n),
    {
        proof {
            lemma_deduped(texts(names@));
        }
        let mut s = TagSet::new();
        let mut i: usize = 0;
        proof {
            assert(texts(names@).take(0) =~= Seq::<Seq<char>>::empty());
        }
        while i < names.len()
            invariant
                i <= names.len(),
                s@ == deduped(texts(names@).take(i as int)),
            decreases names.len() - i,
        {
            let ghost upto = texts(names@).take(i as int + 1);
            assert(upto.drop_last() =~= texts(names@).take(i as int));
            assert(upto.last() == names@[i as int]@);
            s.insert(names[i].clone());
            i += 1;
        }
        assert(texts(names@).take(i as int) =~= texts(names@));
        s
    }

    /// Whether the set holds `name`.
    pub fn contains(&self, name: &str) -> (r: bool)
        ensures
            r == self@.contains(name@),
    {
        self.position(name).is_some()
    }

    /// Puts `name` into the set, and says whether it was new.
    pub fn insert(&mut self, name: String) -> (fresh: bool)
        ensures
            fresh == !old(self)@.contains(name@),
            final(self)@ == (if fresh {
                old(self)@.push(name@)
            } else {
                old(self)@
            }),
    {
        proof {
            use_type_invariant(&*self);
        }
        if self.contains(name.as_str()) {
            false
        } else {
            let ghost before = self@;
            let mut names: Vec<String> = Vec::new();
            std::mem::swap(&mut names, &mut self.names);
            names.push(name);
            assert(texts(names@) =~= before.push(name@));
            *self = TagSet { names };
            true
        }
    }

    /// Puts `to` in the place of `from` where the set holds `from`.
    pub fn rename(&mut self, from: &str, to: &str)
        ensures
            final(self)@ == renamed(old(self)@, from@, to@),
    {
        let ghost before = self@;
        if self.remove(from) {
            self.insert(to.to_owned());
        } else {
            proof {
                lemma_filter_absent(before, from@);
            }
        }
    }

    /// Takes `name` out of the set, and says whether it was there.
    pub fn remove(&mut self, name: &str) -> (found: bool)
        ensures
            found == old(self)@.contains(name@),
            !final(self)@.contains(name@),
            final(self)@ == without(old(self)@, name@),
    {
        proof {
            use_type_invariant(&*self);
        }
        let ghost before = self@;
        match self.position(name) {
            Some(i) => {
                let mut names: Vec<String> = Vec::new();
                std::mem::swap(&mut names, &mut self.names);
                names.remove(i);
                proof {
                    assert(texts(names@) =~= before.remove(i as int));
                    lemma_remove_is_filter(before, name@, i as int);
                }
                *self = TagSet { names };
                true
            },
            None => {
                proof {
                    lemma_filter_absent(before, name@);
                }
                false
            },
        }
    }
}

/// Filtering out a name that does not occur changes nothing.
pub proof fn lemma_filter_absent(s: Seq<Seq<char>>, name: Seq<char>)
    requires
        !s.contains(name),
    ensures
        without(s, name) == s,
    decreases s.len(),
{
    reveal(Seq::filter);
    if s.len() > 0 {
        assert(s.drop_last().len() < s.len());
        assert forall|n: Seq<char>| s.drop_last().contains(n) implies n != name by {
            let i = choose|i: int| 0 <= i < s.drop_last().len() && s.drop_last()[i] == n;
            assert(s[i] == n);
        }
        lemma_filter_absent(s.drop_last(), name);
        assert(s.last() != name) by {
            assert(s[s.len() - 1] == s.last());
        }
        assert(s.drop_last().push(s.last()) =~= s);
    }
}

/// In a list without repetitions, removing the one occurrence of a name is
/// filtering the name out.
pub proof fn lemma_remove_is_filter(s: Seq<Seq<char>>, name: Seq<char>, i: int)
    requires
        s.no_duplicates(),
        0 <= i < s.len(),
        s[i] == name,
    ensures
        s.remove(i) == without(s, name),
        s.remove(i).no_duplicates(),
        !s.remove(i).contains(name),
    decreases s.len(),
{
    reveal(Seq::filter);
    let init = s.drop_last();
    if i == s.len() - 1 {
        assert(s.remove(i) =~= init);
        assert(!init.contains(name)) by {
            if init.contains(name) {
                let k = choose|k: int| 0 <= k < init.len() && init[k] == name;
                assert(s[k] == s[i]);
            }
        }
        lemma_filter_absent(init, name);
    } else {
        assert(init.no_duplicates());
        lemma_remove_is_filter(init, name, i);
        assert(s.last() != name) by {
            assert(s[s.len() - 1] != s[i]);
        }
        assert(s.remove(i) =~= init.remove(i).push(s.last()));
    }
    assert(s.remove(i).no_duplicates());
    assert(!s.remove(i).contains(name)) by {
        if s.remove(i).contains(name) {
            let k = choose|k: int| 0 <= k < s.remove(i).len() && s.remove(i)[k] == name;
            if k < i {
                assert(s[k] == s[i]);
            } else {
                assert(s[k + 1] == s[i]);
            }
        }
    }
}

/// A named, timestamped activity with its tags and a completion flag.
pub struct Log {
    pub done: bool,
    pub name: String,
    pub start: Instant,
    pub end: Instant,
    pub tags: TagSet,
}

/// A log as a mathematical value.
pub struct LogView {
    pub done: bool,
    pub name: Seq<char>,
    pub start: Instant,
    pub end: Instant,
    pub tags: Seq<Seq<char>>,
}

impl View for Log {
    type V = LogView;

    open spec fn view(&self) -> LogView {
        LogView {
            done: self.done,
            name: self.name@,
            start: self.start,
            end: self.end,
            tags: self.tags@,
        }
    }
}

impl LogView {
    /// Whole seconds from the start of the log to its end, none where the
    /// end is the earlier.
    pub open spec fn seconds(self) -> u64 {
        whole_seconds_of(span_between(self.start, self.end))
    }

    /// The same log with other tags.
    pub open spec fn with_tags(self, tags: Seq<Seq<char>>) -> LogView {
        LogView { done: self.done, name: self.name, start: self.start, end: self.end, tags }
    }

    /// The same log, done.
    pub open spec fn finished(self) -> LogView {
        LogView { done: true, name: self.name, start: self.start, end: self.end, tags: self.tags }
    }

    /// The same log with another end.
    pub open spec fn with_end(self, end: Instant) -> LogView {
        LogView { done: self.done, name: self.name, start: self.start, end, tags: self.tags }
    }
}

impl Log {
    /// A log that starts now, is not done, and carries `tags`.
    pub fn new(desc: String, tags: TagSet) -> (l: Self)
        ensures
            !l.done,
            l.name@ == desc@,
            l.tags@ == tags@,
    {
        Self { start: now(), end: now(), done: false, name: desc, tags }
    }

    /// Moves the end of the log to the instant `at`; nothing else of the
    /// log changes.
    pub fn set_end(&mut self, at: Instant)
        ensures
            *final(self) == (Log { end: at, ..*old(self) }),
    {
        self.end = at;
    }

    /// Whole seconds that the log has run from its start to its end.
    pub fn seconds(&self) -> (secs: u64)
        ensures
            secs == self@.seconds(),
    {
        let span = time_between(&self.start, &self.end);
        whole_seconds(&span)
    }
}

/// The regular expression that finds the tags in the text of a new log.
pub const TAG_PATTERN: &'static str = r"(tag:\s(\w+))+";

/// What stands before the name in a tag of the text of a new log.
pub const TAG_PREFIX: &'static str = "tag: ";

/// `s` after every occurrence of each of `parts` was taken out of it, one
/// part after the other.
pub open spec fn without_all(s: Seq<char>, parts: Seq<Seq<char>>) -> Seq<char>
    decreases parts.len(),
{
    if parts.len() == 0 {
        s
    } else {
        removed(without_all(s, parts.drop_last()), parts.last())
    }
}

/// The tag names in the matched parts: each part without its prefix.
pub open spec fn tag_names(parts: Seq<Seq<char>>) -> Seq<Seq<char>> {
    parts.map_values(|m: Seq<char>| removed(m, TAG_PREFIX@))
}

/// The name of a new log: the input without the matched parts and without
/// white space around it.
pub open spec fn log_name(input: Seq<char>, parts: Seq<Seq<char>>) -> Seq<char> {
    trimmed(without_all(input, parts))
}

/// The parts of `input` that write a tag; none where the pattern fails.
pub open spec fn tag_parts(input: Seq<char>) -> Seq<Seq<char>> {
    match regex_find_all(TAG_PATTERN@, input) {
        Some(parts) => parts,
        None => Seq::empty(),
    }
}

/// Splits the text of a new log, given the parts of it that write a tag,
/// into the log's name and the names of its tags.
pub fn parse_matches(input: &str, parts: &Vec<String>) -> (r: (String, Vec<String>))
    ensures
        r.0@ == log_name(input@, texts(parts@)),
        texts(r.1@) == tag_names(texts(parts@)),
{
    let prefix = chars_of(TAG_PREFIX);
    let mut cpy = chars_of(input);
    let mut tags: Vec<String> = Vec::new();
    let mut i: usize = 0;
    proof {
        assert(texts(parts@).take(0) =~= Seq::<Seq<char>>::empty());
    }
    while i < parts.len()
        invariant
            i <= parts.len(),
            prefix@ == TAG_PREFIX@,
            cpy@ == without_all(input@, texts(parts@).take(i as int)),
            tags@.len() == i,
            forall|j: int| 0 <= j < i ==> (#[trigger] tags@[j])@ == removed(parts@[j]@, TAG_PREFIX@),
        decreases parts.len() - i,
    {
        let ghost upto = texts(parts@).take(i as int + 1);
        assert(upto.drop_last() =~= texts(parts@).take(i as int));
        assert(upto.last() == parts@[i as int]@);
        let m = chars_of(parts[i].as_str());
        cpy = remove_all(&cpy, &m);
        let name = remove_all(&m, &prefix);
        tags.push(string_of(&name));
        i += 1;
    }
    assert(texts(parts@).take(i as int) =~= texts(parts@));
    assert(texts(tags@) =~= tag_names(texts(parts@)));
    let name = trim(&cpy);
    (string_of(&name), tags)
}

/// Splits the text of a new log into the log's name and the names of its
/// tags.
pub fn parse_input(input: &str) -> (r: (String, Vec<String>))
    ensures
        r.0@ == log_name(input@, tag_parts(input@)),
        texts(r.1@) == tag_names(tag_parts(input@)),
{
    match find_all(TAG_PATTERN, input) {
        Some(parts) => parse_matches(input, &parts),
        None => {
            let parts: Vec<String> = Vec::new();
            assert(texts(parts@) =~= Seq::<Seq<char>>::empty());
            parse_matches(input, &parts)
        },
    }
}

/// A span of `total_seconds` written as hours, minutes and seconds, each
/// with at least two digits.
pub open spec fn hhmmss(total_seconds: nat) -> Seq<char> {
    two_digits(total_seconds / 3600) + seq![':'] + two_digits((total_seconds % 3600) / 60) + seq![
        ':',
    ] + two_digits(total_seconds % 60)
}

/// Writes a span of whole seconds as `HH:MM:SS`.
pub fn duration_as_hhmmss(total_seconds: u64) -> (s: String)
    ensures
        s@ == hhmmss(total_seconds as nat),
{
    let hours = total_seconds / 3600;
    let minutes = (total_seconds % 3600) / 60;
    let seconds = total_seconds % 60;
    let mut out: Vec<char> = Vec::new();
    push_two_digits(&mut out, hours);
    out.push(':');
    push_two_digits(&mut out, minutes);
    out.push(':');
    push_two_digits(&mut out, seconds);
    assert(out@ =~= hhmmss(total_seconds as nat));
    string_of(&out)
}

/// The tab of the active logs.
pub struct LogList {
    title: String,
}

impl LogList {
    /// The tab with `title` between bars as its title.
    pub fn new(title: &str) -> (l: Self)
        ensures
            l.title() == "| "@ + title@ + " |"@,
    {
        let mut t: Vec<char> = Vec::new();
        push_str(&mut t, "| ");
        push_str(&mut t, title);
        push_str(&mut t, " |");
        assert(t@ =~= "| "@ + title@ + " |"@);
        Self { title: string_of(&t) }
    }

}

impl Tab for LogList {
    open spec fn list(&self) -> ListType {
        ListType::Log
    }

    closed spec fn title(&self) -> Seq<char> {
        self.title@
    }

    fn get_title(&self) -> (t: &str) {
        self.title.as_str()
    }

    fn get_line(&self) -> (line: Vec<Styled>) {
        ListType::Log.to_span()
    }
}

/// The texts that show the tags of a log: each name behind a space, in
/// the colour of its tag.
pub open spec fn tag_texts(tags: Seq<Seq<char>>, sys: Seq<TagView>) -> Seq<StyledView> {
    Seq::new(
        tags.len(),
        |k: int|
            StyledView { text: seq![' '] + tags[k], color: Some(sys[index_of(sys, tags[k])].color) },
    )
}

/// Every one of `tags` is registered.
pub open spec fn all_registered(tags: Seq<Seq<char>>, sys: Seq<TagView>) -> bool {
    forall|k: int| 0 <= k < tags.len() ==> has_tag(sys, #[trigger] tags[k])
}

/// The texts that show the tags of a log.
pub fn get_log_tag_text(log: &Log, sys: &TagSys) -> (spans: Vec<Styled>)
    requires
        all_registered(log.tags@, sys@),
    ensures
        line_view(spans@) == tag_texts(log.tags@, sys@),
{
    let mut spans: Vec<Styled> = Vec::new();
    let mut k: usize = 0;
    while k < log.tags.len()
        invariant
            k <= log.tags@.len(),
            all_registered(log.tags@, sys@),
            spans@.len() == k,
            forall|j: int| 0 <= j < k ==> (#[trigger] spans@[j])@ == tag_texts(log.tags@, sys@)[j],
        decreases log.tags@.len() - k,
    {
        let name = log.tags.get(k);
        let mut text: Vec<char> = Vec::new();
        text.push(' ');
        push_str(&mut text, name);
        assert(text@ =~= seq![' '] + name@);
        let i = sys.position(name).unwrap();
        proof {
            lemma_index_of(sys@, name@, i as int);
        }
        let color = *sys.get(i).color();
        spans.push(Styled { text: string_of(&text), color: Some(color) });
        k += 1;
    }
    assert(line_view(spans@) =~= tag_texts(log.tags@, sys@));
    spans
}

/// The line that shows a log which has run for `seconds`: its name, the
/// time it has run, and its tags.
pub open spec fn log_line(log: LogView, sys: Seq<TagView>, seconds: nat) -> Seq<StyledView> {
    seq![
        StyledView { text: log.name, color: Some(TEXT) },
        StyledView { text: seq![' '] + hhmmss(seconds), color: Some(BLUE) },
    ] + tag_texts(log.tags, sys)
}

/// The line that shows a log which has run for `seconds`.
pub fn render_log(log: &Log, sys: &TagSys, seconds: u64) -> (line: Vec<Styled>)
    requires
        all_registered(log.tags@, sys@),
    ensures
        line_view(line@) == log_line(log@, sys@, seconds as nat),
{
    let mut line: Vec<Styled> = Vec::new();
    line.push(Styled { text: log.name.clone(), color: Some(TEXT) });
    let mut dur: Vec<char> = Vec::new();
    dur.push(' ');
    push_str(&mut dur, duration_as_hhmmss(seconds).as_str());
    assert(dur@ =~= seq![' '] + hhmmss(seconds as nat));
    line.push(Styled { text: string_of(&dur), color: Some(BLUE) });
    let mut tags = get_log_tag_text(log, sys);
    let ghost head = line@;
    let ghost tail = tags@;
    line.append(&mut tags);
    assert(line_view(line@) =~= line_view(head) + line_view(tail));
    assert(line_view(line@) =~= log_line(log@, sys@, seconds as nat));
    line
}

/// The message that stands in for an empty list of logs.
pub fn render_empty_msg(past: bool) -> (msg: &'static str)
    ensures
        msg == (if past {
            "No completed logs."
        } else {
            "No active logs.\n Start by creating a log with <S-A>."
        }),
{
    if past {
        "No completed logs."
    } else {
        "No active logs.\n Start by creating a log with <S-A>."
    }
}

/// The list of logs that `t` means.
pub open spec fn listed(data: SaveData, t: LogType) -> Seq<Log> {
    match t {
        LogType::Active => data.logs@,
        LogType::Past => data.past_logs@,
    }
}

/// The tags of every log of the list are registered.
pub open spec fn all_logs_registered(logs: Seq<Log>, sys: Seq<TagView>) -> bool {
    forall|i: int| 0 <= i < logs.len() ==> all_registered((#[trigger] logs[i]).tags@, sys)
}

/// The lines that show the active or the past logs, one per log: each is
/// the line of its log for the whole seconds from its start to its end.
pub fn render_log_list(data: &SaveData, t: LogType) -> (lines: Vec<Vec<Styled>>)
    requires
        all_logs_registered(listed(*data, t), data.tags@),
    ensures
        lines@.len() == listed(*data, t).len(),
        forall|i: int|
            0 <= i < lines@.len() ==> line_view((#[trigger] lines@[i])@) == log_line(
                listed(*data, t)[i]@,
                data.tags@,
                listed(*data, t)[i]@.seconds() as nat,
            ),
{
    let logs = match t {
        LogType::Active => &data.logs,
        LogType::Past => &data.past_logs,
    };
    let mut lines: Vec<Vec<Styled>> = Vec::new();
    let mut i: usize = 0;
    while i < logs.len()
        invariant
            i <= logs@.len(),
            logs@ == listed(*data, t),
            lines@.len() == i,
            all_logs_registered(logs@, data.tags@),
            forall|j: int|
                0 <= j < i ==> line_view((#[trigger] lines@[j])@) == log_line(
                    logs@[j]@,
                    data.tags@,
                    logs@[j]@.seconds() as nat,
                ),
        decreases logs@.len() - i,
    {
        let seconds = logs[i].seconds();
        let line = render_log(&logs[i], &data.tags, seconds);
        lines.push(line);
        i += 1;
    }
    lines
}

/// Which of the two lists of logs is meant.
#[derive(Clone, Copy, Debug, PartialEq, Eq, Structural)]
pub enum LogType {
    Active,
    Past,
}

/// Renames the tag `from` to `to` on every log that carries it.
pub fn rename_tag(logs: &mut Vec<Log>, from: &str, to: &str)
    ensures
        final(logs)@.len() == old(logs)@.len(),
        forall|i: int|
            0 <= i < old(logs)@.len() ==> (#[trigger] final(logs)@[i])@ == old(logs)@[i]@.with_tags(
                renamed(old(logs)@[i].tags@, from@, to@),
            ),
{
    let ghost before = logs@;
    let mut i: usize = 0;
    while i < logs.len()
        invariant
            i <= logs.len(),
            logs@.len() == before.len(),
            forall|j: int|
                0 <= j < i ==> (#[trigger] logs@[j])@ == before[j]@.with_tags(
                    renamed(before[j].tags@, from@, to@),
                ),
            forall|j: int| i <= j < before.len() ==> logs@[j] == before[j],
        decreases logs.len() - i,
    {
        logs[i].tags.rename(from, to);
        i += 1;
    }
}

/// Moves the end of every log to the current instant; nothing else of a
/// log changes.
pub fn update_logs(logs: &mut [Log])
    ensures
        final(logs)@.len() == old(logs)@.len(),
        forall|i: int|
            0 <= i < old(logs)@.len() ==> (#[trigger] final(logs)@[i])@ == old(logs)@[i]@.with_end(
                final(logs)@[i].end,
            ),
{
    let ghost before = logs@;
    let mut i: usize = 0;
    while i < logs.len()
        invariant
            i <= logs.len(),
            logs@.len() == before.len(),
            forall|j: int| 0 <= j < i ==> (#[trigger] logs@[j])@ == before[j]@.with_end(logs@[j].end),
            forall|j: int| i <= j < before.len() ==> logs@[j] == before[j],
        decreases logs.len() - i,
    {
        logs[i].set_end(now());
        i += 1;
    }
}

} // verus!

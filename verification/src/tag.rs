use vstd::prelude::*;
use crate::log::{deduped, lemma_deduped, texts, TagSet};
use crate::text::{
    chars_of, find, first_at, occurs, parse_hex, parsed_hex, push_signed, push_spaces,
    remove_all, removed, same_text, signed_decimal, slice_chars, spaces, string_of, trim,
    trimmed,
};
use crate::theme::{
    channels, channels_of, is_icon_text, term_color, term_color_of, unicode_icon, Styled,
    StyledView, BLUE,
};

verus! {

/// Colour given to a tag when it is first created.
pub const DEFAULT_TAG_COLOR: u32 = 0x00ff_0000;

/// A named, coloured label together with the number of logs that carry it.
pub struct Tag {
    name: String,
    color: u32,
    pub refs: i32,
}

/// What a tag is, as a mathematical value.
pub struct TagView {
    pub name: Seq<char>,
    pub color: u32,
    pub refs: int,
}

impl View for Tag {
    type V = TagView;

    closed spec fn view(&self) -> TagView {
        TagView { name: self.name@, color: self.color, refs: self.refs as int }
    }
}

impl Tag {
    pub fn color(&self) -> (c: &u32)
        ensures
            *c == self@.color,
    {
        &self.color
    }

    pub fn name(&self) -> (n: &str)
        ensures
            n@ == self@.name,
    {
        self.name.as_str()
    }

    /// How many logs carry this tag.
    pub fn refs(&self) -> (r: i32)
        ensures
            r == self@.refs,
    {
        self.refs
    }

    /// Sets the number of logs that carry this tag; name and colour stay.
    pub fn set_refs(&mut self, refs: i32)
        ensures
            final(self)@ == with_refs(old(self)@, refs as int),
    {
        self.refs = refs;
    }
}

/// The tag that a lookup creates for a name it has not seen.
pub open spec fn fresh_tag(name: Seq<char>) -> TagView {
    TagView { name, color: DEFAULT_TAG_COLOR, refs: 0 }
}

/// Some tag of the registry bears `name`.
pub open spec fn has_tag(tags: Seq<TagView>, name: Seq<char>) -> bool {
    exists|i: int| 0 <= i < tags.len() && (#[trigger] tags[i]).name == name
}

/// `i` is the position of the first tag that bears `name`.
pub open spec fn is_first(tags: Seq<TagView>, name: Seq<char>, i: int) -> bool {
    &&& 0 <= i < tags.len()
    &&& tags[i].name == name
    &&& forall|j: int| 0 <= j < i ==> (#[trigger] tags[j]).name != name
}

/// Position of the first tag that bears `name`; meaningful when one exists.
pub open spec fn index_of(tags: Seq<TagView>, name: Seq<char>) -> int {
    choose|i: int| is_first(tags, name, i)
}

/// No two tags of the registry bear the same name.
pub open spec fn distinct_names(tags: Seq<TagView>) -> bool {
    forall|i: int, j: int|
        0 <= i < j < tags.len() ==> (#[trigger] tags[i]).name != (#[trigger] tags[j]).name
}

/// The count recorded for `name`: that of its first tag, or zero without one.
pub open spec fn refs_of(tags: Seq<TagView>, name: Seq<char>) -> int {
    if has_tag(tags, name) {
        tags[index_of(tags, name)].refs
    } else {
        0
    }
}

/// The same tag with the count `refs`.
pub open spec fn with_refs(t: TagView, refs: int) -> TagView {
    TagView { name: t.name, color: t.color, refs }
}

/// The registry after a lookup-or-create of `name`.
pub open spec fn looked_up(tags: Seq<TagView>, name: Seq<char>) -> Seq<TagView> {
    if has_tag(tags, name) {
        tags
    } else {
        tags.push(fresh_tag(name))
    }
}

/// The registry after one more log took the tag `name`.
pub open spec fn ref_added(tags: Seq<TagView>, name: Seq<char>) -> Seq<TagView> {
    let t = looked_up(tags, name);
    let i = index_of(t, name);
    t.update(i, with_refs(t[i], t[i].refs + 1))
}

/// The registry after one log gave up the tag `name`.
pub open spec fn ref_removed(tags: Seq<TagView>, name: Seq<char>) -> Seq<TagView> {
    let i = index_of(tags, name);
    if tags[i].refs == 1 {
        tags.remove(i)
    } else {
        tags.update(i, with_refs(tags[i], tags[i].refs - 1))
    }
}

/// A witness of `is_first` is the chosen index.
pub proof fn lemma_index_of(tags: Seq<TagView>, name: Seq<char>, i: int)
    requires
        is_first(tags, name, i),
    ensures
        index_of(tags, name) == i,
        has_tag(tags, name),
{
    let k = index_of(tags, name);
    assert(is_first(tags, name, k));
    if k < i {
        assert(tags[k].name != name);
    }
    if i < k {
        assert(tags[i].name != name);
    }
}

/// Where a name occurs, it has a first occurrence.
pub proof fn lemma_has_first(tags: Seq<TagView>, name: Seq<char>)
    requires
        has_tag(tags, name),
    ensures
        is_first(tags, name, index_of(tags, name)),
{
    let w = choose|i: int| 0 <= i < tags.len() && (#[trigger] tags[i]).name == name;
    lemma_first_upto(tags, name, w);
}

/// Among the first `n + 1` tags, if tag `n` bears the name then a first bearer exists.
proof fn lemma_first_upto(tags: Seq<TagView>, name: Seq<char>, n: int)
    requires
        0 <= n < tags.len(),
        tags[n].name == name,
    ensures
        is_first(tags, name, index_of(tags, name)),
    decreases n,
{
    if forall|j: int| 0 <= j < n ==> (#[trigger] tags[j]).name != name {
        assert(is_first(tags, name, n));
    } else {
        let j = choose|j: int| 0 <= j < n && (#[trigger] tags[j]).name == name;
        lemma_first_upto(tags, name, j);
    }
}

/// Two registries with the same names in the same places find the same
/// names at the same places.
pub proof fn lemma_same_names(a: Seq<TagView>, b: Seq<TagView>, name: Seq<char>)
    requires
        a.len() == b.len(),
        forall|j: int| 0 <= j < a.len() ==> (#[trigger] a[j]).name == b[j].name,
    ensures
        has_tag(a, name) == has_tag(b, name),
        has_tag(a, name) ==> index_of(a, name) == index_of(b, name),
{
    if has_tag(a, name) {
        lemma_has_first(a, name);
        let i = index_of(a, name);
        assert(b[i].name == name);
        assert forall|j: int| 0 <= j < i implies (#[trigger] b[j]).name != name by {
            assert(a[j].name != name);
        }
        assert(is_first(b, name, i));
        lemma_index_of(b, name, i);
    }
    if has_tag(b, name) {
        lemma_has_first(b, name);
        let i = index_of(b, name);
        assert(a[i].name == name);
    }
}

/// One more reference to `name` raises the count of `name` by one, creates
/// the tag where it was missing, and leaves every other name as it was.
pub proof fn lemma_ref_added(tags: Seq<TagView>, name: Seq<char>, other: Seq<char>)
    ensures
        has_tag(ref_added(tags, name), other) == (has_tag(tags, other) || other == name),
        refs_of(ref_added(tags, name), other) == refs_of(tags, other) + (if other == name {
            1int
        } else {
            0int
        }),
        ref_added(tags, name).len() == looked_up(tags, name).len(),
        distinct_names(tags) ==> distinct_names(ref_added(tags, name)),
{
    let t1 = looked_up(tags, name);
    if has_tag(tags, name) {
        lemma_has_first(tags, name);
    } else {
        assert(is_first(t1, name, tags.len() as int));
        lemma_index_of(t1, name, tags.len() as int);
    }
    let i = index_of(t1, name);
    let t2 = ref_added(tags, name);
    lemma_same_names(t1, t2, other);
    // from tags to t1
    if has_tag(tags, other) {
        lemma_has_first(tags, other);
        let j = index_of(tags, other);
        assert(t1[j].name == other);
        assert(is_first(t1, other, j));
        lemma_index_of(t1, other, j);
    } else if has_tag(t1, other) {
        let j = choose|j: int| 0 <= j < t1.len() && (#[trigger] t1[j]).name == other;
        if j < tags.len() {
            assert(tags[j].name == other);
        }
    }
    if has_tag(t1, other) {
        lemma_has_first(t1, other);
        let j = index_of(t1, other);
        if j != i {
            assert(other != name) by {
                if other == name {
                    lemma_index_of(t1, name, j);
                }
            }
        }
    }
    if distinct_names(tags) {
        assert forall|a: int, b: int| 0 <= a < b < t2.len() implies (#[trigger] t2[a]).name != (
        #[trigger] t2[b]).name by {
            if b < tags.len() {
                assert(tags[a].name != tags[b].name);
            } else {
                assert(tags[a].name != name);
            }
        }
    }
}

/// One reference to `name` less leaves every other name as it was.
pub proof fn lemma_ref_removed_other(tags: Seq<TagView>, name: Seq<char>, other: Seq<char>)
    requires
        has_tag(tags, name),
        other != name,
    ensures
        has_tag(ref_removed(tags, name), other) == has_tag(tags, other),
        refs_of(ref_removed(tags, name), other) == refs_of(tags, other),
{
    lemma_has_first(tags, name);
    let i = index_of(tags, name);
    let t2 = ref_removed(tags, name);
    if tags[i].refs == 1 {
        if has_tag(tags, other) {
            lemma_has_first(tags, other);
            let j = index_of(tags, other);
            let k = if j < i {
                j
            } else {
                j - 1
            };
            assert(t2[k] == tags[j]);
            assert forall|x: int| 0 <= x < k implies (#[trigger] t2[x]).name != other by {
                if x < i {
                    assert(t2[x] == tags[x]);
                } else {
                    assert(t2[x] == tags[x + 1]);
                }
            }
            assert(is_first(t2, other, k));
            lemma_index_of(t2, other, k);
        }
        if has_tag(t2, other) {
            let x = choose|x: int| 0 <= x < t2.len() && (#[trigger] t2[x]).name == other;
            if x < i {
                assert(tags[x].name == other);
            } else {
                assert(tags[x + 1].name == other);
            }
        }
    } else {
        lemma_same_names(tags, t2, other);
        if has_tag(tags, other) {
            lemma_has_first(tags, other);
        }
    }
}

/// One reference to `name` less lowers the count of `name` by one, and
/// takes `name` out of a registry of distinct names when the count was one.
pub proof fn lemma_ref_removed(tags: Seq<TagView>, name: Seq<char>)
    requires
        has_tag(tags, name),
    ensures
        refs_of(tags, name) != 1 ==> has_tag(ref_removed(tags, name), name) && refs_of(
            ref_removed(tags, name),
            name,
        ) == refs_of(tags, name) - 1,
        refs_of(tags, name) == 1 && distinct_names(tags) ==> !has_tag(
            ref_removed(tags, name),
            name,
        ),
        distinct_names(tags) ==> distinct_names(ref_removed(tags, name)),
{
    lemma_has_first(tags, name);
    let i = index_of(tags, name);
    let t2 = ref_removed(tags, name);
    if tags[i].refs == 1 {
        if distinct_names(tags) {
            if has_tag(t2, name) {
                let x = choose|x: int| 0 <= x < t2.len() && (#[trigger] t2[x]).name == name;
                if x < i {
                    assert(tags[x].name != tags[i].name);
                } else {
                    assert(tags[i].name != tags[x + 1].name);
                }
            }
            assert forall|a: int, b: int| 0 <= a < b < t2.len() implies (#[trigger] t2[a]).name
                != (#[trigger] t2[b]).name by {
                let a0 = if a < i {
                    a
                } else {
                    a + 1
                };
                let b0 = if b < i {
                    b
                } else {
                    b + 1
                };
                assert(tags[a0].name != tags[b0].name);
            }
        }
    } else {
        lemma_same_names(tags, t2, name);
        if distinct_names(tags) {
            assert forall|a: int, b: int| 0 <= a < b < t2.len() implies (#[trigger] t2[a]).name
                != (#[trigger] t2[b]).name by {
                assert(tags[a].name != tags[b].name);
            }
        }
    }
}

/// How often `name` occurs in `names`.
pub open spec fn occurrences(names: Seq<Seq<char>>, name: Seq<char>) -> nat
    decreases names.len(),
{
    if names.len() == 0 {
        0
    } else {
        occurrences(names.drop_last(), name) + (if names.last() == name {
            1nat
        } else {
            0nat
        })
    }
}

/// The registry after one more reference to each of `names`, in order.
pub open spec fn all_added(tags: Seq<TagView>, names: Seq<Seq<char>>) -> Seq<TagView>
    decreases names.len(),
{
    if names.len() == 0 {
        tags
    } else {
        ref_added(all_added(tags, names.drop_last()), names.last())
    }
}

/// The registry after one reference less to each of `names`, in order.
pub open spec fn all_removed(tags: Seq<TagView>, names: Seq<Seq<char>>) -> Seq<TagView>
    decreases names.len(),
{
    if names.len() == 0 {
        tags
    } else {
        ref_removed(all_removed(tags, names.drop_last()), names.last())
    }
}

/// Every count stays within its range while the references of `names`
/// are added one by one.
pub open spec fn addable(tags: Seq<TagView>, names: Seq<Seq<char>>) -> bool {
    forall|k: int|
        0 <= k < names.len() ==> refs_of(tags, #[trigger] names[k]) + occurrences(
            names.take(k),
            names[k],
        ) < i32::MAX
}

/// Every one of `names` is registered, with a count that can go down.
pub open spec fn removable(tags: Seq<TagView>, names: Seq<Seq<char>>) -> bool {
    forall|k: int|
        0 <= k < names.len() ==> has_tag(tags, #[trigger] names[k]) && refs_of(tags, names[k])
            > i32::MIN
}

/// After references to `names` were added, each count is higher by the
/// number of times that its name occurs in `names`.
pub proof fn lemma_all_added(tags: Seq<TagView>, names: Seq<Seq<char>>, name: Seq<char>)
    ensures
        refs_of(all_added(tags, names), name) == refs_of(tags, name) + occurrences(names, name),
        has_tag(all_added(tags, names), name) == (has_tag(tags, name) || names.contains(name)),
        distinct_names(tags) ==> distinct_names(all_added(tags, names)),
    decreases names.len(),
{
    if names.len() > 0 {
        let init = names.drop_last();
        lemma_all_added(tags, init, name);
        lemma_ref_added(all_added(tags, init), names.last(), name);
        if init.contains(name) {
            let i = choose|i: int| 0 <= i < init.len() && init[i] == name;
            assert(names[i] == name);
        }
        if names.contains(name) && names.last() != name {
            let i = choose|i: int| 0 <= i < names.len() && names[i] == name;
            assert(init[i] == name);
        }
        if names.last() == name {
            assert(names[names.len() - 1] == name);
        }
    }
}

/// In a list without repetitions a name occurs once or not at all.
pub proof fn lemma_occurs_once(names: Seq<Seq<char>>, name: Seq<char>)
    requires
        names.no_duplicates(),
    ensures
        occurrences(names, name) == (if names.contains(name) {
            1nat
        } else {
            0nat
        }),
    decreases names.len(),
{
    if names.len() > 0 {
        let init = names.drop_last();
        lemma_occurs_once(init, name);
        if init.contains(name) {
            let i = choose|i: int| 0 <= i < init.len() && init[i] == name;
            assert(names[i] == name);
            assert(names.last() != name) by {
                assert(names[i] != names[names.len() - 1]);
            }
        } else if names.contains(name) {
            let i = choose|i: int| 0 <= i < names.len() && names[i] == name;
            if i < init.len() {
                assert(init[i] == name);
            }
        }
        if names.last() == name {
            assert(names[names.len() - 1] == name);
        }
    }
}

/// One log counts once: when a log takes the tags `names`, each tag that
/// `names` holds has one reference more, however often it is named, and
/// every other tag has the count it had.
pub proof fn lemma_counted_once(tags: Seq<TagView>, names: Seq<Seq<char>>, name: Seq<char>)
    ensures
        refs_of(all_added(tags, deduped(names)), name) == refs_of(tags, name) + (if names.contains(
            name,
        ) {
            1int
        } else {
            0int
        }),
{
    lemma_deduped(names);
    lemma_occurs_once(deduped(names), name);
    lemma_all_added(tags, deduped(names), name);
}

/// While the references of distinct `names` are taken away one by one,
/// the names still to come stay as they were.
pub proof fn lemma_all_removed(tags: Seq<TagView>, names: Seq<Seq<char>>, i: int, name: Seq<char>)
    requires
        names.no_duplicates(),
        removable(tags, names),
        0 <= i <= names.len(),
        !names.take(i).contains(name),
    ensures
        has_tag(all_removed(tags, names.take(i)), name) == has_tag(tags, name),
        refs_of(all_removed(tags, names.take(i)), name) == refs_of(tags, name),
    decreases i,
{
    if i > 0 {
        let upto = names.take(i);
        let init = names.take(i - 1);
        assert(upto.drop_last() =~= init);
        assert(upto.last() == names[i - 1]);
        assert(!init.contains(name)) by {
            if init.contains(name) {
                let k = choose|k: int| 0 <= k < init.len() && init[k] == name;
                assert(upto[k] == name);
            }
        }
        assert(name != names[i - 1]) by {
            assert(upto[i - 1] == names[i - 1]);
        }
        assert(!init.contains(names[i - 1])) by {
            if init.contains(names[i - 1]) {
                let k = choose|k: int| 0 <= k < init.len() && init[k] == names[i - 1];
                assert(names[k] == names[i - 1]);
            }
        }
        lemma_all_removed(tags, names, i - 1, name);
        lemma_all_removed(tags, names, i - 1, names[i - 1]);
        lemma_ref_removed_other(all_removed(tags, init), names[i - 1], name);
    } else {
        assert(names.take(0) =~= Seq::<Seq<char>>::empty());
    }
}

/// Reference counting: when two logs take the same tag, its count is
/// higher by two; when one of them gives it up, the tag stays with a
/// count higher by one; when the other gives it up too, the count is as
/// before, and a tag that was new with the first log is gone, which leaves
/// the registry as it was.
pub proof fn lemma_counting(tags: Seq<TagView>, name: Seq<char>)
    requires
        distinct_names(tags),
        refs_of(tags, name) >= 0,
    ensures
        ({
            let two = ref_added(ref_added(tags, name), name);
            let one = ref_removed(two, name);
            let none = ref_removed(one, name);
            &&& has_tag(two, name) && refs_of(two, name) == refs_of(tags, name) + 2
            &&& has_tag(one, name) && refs_of(one, name) == refs_of(tags, name) + 1
            &&& refs_of(none, name) == refs_of(tags, name)
            &&& refs_of(tags, name) == 0 ==> !has_tag(none, name)
            &&& !has_tag(tags, name) ==> none == tags
        }),
{
    let first = ref_added(tags, name);
    let two = ref_added(first, name);
    let one = ref_removed(two, name);
    let none = ref_removed(one, name);
    lemma_ref_added(tags, name, name);
    lemma_ref_added(first, name, name);
    lemma_ref_removed(two, name);
    lemma_ref_removed(one, name);
    if !has_tag(tags, name) {
        let n = tags.len() as int;
        let t1 = looked_up(tags, name);
        assert(is_first(t1, name, n));
        lemma_index_of(t1, name, n);
        assert(first =~= tags.push(with_refs(fresh_tag(name), 1)));
        assert(is_first(first, name, n));
        lemma_index_of(first, name, n);
        assert(looked_up(first, name) == first);
        assert(two =~= tags.push(with_refs(fresh_tag(name), 2)));
        assert(is_first(two, name, n));
        lemma_index_of(two, name, n);
        assert(one =~= tags.push(with_refs(fresh_tag(name), 1)));
        assert(is_first(one, name, n));
        lemma_index_of(one, name, n);
        assert(none =~= tags);
    }
}

/// The registry of tags, in the order in which they were created.
pub struct TagSys {
    tags: Vec<Tag>,
}

impl View for TagSys {
    type V = Seq<TagView>;

    closed spec fn view(&self) -> Seq<TagView> {
        self.tags@.map_values(|t: Tag| t@)
    }
}

impl Default for TagSys {
    fn default() -> (s: Self)
        ensures
            s@ == Seq::<TagView>::empty(),
    {
        TagSys::new()
    }
}

impl TagSys {
    /// An empty registry.
    pub fn new() -> (s: Self)
        ensures
            s@ == Seq::<TagView>::empty(),
    {
        let s = TagSys { tags: Vec::new() };
        assert(s@ =~= Seq::<TagView>::empty());
        s
    }

    /// Position of the first tag named `name`, if there is one.
    pub fn position(&self, name: &str) -> (r: Option<usize>)
        ensures
            r is Some <==> has_tag(self@, name@),
            r matches Some(i) ==> is_first(self@, name@, i as int),
    {
        let mut i: usize = 0;
        while i < self.tags.len()
            invariant
                i <= self.tags.len(),
                self@.len() == self.tags.len(),
                forall|j: int| 0 <= j < i ==> (#[trigger] self@[j]).name != name@,
            decreases self.tags.len() - i,
        {
            if same_text(self.tags[i].name(), name) {
                assert(self@[i as int] == self.tags[i as int]@);
                assert(is_first(self@, name@, i as int));
                return Some(i);
            }
            assert(self@[i as int] == self.tags[i as int]@);
            i += 1;
        }
        None
    }

    /// Looks the tag `name` up, creating it with no references where the
    /// registry has none of that name, and lends it out for change.
    pub fn add(&mut self, name: &str) -> (t: &mut Tag)
        ensures
            is_first(looked_up(old(self)@, name@), name@, index_of(looked_up(old(self)@, name@), name@)),
            t@ == looked_up(old(self)@, name@)[index_of(looked_up(old(self)@, name@), name@)],
            final(self)@ == looked_up(old(self)@, name@).update(
                index_of(looked_up(old(self)@, name@), name@),
                final(t)@,
            ),
    {
        let ghost before = self@;
        match self.position(name) {
            Some(i) => {
                proof {
                    lemma_index_of(before, name@, i as int);
                }
                let t = &mut self.tags[i];
                t
            },
            None => {
                let t = Tag { name: name.to_owned(), color: DEFAULT_TAG_COLOR, refs: 0 };
                self.tags.push(t);
                let n = self.tags.len();
                proof {
                    assert(self@ =~= before.push(fresh_tag(name@)));
                    assert(is_first(self@, name@, n - 1));
                    lemma_index_of(self@, name@, n - 1);
                }
                let t = &mut self.tags[n - 1];
                t
            },
        }
    }

    /// Records that one more log carries the tag `name`, creating the tag
    /// where it is new.
    pub fn add_ref(&mut self, name: &str)
        requires
            refs_of(old(self)@, name@) < i32::MAX,
        ensures
            final(self)@ == ref_added(old(self)@, name@),
    {
        proof {
            if has_tag(self@, name@) {
                lemma_has_first(self@, name@);
            }
        }
        let t = self.add(name);
        let refs = t.refs();
        t.set_refs(refs + 1);
    }

    /// Records that one log gave up the tag `name`; the tag leaves the
    /// registry when its count reaches zero, and the result says whether it did.
    pub fn rm_ref(&mut self, tag_str: &str) -> (gone: bool)
        requires
            has_tag(old(self)@, tag_str@),
            refs_of(old(self)@, tag_str@) > i32::MIN,
        ensures
            gone == (refs_of(old(self)@, tag_str@) == 1),
            final(self)@ == ref_removed(old(self)@, tag_str@),
    {
        let ghost before = self@;
        let tag_idx = self.position(tag_str).unwrap();
        proof {
            lemma_index_of(before, tag_str@, tag_idx as int);
        }
        let refs = self.tags[tag_idx].refs - 1;
        if refs == 0 {
            self.tags.remove(tag_idx);
            assert(self@ =~= before.remove(tag_idx as int));
            return true;
        }
        self.tags[tag_idx].refs = refs;
        assert(self@ =~= before.update(
            tag_idx as int,
            with_refs(before[tag_idx as int], before[tag_idx as int].refs - 1),
        ));
        false
    }

    /// Appends a tag as it was recorded before.
    pub fn push(&mut self, name: String, color: u32, refs: i32)
        ensures
            final(self)@ == old(self)@.push(TagView { name: name@, color, refs: refs as int }),
    {
        let ghost before = self@;
        self.tags.push(Tag { name, color, refs });
        assert(self@ =~= before.push(TagView { name: name@, color, refs: refs as int }));
    }

    /// The number of tags.
    pub fn len(&self) -> (n: usize)
        ensures
            n == self@.len(),
    {
        self.tags.len()
    }

    /// The tag at position `i`.
    pub fn get(&self, i: usize) -> (t: &Tag)
        requires
            i < self@.len(),
        ensures
            t@ == self@[i as int],
    {
        &self.tags[i]
    }

    /// Gives the tag at position `i` another name and colour; its count
    /// stays.
    pub fn rename(&mut self, i: usize, name: String, color: u32)
        requires
            i < old(self)@.len(),
        ensures
            final(self)@ == old(self)@.update(
                i as int,
                TagView { name: name@, color, refs: old(self)@[i as int].refs },
            ),
    {
        let ghost before = self@;
        assert(before[i as int] == self.tags[i as int]@);
        self.tags[i].name = name;
        self.tags[i].color = color;
        assert(self@ =~= before.update(
            i as int,
            TagView { name: name@, color, refs: before[i as int].refs },
        ));
    }

    /// The count recorded for `name`, zero where no tag bears it.
    pub fn refs_of(&self, name: &str) -> (r: i32)
        ensures
            r == refs_of(self@, name@),
    {
        match self.position(name) {
            Some(i) => {
                proof {
                    lemma_index_of(self@, name@, i as int);
                }
                assert(self@[i as int] == self.tags[i as int]@);
                self.tags[i].refs
            },
            None => 0,
        }
    }

    /// Whether one more reference to each of `names` can be recorded.
    pub fn can_add_refs(&self, names: &Vec<String>) -> (r: bool)
        ensures
            r == addable(self@, texts(names@)),
    {
        let ghost ns = texts(names@);
        let mut k: usize = 0;
        while k < names.len()
            invariant
                k <= names.len(),
                ns == texts(names@),
                forall|j: int|
                    0 <= j < k ==> refs_of(self@, #[trigger] ns[j]) + occurrences(
                        ns.take(j),
                        ns[j],
                    ) < i32::MAX,
            decreases names.len() - k,
        {
            let name = names[k].as_str();
            assert(name@ == ns[k as int]);
            let refs = self.refs_of(name);
            let mut seen: usize = 0;
            let mut j: usize = 0;
            assert(ns.take(0) =~= Seq::<Seq<char>>::empty());
            while j < k
                invariant
                    j <= k,
                    k < names.len(),
                    ns == texts(names@),
                    name@ == ns[k as int],
                    seen == occurrences(ns.take(j as int), name@),
                    seen <= j,
                decreases k - j,
            {
                assert(ns.take(j as int + 1).drop_last() =~= ns.take(j as int));
                assert(ns.take(j as int + 1).last() == names@[j as int]@);
                if same_text(names[j].as_str(), name) {
                    seen += 1;
                }
                j += 1;
            }
            assert(ns.take(j as int) =~= ns.take(k as int));
            if refs as i128 + seen as i128 >= i32::MAX as i128 {
                return false;
            }
            k += 1;
        }
        true
    }

    /// Records one more reference to each of `names`, in order.
    pub fn add_refs(&mut self, names: &Vec<String>)
        requires
            addable(old(self)@, texts(names@)),
        ensures
            final(self)@ == all_added(old(self)@, texts(names@)),
    {
        let ghost before = self@;
        let ghost ns = texts(names@);
        let mut k: usize = 0;
        assert(ns.take(0) =~= Seq::<Seq<char>>::empty());
        while k < names.len()
            invariant
                k <= names.len(),
                ns == texts(names@),
                addable(before, ns),
                self@ == all_added(before, ns.take(k as int)),
            decreases names.len() - k,
        {
            proof {
                assert(ns.take(k as int + 1).drop_last() =~= ns.take(k as int));
                assert(ns.take(k as int + 1).last() == names@[k as int]@);
                lemma_all_added(before, ns.take(k as int), ns[k as int]);
            }
            self.add_ref(names[k].as_str());
            k += 1;
        }
        assert(ns.take(k as int) =~= ns);
    }

    /// Whether every one of `names` is registered with a count that can
    /// go down.
    pub fn can_rm_refs(&self, names: &TagSet) -> (r: bool)
        ensures
            r == removable(self@, names@),
    {
        let mut k: usize = 0;
        while k < names.len()
            invariant
                k <= names@.len(),
                forall|j: int|
                    0 <= j < k ==> has_tag(self@, #[trigger] names@[j]) && refs_of(
                        self@,
                        names@[j],
                    ) > i32::MIN,
            decreases names@.len() - k,
        {
            let name = names.get(k);
            if self.position(name).is_none() || self.refs_of(name) == i32::MIN {
                return false;
            }
            k += 1;
        }
        true
    }

    /// Records one reference less to each of `names`, in order; tags whose
    /// count reaches zero leave the registry.
    pub fn rm_refs(&mut self, names: &TagSet)
        requires
            removable(old(self)@, names@),
        ensures
            final(self)@ == all_removed(old(self)@, names@),
    {
        let ghost before = self@;
        names.distinct();
        let mut k: usize = 0;
        assert(names@.take(0) =~= Seq::<Seq<char>>::empty());
        while k < names.len()
            invariant
                k <= names@.len(),
                names@.no_duplicates(),
                removable(before, names@),
                self@ == all_removed(before, names@.take(k as int)),
            decreases names@.len() - k,
        {
            proof {
                let upto = names@.take(k as int);
                assert(names@.take(k as int + 1).drop_last() =~= upto);
                assert(names@.take(k as int + 1).last() == names@[k as int]);
                assert(!upto.contains(names@[k as int])) by {
                    if upto.contains(names@[k as int]) {
                        let j = choose|j: int| 0 <= j < upto.len() && upto[j] == names@[k as int];
                        assert(names@[j] == names@[k as int]);
                    }
                }
                lemma_all_removed(before, names@, k as int, names@[k as int]);
            }
            self.rm_ref(names.get(k));
            k += 1;
        }
        assert(names@.take(k as int) =~= names@);
    }

    pub fn tags(&self) -> (v: &Vec<Tag>)
        ensures
            v@.map_values(|t: Tag| t@) == self@,
    {
        &self.tags
    }
}

/// The colour `0x00RRGGBB` made of three channels.
pub open spec fn hex_of(r: u8, g: u8, b: u8) -> u32 {
    (r as u32 * 0x1_0000 + g as u32 * 0x100 + b as u32) as u32
}

/// Packs red, green and blue into one `0x00RRGGBB` value.
pub fn rgb_to_hex(color: (u8, u8, u8)) -> (hex: u32)
    ensures
        hex == hex_of(color.0, color.1, color.2),
        hex <= 0x00ff_ffff,
{
    let (r, g, b) = color;
    assert((((r as u32) << 16) | ((g as u32) << 8) | (b as u32)) == (r as u32 * 0x1_0000 + g as u32
        * 0x100 + b as u32) as u32) by (bit_vector);
    ((r as u32) << 16) | ((g as u32) << 8) | (b as u32)
}

/// The code point of the icon of tags.
pub const TAG_ICON: u32 = 0xf1224;

/// The column at which the counts of the tags begin.
pub const COUNT_COLUMN: usize = 20;

/// The number of bytes that a name takes.
pub open spec fn byte_len(name: Seq<char>) -> nat {
    vstd::utf8::encode_utf8(name).len()
}

/// `line` is the line that shows `tag`: the icon of tags in the tag's
/// colour, the tag's name, and its count, moved to the column of counts.
pub open spec fn is_tag_line(tag: TagView, line: Seq<Styled>) -> bool {
    &&& line.len() == 3
    &&& is_icon_text(TAG_ICON, line[0].text@)
    &&& line[0].color == Some(tag.color)
    &&& line[1]@ == (StyledView { text: tag.name, color: None })
    &&& line[2]@ == (StyledView {
        text: spaces((COUNT_COLUMN - byte_len(tag.name)) as nat) + signed_decimal(tag.refs),
        color: Some(BLUE),
    })
}

/// Every name leaves room for the column of counts.
pub open spec fn names_fit(tags: Seq<TagView>) -> bool {
    forall|i: int| 0 <= i < tags.len() ==> byte_len((#[trigger] tags[i]).name) <= COUNT_COLUMN
}

/// The lines that show the tags, one per tag.
pub fn render_tag_list(sys: &TagSys) -> (lines: Vec<Vec<Styled>>)
    requires
        names_fit(sys@),
    ensures
        lines@.len() == sys@.len(),
        forall|i: int| 0 <= i < sys@.len() ==> is_tag_line(sys@[i], (#[trigger] lines@[i])@),
{
    let mut lines: Vec<Vec<Styled>> = Vec::new();
    let mut i: usize = 0;
    while i < sys.len()
        invariant
            i <= sys@.len(),
            names_fit(sys@),
            lines@.len() == i,
            forall|j: int| 0 <= j < i ==> is_tag_line(sys@[j], (#[trigger] lines@[j])@),
        decreases sys@.len() - i,
    {
        let tag = sys.get(i);
        let name = tag.name();
        assert(byte_len(sys@[i as int].name) <= COUNT_COLUMN);
        let mut count: Vec<char> = Vec::new();
        push_spaces(&mut count, COUNT_COLUMN - name.len());
        push_signed(&mut count, tag.refs());
        let mut line: Vec<Styled> = Vec::new();
        line.push(Styled { text: unicode_icon(TAG_ICON), color: Some(*tag.color()) });
        line.push(Styled { text: name.to_owned(), color: None });
        line.push(Styled { text: string_of(&count), color: Some(BLUE) });
        lines.push(line);
        i += 1;
    }
    lines
}

/// The regular expression that an edit of a tag has to match: a name, a
/// colon, a white space, and then a colour written as `#` with six
/// characters or by its name in the theme.
pub const EDIT_PATTERN: &'static str =
    r"^\w+:\s((#\w{6})|(Red|Green|Yellow|Blue|Purple|Aqua|Gray|Orange))";

/// A colour after its way through its three channels and back.
pub open spec fn repacked(c: u32) -> u32 {
    hex_of(channels_of(c).0, channels_of(c).1, channels_of(c).2)
}

/// The colour that the text behind the colon of an edit writes: a number
/// in base 16 where the text holds a `#`, else a colour of the theme.
pub open spec fn edit_color(rest: Seq<char>) -> Option<u32> {
    let color_str = removed(rest, " #"@);
    if occurs(rest, "#"@) {
        parsed_hex(color_str)
    } else {
        match term_color_of(trimmed(color_str)) {
            Some(c) => Some(repacked(c)),
            None => None,
        }
    }
}

/// The new name and colour that an edit writes: the name is what stands
/// before the first colon, the colour what stands behind it.
pub open spec fn edit_of(input: Seq<char>) -> Option<(Seq<char>, u32)> {
    if occurs(input, ":"@) {
        let i = choose|i: int| first_at(input, ":"@, i);
        match edit_color(input.skip(i + ":"@.len())) {
            Some(c) => Some((input.take(i), c)),
            None => None,
        }
    } else {
        None
    }
}

/// The first position of a part is the chosen one.
pub proof fn lemma_first_at_unique(s: Seq<char>, pat: Seq<char>, i: int, j: int)
    requires
        first_at(s, pat, i),
        first_at(s, pat, j),
    ensures
        i == j,
{
}

/// Reads the new name and colour out of an edit.
pub fn parse_edit(input: &str) -> (r: Option<(String, u32)>)
    ensures
        r is Some <==> edit_of(input@) is Some,
        r matches Some(e) ==> edit_of(input@) == Some((e.0@, e.1)),
{
    let text = chars_of(input);
    let colon = chars_of(":");
    let i = match find(&text, &colon) {
        Some(i) => i,
        None => {
            return None;
        },
    };
    proof {
        let k = choose|k: int| first_at(input@, ":"@, k);
        lemma_first_at_unique(input@, ":"@, i as int, k);
    }
    let n = text.len();
    assert(i + colon@.len() <= n);
    let name = slice_chars(&text, 0, i);
    let rest = slice_chars(&text, i + colon.len(), n);
    assert(name@ =~= input@.take(i as int));
    assert(rest@ =~= input@.skip(i + ":"@.len()));
    let color_str = remove_all(&rest, &chars_of(" #"));
    let color = if find(&rest, &chars_of("#")).is_some() {
        parse_hex(&color_str)
    } else {
        let key = string_of(&trim(&color_str));
        match term_color(key.as_str()) {
            Some(c) => Some(rgb_to_hex(channels(c))),
            None => None,
        }
    };
    match color {
        Some(c) => Some((string_of(&name), c)),
        None => None,
    }
}

} // verus!

use vstd::prelude::*;
use crate::text::same_text;

verus! {

/// The screen region that an effect is drawn into.
#[derive(Clone, Copy, Debug, PartialEq, Eq, Structural)]
pub struct Area {
    pub x: u16,
    pub y: u16,
    pub width: u16,
    pub height: u16,
}

/// When an animation should be playing. A trigger is evaluated once per
/// frame against the application's state and the registry itself.
pub enum Trigger {
    /// Play from the first frame on.
    Always,
    /// Play once the named animation has completed.
    After(String),
    /// Play once the application has been opened before, or else once the
    /// named animation has completed.
    OpenedOrAfter(String),
}

/// A trigger as a mathematical value.
pub enum TriggerView {
    Always,
    After(Seq<char>),
    OpenedOrAfter(Seq<char>),
}

impl View for Trigger {
    type V = TriggerView;

    open spec fn view(&self) -> TriggerView {
        match self {
            Trigger::Always => TriggerView::Always,
            Trigger::After(n) => TriggerView::After(n@),
            Trigger::OpenedOrAfter(n) => TriggerView::OpenedOrAfter(n@),
        }
    }
}

/// The view of an optional trigger.
pub open spec fn trigger_view(t: Option<Trigger>) -> Option<TriggerView> {
    match t {
        Some(t) => Some(t@),
        None => None,
    }
}

/// What the driver owes one effect in one frame.
#[derive(Clone, Copy, Debug, PartialEq, Eq, Structural)]
pub struct Step {
    /// The effect is put back to its initial state before it is advanced.
    pub reset: bool,
    /// The time by which the effect's clock is advanced.
    pub elapsed_ms: u32,
}

/// One registered effect with its bookkeeping.
pub struct Animation<E> {
    pub effect: E,
    pub area: Area,
    pub should_progress: bool,
    trigger: Option<Trigger>,
    last_trigger: bool,
    name: String,
}

/// An animation as a mathematical value.
pub struct AnimationView<E> {
    pub name: Seq<char>,
    pub effect: E,
    pub area: Area,
    pub should_progress: bool,
    pub trigger: Option<TriggerView>,
    pub last_trigger: bool,
}

impl<E> View for Animation<E> {
    type V = AnimationView<E>;

    closed spec fn view(&self) -> AnimationView<E> {
        AnimationView {
            name: self.name@,
            effect: self.effect,
            area: self.area,
            should_progress: self.should_progress,
            trigger: trigger_view(self.trigger),
            last_trigger: self.last_trigger,
        }
    }
}

impl<E> AnimationView<E> {
    /// The same entry around another effect.
    pub open spec fn with_effect(self, effect: E) -> AnimationView<E> {
        AnimationView {
            name: self.name,
            effect,
            area: self.area,
            should_progress: self.should_progress,
            trigger: self.trigger,
            last_trigger: self.last_trigger,
        }
    }
}

impl<E> Animation<E> {
    /// The name under which the animation is registered.
    pub fn name(&self) -> (n: &str)
        ensures
            n@ == self@.name,
    {
        self.name.as_str()
    }

    /// The value that the trigger had in the last frame.
    pub fn last_trigger(&self) -> (b: bool)
        ensures
            b == self@.last_trigger,
    {
        self.last_trigger
    }
}

/// The bookkeeping of an animation after a frame in which its trigger
/// evaluated to `trig`: it plays from the first true trigger on, and
/// remembers the trigger's value for the next frame.
pub open spec fn stepped<E>(a: AnimationView<E>, trig: bool) -> AnimationView<E> {
    AnimationView {
        name: a.name,
        effect: a.effect,
        area: a.area,
        should_progress: a.should_progress || trig,
        trigger: a.trigger,
        last_trigger: trig,
    }
}

/// What the effect of an animation is owed in a frame of `elapsed_ms` in
/// which its trigger evaluated to `trig`: a reset exactly on the change from
/// false to true, and the frame's time exactly if it is playing.
pub open spec fn step_of<E>(a: AnimationView<E>, trig: bool, elapsed_ms: u32) -> Step {
    Step {
        reset: trig && !a.last_trigger,
        elapsed_ms: if a.should_progress || trig {
            elapsed_ms
        } else {
            0
        },
    }
}

/// An entry of the registry bears `name`.
pub open spec fn has_name<E>(entries: Seq<AnimationView<E>>, name: Seq<char>) -> bool {
    exists|i: int| 0 <= i < entries.len() && (#[trigger] entries[i]).name == name
}

/// The position of an entry that bears `name`; meaningful when one exists.
pub open spec fn index_of_name<E>(entries: Seq<AnimationView<E>>, name: Seq<char>) -> int {
    choose|i: int| 0 <= i < entries.len() && (#[trigger] entries[i]).name == name
}

/// No two entries bear the same name.
pub open spec fn distinct_names<E>(entries: Seq<AnimationView<E>>) -> bool {
    forall|i: int, j: int|
        0 <= i < j < entries.len() ==> (#[trigger] entries[i]).name != (#[trigger] entries[j]).name
}

/// The animation named by the trigger is registered wherever the trigger
/// has to ask for it.
pub open spec fn resolvable<E>(
    t: Option<TriggerView>,
    opened_once: bool,
    entries: Seq<AnimationView<E>>,
) -> bool {
    match t {
        Some(TriggerView::After(n)) => has_name(entries, n),
        Some(TriggerView::OpenedOrAfter(n)) => opened_once || has_name(entries, n),
        _ => true,
    }
}

/// The value of a trigger against the application's state (`opened_once`)
/// and the registry with the completion flags of its effects (`done`).
/// An entry without a trigger never starts by itself.
pub open spec fn trigger_value<E>(
    t: Option<TriggerView>,
    opened_once: bool,
    entries: Seq<AnimationView<E>>,
    done: Seq<bool>,
) -> bool {
    match t {
        None => false,
        Some(TriggerView::Always) => true,
        Some(TriggerView::After(n)) => done[index_of_name(entries, n)],
        Some(TriggerView::OpenedOrAfter(n)) => opened_once || done[index_of_name(entries, n)],
    }
}

/// In a registry of distinct names, a bearer of a name is the chosen one.
pub proof fn lemma_index_of_name<E>(entries: Seq<AnimationView<E>>, name: Seq<char>, i: int)
    requires
        distinct_names(entries),
        0 <= i < entries.len(),
        entries[i].name == name,
    ensures
        index_of_name(entries, name) == i,
        has_name(entries, name),
{
    let k = index_of_name(entries, name);
    assert(0 <= k < entries.len() && entries[k].name == name);
    if k < i {
        assert(entries[k].name != entries[i].name);
    }
    if i < k {
        assert(entries[i].name != entries[k].name);
    }
}

/// A new entry as it enters the registry: not playing, and with no
/// trigger value seen yet.
pub open spec fn new_entry<E>(
    name: Seq<char>,
    effect: E,
    area: Area,
    trigger: Option<TriggerView>,
) -> AnimationView<E> {
    AnimationView { name, effect, area, should_progress: false, trigger, last_trigger: false }
}

/// The registry after `entry` was offered to it: unchanged where its name is
/// taken, else with the entry at the end.
pub open spec fn offered<E>(entries: Seq<AnimationView<E>>, entry: AnimationView<E>) -> Seq<
    AnimationView<E>,
> {
    if has_name(entries, entry.name) {
        entries
    } else {
        entries.push(entry)
    }
}

/// The values of all triggers of the registry in one frame.
pub open spec fn trigger_values<E>(
    entries: Seq<AnimationView<E>>,
    opened_once: bool,
    done: Seq<bool>,
) -> Seq<bool> {
    Seq::new(entries.len(), |i: int| trigger_value(entries[i].trigger, opened_once, entries, done))
}

/// Every trigger of the registry can be evaluated.
pub open spec fn all_resolvable<E>(entries: Seq<AnimationView<E>>, opened_once: bool) -> bool {
    forall|i: int|
        0 <= i < entries.len() ==> resolvable(
            (#[trigger] entries[i]).trigger,
            opened_once,
            entries,
        )
}

/// The registry after a frame in which the triggers had the values `trigs`.
pub open spec fn all_stepped<E>(entries: Seq<AnimationView<E>>, trigs: Seq<bool>) -> Seq<
    AnimationView<E>,
> {
    Seq::new(entries.len(), |i: int| stepped(entries[i], trigs[i]))
}

/// What the effects are owed in a frame of `elapsed_ms` in which the
/// triggers had the values `trigs`.
pub open spec fn all_steps<E>(
    entries: Seq<AnimationView<E>>,
    trigs: Seq<bool>,
    elapsed_ms: u32,
) -> Seq<Step> {
    Seq::new(entries.len(), |i: int| step_of(entries[i], trigs[i], elapsed_ms))
}

/// The named collection of animations.
pub struct AnimationHandler<E> {
    animations: Vec<Animation<E>>,
}

impl<E> View for AnimationHandler<E> {
    type V = Seq<AnimationView<E>>;

    closed spec fn view(&self) -> Seq<AnimationView<E>> {
        self.animations@.map_values(|a: Animation<E>| a@)
    }
}

impl<E> AnimationHandler<E> {
    /// The registry's invariant: a name is registered at most once.
    pub open spec fn wf(&self) -> bool {
        distinct_names(self@)
    }

    /// An empty registry.
    pub fn new() -> (h: Self)
        ensures
            h@ == Seq::<AnimationView<E>>::empty(),
            h.wf(),
    {
        let h = AnimationHandler { animations: Vec::new() };
        assert(h@ =~= Seq::<AnimationView<E>>::empty());
        h
    }

    /// The number of registered animations.
    pub fn len(&self) -> (n: usize)
        ensures
            n == self@.len(),
    {
        self.animations.len()
    }

    /// The position of the animation named `name`, if it is registered.
    pub fn position(&self, name: &str) -> (r: Option<usize>)
        ensures
            r is Some <==> has_name(self@, name@),
            r matches Some(i) ==> i < self@.len() && self@[i as int].name == name@,
            r matches Some(i) ==> self.wf() ==> index_of_name(self@, name@) == i,
    {
        let mut i: usize = 0;
        while i < self.animations.len()
            invariant
                i <= self.animations.len(),
                self@.len() == self.animations.len(),
                forall|j: int| 0 <= j < i ==> (#[trigger] self@[j]).name != name@,
            decreases self.animations.len() - i,
        {
            assert(self@[i as int] == self.animations[i as int]@);
            if same_text(self.animations[i].name.as_str(), name) {
                proof {
                    if self.wf() {
                        lemma_index_of_name(self@, name@, i as int);
                    }
                }
                return Some(i);
            }
            i += 1;
        }
        None
    }

    /// Whether an animation named `name` is registered.
    pub fn contains(&self, name: &str) -> (r: bool)
        ensures
            r == has_name(self@, name@),
    {
        self.position(name).is_some()
    }

    /// Registers a new animation under `name`, not playing and with no
    /// trigger value seen yet, and returns the position of the last entry.
    /// An entry lives as long as the registry: where `name` is registered
    /// already its entry stays as it is, playing or not, and what was
    /// passed is dropped.
    pub fn add(&mut self, name: &str, effect: E, area: Area, trigger: Option<Trigger>) -> (r: usize)
        requires
            old(self).wf(),
        ensures
            final(self).wf(),
            final(self)@ == offered(old(self)@, new_entry(name@, effect, area, trigger_view(trigger))),
            r == final(self)@.len() - 1,
    {
        let ghost before = self@;
        if self.position(name).is_none() {
            let anim = Animation {
                effect,
                area,
                should_progress: false,
                trigger,
                last_trigger: false,
                name: name.to_owned(),
            };
            let ghost entry = anim@;
            self.animations.push(anim);
            assert(self@ =~= before.push(entry));
        }
        self.animations.len() - 1
    }

    /// Registers a new animation under `name` unless one is registered
    /// under that name already, and says whether it did.
    pub fn add_if_missing(
        &mut self,
        name: &str,
        effect: E,
        area: Area,
        trigger: Option<Trigger>,
    ) -> (inserted: bool)
        requires
            old(self).wf(),
        ensures
            final(self).wf(),
            inserted == !has_name(old(self)@, name@),
            final(self)@ == offered(old(self)@, new_entry(name@, effect, area, trigger_view(trigger))),
    {
        let inserted = !self.contains(name);
        self.add(name, effect, area, trigger);
        inserted
    }

    /// Whether the animation named `name` has completed, by the completion
    /// flags `done` of the registry's effects.
    pub fn after_anim(&self, name: &str, done: &Vec<bool>) -> (r: bool)
        requires
            self.wf(),
            has_name(self@, name@),
            done@.len() == self@.len(),
        ensures
            r == done@[index_of_name(self@, name@)],
    {
        let i = self.position(name).unwrap();
        done[i]
    }

    /// The value of the trigger of entry `i` in this frame.
    fn eval_trigger(&self, i: usize, opened_once: bool, done: &Vec<bool>) -> (r: bool)
        requires
            self.wf(),
            i < self@.len(),
            done@.len() == self@.len(),
            resolvable(self@[i as int].trigger, opened_once, self@),
        ensures
            r == trigger_value(self@[i as int].trigger, opened_once, self@, done@),
    {
        assert(self@[i as int] == self.animations[i as int]@);
        match &self.animations[i].trigger {
            None => false,
            Some(Trigger::Always) => true,
            Some(Trigger::After(n)) => self.after_anim(n.as_str(), done),
            Some(Trigger::OpenedOrAfter(n)) => opened_once || self.after_anim(n.as_str(), done),
        }
    }

    /// Whether every trigger can be evaluated: the animations that the
    /// triggers have to ask for are registered.
    pub fn can_progress(&self, opened_once: bool) -> (r: bool)
        ensures
            r == all_resolvable(self@, opened_once),
    {
        let mut i: usize = 0;
        while i < self.animations.len()
            invariant
                i <= self.animations.len(),
                self@.len() == self.animations.len(),
                forall|j: int|
                    0 <= j < i ==> resolvable((#[trigger] self@[j]).trigger, opened_once, self@),
            decreases self.animations.len() - i,
        {
            assert(self@[i as int] == self.animations[i as int]@);
            let ok = match &self.animations[i].trigger {
                Some(Trigger::After(n)) => self.contains(n.as_str()),
                Some(Trigger::OpenedOrAfter(n)) => opened_once || self.contains(n.as_str()),
                _ => true,
            };
            if !ok {
                return false;
            }
            i += 1;
        }
        true
    }

    /// Evaluates every trigger against one snapshot: the application's
    /// state (`opened_once`) and the completion flags `done` of the effects
    /// as they are before the frame.
    pub fn eval_triggers(&self, opened_once: bool, done: &Vec<bool>) -> (trigs: Vec<bool>)
        requires
            self.wf(),
            done@.len() == self@.len(),
            all_resolvable(self@, opened_once),
        ensures
            trigs@ == trigger_values(self@, opened_once, done@),
    {
        let mut trigs: Vec<bool> = Vec::new();
        let mut i: usize = 0;
        while i < self.animations.len()
            invariant
                self.wf(),
                done@.len() == self@.len(),
                all_resolvable(self@, opened_once),
                i <= self.animations.len(),
                self@.len() == self.animations.len(),
                trigs@.len() == i,
                forall|j: int|
                    0 <= j < i ==> trigs@[j] == trigger_value(
                        self@[j].trigger,
                        opened_once,
                        self@,
                        done@,
                    ),
            decreases self.animations.len() - i,
        {
            let t = self.eval_trigger(i, opened_once, done);
            trigs.push(t);
            i += 1;
        }
        assert(trigs@ =~= trigger_values(self@, opened_once, done@));
        trigs
    }

    /// Applies the trigger values of one frame: each entry plays from its
    /// first true trigger on and remembers the value; the result says, entry
    /// by entry, what its effect is owed.
    pub fn apply_triggers(&mut self, trigs: &Vec<bool>, elapsed_ms: u32) -> (steps: Vec<Step>)
        requires
            old(self).wf(),
            trigs@.len() == old(self)@.len(),
        ensures
            final(self).wf(),
            final(self)@ == all_stepped(old(self)@, trigs@),
            steps@ == all_steps(old(self)@, trigs@, elapsed_ms),
    {
        let ghost before = self@;
        let mut steps: Vec<Step> = Vec::new();
        let mut i: usize = 0;
        while i < self.animations.len()
            invariant
                i <= self.animations.len(),
                self@.len() == self.animations.len(),
                self@.len() == before.len(),
                trigs@.len() == before.len(),
                steps@.len() == i,
                forall|j: int| 0 <= j < i ==> self@[j] == stepped(before[j], trigs@[j]),
                forall|j: int| i <= j < before.len() ==> self@[j] == before[j],
                forall|j: int|
                    0 <= j < i ==> steps@[j] == step_of(before[j], trigs@[j], elapsed_ms),
            decreases self.animations.len() - i,
        {
            let ghost mid = self@;
            assert(mid[i as int] == self.animations[i as int]@);
            let b = trigs[i];
            let reset = b && !self.animations[i].last_trigger;
            if b {
                self.animations[i].should_progress = true;
            }
            self.animations[i].last_trigger = b;
            let time = if self.animations[i].should_progress {
                elapsed_ms
            } else {
                0
            };
            steps.push(Step { reset, elapsed_ms: time });
            assert(self@[i as int] == self.animations[i as int]@);
            assert forall|j: int| 0 <= j <= i implies self@[j] == stepped(
                before[j],
                trigs@[j],
            ) by {
                if j < i {
                    assert(self@[j] == mid[j]);
                }
            }
            assert(forall|j: int| 0 <= j < self@.len() && j != i ==> self@[j] == mid[j]);
            i += 1;
        }
        assert(self@ =~= all_stepped(before, trigs@));
        assert(steps@ =~= all_steps(before, trigs@, elapsed_ms));
        steps
    }

    /// Advances the registry by one frame of `elapsed_ms`: all triggers are
    /// evaluated against one snapshot, then every entry is updated. The
    /// result says, entry by entry, what its effect is owed: a reset on the
    /// change of its trigger from false to true, and the frame's time if the
    /// entry is playing, else none.
    pub fn progress(&mut self, elapsed_ms: u32, opened_once: bool, done: &Vec<bool>) -> (steps: Vec<
        Step,
    >)
        requires
            old(self).wf(),
            done@.len() == old(self)@.len(),
            all_resolvable(old(self)@, opened_once),
        ensures
            final(self).wf(),
            final(self)@ == all_stepped(
                old(self)@,
                trigger_values(old(self)@, opened_once, done@),
            ),
            steps@ == all_steps(
                old(self)@,
                trigger_values(old(self)@, opened_once, done@),
                elapsed_ms,
            ),
    {
        let trigs = self.eval_triggers(opened_once, done);
        self.apply_triggers(&trigs, elapsed_ms)
    }

    /// The animation at position `i`.
    pub fn get(&self, i: usize) -> (a: &Animation<E>)
        requires
            i < self@.len(),
        ensures
            a@ == self@[i as int],
    {
        &self.animations[i]
    }

    /// Lends out the effect at position `i`, so that the driver can reset
    /// and advance it; the bookkeeping of the registry stays as it is.
    pub fn effect_mut(&mut self, i: usize) -> (e: &mut E)
        requires
            i < old(self)@.len(),
        ensures
            *e == old(self)@[i as int].effect,
            final(self)@ == old(self)@.update(
                i as int,
                old(self)@[i as int].with_effect(*final(e)),
            ),
    {
        let ghost before = self@;
        assert(before[i as int] == self.animations[i as int]@);
        let a = &mut self.animations[i];
        &mut a.effect
    }

    /// Whether any animation is playing.
    pub fn running(&self) -> (r: bool)
        ensures
            r == exists|i: int| 0 <= i < self@.len() && (#[trigger] self@[i]).should_progress,
    {
        let mut i: usize = 0;
        while i < self.animations.len()
            invariant
                i <= self.animations.len(),
                self@.len() == self.animations.len(),
                forall|j: int| 0 <= j < i ==> !(#[trigger] self@[j]).should_progress,
            decreases self.animations.len() - i,
        {
            assert(self@[i as int] == self.animations[i as int]@);
            if self.animations[i].should_progress {
                return true;
            }
            i += 1;
        }
        false
    }
}

/// The name of the animation that opens the intro.
pub const INTRO_START: &'static str = "intro_start";

/// The name of the animation that brings in the intro's text.
pub const INTRO_TEXT: &'static str = "para";

/// The name of the animation that closes the intro.
pub const INTRO_END: &'static str = "intro_end";

/// The name of the animation that brings in the main panel.
pub const MAIN_AREA: &'static str = "main_area";

/// The name of the animation that brings in the list of tabs.
pub const TAB_AREA: &'static str = "tab_area";

/// The registry after the three animations of the intro were offered to
/// it: the opening over `area` from the first frame on, the text over
/// `inner` after the opening, and the closing over `area` after the text.
pub open spec fn with_intro<E>(
    entries: Seq<AnimationView<E>>,
    area: Area,
    inner: Area,
    start: E,
    text: E,
    end: E,
) -> Seq<AnimationView<E>> {
    let first = offered(entries, new_entry(INTRO_START@, start, area, Some(TriggerView::Always)));
    let second = offered(
        first,
        new_entry(INTRO_TEXT@, text, inner, Some(TriggerView::After(INTRO_START@))),
    );
    offered(second, new_entry(INTRO_END@, end, area, Some(TriggerView::After(INTRO_TEXT@))))
}

/// Prepares the intro, which is shown until the application has been
/// opened once: registers its three animations where they are missing,
/// and says whether the intro is to be drawn.
pub fn render_intro<E>(
    anims: &mut AnimationHandler<E>,
    opened_once: bool,
    area: Area,
    inner: Area,
    start: E,
    text: E,
    end: E,
) -> (shown: bool)
    requires
        old(anims).wf(),
    ensures
        final(anims).wf(),
        shown == !opened_once,
        final(anims)@ == (if opened_once {
            old(anims)@
        } else {
            with_intro(old(anims)@, area, inner, start, text, end)
        }),
{
    if opened_once {
        return false;
    }
    anims.add_if_missing(INTRO_START, start, area, Some(Trigger::Always));
    anims.add_if_missing(INTRO_TEXT, text, inner, Some(Trigger::After(INTRO_START.to_owned())));
    anims.add_if_missing(INTRO_END, end, area, Some(Trigger::After(INTRO_TEXT.to_owned())));
    true
}

/// The registry after the two animations of the main layout were offered
/// to it: the main panel over the first area, once the application has
/// been opened before or the intro has closed, and the tabs over the
/// second area after the main panel.
pub open spec fn with_main_layout<E>(
    entries: Seq<AnimationView<E>>,
    areas: [Area; 2],
    main: E,
    tabs: E,
) -> Seq<AnimationView<E>> {
    let first = offered(
        entries,
        new_entry(MAIN_AREA@, main, areas[0], Some(TriggerView::OpenedOrAfter(INTRO_END@))),
    );
    offered(first, new_entry(TAB_AREA@, tabs, areas[1], Some(TriggerView::After(MAIN_AREA@))))
}

/// Registers the two animations of the main layout where they are
/// missing.
pub fn handle_main_layout_anims<E>(
    areas: &[Area; 2],
    anims: &mut AnimationHandler<E>,
    main: E,
    tabs: E,
)
    requires
        old(anims).wf(),
    ensures
        final(anims).wf(),
        final(anims)@ == with_main_layout(old(anims)@, *areas, main, tabs),
{
    anims.add_if_missing(
        MAIN_AREA,
        main,
        areas[0],
        Some(Trigger::OpenedOrAfter(INTRO_END.to_owned())),
    );
    anims.add_if_missing(TAB_AREA, tabs, areas[1], Some(Trigger::After(MAIN_AREA.to_owned())));
}

/// The main screen is due: the application has been opened before, or
/// the animation that closes the intro is registered and has completed.
pub open spec fn main_screen_due<E>(
    entries: Seq<AnimationView<E>>,
    opened_once: bool,
    done: Seq<bool>,
) -> bool {
    opened_once || (has_name(entries, INTRO_END@) && done[index_of_name(entries, INTRO_END@)])
}

/// Whether the main screen is to be drawn in place of the intro.
pub fn show_main_screen<E>(anims: &AnimationHandler<E>, opened_once: bool, done: &Vec<bool>) -> (r:
    bool)
    requires
        anims.wf(),
        done@.len() == anims@.len(),
    ensures
        r == main_screen_due(anims@, opened_once, done@),
{
    opened_once || (anims.contains(INTRO_END) && anims.after_anim(INTRO_END, done))
}

/// How long the loop waits for a key, in milliseconds: a short while as
/// long as an animation plays, longer otherwise.
pub fn poll_timeout_ms(running: bool) -> (ms: u64)
    ensures
        ms == (if running {
            32u64
        } else {
            500u64
        }),
{
    if running {
        32
    } else {
        500
    }
}

/// An entry after the frames whose trigger values were `ts`, in order.
pub open spec fn after_frames<E>(a: AnimationView<E>, ts: Seq<bool>) -> AnimationView<E>
    decreases ts.len(),
{
    if ts.len() == 0 {
        a
    } else {
        stepped(after_frames(a, ts.drop_last()), ts.last())
    }
}

/// What the effect of an entry is owed in frame `k` of the frames whose
/// trigger values are `ts`.
pub open spec fn frame_step<E>(a: AnimationView<E>, ts: Seq<bool>, k: int, elapsed_ms: u32) -> Step {
    step_of(after_frames(a, ts.take(k)), ts[k], elapsed_ms)
}

/// After at least one frame an entry remembers the last trigger value, and
/// it plays if it played before or any trigger value was true.
pub proof fn lemma_after_frames<E>(a: AnimationView<E>, ts: Seq<bool>)
    ensures
        ts.len() > 0 ==> after_frames(a, ts).last_trigger == ts.last(),
        ts.len() == 0 ==> after_frames(a, ts) == a,
        after_frames(a, ts).should_progress == (a.should_progress || exists|i: int|
            0 <= i < ts.len() && ts[i]),
        after_frames(a, ts).name == a.name,
        after_frames(a, ts).effect == a.effect,
        after_frames(a, ts).area == a.area,
        after_frames(a, ts).trigger == a.trigger,
    decreases ts.len(),
{
    if ts.len() > 0 {
        let init = ts.drop_last();
        lemma_after_frames(a, init);
        if exists|i: int| 0 <= i < ts.len() && ts[i] {
            let i = choose|i: int| 0 <= i < ts.len() && ts[i];
            if i < init.len() {
                assert(init[i]);
            }
        }
        if exists|i: int| 0 <= i < init.len() && init[i] {
            let i = choose|i: int| 0 <= i < init.len() && init[i];
            assert(ts[i]);
        }
    }
}

/// Edge triggering: over any sequence of trigger values, the effect is
/// reset in exactly those frames in which the trigger is true and was false
/// in the frame before (before the first frame: as the entry remembers it).
/// A trigger that stays true never resets the effect again.
pub proof fn lemma_edge_triggered<E>(a: AnimationView<E>, ts: Seq<bool>, k: int, elapsed_ms: u32)
    requires
        0 <= k < ts.len(),
    ensures
        frame_step(a, ts, k, elapsed_ms).reset == (ts[k] && !(if k == 0 {
            a.last_trigger
        } else {
            ts[k - 1]
        })),
        k > 0 && ts[k - 1] ==> !frame_step(a, ts, k, elapsed_ms).reset,
{
    lemma_after_frames(a, ts.take(k));
    if k > 0 {
        assert(ts.take(k).last() == ts[k - 1]);
    }
}

/// The clock of an effect advances by the frame's time in every frame from
/// the first one with a true trigger on, and stands still before.
pub proof fn lemma_clock<E>(a: AnimationView<E>, ts: Seq<bool>, k: int, elapsed_ms: u32)
    requires
        0 <= k < ts.len(),
    ensures
        frame_step(a, ts, k, elapsed_ms).elapsed_ms == (if a.should_progress || exists|i: int|
            0 <= i <= k && ts[i] {
            elapsed_ms
        } else {
            0
        }),
{
    let init = ts.take(k);
    lemma_after_frames(a, init);
    if exists|i: int| 0 <= i <= k && ts[i] {
        let i = choose|i: int| 0 <= i <= k && ts[i];
        if i < k {
            assert(init[i]);
        }
    }
    if exists|i: int| 0 <= i < init.len() && init[i] {
        let i = choose|i: int| 0 <= i < init.len() && init[i];
        assert(ts[i]);
    }
}

/// Idempotent registration: offering an animation under a name a second
/// time changes nothing, whatever is offered; the name is then registered
/// exactly once; and an entry that was registered before, playing or not,
/// stays as it was.
pub proof fn lemma_offer_idempotent<E>(
    entries: Seq<AnimationView<E>>,
    first: AnimationView<E>,
    second: AnimationView<E>,
)
    requires
        distinct_names(entries),
        first.name == second.name,
    ensures
        offered(offered(entries, first), second) == offered(entries, first),
        distinct_names(offered(entries, first)),
        has_name(offered(entries, first), first.name),
        forall|i: int, j: int|
            0 <= i < offered(entries, first).len() && 0 <= j < offered(entries, first).len()
                && offered(entries, first)[i].name == first.name && offered(
                entries,
                first,
            )[j].name == first.name ==> i == j,
        has_name(entries, first.name) ==> offered(entries, first) == entries,
{
    let once = offered(entries, first);
    if !has_name(entries, first.name) {
        assert(once[entries.len() as int].name == first.name);
        assert forall|i: int, j: int| 0 <= i < j < once.len() implies once[i].name
            != once[j].name by {
            if j == entries.len() {
                assert(entries[i].name != first.name);
            } else {
                assert(entries[i].name != entries[j].name);
            }
        }
    }
    assert(has_name(once, first.name));
    assert forall|i: int, j: int|
        0 <= i < once.len() && 0 <= j < once.len() && once[i].name == first.name && once[j].name
            == first.name implies i == j by {
        if i < j {
            assert(once[i].name != once[j].name);
        }
        if j < i {
            assert(once[j].name != once[i].name);
        }
    }
}

} // verus!

use kairotui::animation::{
    handle_main_layout_anims, poll_timeout_ms, render_intro, show_main_screen, AnimationHandler,
    Area, Step, Trigger,
};

fn area(x: u16) -> Area {
    Area { x, y: 0, width: 10, height: 5 }
}

#[test]
fn edge_triggering_resets_on_rising_edges_only() {
    let mut anims: AnimationHandler<u32> = AnimationHandler::new();
    anims.add("fade", 7, area(0), Some(Trigger::Always));
    let sequence = [false, true, true, false, true];
    let mut resets = Vec::new();
    for (i, t) in sequence.iter().enumerate() {
        let steps = anims.apply_triggers(&vec![*t], 16);
        assert_eq!(steps.len(), 1);
        if steps[0].reset {
            resets.push(i);
        }
        assert_eq!(anims.get(0).last_trigger(), *t);
    }
    assert_eq!(resets, vec![1, 4]);
}

#[test]
fn clock_stands_still_until_the_first_true_trigger() {
    let mut anims: AnimationHandler<u32> = AnimationHandler::new();
    anims.add("fade", 7, area(0), None);
    let steps = anims.apply_triggers(&vec![false], 16);
    assert_eq!(steps[0], Step { reset: false, elapsed_ms: 0 });
    assert!(!anims.running());
    let steps = anims.apply_triggers(&vec![true], 16);
    assert_eq!(steps[0], Step { reset: true, elapsed_ms: 16 });
    assert!(anims.running());
    let steps = anims.apply_triggers(&vec![false], 33);
    assert_eq!(steps[0], Step { reset: false, elapsed_ms: 33 });
    assert!(anims.get(0).should_progress);
}

#[test]
fn entry_without_trigger_never_starts() {
    let mut anims: AnimationHandler<u32> = AnimationHandler::new();
    anims.add("still", 1, area(0), None);
    for _ in 0..3 {
        let steps = anims.progress(20, true, &vec![true]);
        assert_eq!(steps, vec![Step { reset: false, elapsed_ms: 0 }]);
    }
    assert!(!anims.running());
}

#[test]
fn registration_is_idempotent() {
    let mut anims: AnimationHandler<u32> = AnimationHandler::new();
    assert!(anims.add_if_missing("intro", 1, area(1), Some(Trigger::Always)));
    let steps = anims.progress(10, false, &vec![false]);
    assert_eq!(steps, vec![Step { reset: true, elapsed_ms: 10 }]);
    assert!(anims.get(0).should_progress);

    assert!(!anims.add_if_missing("intro", 2, area(2), None));
    assert_eq!(anims.len(), 1);
    let entry = anims.get(0);
    assert_eq!(entry.effect, 1);
    assert_eq!(entry.area, area(1));
    assert!(entry.should_progress);
    assert!(entry.last_trigger());
    assert_eq!(entry.name(), "intro");

    let steps = anims.progress(10, false, &vec![false]);
    assert_eq!(steps, vec![Step { reset: false, elapsed_ms: 10 }]);
}

#[test]
fn add_leaves_an_entry_of_the_same_name_as_it_is() {
    let mut anims: AnimationHandler<u32> = AnimationHandler::new();
    assert_eq!(anims.add("a", 1, area(1), Some(Trigger::Always)), 0);
    assert_eq!(anims.add("b", 2, area(2), None), 1);
    anims.progress(10, false, &vec![false, false]);
    assert!(anims.get(0).should_progress);
    assert!(anims.get(0).last_trigger());
    assert_eq!(anims.add("a", 3, area(3), None), 1);
    assert_eq!(anims.len(), 2);
    assert_eq!(anims.get(0).name(), "a");
    assert_eq!(anims.get(0).effect, 1);
    assert_eq!(anims.get(0).area, area(1));
    assert!(anims.get(0).should_progress);
    assert!(anims.get(0).last_trigger());
    assert_eq!(anims.get(1).effect, 2);
    let steps = anims.progress(10, false, &vec![false, false]);
    assert_eq!(steps[0], Step { reset: false, elapsed_ms: 10 });
}

#[test]
fn position_and_contains() {
    let mut anims: AnimationHandler<u32> = AnimationHandler::new();
    assert_eq!(anims.position("a"), None);
    assert!(!anims.contains("a"));
    anims.add("a", 1, area(1), None);
    anims.add("b", 2, area(2), None);
    assert_eq!(anims.position("b"), Some(1));
    assert!(anims.contains("a"));
    assert!(!anims.contains("c"));
}

#[test]
fn triggers_see_one_snapshot_per_frame() {
    let mut anims: AnimationHandler<u32> = AnimationHandler::new();
    anims.add("first", 1, area(0), Some(Trigger::Always));
    anims.add("second", 2, area(0), Some(Trigger::After("first".to_string())));
    anims.add("third", 3, area(0), Some(Trigger::After("second".to_string())));

    let trigs = anims.eval_triggers(false, &vec![false, false, false]);
    assert_eq!(trigs, vec![true, false, false]);
    let steps = anims.progress(16, false, &vec![false, false, false]);
    assert_eq!(
        steps,
        vec![
            Step { reset: true, elapsed_ms: 16 },
            Step { reset: false, elapsed_ms: 0 },
            Step { reset: false, elapsed_ms: 0 },
        ]
    );

    let steps = anims.progress(16, false, &vec![true, false, false]);
    assert_eq!(
        steps,
        vec![
            Step { reset: false, elapsed_ms: 16 },
            Step { reset: true, elapsed_ms: 16 },
            Step { reset: false, elapsed_ms: 0 },
        ]
    );

    let steps = anims.progress(16, false, &vec![true, true, false]);
    assert_eq!(
        steps,
        vec![
            Step { reset: false, elapsed_ms: 16 },
            Step { reset: false, elapsed_ms: 16 },
            Step { reset: true, elapsed_ms: 16 },
        ]
    );
    assert!(anims.running());
}

#[test]
fn opened_once_starts_the_main_area_without_the_intro() {
    let mut anims: AnimationHandler<u32> = AnimationHandler::new();
    handle_main_layout_anims(&[area(1), area(2)], &mut anims, 10, 20);
    assert_eq!(anims.len(), 2);
    assert_eq!(anims.get(0).name(), "main_area");
    assert_eq!(anims.get(0).area, area(1));
    assert_eq!(anims.get(1).name(), "tab_area");
    assert_eq!(anims.get(1).area, area(2));
    let steps = anims.progress(8, true, &vec![false, false]);
    assert_eq!(
        steps,
        vec![Step { reset: true, elapsed_ms: 8 }, Step { reset: false, elapsed_ms: 0 }]
    );
    handle_main_layout_anims(&[area(3), area(4)], &mut anims, 30, 40);
    assert_eq!(anims.len(), 2);
    assert_eq!(anims.get(0).effect, 10);
}

#[test]
fn intro_is_registered_once_and_leads_to_the_main_screen() {
    let mut anims: AnimationHandler<u32> = AnimationHandler::new();
    assert!(!render_intro(&mut anims, true, area(1), area(2), 1, 2, 3));
    assert_eq!(anims.len(), 0);
    assert!(show_main_screen(&anims, true, &vec![]));
    assert!(!show_main_screen(&anims, false, &vec![]));

    assert!(render_intro(&mut anims, false, area(1), area(2), 1, 2, 3));
    assert_eq!(anims.len(), 3);
    assert_eq!(anims.get(0).name(), "intro_start");
    assert_eq!(anims.get(1).name(), "para");
    assert_eq!(anims.get(1).area, area(2));
    assert_eq!(anims.get(2).name(), "intro_end");
    assert!(render_intro(&mut anims, false, area(5), area(6), 4, 5, 6));
    assert_eq!(anims.len(), 3);
    assert_eq!(anims.get(0).effect, 1);

    assert!(!show_main_screen(&anims, false, &vec![true, true, false]));
    assert!(show_main_screen(&anims, false, &vec![false, false, true]));
    assert!(anims.after_anim("para", &vec![false, true, false]));
    assert!(!anims.after_anim("intro_start", &vec![false, true, false]));
}

#[test]
fn triggers_that_name_a_missing_animation_cannot_be_evaluated() {
    let mut anims: AnimationHandler<u32> = AnimationHandler::new();
    assert!(anims.can_progress(false));
    anims.add("main", 1, area(0), Some(Trigger::OpenedOrAfter("intro_end".to_string())));
    assert!(anims.can_progress(true));
    assert!(!anims.can_progress(false));
    anims.add("intro_end", 2, area(0), None);
    assert!(anims.can_progress(false));
    anims.add("late", 3, area(0), Some(Trigger::After("never".to_string())));
    assert!(!anims.can_progress(true));
}

#[test]
fn effect_can_be_changed_in_place() {
    let mut anims: AnimationHandler<u32> = AnimationHandler::new();
    anims.add("a", 1, area(1), None);
    anims.add("b", 2, area(2), None);
    *anims.effect_mut(1) = 9;
    assert_eq!(anims.get(0).effect, 1);
    assert_eq!(anims.get(1).effect, 9);
    assert_eq!(anims.get(1).name(), "b");
}

#[test]
fn poll_interval_follows_the_animations() {
    assert_eq!(poll_timeout_ms(true), 32);
    assert_eq!(poll_timeout_ms(false), 500);
}

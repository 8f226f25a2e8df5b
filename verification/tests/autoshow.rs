use niri_groom::autoshow::{target_for, AutoShow, Target};

#[test]
fn target_prefers_the_window_over_its_workspace() {
    assert_eq!(target_for(Some(7), Some(3)), Some(Target::Window(7)));
    assert_eq!(target_for(None, Some(3)), Some(Target::Workspace(3)));
    assert_eq!(target_for(None, None), None);
}

#[test]
fn a_window_and_a_workspace_sharing_an_id_are_different_targets() {
    assert_ne!(Target::Window(1), Target::Workspace(1));
}

#[test]
fn off_by_default_and_queues_nothing() {
    let mut a = AutoShow::default();
    assert!(!a.is_on());
    assert!(!a.queue(Target::Window(1)));
    assert_eq!(a.take_due(), None);
}

#[test]
fn enabling_sends_nothing_by_itself() {
    let mut a = AutoShow::default();
    a.enable(Some(Target::Window(1)));
    assert!(a.is_on());
    assert_eq!(a.take_due(), None);
}

#[test]
fn the_seeded_focus_is_not_re_sent() {
    let mut a = AutoShow::default();
    a.enable(Some(Target::Window(1)));
    assert!(!a.queue(Target::Window(1)));
    assert_eq!(a.take_due(), None);
}

#[test]
fn a_new_target_arms_a_timer_and_is_sent_once() {
    let mut a = AutoShow::default();
    a.enable(Some(Target::Window(1)));
    assert!(a.queue(Target::Window(2)));
    assert_eq!(a.take_due(), Some(Target::Window(2)));
    assert_eq!(a.take_due(), None);
}

#[test]
fn a_target_already_sent_is_not_sent_again() {
    let mut a = AutoShow::default();
    a.enable(None);
    a.queue(Target::Workspace(5));
    assert_eq!(a.take_due(), Some(Target::Workspace(5)));
    assert!(!a.queue(Target::Workspace(5)));
    assert_eq!(a.take_due(), None);
}

#[test]
fn bursts_arm_one_timer_and_send_only_the_latest() {
    let mut a = AutoShow::default();
    a.enable(Some(Target::Window(1)));
    assert!(a.queue(Target::Window(2)));
    assert!(!a.queue(Target::Window(3)));
    assert!(!a.queue(Target::Window(4)));
    assert_eq!(a.take_due(), Some(Target::Window(4)));
    assert_eq!(a.take_due(), None);
}

#[test]
fn navigating_away_and_back_within_the_debounce_sends_nothing() {
    let mut a = AutoShow::default();
    a.enable(Some(Target::Window(1)));
    a.queue(Target::Window(2));
    a.queue(Target::Window(1));
    assert_eq!(a.take_due(), None);
}

#[test]
fn disabling_drops_a_pending_target() {
    let mut a = AutoShow::default();
    a.enable(Some(Target::Window(1)));
    a.queue(Target::Window(2));
    a.disable();
    assert!(!a.is_on());
    assert_eq!(a.take_due(), None);
}

#[test]
fn re_enabling_seeds_from_the_new_focus() {
    let mut a = AutoShow::default();
    a.enable(Some(Target::Window(1)));
    a.queue(Target::Window(2));
    assert_eq!(a.take_due(), Some(Target::Window(2)));
    a.disable();
    a.enable(Some(Target::Window(9)));
    assert!(!a.queue(Target::Window(9)));
    assert!(a.queue(Target::Window(2)));
    assert_eq!(a.take_due(), Some(Target::Window(2)));
}

#[test]
fn a_focus_from_elsewhere_is_recorded_so_navigating_back_still_sends() {
    let mut a = AutoShow::default();
    a.enable(Some(Target::Window(1)));
    // Something else (pressing Enter) focused window 5.
    a.record_sent(Target::Window(5));
    assert!(a.queue(Target::Window(1)));
    assert_eq!(a.take_due(), Some(Target::Window(1)));
}

#[test]
fn a_recorded_focus_cancels_a_pending_send_of_the_same_target() {
    let mut a = AutoShow::default();
    a.enable(Some(Target::Window(1)));
    a.queue(Target::Window(2));
    a.record_sent(Target::Window(2));
    assert_eq!(a.take_due(), None);
}

#[test]
fn nothing_is_recorded_while_the_mode_is_off() {
    let mut a = AutoShow::default();
    a.record_sent(Target::Window(5));
    a.enable(Some(Target::Window(1)));
    assert!(a.queue(Target::Window(5)));
    assert_eq!(a.take_due(), Some(Target::Window(5)));
}

#[test]
fn a_timer_can_be_armed_again_after_one_fires() {
    let mut a = AutoShow::default();
    a.enable(None);
    assert!(a.queue(Target::Window(2)));
    a.take_due();
    assert!(a.queue(Target::Window(3)));
    assert_eq!(a.take_due(), Some(Target::Window(3)));
}

#[test]
fn disabling_keeps_a_running_timer_so_re_enabling_arms_no_second_one() {
    let mut a = AutoShow::default();
    a.enable(Some(Target::Window(1)));
    assert!(a.queue(Target::Window(2)));
    a.disable();
    a.enable(Some(Target::Window(1)));
    assert!(!a.queue(Target::Window(3)));
    assert_eq!(a.take_due(), Some(Target::Window(3)));
}

#[test]
fn toggling_flips_the_mode_and_seeds_from_the_focus_when_arming() {
    let mut a = AutoShow::default();
    assert!(a.toggle(Some(Target::Window(4))));
    assert!(a.is_on());
    assert!(!a.queue(Target::Window(4)));
    assert!(a.queue(Target::Window(5)));
    assert!(!a.toggle(None));
    assert!(!a.is_on());
    assert_eq!(a.take_due(), None);
    assert!(a.toggle(None));
    assert!(a.is_on());
}

use axiomd::window::bare;
use axiomd::zoom::{Step, Zoom, HUNDRED_PERCENT, IN, LADDER, OUT, RESET};

#[test]
fn the_ladder_runs_from_half_size_to_double_through_100_percent() {
    assert_eq!(LADDER[0], 50);
    assert_eq!(LADDER[LADDER.len() - 1], 200);
    assert_eq!(LADDER[HUNDRED_PERCENT], 100);
    for pair in LADDER.windows(2) {
        assert!(pair[0] < pair[1], "the ladder goes backwards at {pair:?}");
    }
}

#[test]
fn every_zoom_action_is_registered_under_the_name_its_shortcut_uses() {
    for action in [IN, OUT, RESET] {
        assert!(action.starts_with("win."), "{action} is not a window action");
        assert_eq!(bare(action), &action["win.".len()..]);
    }
}

#[test]
fn a_new_window_opens_at_100_percent_and_walks_the_ladder() {
    let mut zoom = Zoom::new();
    assert_eq!(zoom.percent(), 100);
    assert_eq!(zoom.label(), "100%");
    assert!(zoom.step(Step::In));
    assert_eq!(zoom.label(), "110%");
    assert!(zoom.step(Step::Out));
    assert!(zoom.step(Step::Out));
    assert_eq!(zoom.percent(), 90);
    zoom.reset();
    assert_eq!(zoom.percent(), 100);
}

#[test]
fn the_step_that_would_leave_the_ladder_is_not_taken_or_offered() {
    let mut zoom = Zoom::new();
    zoom.settle(9);
    assert_eq!(zoom.percent(), 200);
    assert!(!zoom.can_zoom_in());
    assert!(zoom.can_zoom_out());
    assert!(!zoom.step(Step::In));
    assert_eq!(zoom.percent(), 200);
    zoom.settle(0);
    assert_eq!(zoom.label(), "50%");
    assert!(!zoom.can_zoom_out());
    assert!(!zoom.step(Step::Out));
    assert_eq!(zoom.at(), 0);
}

#[test]
fn the_wheel_zooms_only_with_control_held() {
    let mut zoom = Zoom::new();
    assert!(!zoom.scrolled(Some(Step::In), false));
    assert_eq!(zoom.percent(), 100);
    assert!(zoom.scrolled(Some(Step::In), true));
    assert_eq!(zoom.percent(), 110);
    assert!(!zoom.scrolled(None, true));
    assert_eq!(zoom.percent(), 110);
}

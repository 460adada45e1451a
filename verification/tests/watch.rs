use axiomd::watch::{may_change_the_document, FileEvent, Generation};

#[test]
fn a_burst_of_changes_is_reported_once() {
    let mut debounce = Generation::new();
    let mut reported = 0;

    let tickets: Vec<u64> = (0..5).map(|_| debounce.begin()).collect();
    for ticket in tickets {
        if debounce.is_current(ticket) {
            reported += 1;
        }
    }
    assert_eq!(reported, 1, "a burst of five writes was not coalesced");

    let tickets: Vec<u64> = (0..2).map(|_| debounce.begin()).collect();
    for ticket in tickets {
        if debounce.is_current(ticket) {
            reported += 1;
        }
    }
    assert_eq!(reported, 2, "the second burst was never reported");
}

#[test]
fn a_superseded_request_is_never_current_again() {
    let mut renders = Generation::new();
    let stale = renders.begin();
    let wanted = renders.begin();
    assert!(!renders.is_current(stale));
    assert!(renders.is_current(wanted));
    assert!(renders.can_begin());
}

#[test]
fn only_a_change_that_can_rewrite_the_text_is_a_change() {
    for event in [
        FileEvent::Changed,
        FileEvent::ChangesDoneHint,
        FileEvent::Deleted,
        FileEvent::Created,
        FileEvent::Moved,
        FileEvent::Renamed,
        FileEvent::MovedIn,
        FileEvent::MovedOut,
        FileEvent::Other,
    ] {
        assert!(may_change_the_document(event), "{event:?}");
    }
    for event in [FileEvent::AttributeChanged, FileEvent::PreUnmount, FileEvent::Unmounted] {
        assert!(!may_change_the_document(event), "{event:?}");
    }
}

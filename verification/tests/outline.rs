use axiomd::outline::{dragged, key_of, ordinals, parents, section_at, widest_here, within_bounds, Heading, NARROWEST, WIDEST};

fn heading(level: u8, line: u32, text: &str) -> Heading {
    Heading { level, line, text: text.to_owned() }
}

#[test]
fn a_heading_hangs_under_the_nearest_shallower_one_above_it() {
    // #, ##, ###, ##, #, ###, ##
    let levels = [1u8, 2, 3, 2, 1, 3, 2];
    assert_eq!(
        parents(&levels),
        vec![None, Some(0), Some(1), Some(0), None, Some(4), Some(4)],
    );
}

#[test]
fn a_document_that_skips_a_level_nests_the_way_it_reads() {
    assert_eq!(parents(&[1, 3, 3, 2]), vec![None, Some(0), Some(0), Some(0)]);
    assert_eq!(parents(&[3, 1, 2]), vec![None, None, Some(1)]);
    assert_eq!(parents(&[]), Vec::<Option<usize>>::new());
}

#[test]
fn two_sections_called_the_same_are_told_apart_by_which_of_them_they_are() {
    let headings = vec![
        heading(2, 1, "Example"),
        heading(2, 9, "Other"),
        heading(2, 20, "Example"),
        heading(3, 30, "Example"),
        heading(2, 41, "Example"),
    ];
    assert_eq!(ordinals(&headings), vec![0, 0, 1, 0, 2]);
    assert_eq!(key_of(2, "Example", 1), "2\u{1f}Example\u{1f}1");
    assert_ne!(key_of(2, "Example", 1), key_of(2, "Example", 2));
}

#[test]
fn the_reader_is_in_the_last_section_at_or_before_their_line() {
    let lines = [3u32, 10, 25];
    assert_eq!(section_at(&lines, 1), None, "a reader above the first heading is in no section");
    assert_eq!(section_at(&lines, 3), Some(0));
    assert_eq!(section_at(&lines, 24), Some(1));
    assert_eq!(section_at(&lines, 25), Some(2));
    assert_eq!(section_at(&lines, 1000), Some(2));
    assert_eq!(section_at(&[], 5), None);
}

#[test]
fn the_divider_never_crushes_either_pane() {
    assert_eq!(within_bounds(100), NARROWEST);
    assert_eq!(within_bounds(300), 300);
    assert_eq!(within_bounds(5000), WIDEST);
    assert_eq!(widest_here(1200), 480);
    assert_eq!(widest_here(800), 320);
    assert_eq!(widest_here(300), 180);
    assert_eq!(dragged(250, 100, 1200), 350);
    assert_eq!(dragged(250, 1000, 900), 420, "a drag took the document's room");
    assert_eq!(dragged(250, -1000, 1200), 180);
    assert_eq!(dragged(i32::MAX, i32::MAX, 1200), 480);
}

#[test]
fn a_fold_is_kept_by_what_the_section_is_called() {
    let mut folds = axiomd::outline::Folds::new();
    let install = key_of(2, "Install", 0);
    let usage = key_of(2, "Usage", 0);
    folds.record(&install, false);
    assert!(folds.is_folded(&install));
    assert!(!folds.is_folded(&usage));
    folds.record(&usage, false);
    folds.record(&install, true);
    assert!(!folds.is_folded(&install));
    assert!(folds.is_folded(&usage), "opening one section opened another");
    folds.forget();
    assert!(!folds.is_folded(&usage));
}

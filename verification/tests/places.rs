use axiomd::places::{left_off_at, named, remembered_name, parsed, places_in, seconds_since, split, store_of, tidied, Place, FORGOTTEN_AFTER, REMEMBERED};

const DAY: u64 = 24 * 60 * 60;
const NOW: u64 = 1_800_000_000;

fn place(document: &str, line: u32, seen: u64) -> Place {
    Place { document: document.as_bytes().to_vec(), line, seen }
}

fn documents(places: &[Place]) -> Vec<String> {
    places.iter().map(|place| String::from_utf8(place.document.clone()).unwrap()).collect()
}

/// What the filesystem says of each kept place: gone, or not.
fn asked(kept: &[Place], gone: &dyn Fn(&str) -> bool) -> Vec<bool> {
    kept.iter().map(|place| gone(std::str::from_utf8(&place.document).unwrap())).collect()
}

fn all_there(_: &str) -> bool {
    false
}

#[test]
fn the_place_a_reader_is_in_now_replaces_the_one_they_had_there() {
    let kept = vec![
        place("/home/reader/notes.md", 12, NOW - DAY),
        place("/home/reader/guide.md", 40, NOW - 2 * DAY),
    ];
    let gone = asked(&kept, &all_there);

    let tidy = tidied(kept, place("/home/reader/notes.md", 96, NOW), NOW, &gone);

    assert_eq!(documents(&tidy), ["/home/reader/notes.md", "/home/reader/guide.md"]);
    assert_eq!(tidy[0].line, 96, "the reader was left where they used to be");
    assert_eq!(tidy[0].seen, NOW);
}

#[test]
fn the_store_keeps_five_hundred_documents_and_forgets_the_oldest_first() {
    let kept: Vec<Place> = (0..REMEMBERED)
        .map(|nth| place(&format!("/home/reader/{nth}.md"), 1, NOW - nth as u64))
        .collect();
    let oldest = kept[REMEMBERED - 1].document.clone();
    let gone = asked(&kept, &all_there);

    let tidy = tidied(kept, place("/home/reader/new.md", 7, NOW), NOW, &gone);

    assert_eq!(tidy.len(), REMEMBERED, "the store grew past its cap");
    assert_eq!(tidy[0].document, b"/home/reader/new.md".to_vec());
    assert!(
        !tidy.iter().any(|place| place.document == oldest),
        "the store dropped something other than the document read longest ago",
    );
    assert!(
        tidy.iter().any(|place| place.document == b"/home/reader/498.md".to_vec()),
        "the store dropped a document that fits in it",
    );
}

#[test]
fn a_document_unopened_for_half_a_year_is_forgotten() {
    let kept = vec![
        place("/home/reader/last-week.md", 3, NOW - 7 * DAY),
        place("/home/reader/on-the-day.md", 4, NOW - FORGOTTEN_AFTER),
        place("/home/reader/a-day-past.md", 5, NOW - FORGOTTEN_AFTER - DAY),
    ];
    let gone = asked(&kept, &all_there);

    let tidy = tidied(kept, place("/home/reader/now.md", 1, NOW), NOW, &gone);

    assert_eq!(
        documents(&tidy),
        ["/home/reader/now.md", "/home/reader/last-week.md", "/home/reader/on-the-day.md"],
        "the ceiling forgot the wrong documents",
    );
}

#[test]
fn a_document_that_is_no_longer_there_is_dropped_and_an_unreachable_one_is_kept() {
    let kept = vec![
        place("/home/reader/deleted.md", 9, NOW - DAY),
        place("/mnt/unplugged/notes.md", 9, NOW - DAY),
        place("/home/reader/still-here.md", 9, NOW - DAY),
    ];
    let gone = asked(&kept, &|document| document == "/home/reader/deleted.md");

    let tidy = tidied(kept, place("/home/reader/now.md", 1, NOW), NOW, &gone);

    assert_eq!(
        documents(&tidy),
        ["/home/reader/now.md", "/mnt/unplugged/notes.md", "/home/reader/still-here.md"],
    );
}

#[test]
fn the_document_the_reader_is_in_is_written_down_whatever_the_filesystem_says() {
    let tidy = tidied(Vec::new(), place("/home/reader/now.md", 42, NOW), NOW, &[]);

    assert_eq!(documents(&tidy), ["/home/reader/now.md"]);
    assert_eq!(tidy[0].line, 42);
}

#[test]
fn a_place_survives_the_trip_through_the_file() {
    let places = vec![
        place("/home/reader/Reading Notes/chapter 3.md", 128, NOW),
        place("/home/reader/guide.md", 1, NOW - DAY),
    ];

    let stored = store_of(&places);

    assert_eq!(places_in(&stored), places);
}

#[test]
fn a_missing_or_damaged_store_reads_as_no_places_at_all() {
    assert_eq!(places_in(b""), Vec::<Place>::new());

    let damaged = b"not a place at all\n\n1800000000 nine /home/reader/notes.md\n\
                    1800000000 12 /home/reader/kept.md\n1800000000 12 \n";
    assert_eq!(
        places_in(damaged),
        vec![place("/home/reader/kept.md", 12, NOW)],
        "a damaged store lost the lines that were still good, or kept broken ones",
    );
}

#[test]
fn the_store_is_written_a_line_a_place_newest_first() {
    let stored = store_of(&[place("/a b.md", 5, 10), place("/c.md", 1, 2)]);
    assert_eq!(stored, b"10 5 /a b.md\n2 1 /c.md\n".to_vec());
}

#[test]
fn a_line_is_read_up_to_its_path_which_may_hold_spaces() {
    assert_eq!(parsed(b"7 3 /x y/z.md"), Some(place("/x y/z.md", 3, 7)));
    assert_eq!(parsed(b"7 3 "), None);
    assert_eq!(parsed(b"7 4294967296 /a.md"), None);
    assert_eq!(split(b"one two three"), Some((b"one".to_vec(), b"two three".to_vec())));
    assert_eq!(split(b"nospace"), None);
}

#[test]
fn a_document_opens_where_the_reader_left_it() {
    let places = vec![place("/a.md", 12, NOW), place("/b.md", 40, NOW - DAY)];
    assert_eq!(left_off_at(true, &places, b"/b.md"), Some(40));
    assert_eq!(left_off_at(true, &places, b"/c.md"), None);
    assert_eq!(left_off_at(false, &places, b"/b.md"), None, "a place was put back the reader asked not to keep");
}

#[test]
fn a_path_holding_a_newline_cannot_be_kept() {
    assert_eq!(named(b"/home/reader/notes.md"), Some(b"/home/reader/notes.md".to_vec()));
    assert_eq!(named(b"/home/reader/two\nlines.md"), None);
}

#[test]
fn nothing_is_written_down_when_the_reader_asked_not_to_be_remembered() {
    assert_eq!(remembered_name(true, b"/home/reader/notes.md"), Some(b"/home/reader/notes.md".to_vec()));
    assert_eq!(remembered_name(false, b"/home/reader/notes.md"), None);
    assert_eq!(remembered_name(true, b"/two\nlines.md"), None);
}

#[test]
fn tidying_a_tidy_store_again_changes_nothing() {
    let mut kept = vec![
        place("/home/reader/old.md", 3, NOW - 200 * DAY),
        place("/home/reader/deleted.md", 9, NOW - DAY),
        place("/home/reader/now.md", 7, NOW - DAY),
        place("/home/reader/kept.md", 12, NOW - 2 * DAY),
    ];
    for n in 0..600u64 {
        kept.push(place(&format!("/home/reader/{n}.md"), 1, NOW - 3 * DAY));
    }
    let gone = |document: &str| document == "/home/reader/deleted.md";
    let newest = place("/home/reader/now.md", 40, NOW);

    let once = tidied(kept.clone(), newest.clone(), NOW, &asked(&kept, &gone));
    let twice = tidied(once.clone(), newest, NOW, &asked(&once, &gone));

    assert_eq!(once.len(), REMEMBERED);
    assert_eq!(twice, once);
}

#[test]
fn the_store_is_read_a_line_at_a_time_keeping_the_lines_that_are_places() {
    let stored = b"5 1 /a.md\n\nbroken\n6 2 /b c.md\n7 3 /d.md";
    let lines: Vec<&[u8]> = stored.split(|b| *b == b'\n').collect();
    let one_by_one: Vec<Place> = lines.into_iter().filter_map(parsed).collect();

    assert_eq!(places_in(stored), one_by_one);
    assert_eq!(
        places_in(stored),
        vec![place("/a.md", 1, 5), place("/b c.md", 2, 6), place("/d.md", 3, 7)],
    );
}

#[test]
fn one_document_spelled_two_ways_is_one_document() {
    let kept = vec![
        place("/home/reader//notes.md", 3, NOW - DAY),
        place("/home/reader/./notes.md", 4, NOW - DAY),
        place("/home/reader/other.md", 5, NOW - DAY),
    ];
    let gone = asked(&kept, &all_there);

    let tidy = tidied(kept, place("/home/reader/notes.md", 40, NOW), NOW, &gone);

    assert_eq!(documents(&tidy), ["/home/reader/notes.md", "/home/reader/other.md"]);
    assert_eq!(left_off_at(true, &tidy, b"/home/reader/notes.md/"), Some(40));
    assert_eq!(left_off_at(true, &tidy, b"home/reader/notes.md"), None);
    assert_eq!(left_off_at(true, &[place("./notes.md", 2, NOW)], b"notes.md"), None);
    assert_eq!(left_off_at(true, &[place("notes/./a.md", 2, NOW)], b"notes/a.md"), Some(2));
}

#[test]
fn the_place_written_down_is_the_place_the_reader_is_put_back_at() {
    let kept = vec![place("/home/reader/notes.md", 3, NOW - DAY), place("/home/reader/other.md", 5, NOW - DAY)];
    let gone = asked(&kept, &all_there);
    let tidy = tidied(kept, place("/home/reader/notes.md", 77, NOW), NOW, &gone);

    let read_back = places_in(&store_of(&tidy));

    assert_eq!(left_off_at(true, &read_back, b"/home/reader/notes.md"), Some(77));
    assert_eq!(left_off_at(true, &read_back, b"/home/reader/other.md"), Some(5));
}

#[test]
fn a_clock_behind_the_epoch_reads_as_the_epoch() {
    assert_eq!(seconds_since(Some(NOW)), NOW);
    assert_eq!(seconds_since(None), 0);
}

use axiomd::window::{
    bare, file_name_shown, folder_of, ticked, worth_autosaving, Fetching, History, Mode, Visit,
    BACK, ENGINE, FORWARD, MODE, OUTLINE, REDO, SAVE, SAVE_AS, UNDO,
};

fn visit(name: &str) -> Visit {
    Visit { file: name.to_owned(), fragment: String::new() }
}

fn names(history: &History) -> Vec<String> {
    history.files()
}

#[test]
fn where_the_reader_can_go_is_where_they_have_been() {
    let mut history = History::new();
    assert!(!history.can_step(false), "back from nowhere");
    assert!(!history.can_step(true), "forward from nowhere");

    history.restart(visit("guide.md"));
    assert!(!history.can_step(false), "back from the first document");
    assert!(!history.can_step(true));

    history.follow(visit("notes.md"));
    assert!(history.can_step(false));
    assert!(!history.can_step(true), "forward from the newest document");

    assert_eq!(history.step(false).map(|visit| visit.file), Some("guide.md".to_owned()));
    assert!(!history.can_step(false));
    assert!(history.can_step(true));

    assert_eq!(history.step(true).map(|visit| visit.file), Some("notes.md".to_owned()));
    assert!(history.step(true).is_none(), "there was a way forward from the newest document");
}

#[test]
fn following_a_link_from_the_middle_leaves_the_branch_behind() {
    let mut history = History::new();
    history.restart(visit("a.md"));
    history.follow(visit("b.md"));
    history.follow(visit("c.md"));
    history.step(false);
    history.step(false);

    history.follow(visit("d.md"));

    assert_eq!(names(&history), ["a.md", "d.md"]);
    assert!(history.can_step(false));
    assert!(!history.can_step(true), "a branch the reader left came back");
}

#[test]
fn opening_a_document_starts_the_window_over() {
    let mut history = History::new();
    history.restart(visit("a.md"));
    history.follow(visit("b.md"));

    history.restart(visit("c.md"));

    assert_eq!(names(&history), ["c.md"]);
    assert!(!history.can_step(false));
    assert!(!history.can_step(true));
}

#[test]
fn a_step_back_carries_the_section_the_reader_arrived_at() {
    let mut history = History::new();
    history.restart(Visit { file: "a.md".to_owned(), fragment: "setup".to_owned() });
    history.follow(visit("b.md"));
    let back = history.step(false).expect("somewhere to go back to");
    assert_eq!(back.file, "a.md");
    assert_eq!(back.fragment, "setup");
}

#[test]
fn a_press_only_ever_turns_a_checkbox_the_other_way_round() {
    let source = "- [ ] not done\n- [x] done\n- [X] shouted\n";

    assert_eq!(ticked(source, 3), Some('x'));
    assert_eq!(ticked(source, 18), Some(' '));
    assert_eq!(ticked(source, 29), Some(' '));

    for at in 0..source.len() {
        if [3, 18, 29].contains(&at) {
            continue;
        }
        assert_eq!(
            ticked(source, at),
            None,
            "offset {at} ({:?}) was taken for a checkbox",
            &source[at..(at + 1).min(source.len())],
        );
    }

    assert_eq!(ticked("nothing here at all\n", 3), None);
    assert_eq!(ticked("", 3), None);
    assert_eq!(ticked(source, source.len() + 100), None);
    assert_eq!(ticked("- [-] partly\n", 3), None);
}

#[test]
fn every_window_action_is_registered_under_the_name_its_shortcut_uses() {
    for action in [BACK, FORWARD, MODE, OUTLINE, SAVE, SAVE_AS, UNDO, REDO, ENGINE] {
        assert!(action.starts_with("win."), "{action} is not a window action");
        assert_eq!(bare(action), &action["win.".len()..]);
    }
}

#[test]
fn a_name_that_is_not_a_window_action_is_left_as_it_is() {
    assert_eq!(bare("app.quit"), "app.quit");
    assert_eq!(bare("win."), "");
}

#[test]
fn the_mode_switch_goes_to_the_other_surface() {
    assert_eq!(Mode::Read.other(), Mode::Edit);
    assert_eq!(Mode::Edit.other(), Mode::Read);
}

#[test]
fn the_title_bar_names_the_file_and_speaks_the_folder_from_home() {
    assert_eq!(file_name_shown("/home/reader/notes.md"), "notes.md");
    assert_eq!(file_name_shown("notes.md"), "notes.md");
    assert_eq!(file_name_shown("/"), "/");
    assert_eq!(folder_of("/home/reader", Some("/home/reader")), "~");
    assert_eq!(folder_of("/home/reader/docs/a", Some("/home/reader")), "~/docs/a");
    assert_eq!(folder_of("/home/readers", Some("/home/reader")), "/home/readers");
    assert_eq!(folder_of("/srv/notes", Some("/home/reader")), "/srv/notes");
    assert_eq!(folder_of("/srv/notes", None), "/srv/notes");
}

#[test]
fn an_image_is_fetched_once_at_a_time() {
    let mut fetching = Fetching::new();
    assert!(fetching.wanted("https://example.com/a.png", false));
    fetching.start("https://example.com/a.png");
    assert!(!fetching.wanted("https://example.com/a.png", false), "fetched twice at once");
    assert!(fetching.wanted("https://example.com/b.png", false));
    assert!(!fetching.wanted("https://example.com/b.png", true), "fetched what the page has");
    fetching.finish("https://example.com/a.png");
    assert!(fetching.wanted("https://example.com/a.png", false));
    fetching.start("https://example.com/a.png");
    fetching.clear();
    assert!(fetching.wanted("https://example.com/a.png", false));
}

#[test]
fn an_automatic_save_never_asks_and_never_overwrites_a_conflict() {
    assert!(worth_autosaving(true, true, false, false));
    assert!(!worth_autosaving(false, true, false, false));
    assert!(!worth_autosaving(true, false, false, false));
    assert!(!worth_autosaving(true, true, true, false));
    assert!(!worth_autosaving(true, true, false, true));
}

#[test]
fn unsaved_work_is_marked_in_the_title() {
    assert_eq!(axiomd::window::title_for("notes.md", true), "\u{2022} notes.md");
    assert_eq!(axiomd::window::title_for("notes.md", false), "notes.md");
}

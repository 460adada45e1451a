use axiomd::markdown::{as_a_markdown_name, is_a_markdown_file, is_a_page, is_markdown, with_a_markdown_name};

#[test]
fn what_axiomd_reads_is_decided_by_the_name_and_never_by_the_path() {
    for name in [
        "notes.md",
        "README.markdown",
        "NOTES.MD",
        "Guide.Markdown",
        "/home/reader/documents/notes.md",
        "/run/user/1000/doc/6a6290b7/article.medium.md",
        "./sub/../notes.md",
    ] {
        assert!(is_a_markdown_file(name), "{name} is a document axiomd reads");
    }
    for name in [
        "notes.txt",
        "diagram.png",
        "notes",
        "notes.mdx",
        "/run/user/1000/doc/6a6290b7",
        ".md",
    ] {
        assert!(!is_a_markdown_file(name), "{name} is not a document axiomd reads");
    }
}

#[test]
fn the_name_the_reader_gives_the_file_is_the_format_they_chose() {
    assert!(is_a_page("/home/reader/notes.html"));
    assert!(is_a_page("/home/reader/notes.HTM"));
    assert!(!is_a_page("/home/reader/notes.pdf"));
    assert!(
        !is_a_page("/home/reader/notes"),
        "a file with no extension is the PDF the chooser offered",
    );
}

#[test]
fn save_as_offers_a_markdown_name_for_a_document_that_has_none() {
    assert_eq!(with_a_markdown_name("Untitled"), "Untitled.md");
    assert_eq!(with_a_markdown_name("notes.md"), "notes.md");
    assert_eq!(with_a_markdown_name("README.markdown"), "README.markdown");
}

#[test]
fn a_link_and_the_folder_walk_ask_the_same_question() {
    for name in ["notes.md", "a/b/NOTES.Markdown", "x.txt", "folder/", "trailing.md/"] {
        assert_eq!(is_markdown(name), is_a_markdown_file(name), "{name}");
    }
}

#[test]
fn a_name_with_an_extension_keeps_it_and_one_without_is_given_md() {
    assert_eq!(as_a_markdown_name("Untitled"), "Untitled.md");
    assert_eq!(as_a_markdown_name("notes.txt"), "notes.txt");
    assert_eq!(as_a_markdown_name(".hidden"), ".hidden.md");
}

#[test]
fn a_folder_in_front_of_a_name_never_changes_the_answer() {
    for name in ["notes.md", "NOTES.Markdown", "notes.txt", "notes", ".md", "archive.md.bak"] {
        for folder in ["", "/", "docs/", "/home/reader/a.md/", "../up/"] {
            let path = format!("{folder}{name}");
            assert_eq!(is_a_markdown_file(&path), is_a_markdown_file(name), "{path} against {name}");
        }
    }
}

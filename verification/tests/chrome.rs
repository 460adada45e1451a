use axiomd::chrome::{element, license, link, License};

const METAINFO: &str = "<?xml version=\"1.0\"?>\n<component type=\"desktop-application\">\n  <id>io.github.etf.axiomd</id>\n  <name>axiomd</name>\n  <summary>Read and write Markdown documents</summary>\n  <project_license>GPL-3.0-or-later</project_license>\n  <developer id=\"io.github.etf\">\n    <name>Illya Yalovyy</name>\n  </developer>\n  <url type=\"homepage\">https://github.com/IllyaYalovyy/axiomd</url>\n  <url type=\"bugtracker\">\n    https://github.com/IllyaYalovyy/axiomd/issues\n  </url>\n</component>\n";

#[test]
fn the_about_dialog_reads_what_the_metainfo_says() {
    assert_eq!(element(METAINFO, "id").as_deref(), Some("io.github.etf.axiomd"));
    assert_eq!(element(METAINFO, "name").as_deref(), Some("axiomd"));
    assert_eq!(element(METAINFO, "summary").as_deref(), Some("Read and write Markdown documents"));
    assert_eq!(element(METAINFO, "project_license").as_deref(), Some("GPL-3.0-or-later"));
    let developer = element(METAINFO, "developer").unwrap();
    assert_eq!(element(&developer, "name").as_deref(), Some("Illya Yalovyy"));
    assert_eq!(link(METAINFO, "homepage").as_deref(), Some("https://github.com/IllyaYalovyy/axiomd"));
    assert_eq!(
        link(METAINFO, "bugtracker").as_deref(),
        Some("https://github.com/IllyaYalovyy/axiomd/issues"),
    );
    assert_eq!(license(&element(METAINFO, "project_license").unwrap()), License::Gpl30);
}

#[test]
fn an_element_or_link_the_metainfo_lacks_is_nothing() {
    assert_eq!(element(METAINFO, "keywords"), None);
    assert_eq!(link(METAINFO, "donation"), None);
    assert_eq!(element("<name>unclosed", "name"), None);
}

#[test]
fn a_licence_not_known_here_is_not_guessed_at() {
    assert_eq!(license("GPL-3.0-only"), License::Gpl30Only);
    assert_eq!(license("MIT"), License::Unknown);
    assert_eq!(license("gpl-3.0-or-later"), License::Unknown);
}

#[test]
fn a_control_on_a_key_says_so_in_brackets() {
    assert_eq!(axiomd::chrome::tooltip("Back", Some("Alt+Left")), "Back (Alt+Left)");
    assert_eq!(axiomd::chrome::tooltip("Main Menu", None), "Main Menu");
}

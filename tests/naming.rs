use gitosu::naming::{file_stem_of, is_archive_file_name, project_identifier, resolve_project_name};

#[test]
fn canonical_export_resolves_to_its_name() {
    assert_eq!(project_identifier("Artist - Song (Author).osz"), "Artist - Song (Author)");
}

#[test]
fn repeated_export_resolves_to_first_export() {
    assert_eq!(project_identifier("Artist - Song (Author) (2).osz"), "Artist - Song (Author)");
    assert_eq!(project_identifier("Artist - Song (Author) (17).osz"), "Artist - Song (Author)");
    assert_eq!(
        project_identifier("Artist - Song (Author) (2).osz"),
        project_identifier("Artist - Song (Author).osz")
    );
}

#[test]
fn only_the_last_duplicate_number_is_stripped() {
    assert_eq!(project_identifier("A (B) (2) (3).osz"), "A (B) (2)");
}

#[test]
fn non_numeric_suffix_is_kept() {
    assert_eq!(project_identifier("A (B) (x).osz"), "A (B) (x)");
}

#[test]
fn suffix_without_canonical_name_is_kept() {
    assert_eq!(project_identifier("Song (2).osz"), "Song (2)");
}

#[test]
fn unconventional_name_falls_back_to_stem() {
    assert_eq!(project_identifier("plain.osz"), "plain");
    assert_eq!(project_identifier("my.map.osz"), "my.map");
}

#[test]
fn other_extension_is_stripped_without_dedup() {
    assert_eq!(project_identifier("A (B) (2).zip"), "A (B) (2)");
}

#[test]
fn override_is_used_verbatim() {
    assert_eq!(
        resolve_project_name("Artist - Song (Author) (2).osz", Some("custom".to_string())),
        "custom"
    );
    assert_eq!(resolve_project_name("Artist - Song (Author) (2).osz", None), "Artist - Song (Author)");
}

#[test]
fn empty_file_name_gives_empty_identifier() {
    assert_eq!(project_identifier(""), "");
}

#[test]
fn stem_keeps_leading_dot_names() {
    assert_eq!(file_stem_of(".osz"), ".osz");
    assert_eq!(file_stem_of("a.b.c"), "a.b");
    assert_eq!(file_stem_of("noext"), "noext");
}

#[test]
fn archive_file_names() {
    assert!(is_archive_file_name("a.osz"));
    assert!(!is_archive_file_name(".osz"));
    assert!(!is_archive_file_name("a.zip"));
    assert!(!is_archive_file_name("a.osz.bak"));
}

use gitosu::events::{archives_to_import, EventPath, WatchEventKind};

fn path(name: &str, is_file: bool) -> EventPath {
    EventPath { file_name: name.to_string(), is_file }
}

#[test]
fn creation_imports_every_new_archive() {
    let paths = vec![path("a.osz", true), path("b.txt", true), path("c.osz", false), path("d.osz", true)];
    assert_eq!(archives_to_import(WatchEventKind::CreateFile, &paths), vec![0, 3]);
}

#[test]
fn rename_imports_the_new_name() {
    assert_eq!(archives_to_import(WatchEventKind::RenameTo, &vec![path("x.osz", true)]), vec![0]);
    assert_eq!(archives_to_import(WatchEventKind::RenameTo, &vec![path("x.tmp", true)]), Vec::<usize>::new());
    assert_eq!(archives_to_import(WatchEventKind::RenameTo, &Vec::new()), Vec::<usize>::new());
}

#[test]
fn other_notifications_are_ignored() {
    assert_eq!(archives_to_import(WatchEventKind::Other, &vec![path("x.osz", true)]), Vec::<usize>::new());
}

use gitosu::content::{plan_replacement, ContentOp, ReplaceError};

#[test]
fn empty_archive_is_refused() {
    assert!(matches!(plan_replacement(&Vec::new()), Err(ReplaceError::EmptyArchive)));
}

#[test]
fn plan_clears_then_writes_accepted_entries() {
    let entries = vec![Some("a.txt".to_string()), None, Some("sub/b.txt".to_string())];
    let ops = plan_replacement(&entries).ok().unwrap();
    assert_eq!(ops.len(), 3);
    assert!(matches!(ops[0], ContentOp::Clear));
    match &ops[1] {
        ContentOp::Write { index, path } => {
            assert_eq!(*index, 0);
            assert_eq!(path, "a.txt");
        }
        _ => panic!("expected a write"),
    }
    match &ops[2] {
        ContentOp::Write { index, path } => {
            assert_eq!(*index, 2);
            assert_eq!(path, "sub/b.txt");
        }
        _ => panic!("expected a write"),
    }
}

#[test]
fn archive_of_only_escaping_entries_clears_content() {
    let ops = plan_replacement(&vec![None, None]).ok().unwrap();
    assert_eq!(ops.len(), 1);
    assert!(matches!(ops[0], ContentOp::Clear));
}

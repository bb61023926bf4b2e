use gitosu::content::ContentOp;
use gitosu::pipeline::{is_valid_identifier_exec, readme_text, Action, Import, ImportError, Outcome, Stage};

fn is_commit(a: &Action) -> bool {
    matches!(a, Action::CommitInitial | Action::CommitUpdate)
}

#[test]
fn first_import_bootstraps_and_commits_twice() {
    let (mut import, a) = Import::start("Artist - Song (Author).osz", None, false);
    assert_eq!(import.identifier, "Artist - Song (Author)");
    assert!(matches!(a, Action::CheckRepository));
    let mut commits = Vec::new();
    match import.step(Outcome::Exists(false)) {
        Action::InitRepository { readme } => assert!(readme.contains("Artist - Song (Author)")),
        _ => panic!("expected the repository to be created"),
    }
    let a = import.step(Outcome::Succeeded);
    assert!(matches!(a, Action::CommitInitial));
    commits.push("initial");
    assert!(matches!(import.step(Outcome::Succeeded), Action::OpenArchive));
    let entries = vec![Some("a.txt".to_string()), Some("sub/b.txt".to_string())];
    match import.step(Outcome::Entries(entries)) {
        Action::ReplaceContent { ops } => {
            assert_eq!(ops.len(), 3);
            assert!(matches!(ops[0], ContentOp::Clear));
            assert!(matches!(&ops[1], ContentOp::Write { index: 0, path } if path == "a.txt"));
            assert!(matches!(&ops[2], ContentOp::Write { index: 1, path } if path == "sub/b.txt"));
        }
        _ => panic!("expected a content replacement"),
    }
    let a = import.step(Outcome::Succeeded);
    assert!(matches!(a, Action::CommitUpdate));
    commits.push("update");
    let a = import.step(Outcome::Succeeded);
    assert!(matches!(a, Action::Finish));
    assert!(!is_commit(&a));
    assert_eq!(import.progress.stage, Stage::Finished);
    assert!(import.progress.created);
    assert_eq!(commits, vec!["initial", "update"]);
}

#[test]
fn repeated_export_reuses_repository_with_one_commit() {
    let (mut import, a) = Import::start("Artist - Song (Author) (2).osz", None, false);
    assert_eq!(import.identifier, "Artist - Song (Author)");
    assert!(matches!(a, Action::CheckRepository));
    let mut actions = Vec::new();
    actions.push(import.step(Outcome::Exists(true)));
    actions.push(import.step(Outcome::Succeeded));
    actions.push(import.step(Outcome::Entries(vec![Some("a.txt".to_string())])));
    actions.push(import.step(Outcome::Succeeded));
    actions.push(import.step(Outcome::Succeeded));
    assert!(matches!(actions[0], Action::OpenRepository));
    assert!(matches!(actions[1], Action::OpenArchive));
    assert!(matches!(actions[2], Action::ReplaceContent { .. }));
    assert!(matches!(actions[3], Action::CommitUpdate));
    assert!(matches!(actions[4], Action::Finish));
    assert!(!actions.iter().any(|a| matches!(a, Action::InitRepository { .. } | Action::CommitInitial)));
    assert_eq!(actions.iter().filter(|a| is_commit(a)).count(), 1);
    assert!(!import.progress.created);
}

#[test]
fn empty_archive_aborts_before_touching_content() {
    let (mut import, _) = Import::start("A (B).osz", None, false);
    import.step(Outcome::Exists(true));
    import.step(Outcome::Succeeded);
    let a = import.step(Outcome::Entries(Vec::new()));
    assert!(matches!(a, Action::Abort(ImportError::EmptyArchive)));
    assert!(matches!(import.step(Outcome::Succeeded), Action::Abort(ImportError::EmptyArchive)));
}

#[test]
fn kept_archive_is_copied_before_commit() {
    let (mut import, _) = Import::start("A (B).osz", None, true);
    import.step(Outcome::Exists(true));
    import.step(Outcome::Succeeded);
    import.step(Outcome::Entries(vec![Some("x".to_string())]));
    match import.step(Outcome::Succeeded) {
        Action::CopyArchive { file_name } => assert_eq!(file_name, "A (B).osz"),
        _ => panic!("expected the archive to be copied"),
    }
    assert!(matches!(import.step(Outcome::Succeeded), Action::CommitUpdate));
    assert!(matches!(import.step(Outcome::Succeeded), Action::Finish));
}

#[test]
fn override_names_the_repository() {
    let (import, a) = Import::start("whatever (x) (3).osz", Some("target".to_string()), false);
    assert_eq!(import.identifier, "target");
    assert!(matches!(a, Action::CheckRepository));
}

#[test]
fn traversing_identifier_is_refused() {
    let (_, a) = Import::start("x.osz", Some("../elsewhere".to_string()), false);
    assert!(matches!(a, Action::Abort(ImportError::InvalidProjectName)));
    let (_, a) = Import::start("..osz", None, false);
    assert!(matches!(a, Action::Abort(ImportError::InvalidProjectName)));
    let (_, a) = Import::start("", None, false);
    assert!(matches!(a, Action::Abort(ImportError::InvalidProjectName)));
}

#[test]
fn failures_map_to_their_errors() {
    let (mut import, _) = Import::start("A (B).osz", None, false);
    import.step(Outcome::Exists(true));
    assert!(matches!(import.step(Outcome::Failed), Action::Abort(ImportError::OpenRepositoryFailed)));

    let (mut import, _) = Import::start("A (B).osz", None, false);
    import.step(Outcome::Exists(false));
    assert!(matches!(import.step(Outcome::Failed), Action::Abort(ImportError::BootstrapFailed)));

    let (mut import, _) = Import::start("A (B).osz", None, false);
    import.step(Outcome::Exists(false));
    import.step(Outcome::Succeeded);
    assert!(matches!(import.step(Outcome::Failed), Action::Abort(ImportError::CommitFailed)));

    let (mut import, _) = Import::start("A (B).osz", None, false);
    import.step(Outcome::Exists(true));
    import.step(Outcome::Succeeded);
    assert!(matches!(import.step(Outcome::Failed), Action::Abort(ImportError::ArchiveUnreadable)));

    let (mut import, _) = Import::start("A (B).osz", None, false);
    import.step(Outcome::Exists(true));
    import.step(Outcome::Succeeded);
    import.step(Outcome::Entries(vec![None]));
    assert!(matches!(import.step(Outcome::Failed), Action::Abort(ImportError::ExtractionFailed)));

    let (mut import, _) = Import::start("A (B).osz", None, true);
    import.step(Outcome::Exists(true));
    import.step(Outcome::Succeeded);
    import.step(Outcome::Entries(vec![None]));
    import.step(Outcome::Succeeded);
    assert!(matches!(import.step(Outcome::Failed), Action::Abort(ImportError::CopyFailed)));

    let (mut import, _) = Import::start("A (B).osz", None, false);
    assert!(matches!(import.step(Outcome::Succeeded), Action::Abort(ImportError::UnexpectedOutcome)));
}

#[test]
fn readme_names_the_project() {
    assert_eq!(readme_text("P (Q)"), "# P (Q)\n\nThe map directory is replaced on every import.\n");
}

#[test]
fn identifier_validity() {
    assert!(is_valid_identifier_exec("Artist - Song (Author)"));
    assert!(is_valid_identifier_exec("..."));
    assert!(!is_valid_identifier_exec(""));
    assert!(!is_valid_identifier_exec("."));
    assert!(!is_valid_identifier_exec(".."));
    assert!(!is_valid_identifier_exec("a/b"));
    assert!(!is_valid_identifier_exec("a\\b"));
}

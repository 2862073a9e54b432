use arca::engine::session::{
    drop_target_ok, job_outcome, notice_text, paste_outcome, rename_paths, Notice,
};
use arca::engine::undo::UndoAction;
use arca::engine::worker::{JobCompleted, JobKind};

#[test]
fn rename_checks_the_new_name() {
    assert_eq!(
        rename_paths("/home/u", "a.txt", "  b.txt "),
        Some(("/home/u/a.txt".to_string(), "/home/u/b.txt".to_string(), "b.txt".to_string()))
    );
    assert_eq!(rename_paths("/", "a", "b"), Some(("/a".into(), "/b".into(), "b".into())));
    assert_eq!(rename_paths("/home/u", "a.txt", "a.txt"), None);
    assert_eq!(rename_paths("/home/u", "a.txt", "   "), None);
    assert_eq!(rename_paths("/home/u", "a.txt", "x/y"), None);
}

#[test]
fn paste_records_moves_and_copies() {
    let srcs = vec!["/a/one".to_string(), "/a/two".to_string()];
    let all = vec![Ok("/b/one".to_string()), Ok("/b/two".to_string())];
    let out = paste_outcome(true, srcs.clone(), &all);
    assert!(out.clear_clipboard && out.refresh);
    assert_eq!(out.status.as_deref(), Some("Moved 2 items"));
    match out.undo {
        Some(UndoAction::Move { sources, destinations }) => {
            assert_eq!(sources, srcs);
            assert_eq!(destinations, vec!["/b/one".to_string(), "/b/two".to_string()]);
        }
        _ => panic!("expected a move"),
    }

    let partial = vec![Ok("/b/one".to_string()), Err("denied".to_string())];
    let out = paste_outcome(false, srcs.clone(), &partial);
    assert!(!out.clear_clipboard);
    assert_eq!(out.status.as_deref(), Some("Copied 1 item"));
    assert!(matches!(out.undo, Some(UndoAction::Copy { ref destinations }) if destinations.len() == 1));

    let failed = vec![Err("busy".to_string()), Err("denied".to_string())];
    let out = paste_outcome(false, srcs.clone(), &failed);
    assert!(out.undo.is_none() && !out.refresh);
    assert_eq!(out.status.as_deref(), Some("Cannot paste two: denied"));
    let out = paste_outcome(true, srcs, &failed);
    assert!(matches!(out.undo, Some(UndoAction::Move { ref destinations, .. }) if destinations.is_empty()));
    assert!(!out.clear_clipboard);
}

#[test]
fn finished_jobs_record_undo() {
    let job = JobCompleted {
        job_id: 1,
        kind: JobKind::Move { sources: vec!["/a".into()], destination: "/b".into() },
        created_destinations: vec!["/b/a".into()],
        error: None,
    };
    let (undo, status) = job_outcome(job);
    assert!(matches!(undo, Some(UndoAction::Move { .. })));
    assert_eq!(status.as_deref(), Some("Moved 1 item(s)"));
    let job = JobCompleted {
        job_id: 2,
        kind: JobKind::Copy { sources: vec!["/a".into()], destination: "/b".into() },
        created_destinations: Vec::new(),
        error: Some("disk full".into()),
    };
    let (undo, status) = job_outcome(job);
    assert!(undo.is_none());
    assert_eq!(status.as_deref(), Some("Operation error: disk full"));
}

#[test]
fn drops_only_move_elsewhere() {
    assert!(!drop_target_ok("/a/b", "/a/b"));
    assert!(!drop_target_ok("/a/b", "/a"));
    assert!(drop_target_ok("/a/b", "/c"));
    assert!(drop_target_ok("/", "/a"));
}

#[test]
fn status_texts() {
    assert_eq!(notice_text(&Notice::Trashed(1)), "Moved 1 item to Trash");
    assert_eq!(notice_text(&Notice::Trashed(3)), "Moved 3 items to Trash");
    assert_eq!(
        notice_text(&Notice::Yanked { cut: true, count: 2 }),
        "Cut 2 item(s) \u{2014} paste with Ctrl+V"
    );
    assert_eq!(
        notice_text(&Notice::Renamed { from: "a".into(), to: "b".into() }),
        "Renamed a \u{2192} b"
    );
    assert_eq!(
        notice_text(&Notice::MovedInto { src: "/x/f.txt".into(), dst: "/y/dir".into() }),
        "Moved f.txt into dir"
    );
    assert_eq!(notice_text(&Notice::Thumbnails(false)), "Thumbnails off");
    assert_eq!(notice_text(&Notice::Deleted(0)), "Permanently deleted 0 item(s)");
}

use arca::engine::complete::{can_complete, complete_path, completion_query, try_complete_path};

const HOME: &str = "/home/tester";

fn listing(names: &[(&str, bool)]) -> Vec<(String, bool)> {
    names.iter().map(|(n, d)| (n.to_string(), *d)).collect()
}

#[test]
fn path_completion_single_and_multiple() {
    let dir = "/tmp/comp";
    let es = listing(&[("documents", true), ("downloads", true), ("music", true), ("notes.txt", false)]);

    let q = completion_query(dir, "~", HOME);
    assert_eq!(complete_path(&q, Some(&es)).unwrap().completed, "~/");

    let q = completion_query(dir, "/tmp/comp/mu", HOME);
    let single = complete_path(&q, Some(&es)).unwrap();
    assert_eq!(single.completed, "/tmp/comp/music/");
    assert_eq!(single.candidates, vec!["/tmp/comp/music/"]);

    let q = completion_query(dir, "/tmp/comp/d", HOME);
    let multi = complete_path(&q, Some(&es)).unwrap();
    assert_eq!(multi.completed, "/tmp/comp/do");
    assert_eq!(multi.candidates, vec!["/tmp/comp/documents/", "/tmp/comp/downloads/"]);

    let q = completion_query(dir, "/tmp/comp/not", HOME);
    let file = complete_path(&q, Some(&es)).unwrap();
    assert_eq!(file.completed, "/tmp/comp/notes.txt");

    let q = completion_query(dir, "/tmp/comp/xyz", HOME);
    assert!(complete_path(&q, Some(&es)).is_none());
    assert!(complete_path(&q, None).is_none());
}

fn q_all() -> arca::engine::complete::CompletionQuery {
    completion_query("/d", "", HOME)
}

#[test]
fn common_prefix_ignores_ascii_case_and_keeps_listing_order() {
    let es = listing(&[("Report.txt", false), ("report-old.txt", false)]);
    let q = completion_query("/d", "r", HOME);
    let r = complete_path(&q, Some(&es)).unwrap();
    assert_eq!(r.completed, "report");
    assert_eq!(r.candidates, vec!["report-old.txt", "Report.txt"]);

    let es = listing(&[("b", false), ("B", false), ("a", false)]);
    let r = complete_path(&q_all(), Some(&es)).unwrap();
    assert_eq!(r.candidates, vec!["a", "b", "B"]);
}

#[test]
fn common_prefix_over_whole_characters() {
    let es = listing(&[("éa", false), ("éb", false)]);
    let q = completion_query("/d", "", HOME);
    assert!(can_complete(&q, Some(&es)));
    assert_eq!(complete_path(&q, Some(&es)).unwrap().completed, "é");
}

#[test]
fn common_prefix_that_would_split_a_character_is_refused() {
    let q = completion_query("/d", "", HOME);
    let es = listing(&[("é", false), ("è", false)]);
    assert!(!can_complete(&q, Some(&es)));
    assert!(try_complete_path(&q, Some(&es)).is_none());

    let es = listing(&[("ab", false), ("éa", false)]);
    assert!(!can_complete(&q, Some(&es)));
    assert!(try_complete_path(&q, Some(&es)).is_none());

    let es = listing(&[("one", false), ("two", false)]);
    let r = try_complete_path(&q, Some(&es)).unwrap().unwrap();
    assert_eq!(r.completed, "");
}

use arca::engine::path::{join, normalize, parent, resolve};

const HOME: &str = "/home/tester";

#[test]
fn parent_of_root_is_root() {
    assert_eq!(parent("/", HOME), "/");
    assert_eq!(parent("/home", HOME), "/");
    assert_eq!(parent("/home/ming", HOME), "/home");
    assert_eq!(parent("/home/ming/", HOME), "/home");
}

#[test]
fn join_avoids_double_slash() {
    assert_eq!(join("/", "etc"), "/etc");
    assert_eq!(join("/home", "ming"), "/home/ming");
}

#[test]
fn normalize_resolves_dots_and_slashes() {
    assert_eq!(normalize("/a/./b/../c", HOME), "/a/c");
    assert_eq!(normalize("/a//b/", HOME), "/a/b");
    assert_eq!(normalize("/", HOME), "/");
    assert_eq!(normalize("/..", HOME), "/");
    assert_eq!(normalize("", HOME), ".");
}

#[test]
fn tilde_expands_to_home() {
    assert_eq!(normalize("~", HOME), HOME);
    assert_eq!(normalize("~/docs", HOME), join(HOME, "docs"));
}

#[test]
fn resolve_anchors_relative_paths() {
    assert_eq!(resolve("/a/b", "c", HOME), "/a/b/c");
    assert_eq!(resolve("/a/b", "../c", HOME), "/a/c");
    assert_eq!(resolve("/a/b", "/x", HOME), "/x");
    assert_eq!(resolve("/a/b", "~/x", HOME), join(HOME, "x"));
}

#[test]
fn normalize_keeps_leading_dotdot_for_relative_paths() {
    assert_eq!(normalize("../a/../../b", HOME), "../../b");
    assert_eq!(normalize("a/b/..", HOME), "a");
    assert_eq!(parent("relative", HOME), "relative");
}

use gitignore_scan::walker::{Entry, Phase, ScanError, Walker};

fn chars(s: &str) -> Vec<char> {
    s.chars().collect()
}

fn text(v: &[char]) -> String {
    v.iter().collect()
}

/// An in-memory tree: each directory's listing in enumeration order, and the
/// text of each ignore file, by the path of its directory.
struct Tree {
    dirs: Vec<(String, Vec<(String, bool)>)>,
    ignores: Vec<(String, String)>,
    unreadable_dirs: Vec<String>,
    unreadable_ignores: Vec<String>,
}

struct Run {
    result: Result<Vec<String>, ScanError>,
    listed: Vec<String>,
    read: Vec<String>,
    unreadable: Vec<String>,
}

impl Tree {
    fn new() -> Tree {
        Tree { dirs: Vec::new(), ignores: Vec::new(), unreadable_dirs: Vec::new(), unreadable_ignores: Vec::new() }
    }

    fn dir(mut self, path: &str, entries: &[(&str, bool)]) -> Tree {
        self.dirs.push((path.to_string(), entries.iter().map(|(n, d)| (n.to_string(), *d)).collect()));
        self
    }

    fn ignore(mut self, dir: &str, body: &str) -> Tree {
        self.ignores.push((dir.to_string(), body.to_string()));
        self
    }

    fn scan(&self) -> Run {
        let mut w = Walker::new();
        let mut listed = Vec::new();
        let mut read = Vec::new();
        loop {
            match w.next_action() {
                Phase::Listing => {
                    let d = text(&w.dir);
                    listed.push(d.clone());
                    let listing = if self.unreadable_dirs.contains(&d) {
                        None
                    } else {
                        self.dirs.iter().find(|(p, _)| *p == d).map(|(_, es)| {
                            es.iter().map(|(n, is_dir)| Entry { name: chars(n), is_dir: *is_dir }).collect()
                        })
                    };
                    w.give_listing(listing);
                }
                Phase::ReadingIgnoreFile => {
                    let d = text(&w.dir);
                    read.push(d.clone());
                    if self.unreadable_ignores.contains(&d) {
                        w.give_ignore_file(None);
                    } else {
                        let body = self.ignores.iter().find(|(p, _)| *p == d).map(|(_, b)| b.clone()).unwrap_or_default();
                        w.give_ignore_file(Some(&body));
                    }
                }
                _ => break,
            }
        }
        let unreadable = w.unreadable.iter().map(|p| text(p)).collect();
        let result = w.finish().map(|fs| fs.iter().map(|p| text(p)).collect());
        Run { result, listed, read, unreadable }
    }
}

fn strs(v: &[&str]) -> Vec<String> {
    v.iter().map(|s| s.to_string()).collect()
}

#[test]
fn nested_whitelist_overrides_root_ignore() {
    let tree = Tree::new()
        .dir("", &[("a.txt", false), ("b.log", false), (".gitignore", false), ("sub", true)])
        .dir("sub", &[("c.log", false), (".gitignore", false)])
        .ignore("", "*.log\n")
        .ignore("sub", "!c.log\n");
    assert_eq!(tree.scan().result, Ok(strs(&["a.txt", "sub/c.log"])));
}

#[test]
fn build_directories_pruned_at_any_depth() {
    let tree = Tree::new()
        .dir("", &[(".gitignore", false), ("build", true), ("src", true), ("top.rs", false)])
        .dir("build", &[("out.o", false), (".gitignore", false)])
        .dir("src", &[("main.rs", false), ("build", true), ("build.rs", false)])
        .dir("src/build", &[("gen.rs", false)])
        .ignore("", "build/\n")
        .ignore("build", "!out.o\n");
    let run = tree.scan();
    assert_eq!(run.result, Ok(strs(&["src/main.rs", "src/build.rs", "top.rs"])));
    assert_eq!(run.listed, strs(&["", "src"]));
    assert_eq!(run.read, strs(&[""]));
}

#[test]
fn keep_log_whitelisted_in_descendant() {
    let tree = Tree::new()
        .dir("", &[(".gitignore", false), ("logs", true), ("x.log", false)])
        .dir("logs", &[(".gitignore", false), ("keep.log", false), ("drop.log", false)])
        .ignore("", "*.log")
        .ignore("logs", "!keep.log");
    assert_eq!(tree.scan().result, Ok(strs(&["logs/keep.log"])));
}

#[test]
fn git_directory_always_excluded() {
    let tree = Tree::new()
        .dir("", &[(".gitignore", false), (".git", true), ("a", true), ("f", false)])
        .dir(".git", &[("HEAD", false)])
        .dir("a", &[(".GIT", true), ("g", false)])
        .dir("a/.GIT", &[("config", false)])
        .ignore("", "!.git\n!.git/\n");
    let run = tree.scan();
    assert_eq!(run.result, Ok(strs(&["a/g", "f"])));
    assert_eq!(run.listed, strs(&["", "a"]));
}

#[test]
fn missing_root_is_an_error() {
    let tree = Tree::new();
    let run = tree.scan();
    assert_eq!(run.result, Err(ScanError::Root));
}

#[test]
fn empty_root_is_an_empty_success() {
    let tree = Tree::new().dir("", &[]);
    assert_eq!(tree.scan().result, Ok(Vec::new()));
}

#[test]
fn two_scans_give_the_same_order() {
    let tree = Tree::new()
        .dir("", &[("z", false), ("d", true), ("a", false), (".gitignore", false)])
        .dir("d", &[("y", false), ("x", false)])
        .ignore("", "# nothing\n\n");
    let first = tree.scan().result;
    let second = tree.scan().result;
    assert_eq!(first, Ok(strs(&["z", "d/y", "d/x", "a"])));
    assert_eq!(first, second);
}

#[test]
fn pruned_directory_is_never_inspected() {
    let tree = Tree::new()
        .dir("", &[(".gitignore", false), ("tmp", true), ("keep", false)])
        .dir("tmp", &[(".gitignore", false), ("important", false)])
        .ignore("", "tmp")
        .ignore("tmp", "!important\n");
    let run = tree.scan();
    assert_eq!(run.result, Ok(strs(&["keep"])));
    assert_eq!(run.listed, strs(&[""]));
    assert_eq!(run.read, strs(&[""]));
}

#[test]
fn unreadable_directory_is_skipped() {
    let mut tree = Tree::new()
        .dir("", &[("a", false), ("locked", true), ("b", false)])
        .dir("locked", &[("secret", false)]);
    tree.unreadable_dirs.push("locked".to_string());
    let run = tree.scan();
    assert_eq!(run.result, Ok(strs(&["a", "b"])));
    assert_eq!(run.unreadable, strs(&["locked"]));
}

#[test]
fn unreadable_ignore_file_is_recorded() {
    let mut tree = Tree::new()
        .dir("", &[("d", true)])
        .dir("d", &[(".gitignore", false), ("x.log", false)]);
    tree.unreadable_ignores.push("d".to_string());
    let run = tree.scan();
    assert_eq!(run.result, Ok(strs(&["d/x.log"])));
    assert_eq!(run.unreadable, strs(&["d/.gitignore"]));
}

#[test]
fn ignore_file_is_not_listed_but_a_directory_of_that_name_is_walked() {
    let tree = Tree::new()
        .dir("", &[(".gitignore", false), ("a", true)])
        .dir("a", &[(".gitignore", true)])
        .dir("a/.gitignore", &[("inner", false)])
        .ignore("", "");
    let run = tree.scan();
    assert_eq!(run.result, Ok(strs(&["a/.gitignore/inner"])));
    assert_eq!(run.read, strs(&[""]));
}

#[test]
fn anchored_rule_matches_only_at_its_base() {
    let tree = Tree::new()
        .dir("", &[(".gitignore", false), ("todo", false), ("sub", true)])
        .dir("sub", &[("todo", false)])
        .ignore("", "/todo\n");
    assert_eq!(tree.scan().result, Ok(strs(&["sub/todo"])));
}

#[test]
fn directory_only_rule_spares_files() {
    let tree = Tree::new()
        .dir("", &[(".gitignore", false), ("out", false), ("d", true)])
        .dir("d", &[("out", true), ("f", false)])
        .dir("d/out", &[("x", false)])
        .ignore("", "out/\n");
    assert_eq!(tree.scan().result, Ok(strs(&["out", "d/f"])));
}

#[test]
fn nested_rules_leave_siblings_alone() {
    let tree = Tree::new()
        .dir("", &[("a", true), ("b", true)])
        .dir("a", &[(".gitignore", false), ("x.tmp", false)])
        .dir("b", &[("y.tmp", false)])
        .ignore("a", "*.tmp");
    assert_eq!(tree.scan().result, Ok(strs(&["b/y.tmp"])));
}

#[test]
fn double_star_crosses_directories() {
    let tree = Tree::new()
        .dir("", &[(".gitignore", false), ("docs", true), ("notes.md", false)])
        .dir("docs", &[("a", true), ("r.md", false)])
        .dir("docs/a", &[("deep.md", false), ("img.png", false)])
        .ignore("", "/docs/**.md\n");
    assert_eq!(tree.scan().result, Ok(strs(&["docs/a/img.png", "notes.md"])));
}

#[test]
fn unfinished_walk_is_an_error() {
    let mut w = Walker::new();
    assert_eq!(w.next_action(), Phase::Listing);
    assert_eq!(w.finish(), Err(ScanError::Unfinished));
}

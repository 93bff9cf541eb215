use std::collections::BTreeMap;

use clip::{clip_text, listing, Child, Notice, Outcome, PathKind, Step, Transfer};

/// A small filesystem in memory: a path maps to `None` for a directory and to
/// the contents for a file.
struct MemFs {
    nodes: BTreeMap<String, Option<String>>,
    fail_copies_to: Option<String>,
    fail_removals: bool,
}

impl MemFs {
    fn new() -> MemFs {
        let mut nodes = BTreeMap::new();
        nodes.insert("/".to_string(), None);
        MemFs { nodes, fail_copies_to: None, fail_removals: false }
    }

    fn parent(p: &str) -> String {
        match p.rfind('/') {
            Some(0) => "/".to_string(),
            Some(i) => p[..i].to_string(),
            None => String::new(),
        }
    }

    fn dir(&mut self, p: &str) {
        let mut cur = p.to_string();
        while cur != "/" && !cur.is_empty() {
            self.nodes.insert(cur.clone(), None);
            cur = MemFs::parent(&cur);
        }
    }

    fn file(&mut self, p: &str, contents: &str) {
        self.dir(&MemFs::parent(p));
        self.nodes.insert(p.to_string(), Some(contents.to_string()));
    }

    fn contents(&self, p: &str) -> Option<String> {
        self.nodes.get(p).cloned().flatten()
    }

    fn has(&self, p: &str) -> bool {
        self.nodes.contains_key(p)
    }

    fn under(&self, root: &str) -> Vec<(String, Option<String>)> {
        let prefix = format!("{}/", root);
        self.nodes
            .iter()
            .filter(|(k, _)| k.starts_with(&prefix))
            .map(|(k, v)| (k[root.len()..].to_string(), v.clone()))
            .collect()
    }

    fn perform(&mut self, step: &Step) -> Outcome {
        match step {
            Step::Probe(p) => Outcome::Kind(match self.nodes.get(p) {
                None => PathKind::Missing,
                Some(None) => PathKind::Dir,
                Some(Some(_)) => PathKind::File,
            }),
            Step::CreateDir(d) => {
                self.dir(d);
                Outcome::Done
            }
            Step::CopyFile { from, to } => {
                if self.fail_copies_to.as_deref() == Some(to.as_str()) {
                    return Outcome::Failed("permission denied".to_string());
                }
                match self.nodes.get(from).cloned() {
                    Some(Some(c)) if self.nodes.get(&MemFs::parent(to)) == Some(&None) => {
                        self.nodes.insert(to.clone(), Some(c));
                        Outcome::Done
                    }
                    _ => Outcome::Failed("no such file".to_string()),
                }
            }
            Step::ListDir { from, .. } => {
                let prefix = format!("{}/", from);
                let children = self
                    .nodes
                    .iter()
                    .filter(|(k, _)| k.starts_with(&prefix) && !k[prefix.len()..].contains('/'))
                    .map(|(k, v)| Child { name: k[prefix.len()..].to_string(), is_dir: v.is_none() })
                    .collect();
                Outcome::Listed(children)
            }
            Step::Remove { path, is_dir } => {
                if self.fail_removals {
                    return Outcome::Failed("busy".to_string());
                }
                self.nodes.remove(path);
                if *is_dir {
                    let prefix = format!("{}/", path);
                    self.nodes.retain(|k, _| !k.starts_with(&prefix));
                }
                Outcome::Done
            }
            Step::Report(_) => Outcome::Done,
        }
    }

    /// Runs a transfer to its end and returns the notices it gave.
    fn run(&mut self, mut t: Transfer) -> Vec<Notice> {
        let mut notices = Vec::new();
        let mut steps = 0;
        while let Some(step) = t.action() {
            let step = step.clone();
            if let Step::Report(n) = &step {
                notices.push(n.clone());
            }
            let outcome = self.perform(&step);
            t.advance(outcome);
            steps += 1;
            assert!(steps < 10_000);
        }
        notices
    }
}

fn sample() -> MemFs {
    let mut fs = MemFs::new();
    fs.file("/src/a/x.txt", "x");
    fs.file("/src/a/sub/y.txt", "yy");
    fs.dir("/src/a/sub/empty");
    fs.file("/src/b/z.txt", "zzz");
    fs.dir("/out");
    fs
}

fn entries(items: &[&str]) -> Vec<String> {
    items.iter().map(|s| s.to_string()).collect()
}

#[test]
fn paste_reproduces_directories_and_keeps_originals() {
    let mut fs = sample();
    let notices = fs.run(Transfer::new("/out".to_string(), false, entries(&["/src/a", "/src/b"])));
    assert!(notices.is_empty());
    assert_eq!(fs.under("/out/a"), fs.under("/src/a"));
    assert_eq!(fs.under("/out/b"), fs.under("/src/b"));
    assert_eq!(fs.contents("/out/a/sub/y.txt"), Some("yy".to_string()));
    assert!(fs.has("/out/a/sub/empty"));
    assert!(fs.has("/src/a/x.txt"));
    assert!(fs.has("/src/b/z.txt"));
}

#[test]
fn move_copies_then_removes_originals() {
    let mut fs = sample();
    let before_a = fs.under("/src/a");
    let before_b = fs.under("/src/b");
    fs.file("/src/c.txt", "c");
    let notices = fs.run(Transfer::new(
        "/out".to_string(),
        true,
        entries(&["/src/a", "/src/b", "/src/c.txt"]),
    ));
    assert!(notices.is_empty());
    assert_eq!(fs.under("/out/a"), before_a);
    assert_eq!(fs.under("/out/b"), before_b);
    assert_eq!(fs.contents("/out/c.txt"), Some("c".to_string()));
    assert!(!fs.has("/src/a"));
    assert!(!fs.has("/src/b"));
    assert!(!fs.has("/src/c.txt"));
}

#[test]
fn clip_list_paste_erase_scenario() {
    let mut fs = MemFs::new();
    fs.file("/tmp/a.txt", "hi");
    fs.dir("/tmp/out");
    let store = clip_text(&[Some("/tmp/a.txt".to_string())]);
    let listed = listing(Some(&store));
    assert_eq!(listed, vec!["/tmp/a.txt".to_string()]);
    let notices = fs.run(Transfer::new("/tmp/out".to_string(), false, listed));
    assert!(notices.is_empty());
    assert_eq!(fs.contents("/tmp/out/a.txt"), Some("hi".to_string()));
    assert_eq!(fs.contents("/tmp/a.txt"), Some("hi".to_string()));
    assert_eq!(listing(None), Vec::<String>::new());
}

#[test]
fn deleted_entry_is_skipped_and_others_go_on() {
    let mut fs = sample();
    let notices = fs.run(Transfer::new("/out".to_string(), false, entries(&["/gone", "/src/b"])));
    assert_eq!(notices, vec![Notice::Missing("/gone".to_string())]);
    assert_eq!(fs.contents("/out/b/z.txt"), Some("zzz".to_string()));
}

#[test]
fn first_step_probes_first_entry() {
    let t = Transfer::new("/out".to_string(), false, entries(&["/p", "/q"]));
    assert_eq!(t.action(), Some(&Step::Probe("/p".to_string())));
    let t = Transfer::new("/out".to_string(), false, Vec::new());
    assert_eq!(t.action(), None);
}

#[test]
fn probed_file_is_copied_under_its_name() {
    let mut t = Transfer::new("/out".to_string(), true, entries(&["/src/f.txt"]));
    t.advance(Outcome::Kind(PathKind::File));
    assert_eq!(
        t.action(),
        Some(&Step::CopyFile { from: "/src/f.txt".to_string(), to: "/out/f.txt".to_string() })
    );
    t.advance(Outcome::Done);
    assert_eq!(
        t.action(),
        Some(&Step::Remove { path: "/src/f.txt".to_string(), is_dir: false })
    );
    t.advance(Outcome::Done);
    assert_eq!(t.action(), None);
}

#[test]
fn failed_copy_is_reported_and_original_kept_in_a_move() {
    let mut fs = sample();
    fs.fail_copies_to = Some("/out/a/x.txt".to_string());
    let notices = fs.run(Transfer::new("/out".to_string(), true, entries(&["/src/a", "/src/b"])));
    assert_eq!(notices, vec![Notice::CopyFailed("permission denied".to_string())]);
    assert!(fs.has("/src/a/x.txt"));
    assert!(!fs.has("/src/b"));
    assert_eq!(fs.contents("/out/b/z.txt"), Some("zzz".to_string()));
}

#[test]
fn failed_removal_is_reported() {
    let mut fs = sample();
    fs.fail_removals = true;
    let notices = fs.run(Transfer::new("/out".to_string(), true, entries(&["/src/b"])));
    assert_eq!(
        notices,
        vec![Notice::RemoveFailed {
            path: "/src/b".to_string(),
            is_dir: true,
            reason: "busy".to_string()
        }]
    );
    assert!(fs.has("/src/b/z.txt"));
}

#[test]
fn path_without_a_name_is_reported() {
    let mut t = Transfer::new("/out".to_string(), false, entries(&["/"]));
    t.advance(Outcome::Kind(PathKind::Dir));
    assert_eq!(t.action(), Some(&Step::Report(Notice::NoFileName("/".to_string()))));
}

#[test]
fn other_kinds_are_copied_but_not_removed() {
    let mut t = Transfer::new("/out".to_string(), true, entries(&["/dev/fifo"]));
    t.advance(Outcome::Kind(PathKind::Other));
    assert_eq!(
        t.action(),
        Some(&Step::CopyFile { from: "/dev/fifo".to_string(), to: "/out/fifo".to_string() })
    );
    t.advance(Outcome::Done);
    assert_eq!(t.action(), None);
}

#[test]
fn failed_listing_abandons_the_entry() {
    let mut t = Transfer::new("/out".to_string(), true, entries(&["/src/d", "/src/e"]));
    t.advance(Outcome::Kind(PathKind::Dir));
    assert_eq!(t.action(), Some(&Step::CreateDir("/out/d".to_string())));
    t.advance(Outcome::Done);
    assert_eq!(
        t.action(),
        Some(&Step::ListDir { from: "/src/d".to_string(), to: "/out/d".to_string() })
    );
    t.advance(Outcome::Failed("denied".to_string()));
    assert_eq!(t.action(), Some(&Step::Report(Notice::CopyFailed("denied".to_string()))));
    t.advance(Outcome::Done);
    assert_eq!(t.action(), Some(&Step::Probe("/src/e".to_string())));
}

use file_finder::finder::{Finder, Selection};
use file_finder::hidden::is_file_hidden;
use file_finder::sink::Received;
use file_finder::visit::{
    first_invalid_root, is_valid_root, Classified, DirectoryStep, EntryKind, FileStep,
};
use file_finder::walker::{Decision, Failure, Outcome, Probe, Turn, Unit, Walker};
use std::collections::BTreeSet;
use std::collections::HashMap;

enum Node {
    File,
    Directory(Vec<&'static str>),
    Unreadable,
    Other,
}

struct Tree {
    nodes: HashMap<String, Node>,
}

impl Tree {
    fn new(nodes: Vec<(&str, Node)>) -> Tree {
        Tree { nodes: nodes.into_iter().map(|(path, node)| (path.to_string(), node)).collect() }
    }

    fn probe(&self, path: &str) -> Probe {
        let node = self.nodes.get(path);
        Probe {
            kind: match node {
                Some(Node::File) => Some(EntryKind::File),
                Some(Node::Directory(_)) => Some(EntryKind::Directory),
                Some(Node::Unreadable) => Some(EntryKind::Directory),
                Some(Node::Other) => Some(EntryKind::Other),
                None => None,
            },
            hidden: Some(is_file_hidden(path)),
            absolute: Some(format!("/abs/{}", path)),
            entries: match node {
                Some(Node::Directory(names)) => {
                    Some(names.iter().map(|name| format!("{}/{}", path, name)).collect())
                }
                _ => None,
            },
        }
    }
}

struct Found {
    paths: Vec<String>,
    log: Vec<(String, Outcome)>,
}

impl Found {
    fn set(&self) -> BTreeSet<String> {
        self.paths.iter().cloned().collect()
    }

    fn outcome(&self, path: &str) -> Option<Outcome> {
        self.log.iter().find(|(p, _)| p == path).map(|(_, o)| *o)
    }
}

fn walk(finder: Finder, roots: &[&str], tree: &Tree, capacity: usize) -> Found {
    let roots: Vec<String> = roots.iter().map(|r| r.to_string()).collect();
    let mut walker = Walker::new(finder, roots, capacity);
    let mut paths = Vec::new();
    let mut log = Vec::new();
    let mut turns = 0;
    loop {
        turns += 1;
        assert!(turns < 10_000, "the traversal does not end");
        match walker.next_unit() {
            Turn::Start(unit) => {
                let outcome = walker.resolve(&unit, tree.probe(&unit.path));
                log.push((unit.path.clone(), outcome.expect("the unit is under way")));
            }
            Turn::Blocked => match walker.take_result() {
                Received::Path(path) => paths.push(path),
                _ => panic!("a blocked walker has a match to take"),
            },
            Turn::Idle => panic!("no unit is under way"),
            Turn::Finished => break,
        }
    }
    assert!(walker.is_finished());
    loop {
        match walker.take_result() {
            Received::Path(path) => paths.push(path),
            Received::Empty => panic!("the sink of a finished traversal is closed"),
            Received::End => break,
        }
    }
    Found { paths, log }
}

/// Walks with several units under way at once, and ends them in an order
/// that `pick` chooses: it is given the number of units under way and names
/// the one to end.
fn walk_in_order(
    finder: Finder,
    roots: &[&str],
    tree: &Tree,
    capacity: usize,
    mut pick: impl FnMut(usize) -> usize,
) -> Found {
    let roots: Vec<String> = roots.iter().map(|r| r.to_string()).collect();
    let mut walker = Walker::new(finder, roots, capacity);
    let mut under_way: Vec<Unit> = Vec::new();
    let mut paths = Vec::new();
    let mut log = Vec::new();
    let mut turns = 0;
    loop {
        turns += 1;
        assert!(turns < 10_000, "the traversal does not end");
        match walker.next_unit() {
            Turn::Start(unit) => under_way.push(unit),
            Turn::Finished => break,
            Turn::Blocked | Turn::Idle => {
                if under_way.is_empty() {
                    match walker.take_result() {
                        Received::Path(path) => paths.push(path),
                        _ => panic!("a walker with work left can go on"),
                    }
                } else {
                    let unit = under_way.remove(pick(under_way.len()) % under_way.len());
                    let outcome = walker.resolve(&unit, tree.probe(&unit.path));
                    log.push((unit.path.clone(), outcome.expect("the unit is under way")));
                }
            }
        }
    }
    assert!(under_way.is_empty());
    loop {
        match walker.take_result() {
            Received::Path(path) => paths.push(path),
            Received::Empty => panic!("the sink of a finished traversal is closed"),
            Received::End => break,
        }
    }
    Found { paths, log }
}

fn selection() -> Selection {
    Selection {
        only: None,
        exclude: None,
        ex_exts: None,
        ex_whos: None,
        whole: None,
        extension: None,
        full: false,
        igcase: false,
        flat: false,
        hidden: false,
        invert: false,
    }
}

fn list(values: &[&str]) -> Option<Vec<String>> {
    Some(values.iter().map(|v| v.to_string()).collect())
}

fn by_extension(extensions: &[&str]) -> Selection {
    let mut chosen = selection();
    chosen.extension = list(extensions);
    chosen
}

fn names(paths: &[&str]) -> BTreeSet<String> {
    paths.iter().map(|p| p.to_string()).collect()
}

fn small_tree() -> Tree {
    Tree::new(vec![
        ("root", Node::Directory(vec!["a.txt", "b.log", ".c.txt", "Makefile"])),
        ("root/a.txt", Node::File),
        ("root/b.log", Node::File),
        ("root/.c.txt", Node::File),
        ("root/Makefile", Node::File),
    ])
}

fn deep_tree() -> Tree {
    Tree::new(vec![
        ("root", Node::Directory(vec!["a.txt", "sub", ".git", "locked", "pipe"])),
        ("root/a.txt", Node::File),
        ("root/sub", Node::Directory(vec!["x.txt", "deeper", "y.log"])),
        ("root/sub/x.txt", Node::File),
        ("root/sub/y.log", Node::File),
        ("root/sub/deeper", Node::Directory(vec!["z.txt", ".w.txt"])),
        ("root/sub/deeper/z.txt", Node::File),
        ("root/sub/deeper/.w.txt", Node::File),
        ("root/.git", Node::Directory(vec!["config.txt"])),
        ("root/.git/config.txt", Node::File),
        ("root/locked", Node::Unreadable),
        ("root/pipe", Node::Other),
    ])
}

#[test]
fn extension_search_leaves_hidden_files_out() {
    let finder = Finder::new(Vec::new(), by_extension(&["txt"]), false, false);
    let found = walk(finder, &["root"], &small_tree(), 512);
    assert_eq!(found.set(), names(&["root/a.txt"]));
    assert_eq!(found.paths.len(), 1);
    assert_eq!(found.outcome("root/.c.txt"), Some(Outcome::Ignored));
    assert_eq!(found.outcome("root/b.log"), Some(Outcome::Unmatched));
    assert_eq!(found.outcome("root"), Some(Outcome::Descended));
}

#[test]
fn whole_name_search_finds_the_makefile() {
    let mut chosen = selection();
    chosen.whole = list(&["Makefile"]);
    let finder = Finder::new(Vec::new(), chosen, false, false);
    let found = walk(finder, &["root"], &small_tree(), 512);
    assert_eq!(found.set(), names(&["root/Makefile"]));
}

#[test]
fn ignore_case_search_finds_the_report() {
    let mut chosen = by_extension(&["TXT"]);
    chosen.igcase = true;
    let finder = Finder::new(Vec::new(), chosen, false, false);
    let tree = Tree::new(vec![
        ("root", Node::Directory(vec!["report.txt", "REPORT.TXT", "report.log"])),
        ("root/report.txt", Node::File),
        ("root/REPORT.TXT", Node::File),
        ("root/report.log", Node::File),
    ]);
    let found = walk(finder, &["root"], &tree, 512);
    assert_eq!(found.set(), names(&["root/report.txt", "root/REPORT.TXT"]));
}

#[test]
fn unreadable_directory_does_not_stop_the_search() {
    let finder = Finder::new(Vec::new(), by_extension(&["txt"]), false, false);
    let tree = Tree::new(vec![
        ("root", Node::Directory(vec!["locked", "open"])),
        ("root/locked", Node::Unreadable),
        ("root/open", Node::Directory(vec!["x.txt"])),
        ("root/open/x.txt", Node::File),
    ]);
    let found = walk(finder, &["root"], &tree, 512);
    assert!(found.set().contains("root/open/x.txt"));
    assert_eq!(found.set(), names(&["root/open/x.txt"]));
    assert_eq!(found.outcome("root/locked"), Some(Outcome::Failed(Failure::Listing)));
    assert_eq!(found.outcome("root/open"), Some(Outcome::Descended));
}

#[test]
fn search_goes_through_the_whole_tree() {
    let finder = Finder::new(Vec::new(), by_extension(&["txt"]), false, false);
    let found = walk(finder, &["root"], &deep_tree(), 512);
    assert_eq!(
        found.set(),
        names(&["root/a.txt", "root/sub/x.txt", "root/sub/deeper/z.txt"])
    );
    assert_eq!(found.outcome("root/.git"), Some(Outcome::Ignored));
    assert_eq!(found.outcome("root/.git/config.txt"), None);
    assert_eq!(found.outcome("root/pipe"), Some(Outcome::Invalid));
    assert_eq!(found.outcome("root/locked"), Some(Outcome::Failed(Failure::Listing)));
}

#[test]
fn hidden_entries_are_searched_on_request() {
    let mut chosen = by_extension(&["txt"]);
    chosen.hidden = true;
    let finder = Finder::new(Vec::new(), chosen, false, false);
    let found = walk(finder, &["root"], &deep_tree(), 512);
    assert_eq!(
        found.set(),
        names(&[
            "root/a.txt",
            "root/sub/x.txt",
            "root/sub/deeper/z.txt",
            "root/sub/deeper/.w.txt",
            "root/.git/config.txt",
        ])
    );
}

#[test]
fn named_paths_are_never_hidden() {
    let finder = Finder::new(Vec::new(), by_extension(&["txt"]), false, false);
    let found = walk(finder, &["root/.git", "root/sub/deeper/.w.txt"], &deep_tree(), 512);
    assert_eq!(found.set(), names(&["root/.git/config.txt", "root/sub/deeper/.w.txt"]));
}

#[test]
fn flat_search_enters_no_directory() {
    let mut chosen = by_extension(&["txt"]);
    chosen.flat = true;
    let finder = Finder::new(Vec::new(), chosen, false, false);
    let found = walk(finder, &["root", "root/a.txt", "root/sub/y.log"], &deep_tree(), 512);
    assert_eq!(found.set(), names(&["root/a.txt"]));
    assert_eq!(found.log.len(), 3);
    assert_eq!(found.outcome("root"), Some(Outcome::Invalid));
    assert_eq!(found.outcome("root/sub/y.log"), Some(Outcome::Unmatched));
}

#[test]
fn search_is_repeatable() {
    let tree = deep_tree();
    let one = walk(Finder::new(Vec::new(), by_extension(&["txt", "log"]), false, false), &["root"], &tree, 512);
    let other = walk(Finder::new(Vec::new(), by_extension(&["txt", "log"]), false, false), &["root"], &tree, 1);
    let third = walk(Finder::new(Vec::new(), by_extension(&["txt", "log"]), false, false), &["root"], &tree, 2);
    assert_eq!(one.set(), other.set());
    assert_eq!(one.set(), third.set());
    assert_eq!(one.paths.len(), other.paths.len());
    assert_eq!(
        one.set(),
        names(&["root/a.txt", "root/sub/x.txt", "root/sub/y.log", "root/sub/deeper/z.txt"])
    );
}

#[test]
fn search_is_repeatable_in_any_order() {
    let tree = deep_tree();
    let expected = names(&[
        "root/a.txt",
        "root/sub/x.txt",
        "root/sub/y.log",
        "root/sub/deeper/z.txt",
    ]);
    for capacity in [1, 2, 3, 8, 512] {
        let finder = Finder::new(Vec::new(), by_extension(&["txt", "log"]), false, false);
        let oldest_first = walk_in_order(finder, &["root"], &tree, capacity, |_| 0);
        assert_eq!(oldest_first.set(), expected);
        assert_eq!(oldest_first.paths.len(), 4);

        let finder = Finder::new(Vec::new(), by_extension(&["txt", "log"]), false, false);
        let newest_first = walk_in_order(finder, &["root"], &tree, capacity, |n| n - 1);
        assert_eq!(newest_first.set(), expected);
        assert_eq!(newest_first.paths.len(), 4);

        let mut state: usize = 12345;
        let finder = Finder::new(Vec::new(), by_extension(&["txt", "log"]), false, false);
        let mixed = walk_in_order(finder, &["root"], &tree, capacity, |_| {
            state = state.wrapping_mul(1103515245).wrapping_add(12345) % 2147483648;
            state / 65536
        });
        assert_eq!(mixed.set(), expected);
        assert_eq!(mixed.paths.len(), 4);
        assert_eq!(mixed.log.len(), oldest_first.log.len());
    }
}

#[test]
fn several_units_are_under_way_at_once() {
    let finder = Finder::new(Vec::new(), by_extension(&["txt"]), false, false);
    let roots: Vec<String> = ["a.txt", "b.txt", "c.txt", "d.txt"].iter().map(|r| r.to_string()).collect();
    let mut walker = Walker::new(finder, roots, 3);
    let mut under_way = Vec::new();
    while let Turn::Start(unit) = walker.next_unit() {
        under_way.push(unit);
    }
    assert_eq!(under_way.len(), 3);
    assert!(matches!(walker.next_unit(), Turn::Blocked));
    let file = || Probe { kind: Some(EntryKind::File), hidden: Some(false), absolute: None, entries: None };
    assert_eq!(walker.resolve(&under_way[1], file()), Some(Outcome::Reported));
    assert_eq!(walker.resolve(&under_way[1], file()), None);
    assert!(matches!(walker.next_unit(), Turn::Blocked));
    match walker.take_result() {
        Received::Path(path) => assert_eq!(path, under_way[1].path),
        _ => panic!("a match waits"),
    }
    let last = match walker.next_unit() {
        Turn::Start(unit) => unit,
        _ => panic!("the sink has room again"),
    };
    assert_eq!(last.path, "a.txt");
    assert!(matches!(walker.next_unit(), Turn::Idle));
    assert_eq!(walker.resolve(&under_way[2], file()), Some(Outcome::Reported));
    assert_eq!(walker.resolve(&last, file()), Some(Outcome::Reported));
    assert!(!walker.is_finished());
    assert_eq!(walker.resolve(&under_way[0], file()), Some(Outcome::Reported));
    assert!(walker.is_finished());
    let mut rest = Vec::new();
    while let Received::Path(path) = walker.take_result() {
        rest.push(path);
    }
    assert_eq!(rest, vec!["b.txt", "a.txt", "d.txt"]);
    assert!(matches!(walker.take_result(), Received::End));
}

#[test]
fn inverted_search_reports_the_other_files() {
    let mut chosen = by_extension(&["txt"]);
    chosen.invert = true;
    let finder = Finder::new(Vec::new(), chosen, false, false);
    let found = walk(finder, &["root"], &small_tree(), 512);
    assert_eq!(found.set(), names(&["root/b.log", "root/Makefile"]));
}

#[test]
fn full_search_reports_absolute_paths() {
    let mut chosen = by_extension(&["txt"]);
    chosen.full = true;
    let finder = Finder::new(Vec::new(), chosen, false, false);
    let found = walk(finder, &["root"], &small_tree(), 512);
    assert_eq!(found.set(), names(&["/abs/root/a.txt"]));
}

#[test]
fn missing_path_ends_with_a_warning() {
    let finder = Finder::new(Vec::new(), by_extension(&["txt"]), false, false);
    let found = walk(finder, &["nowhere", "root"], &small_tree(), 512);
    assert_eq!(found.outcome("nowhere"), Some(Outcome::Failed(Failure::Metadata)));
    assert_eq!(found.set(), names(&["root/a.txt"]));
}

#[test]
fn file_without_a_name_is_passed_over() {
    let finder = Finder::new(Vec::new(), by_extension(&["txt"]), false, false);
    let tree = Tree::new(vec![("odd/..", Node::File)]);
    let found = walk(finder, &["odd/.."], &tree, 512);
    assert_eq!(found.outcome("odd/.."), Some(Outcome::Unnamed));
    assert!(found.paths.is_empty());
}

#[test]
fn search_of_no_path_is_finished_at_once() {
    let finder = Finder::new(Vec::new(), by_extension(&["txt"]), false, false);
    let mut walker = Walker::new(finder, Vec::new(), 512);
    assert!(walker.is_finished());
    assert!(matches!(walker.next_unit(), Turn::Finished));
    assert!(matches!(walker.take_result(), Received::End));
}

#[test]
fn walker_takes_the_last_path_first_and_waits_for_room() {
    let finder = Finder::new(Vec::new(), by_extension(&["txt"]), false, false);
    let roots = vec!["a.txt".to_string(), "b.txt".to_string()];
    let mut walker = Walker::new(finder, roots, 1);
    assert!(!walker.is_finished());
    assert!(matches!(walker.take_result(), Received::Empty));
    let unit = match walker.next_unit() {
        Turn::Start(unit) => unit,
        _ => panic!("a unit waits"),
    };
    assert_eq!(unit.path, "b.txt");
    assert!(unit.first);
    assert!(matches!(walker.next_unit(), Turn::Blocked));
    let probe = Probe { kind: Some(EntryKind::File), hidden: Some(false), absolute: None, entries: None };
    assert_eq!(walker.resolve(&unit, probe), Some(Outcome::Reported));
    assert!(matches!(walker.next_unit(), Turn::Blocked));
    match walker.take_result() {
        Received::Path(path) => assert_eq!(path, "b.txt"),
        _ => panic!("a match waits"),
    }
    assert!(matches!(walker.take_result(), Received::Empty));
    let unit = match walker.next_unit() {
        Turn::Start(unit) => unit,
        _ => panic!("a unit waits"),
    };
    assert_eq!(unit.path, "a.txt");
    assert!(matches!(walker.next_unit(), Turn::Idle));
    assert!(!walker.is_finished());
    let probe = Probe { kind: Some(EntryKind::File), hidden: Some(false), absolute: None, entries: None };
    assert_eq!(walker.resolve(&unit, probe), Some(Outcome::Reported));
    assert!(walker.is_finished());
    assert!(matches!(walker.next_unit(), Turn::Finished));
    match walker.take_result() {
        Received::Path(path) => assert_eq!(path, "a.txt"),
        _ => panic!("a match waits"),
    }
    assert!(matches!(walker.take_result(), Received::End));
}

#[test]
fn walker_passes_over_a_unit_that_is_not_under_way() {
    let finder = Finder::new(Vec::new(), by_extension(&["txt"]), false, false);
    let mut walker = Walker::new(finder, vec!["a.txt".to_string()], 4);
    let stray = Unit { path: "a.txt".to_string(), first: true };
    let probe = Probe { kind: Some(EntryKind::File), hidden: Some(false), absolute: None, entries: None };
    assert_eq!(walker.resolve(&stray, probe), None);
    assert!(!walker.is_finished());
    let unit = match walker.next_unit() {
        Turn::Start(unit) => unit,
        _ => panic!("a unit waits"),
    };
    let other = Unit { path: "a.txt".to_string(), first: false };
    let probe = Probe { kind: Some(EntryKind::File), hidden: Some(false), absolute: None, entries: None };
    assert_eq!(walker.resolve(&other, probe), None);
    let probe = Probe { kind: Some(EntryKind::File), hidden: Some(false), absolute: None, entries: None };
    assert_eq!(walker.resolve(&unit, probe), Some(Outcome::Reported));
    let probe = Probe { kind: Some(EntryKind::File), hidden: Some(false), absolute: None, entries: None };
    assert_eq!(walker.resolve(&unit, probe), None);
    assert!(walker.is_finished());
}

#[test]
fn walker_gives_up_when_the_reader_is_gone() {
    let finder = Finder::new(Vec::new(), by_extension(&["txt"]), false, false);
    let roots = vec!["a.txt".to_string(), "b.txt".to_string(), "c.txt".to_string()];
    let mut walker = Walker::new(finder, roots, 4);
    let unit = match walker.next_unit() {
        Turn::Start(unit) => unit,
        _ => panic!("a unit waits"),
    };
    walker.disconnect();
    assert!(!walker.is_finished());
    assert!(matches!(walker.next_unit(), Turn::Idle));
    let probe = Probe { kind: Some(EntryKind::File), hidden: Some(false), absolute: None, entries: None };
    assert_eq!(walker.resolve(&unit, probe), Some(Outcome::Fatal));
    assert!(walker.is_finished());
    assert!(matches!(walker.next_unit(), Turn::Finished));
    assert!(matches!(walker.take_result(), Received::End));
}

#[test]
fn reader_that_goes_with_no_unit_under_way_ends_the_search() {
    let finder = Finder::new(Vec::new(), by_extension(&["txt"]), false, false);
    let mut walker = Walker::new(finder, vec!["a.txt".to_string()], 4);
    walker.disconnect();
    assert!(walker.is_finished());
    assert!(matches!(walker.next_unit(), Turn::Finished));
}

#[test]
fn classification_goes_by_the_kind_of_the_path() {
    let finder = Finder::new(Vec::new(), by_extension(&["txt"]), false, false);
    assert_eq!(finder.find_in_directory_impl(true, None), Classified::Failed);
    assert_eq!(
        finder.find_in_directory_first(Some(EntryKind::Directory)),
        Classified::ProcessDirectory { first: true }
    );
    assert_eq!(
        finder.find_in_directory_left(Some(EntryKind::Directory)),
        Classified::ProcessDirectory { first: false }
    );
    assert_eq!(
        finder.find_in_directory_first(Some(EntryKind::File)),
        Classified::ProcessFile { first: true }
    );
    assert_eq!(
        finder.find_in_directory_left(Some(EntryKind::File)),
        Classified::ProcessFile { first: false }
    );
    assert_eq!(finder.find_in_directory_left(Some(EntryKind::Other)), Classified::Invalid);
    assert_eq!(finder.find_in_directory_left(None), Classified::Failed);

    let mut chosen = by_extension(&["txt"]);
    chosen.flat = true;
    let flat = Finder::new(Vec::new(), chosen, false, false);
    assert_eq!(flat.find_in_directory_first(Some(EntryKind::Directory)), Classified::Invalid);
    assert_eq!(
        flat.find_in_directory_first(Some(EntryKind::File)),
        Classified::ProcessFile { first: true }
    );
}

#[test]
fn directories_are_entered_unless_hidden() {
    let finder = Finder::new(Vec::new(), by_extension(&["txt"]), false, false);
    assert_eq!(finder.process_directory_frist(Some(true)), DirectoryStep::List);
    assert_eq!(finder.process_directory_frist(None), DirectoryStep::List);
    assert_eq!(finder.process_directory_left(Some(false)), DirectoryStep::List);
    assert_eq!(finder.process_directory_left(Some(true)), DirectoryStep::Ignored);
    assert_eq!(finder.process_directory_left(None), DirectoryStep::Failed);
    assert_eq!(finder.process_directory_impl(false, Some(true)), DirectoryStep::Ignored);

    let mut chosen = by_extension(&["txt"]);
    chosen.hidden = true;
    let all = Finder::new(Vec::new(), chosen, false, false);
    assert_eq!(all.process_directory_left(Some(true)), DirectoryStep::List);
    assert_eq!(all.process_directory_left(None), DirectoryStep::Failed);
}

#[test]
fn files_are_tested_unless_hidden() {
    let finder = Finder::new(Vec::new(), by_extension(&["txt"]), false, false);
    assert_eq!(finder.process_file("dir/a.txt", false, Some(false)), FileStep::Selected);
    assert_eq!(finder.process_file("dir/a.log", false, Some(false)), FileStep::Unmatched);
    assert_eq!(finder.process_file("dir/.a.txt", false, Some(true)), FileStep::Ignored);
    assert_eq!(finder.process_file("dir/.a.txt", true, Some(true)), FileStep::Selected);
    assert_eq!(finder.process_file("dir/a.txt", false, None), FileStep::Failed);
    assert_eq!(finder.process_file("dir/a.txt", true, None), FileStep::Selected);
    assert_eq!(finder.process_file("dir/..", false, Some(false)), FileStep::Unnamed);
    assert_eq!(finder.process_file("dir.txt/a", false, Some(false)), FileStep::Unmatched);
}

#[test]
fn visit_puts_the_steps_together() {
    let mut chosen = by_extension(&["txt"]);
    chosen.full = true;
    let finder = Finder::new(Vec::new(), chosen, false, false);
    let unit = Unit { path: "dir/a.txt".to_string(), first: false };
    let probe = Probe { kind: Some(EntryKind::File), hidden: Some(false), absolute: None, entries: None };
    assert!(matches!(finder.visit(&unit, probe), Decision::Failed(Failure::Absolute)));
    let probe = Probe {
        kind: Some(EntryKind::File),
        hidden: Some(false),
        absolute: Some("/top/dir/a.txt".to_string()),
        entries: None,
    };
    match finder.visit(&unit, probe) {
        Decision::Report(path) => assert_eq!(path, "/top/dir/a.txt"),
        _ => panic!("the file is reported"),
    }
    let probe = Probe { kind: Some(EntryKind::File), hidden: None, absolute: None, entries: None };
    assert!(matches!(finder.visit(&unit, probe), Decision::Failed(Failure::Hidden)));
    let dir = Unit { path: "dir".to_string(), first: false };
    let probe = Probe {
        kind: Some(EntryKind::Directory),
        hidden: Some(false),
        absolute: None,
        entries: Some(vec!["dir/a.txt".to_string(), "dir/b".to_string()]),
    };
    match finder.visit(&dir, probe) {
        Decision::Descend(entries) => assert_eq!(entries, vec!["dir/a.txt", "dir/b"]),
        _ => panic!("the directory is entered"),
    }
    let probe = Probe { kind: Some(EntryKind::Directory), hidden: None, absolute: None, entries: None };
    assert!(matches!(finder.visit(&dir, probe), Decision::Failed(Failure::Hidden)));
    let probe = Probe { kind: Some(EntryKind::Other), hidden: None, absolute: None, entries: None };
    assert!(matches!(finder.visit(&dir, probe), Decision::Invalid));
    let probe = Probe { kind: None, hidden: None, absolute: None, entries: None };
    assert!(matches!(finder.visit(&dir, probe), Decision::Failed(Failure::Metadata)));
}

#[test]
fn named_paths_have_to_be_files_or_directories() {
    assert!(is_valid_root(Some(EntryKind::File)));
    assert!(is_valid_root(Some(EntryKind::Directory)));
    assert!(!is_valid_root(Some(EntryKind::Other)));
    assert!(!is_valid_root(None));
    assert_eq!(first_invalid_root(&vec![]), None);
    assert_eq!(
        first_invalid_root(&vec![Some(EntryKind::File), Some(EntryKind::Directory)]),
        None
    );
    assert_eq!(
        first_invalid_root(&vec![Some(EntryKind::File), None, Some(EntryKind::Other)]),
        Some(1)
    );
}

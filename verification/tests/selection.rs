//! Which folders get picked, and the command line around that choice.

use onezipper::cli::{parse_args, usage, ArgError, ArgsOutcome, CommandLine, Mode};
use onezipper::walk::{Walk, WalkAction, WalkEvent};
use onezipper::select::{archive_file_name, archives_to_probe, is_hidden, plan_folder, DirEntry, EntryKind};

fn file(name: &str) -> DirEntry {
    DirEntry { name: name.to_string(), raw_name: name.as_bytes().to_vec(), kind: EntryKind::File, marked: false }
}

fn dir(name: &str) -> DirEntry {
    DirEntry { name: name.to_string(), raw_name: name.as_bytes().to_vec(), kind: EntryKind::Directory, marked: false }
}

fn link(name: &str) -> DirEntry {
    DirEntry { name: name.to_string(), raw_name: name.as_bytes().to_vec(), kind: EntryKind::Other, marked: false }
}

/// `count` files named `<prefix>001.txt`, `<prefix>002.txt`, ….
fn fill(prefix: &str, count: usize) -> Vec<DirEntry> {
    (1..=count).map(|i| file(&format!("{prefix}{i:03}.txt"))).collect()
}

fn args(list: &[&str]) -> Vec<String> {
    list.iter().map(|s| s.to_string()).collect()
}

fn ready(list: &[&str]) -> CommandLine {
    match parse_args(&args(list)) {
        ArgsOutcome::Ready(c) => c,
        _ => panic!("{list:?} should be accepted"),
    }
}

fn names(entries: &[DirEntry], positions: &[usize]) -> Vec<String> {
    positions.iter().map(|&p| entries[p].name.clone()).collect()
}

#[test]
fn threshold_is_exclusive() {
    let exactly = fill("e", 3);
    let over = fill("o", 4);
    assert!(!plan_folder(Some("exactly"), &exactly, false, 3).qualifies);
    assert!(plan_folder(Some("over"), &over, false, 3).qualifies);
}

#[test]
fn counting_is_per_folder_and_not_recursive() {
    let mut parent = fill("p", 2);
    parent.push(dir("child"));
    let plan = plan_folder(Some("parent"), &parent, false, 3);
    assert!(!plan.qualifies);
    assert_eq!(plan.files.len(), 2);
    assert_eq!(names(&parent, &plan.subfolders), vec!["child".to_string()]);
    let child = fill("c", 5);
    assert!(plan_folder(Some("child"), &child, false, 3).qualifies);
}

#[test]
fn hidden_entries_are_skipped_by_default() {
    let mut proj = fill("w", 5);
    proj.push(file(".DS_Store"));
    proj.push(file("Thumbs.db"));
    proj.push(dir(".git"));
    let plan = plan_folder(Some("proj"), &proj, false, 3);
    assert_eq!(plan.files.len(), 5);
    assert!(plan.subfolders.is_empty(), "hidden directories must not be descended into");
}

#[test]
fn include_hidden_opts_back_in() {
    let mut proj = fill("w", 5);
    proj.push(file(".DS_Store"));
    proj.push(dir(".git"));
    let plan = plan_folder(Some("proj"), &proj, true, 3);
    assert_eq!(plan.files.len(), 6);
    assert_eq!(names(&proj, &plan.subfolders), vec![".git".to_string()]);
}

#[test]
fn a_default_run_leaves_git_intact() {
    let mut proj = fill("w", 5);
    proj.push(dir(".git"));
    let plan = plan_folder(Some("proj"), &proj, false, 3);
    assert!(plan.qualifies);
    assert!(!names(&proj, &plan.files).contains(&".git".to_string()));
    assert!(plan.subfolders.is_empty());
}

#[test]
fn symlinks_are_neither_counted_nor_followed() {
    let mut boxed = fill("f", 4);
    boxed.push(link("link"));
    boxed.push(link("alias.txt"));
    let plan = plan_folder(Some("box"), &boxed, false, 3);
    assert_eq!(plan.files.len(), 4);
    assert!(plan.subfolders.is_empty());
    assert!(!names(&boxed, &plan.files).contains(&"alias.txt".to_string()));
}

#[test]
fn root_itself_is_examined() {
    let root = fill("r", 4);
    assert!(plan_folder(None, &root, false, 3).qualifies);
}

#[test]
fn files_and_subfolders_come_out_sorted_by_name() {
    let entries = vec![file("b.txt"), dir("zeta"), file("a.txt"), dir("alpha"), file("C.txt")];
    let plan = plan_folder(Some("x"), &entries, false, 1);
    assert_eq!(names(&entries, &plan.files), vec!["C.txt", "a.txt", "b.txt"]);
    assert_eq!(names(&entries, &plan.subfolders), vec!["alpha", "zeta"]);
}

#[test]
fn a_marked_archive_does_not_count_but_an_unmarked_one_does() {
    let mut entries = fill("f", 4);
    entries.push(file("box.zip"));
    assert_eq!(archives_to_probe(Some("box"), &entries, false), vec![4]);
    assert_eq!(plan_folder(Some("box"), &entries, false, 3).files.len(), 5);
    entries[4].marked = true;
    assert_eq!(plan_folder(Some("box"), &entries, false, 3).files.len(), 4);
    assert!(archives_to_probe(Some("other"), &entries, false).is_empty());
}

#[test]
fn hidden_names_are_dotfiles_and_thumbs_db() {
    assert!(is_hidden(".DS_Store"));
    assert!(is_hidden(".git"));
    assert!(is_hidden("Thumbs.db"));
    assert!(!is_hidden("thumbs.db"));
    assert!(!is_hidden("a.txt"));
    assert!(!is_hidden(""));
    assert_eq!(archive_file_name("photos"), "photos.zip");
}

#[test]
fn usage_errors_exit_two() {
    assert!(matches!(parse_args(&args(&["ROOT", "-n", "1"])), ArgsOutcome::Refused(ArgError::CountTooSmall(1))));
    match parse_args(&args(&["ROOT", "-n", "abc"])) {
        ArgsOutcome::Refused(ArgError::CountNotInteger(raw)) => assert_eq!(raw, "abc"),
        _ => panic!("-n abc must be refused"),
    }
    assert!(matches!(ready(&["ROOT"]).required_threshold(), Err(ArgError::CountRequired)));
    match parse_args(&args(&["ROOT", "-n", "3", "-bogus"])) {
        ArgsOutcome::Refused(ArgError::UnknownOption(o)) => assert_eq!(o, "-bogus"),
        _ => panic!("-bogus must be refused"),
    }
    assert!(matches!(parse_args(&args(&["ROOT", "-n", "3", "-list", "-zip"])), ArgsOutcome::Refused(ArgError::ListWithZip)));
    assert!(matches!(parse_args(&args(&["ROOT", "-n", "3", "-ignore"])), ArgsOutcome::Refused(ArgError::IgnoreFileMissing)));
    assert!(matches!(parse_args(&args(&["ROOT", "-n"])), ArgsOutcome::Refused(ArgError::CountValueMissing)));
    match parse_args(&args(&["a", "b", "-n", "3"])) {
        ArgsOutcome::Refused(ArgError::SecondPath(p)) => assert_eq!(p, "b"),
        _ => panic!("a second path must be refused"),
    }
    assert_eq!(onezipper::report::usage_error_exit_code(), 2);
}

#[test]
fn double_dashed_options_name_the_single_dash_form() {
    match parse_args(&args(&["ROOT", "-n", "3", "--store"])) {
        ArgsOutcome::Refused(ArgError::DoubleDashed { given, single }) => {
            assert_eq!(given, "--store");
            assert_eq!(single, "store");
        }
        _ => panic!("--store must be refused"),
    }
}

#[test]
fn help_exits_zero() {
    assert!(matches!(parse_args(&args(&["-h"])), ArgsOutcome::Help));
    assert!(matches!(parse_args(&args(&["-help"])), ArgsOutcome::Help));
    assert!(matches!(parse_args(&args(&["--help"])), ArgsOutcome::Help));
    assert!(usage().contains("usage: onezipper"));
}

#[test]
fn path_may_precede_or_follow_flags() {
    let a = ready(&["/tree", "-n", "3"]);
    let b = ready(&["-n", "3", "/tree"]);
    assert_eq!(a.root, b.root);
    assert_eq!(a.root.as_deref(), Some("/tree"));
    assert_eq!(a.threshold, b.threshold);
    assert_eq!(a.threshold, Some(3));
}

#[test]
fn count_accepts_a_plus_sign_and_rejects_overflow() {
    assert_eq!(ready(&["-n", "+12"]).threshold, Some(12));
    assert_eq!(ready(&["-n", "007"]).threshold, Some(7));
    for bad in ["", "+", "-5", " 5", "5x", "99999999999999999999999999"] {
        assert!(matches!(parse_args(&args(&["-n", bad])), ArgsOutcome::Refused(ArgError::CountNotInteger(_))), "{bad:?}");
    }
    assert_eq!(ready(&["-n", "18446744073709551615"]).threshold, Some(usize::MAX));
}

#[test]
fn flags_set_the_mode() {
    let c = ready(&["-n", "5", "-store", "-include-hidden", "-ignore", "keep.txt"]);
    assert!(c.store && c.include_hidden);
    assert_eq!(c.ignore_file.as_deref(), Some("keep.txt"));
    assert!(c.mode() == Mode::Audit);
    assert!(ready(&["-n", "5", "-zip"]).mode() == Mode::Zip);
    assert!(ready(&["-n", "5", "-list"]).mode() == Mode::List);
    assert!(matches!(parse_args(&args(&["-", "-n", "5"])), ArgsOutcome::Refused(ArgError::UnknownOption(_))));
}

#[test]
fn subfolders_get_their_own_archive_and_structure_survives() {
    let mut a = fill("x", 5);
    a.push(dir("b"));
    let plan = plan_folder(Some("a"), &a, false, 3);
    assert!(plan.qualifies);
    assert_eq!(plan.files.len(), 5);
    assert_eq!(names(&a, &plan.subfolders), vec!["b".to_string()]);
    let b = fill("y", 5);
    let sub = plan_folder(Some("b"), &b, false, 3);
    assert!(sub.qualifies);
    assert_eq!(sub.files.len(), 5);
}

#[test]
fn refusals_are_worded_for_the_user() {
    let refused = |list: &[&str]| match parse_args(&args(list)) {
        ArgsOutcome::Refused(e) => e.message(),
        _ => panic!("{list:?} must be refused"),
    };
    assert_eq!(refused(&["-n"]), "-n requires a value");
    assert_eq!(refused(&["-n", "abc"]), "-n expects an integer, got \"abc\"");
    assert_eq!(refused(&["-n", "1"]), "-n must be greater than 1, got 1");
    assert_eq!(refused(&["-n", "3", "-ignore"]), "-ignore requires a file");
    assert_eq!(
        refused(&["-n", "3", "--store"]),
        "unknown option \"--store\" (options take a single dash: -store)"
    );
    assert_eq!(refused(&["-n", "3", "-bogus"]), "unknown option \"-bogus\"");
    assert_eq!(refused(&["a", "b\"q", "-n", "3"]), "unexpected second path argument \"b\\\"q\"");
    assert_eq!(refused(&["-n", "3", "-list", "-zip"]), "-list and -zip cannot be combined");
    assert_eq!(ready(&["ROOT"]).required_threshold().err().unwrap().message(), "-n is required");
}

/// The entries of a small tree, by folder path: `root` holds `b/`, `a/`,
/// four files and a hidden folder; `a` holds `c/` and three files.
fn tree_listing(path: &str) -> Option<Vec<DirEntry>> {
    match path {
        "root" => Some(vec![dir("b"), dir("a"), file("1"), file("2"), file("3"), file("4"), dir(".git")]),
        "root/a" => Some(vec![file("x"), dir("c"), file("y"), file("z")]),
        "root/a/c" => None,
        "root/b" => Some(vec![file("a.zip")]),
        _ => panic!("no folder {path}"),
    }
}

#[test]
fn the_walk_visits_each_visible_folder_once_depth_first_in_name_order() {
    let mut folders = vec!["root".to_string()];
    let mut listing: Vec<DirEntry> = Vec::new();
    let mut visited = Vec::new();
    let mut qualified = Vec::new();
    let mut walk = Walk::new(false, 2);
    let mut action = walk.first_action();
    loop {
        let event = match action {
            WalkAction::List(id) => {
                visited.push(folders[id].clone());
                let entries = tree_listing(&folders[id]);
                listing = tree_listing(&folders[id]).unwrap_or_default();
                let name = folders[id].rsplit('/').next().map(|s| s.to_string());
                WalkEvent::Listed { folder: name, entries }
            }
            WalkAction::Probe(positions) => WalkEvent::Probed(positions.iter().map(|_| false).collect()),
            WalkAction::Judged { loose, qualifies, subfolders, first_id } => {
                if qualifies {
                    qualified.push((folders[walk.current].clone(), names(&listing, &loose)));
                }
                assert_eq!(folders.len(), first_id);
                for &i in &subfolders {
                    folders.push(format!("{}/{}", folders[walk.current], listing[i].name));
                }
                WalkEvent::Noted
            }
            WalkAction::Finish => break,
        };
        action = walk.step(event);
    }
    assert_eq!(visited, vec!["root", "root/a", "root/a/c", "root/b"]);
    assert_eq!(
        qualified,
        vec![
            ("root".to_string(), vec!["1".to_string(), "2".to_string(), "3".to_string(), "4".to_string()]),
            ("root/a".to_string(), vec!["x".to_string(), "y".to_string(), "z".to_string()]),
        ]
    );
}

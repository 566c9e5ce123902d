//! `-list`, `-ignore`, the audit table and the summaries.

use onezipper::ignore_list::ignore_entries;
use onezipper::paths::{drop_ignored, order_by_path, FolderPath, PathPart};
use onezipper::report::{
    audit_footer, audit_header, audit_report, audit_row, ignore_note, list_summary, nothing_to_do,
    skipped_line, ZipTally,
};
use onezipper::text::{decimal_string, right_align};

/// An absolute path from `/`-separated names.
fn path(p: &str) -> FolderPath {
    let mut parts = vec![PathPart::Root];
    for name in p.split('/').filter(|s| !s.is_empty()) {
        parts.push(PathPart::Name(name.as_bytes().to_vec()));
    }
    FolderPath { parts }
}

fn shown(paths: &[&str], order: &[usize]) -> Vec<String> {
    order.iter().map(|&i| paths[i].to_string()).collect()
}

/// The candidate folders that survive `ignored`, in path order.
fn kept(paths: &[&str], ignored: &[&str]) -> (Vec<String>, usize) {
    let fps: Vec<FolderPath> = paths.iter().map(|p| path(p)).collect();
    let ign: Vec<FolderPath> = ignored.iter().map(|p| path(p)).collect();
    let order = order_by_path(&fps);
    let (k, n) = drop_ignored(&fps, &order, &ign);
    (shown(paths, &k), n)
}

#[test]
fn list_prints_only_paths_on_stdout() {
    assert_eq!(list_summary(2, 0), "2 folder(s) listed.");
    assert_eq!(list_summary(1, 1), "1 folder(s) listed, 1 skipped by -ignore.");
}

#[test]
fn list_matches_the_folders_audit_reports() {
    let (list, n) = kept(&["/t/photos/thumbs", "/t/docs", "/t/photos"], &[]);
    assert_eq!(list, vec!["/t/docs", "/t/photos", "/t/photos/thumbs"]);
    assert_eq!(n, 0);
}

#[test]
fn ignore_skips_listed_folders() {
    let (list, n) = kept(&["/t/docs", "/t/photos"], &["/t/photos"]);
    assert_eq!(list, vec!["/t/docs"]);
    assert_eq!(n, 1);
    let mut tally = ZipTally::new();
    tally.archived(5);
    assert!(tally.summary(n).contains("1 skipped by -ignore"));
}

#[test]
fn ignoring_a_folder_does_not_ignore_its_subfolders() {
    let (list, n) = kept(&["/t/photos", "/t/photos/thumbs"], &["/t/photos"]);
    assert_eq!(list, vec!["/t/photos/thumbs"]);
    assert_eq!(n, 1);
}

#[test]
fn ignore_file_tolerates_comments_blanks_and_odd_paths() {
    let text = "# leave these alone\n\n/t/photos/\n/t/gone-since-last-run\n   \n";
    let entries = ignore_entries(text);
    assert_eq!(entries, vec!["/t/photos/".to_string(), "/t/gone-since-last-run".to_string()]);
    // A trailing slash names the same folder; a vanished one matches nothing.
    let (list, n) = kept(&["/t/docs", "/t/exports", "/t/photos"], &["/t/photos/", "/t/gone-since-last-run"]);
    assert_eq!(list, vec!["/t/docs", "/t/exports"]);
    assert_eq!(n, 1);
    assert_eq!(ignore_note(n), ", 1 skipped by -ignore");
}

#[test]
fn ignore_accepts_relative_paths() {
    assert_eq!(ignore_entries("photos\n"), vec!["photos".to_string()]);
    // Unresolved, a relative entry never equals an absolute folder.
    let fps = vec![path("/t/photos")];
    let rel = vec![FolderPath { parts: vec![PathPart::Name(b"photos".to_vec())] }];
    let order = order_by_path(&fps);
    assert_eq!(drop_ignored(&fps, &order, &rel), (vec![0], 0));
}

#[test]
fn ignore_lines_are_trimmed_and_crlf_tolerant() {
    assert_eq!(ignore_entries("  a \r\nb\r\n#c\n\u{3000}d\u{A0}"), vec!["a", "b", "d"]);
    assert!(ignore_entries("").is_empty());
    assert!(ignore_entries("\n\n# only comments\n").is_empty());
}

#[test]
fn list_honours_ignore() {
    let (list, _) = kept(&["/t/docs", "/t/photos"], &["/t/photos"]);
    assert_eq!(list, vec!["/t/docs"]);
}

#[test]
fn the_curation_loop_round_trips() {
    let all = ["/t/docs", "/t/exports", "/t/photos", "/t/photos/thumbs"];
    let (listed, _) = kept(&all, &[]);
    let keep: String = listed
        .iter()
        .filter(|l| !l.ends_with("/docs") && !l.ends_with("/exports"))
        .map(|l| format!("{l}\n"))
        .collect();
    let ignored = ignore_entries(&keep);
    let ign: Vec<&str> = ignored.iter().map(|s| s.as_str()).collect();
    let (list, n) = kept(&all, &ign);
    assert_eq!(list, vec!["/t/docs", "/t/exports"]);
    assert_eq!(n, 2);
}

#[test]
fn audit_changes_nothing() {
    let lines = audit_report(
        "/t",
        3,
        &vec![5000, 900, 73],
        &vec!["/t/photos".to_string(), "/t/photos/thumbnails".to_string(), "/t/exports".to_string()],
        0,
    );
    assert_eq!(
        lines,
        vec![
            "   FILES  FOLDER",
            "    5000  /t/photos",
            "     900  /t/photos/thumbnails",
            "      73  /t/exports",
            "\n3 folder(s), 5973 file(s) would be archived. Re-run with -zip to apply.",
        ]
    );
}

#[test]
fn the_audit_says_so_when_nothing_qualifies() {
    assert_eq!(
        audit_report("/Users/you/OneDrive", 50, &vec![], &vec![], 0),
        vec!["No folder under /Users/you/OneDrive holds more than 50 files."]
    );
    assert_eq!(
        nothing_to_do("/t", 3, 2),
        "No folder under /t holds more than 3 files (2 skipped by -ignore)."
    );
}

#[test]
fn zip_output_is_clean_when_piped() {
    let mut tally = ZipTally::new();
    tally.archived(60);
    tally.archived(60);
    let line = tally.summary(0);
    assert!(line.starts_with("Archived "));
    assert_eq!(line, "Archived 120 file(s) into 2 zip(s).");
    assert!(!line.contains('\x1b') && !line.contains('\r'));
    assert!(tally.failure_note().is_none());
}

#[test]
fn warnings_survive_with_progress_disabled() {
    let line = skipped_line("/t/bad", "/t/bad/bad.zip.part already exists");
    assert!(line.contains("skipped") && line.contains("bad"));
    assert_eq!(line, "skipped /t/bad: /t/bad/bad.zip.part already exists");
}

#[test]
fn a_run_with_nothing_to_do_prints_no_progress() {
    assert!(ZipTally::new().summary(0).contains("into 0 zip(s)"));
}

#[test]
fn numbers_and_columns_are_formatted_for_the_terminal() {
    assert_eq!(decimal_string(0), "0");
    assert_eq!(decimal_string(7), "7");
    assert_eq!(decimal_string(1234567890), "1234567890");
    assert_eq!(decimal_string(usize::MAX), usize::MAX.to_string());
    assert_eq!(right_align("FILES", 8), "   FILES");
    assert_eq!(right_align("123456789", 8), "123456789");
    assert_eq!(audit_header(), "   FILES  FOLDER");
    assert_eq!(audit_row(5, "/a"), "       5  /a");
    assert_eq!(audit_footer(1, 2, 3), "\n1 folder(s), 2 file(s) would be archived, 3 skipped by -ignore. Re-run with -zip to apply.");
    assert_eq!(ignore_note(0), "");
}

#[test]
fn paths_order_by_components() {
    // Component order puts /a/b before /a-b, unlike plain string order.
    let (list, _) = kept(&["/a-b", "/a/b", "/a"], &[]);
    assert_eq!(list, vec!["/a", "/a/b", "/a-b"]);
}

#[test]
fn list_output_stays_clean_when_piped() {
    let line = list_summary(1, 0);
    assert!(!line.contains('\x1b') && !line.contains('\r'));
    assert_eq!(line, "1 folder(s) listed.");
}

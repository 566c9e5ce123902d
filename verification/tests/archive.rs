//! Appending, the refusals, and the guarantees around deleting originals.

use onezipper::archive::{
    carried_forward, check_entry, check_entry_count, compression_for, deletes_original, needs_zip64,
    reject_collisions, Compression, Recorded, VerifyError,
};
use onezipper::archive::{verify_entries, EntryRead};
use onezipper::checksum::Digest;
use onezipper::job::{named_folder, Action, Event, FolderJob, Phase};
use onezipper::marker::{is_marked, marker_comment, ARCHIVE_MARKER};
use onezipper::report::ZipTally;
use onezipper::select::{plan_folder, DirEntry, EntryKind};

const MARKER: &str = "onezipper-archive-v1";

fn file(name: &str) -> DirEntry {
    DirEntry { name: name.to_string(), raw_name: name.as_bytes().to_vec(), kind: EntryKind::File, marked: false }
}

fn fill(prefix: &str, count: usize) -> Vec<String> {
    (1..=count).map(|i| format!("{prefix}{i:03}.txt")).collect()
}

fn recorded(name: &str, bytes: &[u8]) -> Recorded {
    let mut d = Digest::new();
    d.absorb(bytes);
    let (size, crc) = d.finish();
    Recorded { name: name.to_string(), size, crc }
}

fn job(names: Vec<String>) -> FolderJob {
    let utf8 = vec![true; names.len()];
    let displays: Vec<String> = names.iter().map(|n| format!("/t/box/{n}")).collect();
    FolderJob::new("/t/box/box.zip".to_string(), "/t/box/box.zip.part".to_string(), "box.zip".to_string(), names, &utf8, &utf8, &displays)
}

/// Drives a job through a fresh archive run that succeeds, returning the
/// deletions it asked for and the final action.
fn run_fresh(j: &mut FolderJob) -> (Vec<usize>, Action) {
    assert!(matches!(j.first_action(), Action::CheckLeftover));
    assert!(matches!(j.step(Event::Leftover(false)), Action::CheckArchive));
    assert!(matches!(j.step(Event::Archive(false)), Action::Build { appending: false }));
    let written: Vec<Recorded> = j.entry_names.iter().map(|n| recorded(n, n.as_bytes())).collect();
    assert!(matches!(j.step(Event::Built(Ok(written))), Action::Verify));
    assert!(matches!(j.step(Event::Verified(Ok(()))), Action::Rename));
    let mut deleted = Vec::new();
    let mut action = j.step(Event::Renamed(Ok(())));
    while let Action::Delete(p) = action {
        deleted.push(p);
        action = j.step(Event::Deleted(true));
    }
    (deleted, action)
}

#[test]
fn archives_carry_the_marker() {
    let comment = marker_comment();
    assert!(comment.starts_with(MARKER));
    assert_eq!(ARCHIVE_MARKER, MARKER);
    assert!(is_marked(Some(comment.as_bytes())));
    assert!(!is_marked(Some(b"made by hand")));
    assert!(!is_marked(Some(b"onezipper-archive")));
    assert!(!is_marked(None));
}

#[test]
fn rerun_is_idempotent() {
    let mut entries = vec![file("box.zip")];
    entries[0].marked = true;
    let plan = plan_folder(Some("box"), &entries, false, 3);
    assert!(plan.files.is_empty() && !plan.qualifies);
    let tally = ZipTally::new();
    assert!(tally.summary(0).contains("into 0 zip(s)"));
    assert_eq!(tally.exit_code(), 0);
}

#[test]
fn new_files_are_appended_across_two_waves() {
    let existing: Vec<Recorded> = fill("a", 5).iter().map(|n| recorded(n, b"wave one")).collect();
    let wave2 = fill("b", 4);
    let mut j = job(wave2.clone());
    j.first_action();
    j.step(Event::Leftover(false));
    assert!(matches!(j.step(Event::Archive(true)), Action::ReadArchive));
    assert!(matches!(j.step(Event::ArchiveEntries(Ok(existing))), Action::CopyArchive));
    assert!(matches!(j.step(Event::Copied(Ok(()))), Action::Build { appending: true }));
    let written: Vec<Recorded> = wave2.iter().map(|n| recorded(n, b"wave two")).collect();
    assert!(matches!(j.step(Event::Built(Ok(written))), Action::Verify));
    let expected: Vec<String> = j.expected.iter().map(|r| r.name.clone()).collect();
    let mut want = fill("a", 5);
    want.extend(fill("b", 4));
    assert_eq!(expected, want, "old entries stay first, new ones follow");
}

#[test]
fn threshold_applies_to_each_batch_of_loose_files() {
    let mut entries = vec![file("box.zip")];
    entries[0].marked = true;
    for n in fill("b", 3) {
        entries.push(file(&n));
    }
    assert!(!plan_folder(Some("box"), &entries, false, 5).qualifies, "a 3-file batch must not qualify at -n 5");
    for n in fill("c", 3) {
        entries.push(file(&n));
    }
    let plan = plan_folder(Some("box"), &entries, false, 5);
    assert!(plan.qualifies);
    assert_eq!(plan.files.len(), 6);
}

#[test]
fn append_refuses_on_name_collision_and_changes_nothing() {
    let existing: Vec<Recorded> = fill("f", 4).iter().map(|n| recorded(n, b"old")).collect();
    let incoming: Vec<String> = (3..=7).map(|i| format!("f{i:03}.txt")).collect();
    let err = reject_collisions("/t/box/box.zip", &existing, &incoming).unwrap_err();
    assert_eq!(
        err,
        "/t/box/box.zip already contains 2 files with the same names; refusing to append and overwrite (f003.txt, f004.txt)"
    );
    assert!(err.contains("same name"));

    let mut j = job(incoming);
    j.first_action();
    j.step(Event::Leftover(false));
    j.step(Event::Archive(true));
    match j.step(Event::ArchiveEntries(Ok(existing))) {
        Action::Finish(Err(m)) => assert!(m.contains("same name")),
        _ => panic!("a collision must end the folder"),
    }
    assert!(j.phase == Phase::Done);
}

#[test]
fn collision_message_shows_five_names_then_a_count() {
    let existing: Vec<Recorded> = (1..=8).map(|i| recorded(&format!("n{i}"), b"x")).collect();
    let incoming: Vec<String> = (1..=8).rev().map(|i| format!("n{i}")).collect();
    let err = reject_collisions("a.zip", &existing, &incoming).unwrap_err();
    assert_eq!(
        err,
        "a.zip already contains 8 files with the same names; refusing to append and overwrite (n1, n2, n3, n4, n5, and 3 more)"
    );
    let one = reject_collisions("a.zip", &existing, &vec!["n2".to_string(), "fresh".to_string()]).unwrap_err();
    assert_eq!(one, "a.zip already contains a file with the same name; refusing to append and overwrite (n2)");
    assert!(reject_collisions("a.zip", &existing, &vec!["fresh".to_string()]).is_ok());
}

#[test]
fn an_unmarked_zip_is_archived_as_content() {
    let mut entries: Vec<DirEntry> = fill("f", 4).iter().map(|n| file(n)).collect();
    entries.push(file("box.zip"));
    let plan = plan_folder(Some("box"), &entries, false, 3);
    assert_eq!(plan.files.len(), 5);
    // The archive renamed onto box.zip replaces it, so it is not deleted.
    let mut names = fill("f", 4);
    names.push("box.zip".to_string());
    let mut j = job(names);
    let (deleted, last) = run_fresh(&mut j);
    assert_eq!(deleted, vec![0, 1, 2, 3]);
    assert!(matches!(last, Action::Finish(Ok(5))));
    assert!(!deletes_original("box.zip", "box.zip"));
    assert!(deletes_original("f001.txt", "box.zip"));
}

#[test]
fn a_file_named_like_the_archive_but_not_a_zip_is_archived_as_content() {
    let mut entries: Vec<DirEntry> = fill("f", 4).iter().map(|n| file(n)).collect();
    entries.push(file("box.zip"));
    // Not a readable zip: no comment, so not ours.
    entries[4].marked = is_marked(None);
    assert_eq!(plan_folder(Some("box"), &entries, false, 3).files.len(), 5);
}

#[test]
fn corrupted_archive_data_is_detected_before_anything_is_deleted() {
    let mut j = job(fill("f", 4));
    j.first_action();
    j.step(Event::Leftover(false));
    j.step(Event::Archive(false));
    let written: Vec<Recorded> = fill("f", 4).iter().map(|n| recorded(n, b"data")).collect();
    j.step(Event::Built(Ok(written)));
    assert!(matches!(j.step(Event::Verified(Err("f001.txt failed its checksum check".to_string()))), Action::Discard));
    match j.step(Event::Discarded) {
        Action::Finish(Err(m)) => assert_eq!(m, "f001.txt failed its checksum check"),
        _ => panic!("the folder must be left untouched"),
    }
    assert!(!j.verified && !j.renamed);
}

#[test]
fn silently_altered_data_is_caught_by_the_checksum() {
    let expected = recorded("f1.txt", b"ORIGINAL-PAYLOAD-ORIGINAL-PAYLOAD");
    let altered = recorded("f1.txt", b"\xb0RIGINAL-PAYLOAD-ORIGINAL-PAYLOAD");
    assert_eq!(altered.size, expected.size);
    assert!(matches!(
        check_entry(0, &expected, "f1.txt", altered.size, altered.crc),
        Err(VerifyError::WrongChecksum { .. })
    ));
    assert!(check_entry(0, &expected, "f1.txt", expected.size, expected.crc).is_ok());
    assert!(matches!(check_entry(0, &expected, "f2.txt", 1, 1), Err(VerifyError::WrongName { index: 0, .. })));
    assert!(matches!(
        check_entry(3, &expected, "f1.txt", 1, expected.crc),
        Err(VerifyError::WrongSize { found_size: 1, .. })
    ));
    assert!(matches!(check_entry_count(4, 5), Err(VerifyError::EntryCount { held: 4, wanted: 5 })));
    assert!(check_entry_count(5, 5).is_ok());
}

#[test]
fn a_leftover_part_file_aborts_the_folder() {
    let mut j = job(fill("f", 4));
    j.first_action();
    match j.step(Event::Leftover(true)) {
        Action::Finish(Err(m)) => assert_eq!(
            m,
            "/t/box/box.zip.part already exists (leftover from an interrupted run); remove it first"
        ),
        _ => panic!("a leftover .part must end the folder"),
    }
}

#[test]
fn an_unreadable_file_aborts_the_folder_and_keeps_everything() {
    let mut j = job(fill("f", 5));
    j.first_action();
    j.step(Event::Leftover(false));
    j.step(Event::Archive(false));
    assert!(matches!(j.step(Event::Built(Err("cannot open f003.txt".to_string()))), Action::Discard));
    assert!(matches!(j.step(Event::Discarded), Action::Finish(Err(_))));
}

#[test]
fn one_bad_folder_does_not_stop_the_others() {
    let mut tally = ZipTally::new();
    tally.archived(4);
    tally.skipped();
    assert_eq!(tally.summary(0), "Archived 4 file(s) into 1 zip(s).");
    assert_eq!(tally.failure_note().unwrap(), "1 folder(s) were left untouched; see the messages above.");
    assert_eq!(tally.exit_code(), 1);
}

#[test]
fn store_mode_leaves_entries_uncompressed() {
    assert!(compression_for(true) == Compression::Stored);
    assert!(compression_for(false) == Compression::Deflated);
    assert!(!needs_zip64(10));
    assert!(needs_zip64(u32::MAX as u64));
    assert!(!needs_zip64(u32::MAX as u64 - 1));
}

#[test]
fn originals_are_deleted_only_after_the_archive_is_checked_and_in_place() {
    let mut j = job(fill("f", 3));
    let (deleted, last) = run_fresh(&mut j);
    assert_eq!(deleted, vec![0, 1, 2]);
    assert!(matches!(last, Action::Finish(Ok(3))));
    // A failed rename removes the .part file and deletes nothing.
    let mut k = job(fill("f", 3));
    k.first_action();
    k.step(Event::Leftover(false));
    k.step(Event::Archive(false));
    k.step(Event::Built(Ok(vec![])));
    k.step(Event::Verified(Ok(())));
    assert!(matches!(k.step(Event::Renamed(Err("busy".to_string()))), Action::Discard));
}

#[test]
fn a_failed_deletion_is_not_counted() {
    let mut j = job(fill("f", 2));
    j.first_action();
    j.step(Event::Leftover(false));
    j.step(Event::Archive(false));
    j.step(Event::Built(Ok(vec![])));
    j.step(Event::Verified(Ok(())));
    assert!(matches!(j.step(Event::Renamed(Ok(()))), Action::Delete(0)));
    assert!(matches!(j.step(Event::Deleted(false)), Action::Delete(1)));
    assert!(matches!(j.step(Event::Deleted(true)), Action::Finish(Ok(1))));
}

#[test]
fn names_that_are_not_utf8_stay_behind() {
    let names = vec!["a.txt".to_string(), "b\u{FFFD}.txt".to_string(), "c.txt".to_string()];
    let mut j = FolderJob::new("z".to_string(), "z.part".to_string(), "box.zip".to_string(), names, &vec![true, false, true], &vec![true; 3], &vec!["a".to_string(); 3]);
    j.first_action();
    match j.step(Event::Leftover(false)) {
        Action::ReportUnusable(u) => assert_eq!(u, vec![1]),
        _ => panic!("the unusable name must be reported"),
    }
    assert!(matches!(j.step(Event::Reported), Action::CheckArchive));
    assert_eq!(j.entry_names, vec!["a.txt".to_string(), "c.txt".to_string()]);
    let mut none = FolderJob::new("z".to_string(), "z.part".to_string(), "box.zip".to_string(), vec!["x".to_string()], &vec![false], &vec![true], &vec!["x".to_string()]);
    none.first_action();
    none.step(Event::Leftover(false));
    match none.step(Event::Reported) {
        Action::Finish(Err(m)) => assert_eq!(m, "no archivable files remain in this folder"),
        _ => panic!("nothing archivable must end the folder"),
    }
}

#[test]
fn carried_forward_keeps_old_entries_first() {
    let all = carried_forward(vec![recorded("old", b"1")], vec![recorded("new", b"2")]);
    let names: Vec<&str> = all.iter().map(|r| r.name.as_str()).collect();
    assert_eq!(names, vec!["old", "new"]);
}

#[test]
fn the_checksum_is_crc32_whatever_the_chunking() {
    let mut whole = Digest::new();
    whole.absorb(b"123456789");
    assert_eq!(whole.size(), 9);
    assert_eq!(whole.finish(), (9, 0xCBF4_3926));
    let mut pieces = Digest::new();
    pieces.absorb(b"1234");
    pieces.absorb(b"");
    pieces.absorb(b"56789");
    assert_eq!(pieces.finish(), (9, 0xCBF4_3926));
    assert_eq!(Digest::new().finish(), (0, 0));
}

#[test]
fn entries_are_flat_names_without_paths() {
    let j = job(fill("f", 4));
    for name in &j.entry_names {
        assert!(!name.contains('/'), "entry {name:?} must not carry a path");
    }
    assert_eq!(j.entry_names, fill("f", 4));
}

#[test]
fn verification_failures_are_worded_for_the_user() {
    let expected = Recorded { name: "f1.txt".to_string(), size: 12, crc: 7 };
    assert_eq!(
        check_entry_count(4, 5).err().unwrap().message(),
        "archive holds 4 entries but 5 were expected"
    );
    assert_eq!(
        check_entry(2, &expected, "f2.txt", 12, 7).err().unwrap().message(),
        "entry 2 is named \"f2.txt\" but \"f1.txt\" was expected"
    );
    assert_eq!(
        check_entry(0, &expected, "f1.txt", 10000000000, 7).err().unwrap().message(),
        "f1.txt reads back as 10000000000 bytes but 12 were expected"
    );
    assert_eq!(
        check_entry(0, &expected, "f1.txt", 12, 8).err().unwrap().message(),
        "f1.txt failed its checksum check"
    );
}

#[test]
fn a_run_that_fails_after_building_deletes_nothing_and_discards_the_part() {
    let mut j = job(fill("f", 4));
    let mut actions = vec![j.first_action()];
    actions.push(j.step(Event::Leftover(false)));
    actions.push(j.step(Event::Archive(false)));
    actions.push(j.step(Event::Built(Ok(vec![]))));
    actions.push(j.step(Event::Verified(Err("entry 0 is missing".to_string()))));
    actions.push(j.step(Event::Discarded));
    assert!(actions.iter().all(|a| !matches!(a, Action::Delete(_))));
    assert!(matches!(actions[actions.len() - 2], Action::Discard));
    assert!(matches!(actions.last(), Some(Action::Finish(Err(e))) if e == "entry 0 is missing"));
}

#[test]
fn a_zip_run_reports_the_audit_numbers_when_every_folder_is_archived() {
    let counts = [5usize, 12, 3];
    let mut tally = ZipTally::new();
    for &c in &counts {
        let mut j = job(fill("f", c));
        let (_, last) = run_fresh(&mut j);
        match last {
            Action::Finish(Ok(n)) => tally.archived(n),
            _ => tally.skipped(),
        }
    }
    assert_eq!((tally.folders, tally.files, tally.failures), (3, 20, 0));
    assert_eq!(tally.summary(0), "Archived 20 file(s) into 3 zip(s).");
    assert_eq!(tally.exit_code(), 0);
}

#[test]
fn a_file_without_a_name_refuses_the_folder_after_the_leftover_check() {
    let names = vec!["a.txt".to_string(), "b\u{FFFD}.txt".to_string(), String::new(), "d\u{FFFD}.txt".to_string()];
    let displays = vec!["/t/a.txt".to_string(), "/t/b.txt".to_string(), "/t/..".to_string(), "/t/d.txt".to_string()];
    let make = || FolderJob::new(
        "z".to_string(),
        "z.part".to_string(),
        "box.zip".to_string(),
        names.clone(),
        &vec![true, false, false, false],
        &vec![true, true, false, true],
        &displays,
    );
    let mut j = make();
    assert!(matches!(j.step(Event::Leftover(true)), Action::Finish(Err(m)) if m.contains("already exists")));
    let mut k = make();
    match k.step(Event::Leftover(false)) {
        Action::ReportUnusable(positions) => assert_eq!(positions, vec![1]),
        _ => panic!("the earlier unusable name is reported first"),
    }
    assert!(matches!(k.step(Event::Reported), Action::Finish(Err(m)) if m == "/t/.. has no file name"));
    assert!(named_folder(None).err().unwrap() == "folder has no name");
    assert_eq!(named_folder(Some("box".to_string())), Ok("box".to_string()));
}

#[test]
fn a_whole_archive_passes_only_when_every_entry_matches() {
    let expected = vec![recorded("a", b"one"), recorded("b", b"two")];
    let read = |name: &str, bytes: &[u8]| {
        let r = recorded(name, bytes);
        EntryRead::Read { name: r.name, data: Ok((r.size, r.crc)) }
    };
    assert_eq!(verify_entries(2, &expected, &vec![read("a", b"one"), read("b", b"two")]), Ok(()));
    assert_eq!(
        verify_entries(3, &expected, &vec![]),
        Err("archive holds 3 entries but 2 were expected".to_string())
    );
    assert_eq!(
        verify_entries(2, &expected, &vec![read("a", b"one"), read("c", b"two")]),
        Err("entry 1 is named \"c\" but \"b\" was expected".to_string())
    );
    // The first failure wins: entry 0's size before entry 1's missing data.
    assert_eq!(
        verify_entries(2, &expected, &vec![read("a", b"on"), EntryRead::Unreadable("cannot read entry 1 back".to_string())]),
        Err("a reads back as 2 bytes but 3 were expected".to_string())
    );
    assert_eq!(
        verify_entries(2, &expected, &vec![read("a", b"one"), read("b", b"tw0")]),
        Err("b failed its checksum check".to_string())
    );
    assert_eq!(
        verify_entries(2, &expected, &vec![read("a", b"one"), EntryRead::Read { name: "b".to_string(), data: Err("cannot read b back out of the archive".to_string()) }]),
        Err("cannot read b back out of the archive".to_string())
    );
}

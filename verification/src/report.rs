//! What a run prints: the audit table, the `-list` summary, the `-zip`
//! summary, and the exit code.

use vstd::prelude::*;

use crate::text::{decimal, decimal_string, push_text, right_align, right_aligned};

verus! {

/// The note appended when `-ignore` dropped folders.
pub open spec fn ignore_note_text(ignored: nat) -> Seq<char> {
    if ignored == 0 {
        Seq::empty()
    } else {
        ", "@ + decimal(ignored) + " skipped by -ignore"@
    }
}

/// `", N skipped by -ignore"`, or nothing when no folder was ignored.
pub fn ignore_note(ignored: usize) -> (r: String)
    ensures
        r@ == ignore_note_text(ignored as nat),
{
    let mut out = String::new();
    if ignored != 0 {
        push_text(&mut out, ", ");
        let n = decimal_string(ignored);
        push_text(&mut out, n.as_str());
        push_text(&mut out, " skipped by -ignore");
    }
    out
}

/// The line `-list` writes to standard error after the paths.
pub open spec fn list_summary_text(listed: nat, ignored: nat) -> Seq<char> {
    decimal(listed) + " folder(s) listed"@ + ignore_note_text(ignored) + "."@
}

pub fn list_summary(listed: usize, ignored: usize) -> (r: String)
    ensures
        r@ == list_summary_text(listed as nat, ignored as nat),
{
    let mut out = decimal_string(listed);
    push_text(&mut out, " folder(s) listed");
    let note = ignore_note(ignored);
    push_text(&mut out, note.as_str());
    push_text(&mut out, ".");
    out
}

/// The audit's only line when nothing qualifies.
pub open spec fn nothing_to_do_text(root: Seq<char>, threshold: nat, ignored: nat) -> Seq<char> {
    "No folder under "@ + root + " holds more than "@ + decimal(threshold) + " files"@ + (if ignored
        == 0 {
        Seq::empty()
    } else {
        " ("@ + decimal(ignored) + " skipped by -ignore)"@
    }) + "."@
}

pub fn nothing_to_do(root: &str, threshold: usize, ignored: usize) -> (r: String)
    ensures
        r@ == nothing_to_do_text(root@, threshold as nat, ignored as nat),
{
    let mut out = String::new();
    push_text(&mut out, "No folder under ");
    push_text(&mut out, root);
    push_text(&mut out, " holds more than ");
    let t = decimal_string(threshold);
    push_text(&mut out, t.as_str());
    push_text(&mut out, " files");
    if ignored != 0 {
        push_text(&mut out, " (");
        let n = decimal_string(ignored);
        push_text(&mut out, n.as_str());
        push_text(&mut out, " skipped by -ignore)");
    }
    push_text(&mut out, ".");
    out
}

/// The audit table's header.
pub open spec fn audit_header_text() -> Seq<char> {
    right_aligned("FILES"@, 8) + "  FOLDER"@
}

pub fn audit_header() -> (r: String)
    ensures
        r@ == audit_header_text(),
{
    let mut out = right_align("FILES", 8);
    push_text(&mut out, "  FOLDER");
    out
}

/// One row of the audit table: the count right-aligned in eight columns,
/// two spaces, the folder.
pub open spec fn audit_row_text(count: nat, folder: Seq<char>) -> Seq<char> {
    right_aligned(decimal(count), 8) + "  "@ + folder
}

pub fn audit_row(count: usize, folder: &str) -> (r: String)
    ensures
        r@ == audit_row_text(count as nat, folder@),
{
    let n = decimal_string(count);
    let mut out = right_align(n.as_str(), 8);
    push_text(&mut out, "  ");
    push_text(&mut out, folder);
    out
}

/// The audit's closing line, after a blank one.
pub open spec fn audit_footer_text(folders: nat, files: nat, ignored: nat) -> Seq<char> {
    "\n"@ + decimal(folders) + " folder(s), "@ + decimal(files) + " file(s) would be archived"@
        + ignore_note_text(ignored) + ". Re-run with -zip to apply."@
}

pub fn audit_footer(folders: usize, files: usize, ignored: usize) -> (r: String)
    ensures
        r@ == audit_footer_text(folders as nat, files as nat, ignored as nat),
{
    let mut out = String::new();
    push_text(&mut out, "\n");
    let f = decimal_string(folders);
    push_text(&mut out, f.as_str());
    push_text(&mut out, " folder(s), ");
    let n = decimal_string(files);
    push_text(&mut out, n.as_str());
    push_text(&mut out, " file(s) would be archived");
    let note = ignore_note(ignored);
    push_text(&mut out, note.as_str());
    push_text(&mut out, ". Re-run with -zip to apply.");
    out
}

/// The sum of the counts.
pub open spec fn total(counts: Seq<usize>) -> nat
    decreases counts.len(),
{
    if counts.len() == 0 {
        0
    } else {
        total(counts.drop_last()) + (counts.last() as nat)
    }
}

/// Every line the audit prints, for folders `folders` holding `counts`
/// loose files each.
pub open spec fn audit_text(
    root: Seq<char>,
    threshold: nat,
    counts: Seq<usize>,
    folders: Seq<Seq<char>>,
    ignored: nat,
) -> Seq<Seq<char>> {
    if counts.len() == 0 {
        seq![nothing_to_do_text(root, threshold, ignored)]
    } else {
        seq![audit_header_text()] + Seq::new(
            counts.len(),
            |i: int| audit_row_text(counts[i] as nat, folders[i]),
        ) + seq![audit_footer_text(counts.len(), total(counts), ignored)]
    }
}

/// The audit report, line by line. The counts it shows are the ones given,
/// which are the numbers of files a `-zip` run archives.
pub fn audit_report(
    root: &str,
    threshold: usize,
    counts: &Vec<usize>,
    folders: &Vec<String>,
    ignored: usize,
) -> (r: Vec<String>)
    requires
        counts@.len() == folders@.len(),
        total(counts@) <= usize::MAX,
    ensures
        r@.map_values(|s: String| s@) == audit_text(
            root@,
            threshold as nat,
            counts@,
            folders@.map_values(|s: String| s@),
            ignored as nat,
        ),
        // With nothing to show, one line says so.
        counts@.len() == 0 ==> r@.len() == 1 && r@[0]@ == nothing_to_do_text(
            root@,
            threshold as nat,
            ignored as nat,
        ),
        // Otherwise: the header, one row per folder shown, and a footer that
        // counts exactly the folders shown and their files, whatever was
        // skipped by `-ignore`.
        counts@.len() > 0 ==> {
            &&& r@.len() == counts@.len() + 2
            &&& r@[0]@ == audit_header_text()
            &&& forall|i: int|
                0 <= i < counts@.len() ==> (#[trigger] r@[i + 1])@ == audit_row_text(
                    counts@[i] as nat,
                    folders@[i]@,
                )
            &&& r@[r@.len() - 1]@ == audit_footer_text(
                counts@.len() as nat,
                total(counts@),
                ignored as nat,
            )
            &&& forall|i: int|
                0 <= i < counts@.len() ==> (#[trigger] r@[i + 1])@ == right_aligned(
                    decimal(counts@[i] as nat),
                    8,
                ) + "  "@ + folders@[i]@
            &&& r@[r@.len() - 1]@ == "\n"@ + decimal(counts@.len() as nat) + " folder(s), "@
                + decimal(total(counts@)) + " file(s) would be archived"@ + ignore_note_text(
                ignored as nat,
            ) + ". Re-run with -zip to apply."@
        },
{
    let ghost fv = folders@.map_values(|s: String| s@);
    let mut lines: Vec<String> = Vec::new();
    if counts.len() == 0 {
        lines.push(nothing_to_do(root, threshold, ignored));
        assert(lines@.map_values(|s: String| s@) =~= audit_text(
            root@,
            threshold as nat,
            counts@,
            fv,
            ignored as nat,
        ));
        assert(lines@[0]@ == lines@.map_values(|s: String| s@)[0]);
        return lines;
    }
    lines.push(audit_header());
    let mut sum: usize = 0;
    let mut i: usize = 0;
    while i < counts.len()
        invariant
            i <= counts@.len(),
            counts@.len() == folders@.len(),
            fv == folders@.map_values(|s: String| s@),
            total(counts@) <= usize::MAX,
            sum == total(counts@.take(i as int)),
            lines@.map_values(|s: String| s@) =~= seq![audit_header_text()] + Seq::new(
                i as nat,
                |k: int| audit_row_text(counts@[k] as nat, fv[k]),
            ),
        decreases counts@.len() - i,
    {
        proof {
            assert(counts@.take(i + 1).drop_last() =~= counts@.take(i as int));
            lemma_total_prefix_bounded(counts@, i + 1);
        }
        let row = audit_row(counts[i], folders[i].as_str());
        let ghost before = lines@;
        lines.push(row);
        proof {
            assert(fv[i as int] == folders@[i as int]@);
            assert(lines@.map_values(|s: String| s@) =~= before.map_values(|s: String| s@).push(
                row@,
            ));
        }
        sum = sum + counts[i];
        i = i + 1;
    }
    assert(counts@.take(counts@.len() as int) =~= counts@);
    lines.push(audit_footer(counts.len(), sum, ignored));
    let ghost lv = lines@.map_values(|s: String| s@);
    assert(lv =~= audit_text(root@, threshold as nat, counts@, fv, ignored as nat));
    proof {
        assert(lines@[0]@ == lv[0]);
        assert forall|i: int| 0 <= i < counts@.len() implies (#[trigger] lines@[i + 1])@ == audit_row_text(
            counts@[i] as nat,
            folders@[i]@,
        ) by {
            assert(lines@[i + 1]@ == lv[i + 1]);
            assert(fv[i] == folders@[i]@);
        }
        assert(lines@[lines@.len() - 1]@ == lv[lv.len() - 1]);
    }
    lines
}

proof fn lemma_total_prefix_bounded(counts: Seq<usize>, k: int)
    requires
        0 <= k <= counts.len(),
    ensures
        total(counts.take(k)) <= total(counts),
    decreases counts.len() - k,
{
    if k < counts.len() {
        lemma_total_prefix_bounded(counts, k + 1);
        assert(counts.take(k + 1).drop_last() =~= counts.take(k));
    } else {
        assert(counts.take(k) =~= counts);
    }
}

/// The tally of a `-zip` run.
pub struct ZipTally {
    pub folders: usize,
    pub files: usize,
    pub failures: usize,
}

impl ZipTally {
    /// What one folder's outcome does to the tally: `Some(count)` when its
    /// `count` files were archived, `None` when it was left untouched.
    pub open spec fn tallied(before: ZipTally, outcome: Option<usize>, after: ZipTally) -> bool {
        match outcome {
            Some(count) => {
                &&& after.folders == before.folders + 1
                &&& after.files == before.files + count
                &&& after.failures == before.failures
            },
            None => {
                &&& after.folders == before.folders
                &&& after.files == before.files
                &&& after.failures == before.failures + 1
            },
        }
    }

    pub fn new() -> (r: ZipTally)
        ensures
            r.folders == 0 && r.files == 0 && r.failures == 0,
    {
        ZipTally { folders: 0, files: 0, failures: 0 }
    }

    /// A folder whose `count` files went into its archive.
    pub fn archived(&mut self, count: usize)
        requires
            old(self).folders < usize::MAX,
            old(self).files + count <= usize::MAX,
        ensures
            ZipTally::tallied(*old(self), Some(count), *final(self)),
    {
        self.folders = self.folders + 1;
        self.files = self.files + count;
    }

    /// A folder that was left untouched.
    pub fn skipped(&mut self)
        requires
            old(self).failures < usize::MAX,
        ensures
            ZipTally::tallied(*old(self), None, *final(self)),
    {
        self.failures = self.failures + 1;
    }

    /// The summary line on standard output.
    pub fn summary(&self, ignored: usize) -> (r: String)
        ensures
            r@ == "Archived "@ + decimal(self.files as nat) + " file(s) into "@ + decimal(
                self.folders as nat,
            ) + " zip(s)"@ + ignore_note_text(ignored as nat) + "."@,
    {
        let mut out = String::new();
        push_text(&mut out, "Archived ");
        let n = decimal_string(self.files);
        push_text(&mut out, n.as_str());
        push_text(&mut out, " file(s) into ");
        let f = decimal_string(self.folders);
        push_text(&mut out, f.as_str());
        push_text(&mut out, " zip(s)");
        let note = ignore_note(ignored);
        push_text(&mut out, note.as_str());
        push_text(&mut out, ".");
        out
    }

    /// The line on standard error when some folder was skipped.
    pub fn failure_note(&self) -> (r: Option<String>)
        ensures
            self.failures == 0 ==> r is None,
            self.failures > 0 ==> r == Some::<String>(r->Some_0) && r->Some_0@ == decimal(
                self.failures as nat,
            ) + " folder(s) were left untouched; see the messages above."@,
    {
        if self.failures == 0 {
            return None;
        }
        let mut out = decimal_string(self.failures);
        push_text(&mut out, " folder(s) were left untouched; see the messages above.");
        Some(out)
    }

    /// 0 when every folder was archived, 1 when one was skipped.
    pub fn exit_code(&self) -> (r: u8)
        ensures
            r == (if self.failures == 0 {
                0u8
            } else {
                1u8
            }),
    {
        if self.failures == 0 {
            0
        } else {
            1
        }
    }
}

/// The exit code of a command line that was refused.
pub open spec fn usage_error_code() -> u8 {
    2
}

pub fn usage_error_exit_code() -> (r: u8)
    ensures
        r == usage_error_code(),
{
    2
}

/// The line reporting a folder that was left untouched.
pub fn skipped_line(folder: &str, reason: &str) -> (r: String)
    ensures
        r@ == "skipped "@ + folder@ + ": "@ + reason@,
{
    let mut out = String::new();
    push_text(&mut out, "skipped ");
    push_text(&mut out, folder);
    push_text(&mut out, ": ");
    push_text(&mut out, reason);
    out
}

// ---------------------------------------------------------------------------
// A `-zip` run over all its folders.
// ---------------------------------------------------------------------------

/// How many folders were archived.
pub open spec fn archived_count(outcomes: Seq<Option<usize>>) -> nat
    decreases outcomes.len(),
{
    if outcomes.len() == 0 {
        0
    } else {
        archived_count(outcomes.drop_last()) + (if outcomes.last() is Some {
            1nat
        } else {
            0nat
        })
    }
}

/// How many files went into archives.
pub open spec fn archived_files(outcomes: Seq<Option<usize>>) -> nat
    decreases outcomes.len(),
{
    if outcomes.len() == 0 {
        0
    } else {
        archived_files(outcomes.drop_last()) + match outcomes.last() {
            Some(count) => count as nat,
            None => 0nat,
        }
    }
}

/// How many folders were left untouched.
pub open spec fn skipped_count(outcomes: Seq<Option<usize>>) -> nat
    decreases outcomes.len(),
{
    if outcomes.len() == 0 {
        0
    } else {
        skipped_count(outcomes.drop_last()) + (if outcomes.last() is None {
            1nat
        } else {
            0nat
        })
    }
}

/// Step `i` of a run's tally: `tallies[i + 1]` is `tallies[i]` after the
/// folder's outcome `outcomes[i]`.
pub open spec fn tally_step(tallies: Seq<ZipTally>, outcomes: Seq<Option<usize>>, i: int) -> bool {
    ZipTally::tallied(tallies[i], outcomes[i], tallies[i + 1])
}

/// `tallies` follows a `-zip` run from a fresh tally through the outcome
/// of each folder in turn.
pub open spec fn is_tally_run(tallies: Seq<ZipTally>, outcomes: Seq<Option<usize>>) -> bool {
    &&& tallies.len() == outcomes.len() + 1
    &&& tallies[0].folders == 0
    &&& tallies[0].files == 0
    &&& tallies[0].failures == 0
    &&& forall|i: int| 0 <= i < outcomes.len() ==> #[trigger] tally_step(tallies, outcomes, i)
}

proof fn lemma_tally_so_far(tallies: Seq<ZipTally>, outcomes: Seq<Option<usize>>, m: int)
    requires
        is_tally_run(tallies, outcomes),
        0 <= m <= outcomes.len(),
    ensures
        tallies[m].folders == archived_count(outcomes.take(m)),
        tallies[m].files == archived_files(outcomes.take(m)),
        tallies[m].failures == skipped_count(outcomes.take(m)),
    decreases m,
{
    if m > 0 {
        lemma_tally_so_far(tallies, outcomes, m - 1);
        assert(tally_step(tallies, outcomes, m - 1));
        assert(outcomes.take(m).drop_last() =~= outcomes.take(m - 1));
    }
}

proof fn lemma_no_skips(outcomes: Seq<Option<usize>>)
    ensures
        skipped_count(outcomes) == 0 <==> forall|i: int| 0 <= i < outcomes.len() ==> (#[trigger] outcomes[i]) is Some,
    decreases outcomes.len(),
{
    if outcomes.len() > 0 {
        lemma_no_skips(outcomes.drop_last());
        if skipped_count(outcomes) == 0 {
            assert forall|i: int| 0 <= i < outcomes.len() implies (#[trigger] outcomes[i]) is Some by {
                if i < outcomes.len() - 1 {
                    assert(outcomes.drop_last()[i] == outcomes[i]);
                }
            }
        } else if outcomes.last() is Some {
            let i = choose|i: int| 0 <= i < outcomes.len() - 1 && (#[trigger] outcomes.drop_last()[i]) is None;
            assert(outcomes[i] is None);
        }
    }
}

/// The summary of a `-zip` run counts what happened to each folder: the
/// folders archived, the files that went into them, the folders left
/// untouched; and the run exits with 0 exactly when no folder was left
/// untouched.
pub proof fn law_the_tally_counts_every_folder(tallies: Seq<ZipTally>, outcomes: Seq<Option<usize>>)
    requires
        is_tally_run(tallies, outcomes),
    ensures
        tallies.last().folders == archived_count(outcomes),
        tallies.last().files == archived_files(outcomes),
        tallies.last().failures == skipped_count(outcomes),
        tallies.last().failures == 0 <==> forall|i: int| 0 <= i < outcomes.len() ==> (#[trigger] outcomes[i]) is Some,
{
    lemma_tally_so_far(tallies, outcomes, outcomes.len() as int);
    assert(outcomes.take(outcomes.len() as int) =~= outcomes);
    lemma_no_skips(outcomes);
}

proof fn lemma_every_folder_archived(outcomes: Seq<Option<usize>>, counts: Seq<usize>)
    requires
        outcomes.len() == counts.len(),
        forall|i: int| 0 <= i < outcomes.len() ==> #[trigger] outcomes[i] == Some(counts[i]),
    ensures
        archived_count(outcomes) == counts.len(),
        archived_files(outcomes) == total(counts),
        skipped_count(outcomes) == 0,
    decreases outcomes.len(),
{
    if outcomes.len() > 0 {
        let (a, c) = (outcomes.drop_last(), counts.drop_last());
        assert forall|i: int| 0 <= i < a.len() implies #[trigger] a[i] == Some(c[i]) by {
            assert(outcomes[i] == Some(counts[i]));
        }
        lemma_every_folder_archived(a, c);
        assert(outcomes[outcomes.len() - 1] == Some(counts[counts.len() - 1]));
    }
}

/// When every folder the audit lists is archived, the `-zip` summary
/// reports exactly the audit's numbers: as many zips as folders, as many
/// files as the audit's total, and no folder left untouched.
pub proof fn law_zip_archives_what_the_audit_counts(
    tallies: Seq<ZipTally>,
    outcomes: Seq<Option<usize>>,
    counts: Seq<usize>,
)
    requires
        is_tally_run(tallies, outcomes),
        outcomes.len() == counts.len(),
        forall|i: int| 0 <= i < outcomes.len() ==> #[trigger] outcomes[i] == Some(counts[i]),
    ensures
        tallies.last().folders == counts.len(),
        tallies.last().files == total(counts),
        tallies.last().failures == 0,
{
    law_the_tally_counts_every_folder(tallies, outcomes);
    lemma_every_folder_archived(outcomes, counts);
}

} // verus!

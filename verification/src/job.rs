//! Archiving one folder, as a sequence of decisions between file-system
//! steps: the caller performs each action and reports what happened, and the
//! job decides what comes next. Originals are deleted only once the finished
//! archive has been read back, checked, and renamed into place.

use vstd::prelude::*;

use crate::archive::{
    already_archived, carried_forward, collision_text, leftover_part_message, name_le, names_at,
    nothing_archivable_message, reject_collisions, usable_sources, Recorded,
};
use crate::select::lists_exactly;
use crate::text::{chars_equal, chars_of, push_text};

verus! {

/// Where a job stands.
#[derive(PartialEq, Eq, Structural, Clone, Copy)]
pub enum Phase {
    /// Waiting to learn whether a leftover `.part` file exists.
    Start,
    /// Waiting for the files with unusable names to be reported.
    Reporting,
    /// Waiting to learn whether the folder's archive exists and is ours.
    CheckingArchive,
    /// Waiting for the existing archive's entry list.
    ReadingArchive,
    /// Waiting for the existing archive to be copied to the `.part` file.
    Copying,
    /// Waiting for the `.part` archive to be written.
    Building,
    /// Waiting for the `.part` archive to be read back and checked.
    Verifying,
    /// Waiting for the `.part` file to be renamed onto the archive.
    Renaming,
    /// Waiting for the `.part` file to be removed after a failure.
    Discarding,
    /// Waiting for an original to be deleted.
    Deleting,
    /// Finished.
    Done,
}

/// What the caller does next.
pub enum Action {
    /// Check whether `<folder>.zip.part` exists.
    CheckLeftover,
    /// Warn that these files stay on disk: their names are not UTF-8.
    ReportUnusable(Vec<usize>),
    /// Check whether `<folder>.zip` exists and carries the marker.
    CheckArchive,
    /// Read the existing archive's entries.
    ReadArchive,
    /// Copy the existing archive to the `.part` file.
    CopyArchive,
    /// Write the usable files into the `.part` archive (after the entries it
    /// already holds when `appending`), recording each one.
    Build { appending: bool },
    /// Read every entry of the `.part` archive back and check it against
    /// the expected list.
    Verify,
    /// Rename the `.part` file onto the archive.
    Rename,
    /// Remove the `.part` file.
    Discard,
    /// Delete the original at this position.
    Delete(usize),
    /// The folder is done: how many originals are gone, or why it was left
    /// untouched.
    Finish(Result<usize, String>),
}

/// What happened.
pub enum Event {
    Leftover(bool),
    Reported,
    /// Whether the archive exists and carries the marker.
    Archive(bool),
    ArchiveEntries(Result<Vec<Recorded>, String>),
    Copied(Result<(), String>),
    Built(Result<Vec<Recorded>, String>),
    Verified(Result<(), String>),
    Renamed(Result<(), String>),
    Discarded,
    Deleted(bool),
}

/// One folder being archived.
pub struct FolderJob {
    /// The archive's path, as shown in messages.
    pub archive_display: String,
    /// The `.part` file's path, as shown in messages.
    pub part_display: String,
    /// The archive's file name, `<folder>.zip`.
    pub archive_name: String,
    /// The names of the folder's loose files.
    pub names: Vec<String>,
    /// The positions of the files whose names are UTF-8, in order.
    pub sources: Vec<usize>,
    /// The positions of the files, before the first one without a name,
    /// whose names are not UTF-8.
    pub unusable: Vec<usize>,
    /// Why the folder is refused when one of its files has no name.
    pub nameless: Option<String>,
    /// The names at `sources`, which become the entry names.
    pub entry_names: Vec<String>,
    pub phase: Phase,
    pub appending: bool,
    /// What the finished archive must hold.
    pub expected: Vec<Recorded>,
    /// The finished archive was read back and matched `expected`.
    pub verified: bool,
    /// The finished archive is in place.
    pub renamed: bool,
    /// How far deleting has got through `sources`.
    pub next: usize,
    /// How many originals are gone.
    pub removed: usize,
    /// Why the folder is being abandoned, while the `.part` file is removed.
    pub failure: Option<String>,
}

/// The files before position `q` all have names, and the one at `q`, if
/// there is one, has none.
pub open spec fn named_up_to(named: Seq<bool>, q: int) -> bool {
    &&& 0 <= q <= named.len()
    &&& forall|j: int| 0 <= j < q ==> #[trigger] named[j]
    &&& q < named.len() ==> !named[q]
}

/// The position of the first file without a name, or the number of files
/// when every file has one.
pub open spec fn first_unnamed(named: Seq<bool>) -> int {
    choose|q: int| named_up_to(named, q)
}

/// A folder whose path has no last component cannot be archived: its
/// archive would have no name.
pub fn named_folder(folder: Option<String>) -> (r: Result<String, String>)
    ensures
        folder matches Some(n) ==> r == Ok::<String, String>(n),
        folder is None ==> (r matches Err(m) && m@ == "folder has no name"@),
{
    match folder {
        Some(n) => Ok(n),
        None => Err("folder has no name".to_string()),
    }
}

impl FolderJob {
    /// What holds of a job at every step.
    pub open spec fn wf(&self) -> bool {
        &&& self.sources@.len() == self.entry_names@.len()
        &&& forall|k: int| 0 <= k < self.sources@.len() ==> (#[trigger] self.sources@[k]) < self.names@.len()
        &&& forall|k: int| 0 <= k < self.sources@.len() ==> (#[trigger] self.entry_names@[k])@ == self.names@[self.sources@[k] as int]@
        &&& self.next <= self.sources@.len()
        &&& self.removed <= self.next
        &&& self.renamed ==> self.verified
        &&& (self.phase == Phase::Renaming ==> self.verified)
        &&& (self.renamed ==> self.phase == Phase::Deleting || self.phase == Phase::Done)
        &&& (self.phase == Phase::Deleting ==> self.renamed && self.next < self.sources@.len())
        &&& (self.phase == Phase::Discarding ==> self.failure is Some)
        &&& (self.verified ==> self.phase == Phase::Renaming || self.phase == Phase::Deleting
            || self.phase == Phase::Discarding || self.phase == Phase::Done)
    }

    /// The fields a step never changes.
    pub open spec fn same_folder(&self, other: &FolderJob) -> bool {
        &&& self.archive_display == other.archive_display
        &&& self.part_display == other.part_display
        &&& self.archive_name == other.archive_name
        &&& self.names == other.names
        &&& self.sources == other.sources
        &&& self.unusable == other.unusable
        &&& self.nameless == other.nameless
        &&& self.entry_names == other.entry_names
    }

    /// Whether `ev` is the report the job is waiting for.
    pub open spec fn awaits(&self, ev: &Event) -> bool {
        match self.phase {
            Phase::Start => ev is Leftover,
            Phase::Reporting => ev is Reported,
            Phase::CheckingArchive => ev is Archive,
            Phase::ReadingArchive => ev is ArchiveEntries,
            Phase::Copying => ev is Copied,
            Phase::Building => ev is Built,
            Phase::Verifying => ev is Verified,
            Phase::Renaming => ev is Renamed,
            Phase::Discarding => ev is Discarded,
            Phase::Deleting => ev is Deleted,
            Phase::Done => false,
        }
    }

    /// A job for a folder whose archive is shown as `archive_display`, whose
    /// `.part` file is shown as `part_display`, whose archive file is named
    /// `archive_name`, and whose loose files are named `names`, `utf8`
    /// telling which names are valid UTF-8.
    pub fn new(
        archive_display: String,
        part_display: String,
        archive_name: String,
        names: Vec<String>,
        utf8: &Vec<bool>,
        named: &Vec<bool>,
        displays: &Vec<String>,
    ) -> (r: FolderJob)
        requires
            names@.len() == utf8@.len(),
            named@.len() == utf8@.len(),
            displays@.len() == utf8@.len(),
        ensures
            r.wf(),
            r.phase == Phase::Start,
            !r.verified,
            !r.renamed,
            r.next == 0,
            r.removed == 0,
            r.archive_display == archive_display,
            r.part_display == part_display,
            r.archive_name == archive_name,
            r.names == names,
            lists_exactly(r.sources@, utf8@.len(), |i: int| utf8@[i]),
            lists_exactly(r.unusable@, first_unnamed(named@) as nat, |i: int| !utf8@[i]),
            first_unnamed(named@) == utf8@.len() ==> r.nameless is None,
            first_unnamed(named@) < utf8@.len() ==> (r.nameless matches Some(m) && m@
                == displays@[first_unnamed(named@)]@ + " has no file name"@),
            forall|k: int, l: int| 0 <= k < l < r.sources@.len() ==> r.sources@[k] < r.sources@[l],
            forall|k: int, l: int| 0 <= k < l < r.unusable@.len() ==> r.unusable@[k] < r.unusable@[l],
    {
        let mut q: usize = 0;
        while q < named.len() && named[q]
            invariant
                q <= named@.len(),
                forall|j: int| 0 <= j < q ==> #[trigger] named@[j],
            decreases named@.len() - q,
        {
            q = q + 1;
        }
        proof {
            assert(named_up_to(named@, q as int));
            let c = first_unnamed(named@);
            assert(named_up_to(named@, c));
            if c < q {
                assert(named@[c]);
            } else if q < c {
                assert(named@[q as int]);
            }
            assert(c == q);
        }
        let mut before: Vec<bool> = Vec::new();
        let mut j: usize = 0;
        while j < q
            invariant
                j <= q <= utf8@.len(),
                before@ == utf8@.take(j as int),
            decreases q - j,
        {
            before.push(utf8[j]);
            j = j + 1;
            assert(before@ =~= utf8@.take(j as int));
        }
        let (_, unusable) = usable_sources(&before);
        proof {
            assert forall|i: int| 0 <= i < q implies before@[i] == utf8@[i] by {}
        }
        let nameless = if q < named.len() {
            let mut m = displays[q].clone();
            push_text(&mut m, " has no file name");
            Some(m)
        } else {
            None
        };
        let (sources, _) = usable_sources(utf8);
        let mut entry_names: Vec<String> = Vec::new();
        let mut k: usize = 0;
        while k < sources.len()
            invariant
                k <= sources@.len(),
                names@.len() == utf8@.len(),
                lists_exactly(sources@, utf8@.len(), |i: int| utf8@[i]),
                entry_names@.len() == k,
                forall|j: int| 0 <= j < k ==> (#[trigger] entry_names@[j])@ == names@[sources@[j] as int]@,
            decreases sources@.len() - k,
        {
            assert(sources@[k as int] < names@.len());
            entry_names.push(names[sources[k]].clone());
            k = k + 1;
        }
        FolderJob {
            archive_display,
            part_display,
            archive_name,
            names,
            sources,
            unusable,
            nameless,
            entry_names,
            phase: Phase::Start,
            appending: false,
            expected: Vec::new(),
            verified: false,
            renamed: false,
            next: 0,
            removed: 0,
            failure: None,
        }
    }

    /// The first action.
    pub fn first_action(&self) -> (r: Action)
        ensures
            r is CheckLeftover,
    {
        Action::CheckLeftover
    }

    /// After the unusable names were reported: nothing archivable ends the
    /// job, otherwise the archive is looked at.
    fn after_report(&mut self) -> (r: Action)
        requires
            old(self).wf(),
            !old(self).verified,
        ensures
            final(self).wf(),
            final(self).same_folder(old(self)),
            !final(self).verified,
            final(self).appending == old(self).appending,
            final(self).expected == old(self).expected,
            final(self).next == old(self).next,
            final(self).removed == old(self).removed,
            old(self).nameless matches Some(why) ==> final(self).phase == Phase::Done && r
                == Action::Finish(Err(why)),
            old(self).nameless is None && old(self).sources@.len() == 0 ==> final(self).phase
                == Phase::Done && (r matches Action::Finish(Err(m)) && m@
                == "no archivable files remain in this folder"@),
            old(self).nameless is None && old(self).sources@.len() > 0 ==> final(self).phase
                == Phase::CheckingArchive && r is CheckArchive,
    {
        if let Some(why) = &self.nameless {
            self.phase = Phase::Done;
            return Action::Finish(Err(why.clone()));
        }
        if self.sources.len() == 0 {
            self.phase = Phase::Done;
            Action::Finish(Err(nothing_archivable_message()))
        } else {
            self.phase = Phase::CheckingArchive;
            Action::CheckArchive
        }
    }

    /// Moves through the deletions, skipping the source that is the archive
    /// itself, until an original has to be deleted or all are done.
    fn continue_deleting(&mut self) -> (r: Action)
        requires
            old(self).wf(),
            old(self).verified,
            old(self).renamed,
            old(self).next <= old(self).sources@.len(),
        ensures
            final(self).wf(),
            final(self).same_folder(old(self)),
            final(self).verified && final(self).renamed,
            final(self).expected == old(self).expected,
            final(self).next >= old(self).next,
            forall|j: int| old(self).next <= j < final(self).next ==> (#[trigger] old(self).entry_names@[j])@ == old(self).archive_name@,
            final(self).removed == old(self).removed + (final(self).next - old(self).next),
            match r {
                Action::Delete(p) => {
                    &&& final(self).phase == Phase::Deleting
                    &&& final(self).next < final(self).sources@.len()
                    &&& p == final(self).sources@[final(self).next as int]
                    &&& final(self).entry_names@[final(self).next as int]@ != final(self).archive_name@
                },
                Action::Finish(Ok(n)) => {
                    &&& final(self).phase == Phase::Done
                    &&& final(self).next == final(self).sources@.len()
                    &&& n == final(self).removed
                },
                _ => false,
            },
    {
        let target = chars_of(self.archive_name.as_str());
        self.phase = Phase::Done;
        while self.next < self.sources.len()
            invariant
                self.wf(),
                self.same_folder(old(self)),
                self.verified && self.renamed,
                self.expected == old(self).expected,
                self.next >= old(self).next,
                self.phase == Phase::Done,
                target@ == self.archive_name@,
                forall|j: int| old(self).next <= j < self.next ==> (#[trigger] old(self).entry_names@[j])@ == old(self).archive_name@,
                self.removed == old(self).removed + (self.next - old(self).next),
            decreases self.sources@.len() - self.next,
        {
            let n = chars_of(self.entry_names[self.next].as_str());
            if !chars_equal(n.as_slice(), target.as_slice()) {
                self.phase = Phase::Deleting;
                return Action::Delete(self.sources[self.next]);
            }
            self.removed = self.removed + 1;
            self.next = self.next + 1;
        }
        self.phase = Phase::Done;
        Action::Finish(Ok(self.removed))
    }

    /// Abandons the folder after the `.part` file may exist: it is removed
    /// first, then the failure is reported.
    fn abandon(&mut self, why: String) -> (r: Action)
        requires
            old(self).wf(),
            !old(self).renamed,
        ensures
            final(self).wf(),
            final(self).same_folder(old(self)),
            final(self).verified == old(self).verified,
            final(self).renamed == old(self).renamed,
            final(self).expected == old(self).expected,
            final(self).next == old(self).next,
            final(self).removed == old(self).removed,
            final(self).phase == Phase::Discarding,
            final(self).failure == Some(why),
            r is Discard,
    {
        self.failure = Some(why);
        self.phase = Phase::Discarding;
        Action::Discard
    }

    /// One step of a job: `after` is what `before` becomes, and `r` the
    /// action it asks for, when `ev` is what happened.
    pub open spec fn stepped(before: FolderJob, ev: Event, after: FolderJob, r: Action) -> bool {
        &&& (after.wf())
        &&& (after.same_folder(&before))
        // The job only moves forward to a verified archive by a successful
        // check, and to a renamed one by a successful rename.
        &&& (after.verified ==> before.verified || (before.phase == Phase::Verifying
                && ev is Verified && ev->Verified_0 is Ok))
        &&& (after.renamed ==> before.renamed || (before.phase == Phase::Renaming
                && ev is Renamed && ev->Renamed_0 is Ok))
        // An original is deleted only once the finished archive has been
        // checked and put in place, and never the archive itself.
        &&& (r is Delete ==> {
                &&& after.verified
                &&& after.renamed
                &&& after.next < after.sources@.len()
                &&& r->Delete_0 == after.sources@[after.next as int]
                &&& before.names@[r->Delete_0 as int]@ != before.archive_name@
            })
        // Once the `.part` file may exist, a failure removes it before the
        // folder is reported.
        &&& (((before.phase == Phase::Building && ev->Built_0 is Err) || (before.phase
                == Phase::Verifying && ev->Verified_0 is Err) || (before.phase == Phase::Renaming
                && ev->Renamed_0 is Err)) ==> r is Discard && after.phase == Phase::Discarding)
        &&& (before.phase == Phase::Discarding ==> after.phase == Phase::Done
                && r == Action::Finish(Err(before.failure->Some_0)))
        // The decisions, phase by phase.
        &&& (before.phase == Phase::Start && ev == Event::Leftover(true) ==> after.phase
                == Phase::Done && (r matches Action::Finish(Err(m)) && m@ == before.part_display@
                + " already exists (leftover from an interrupted run); remove it first"@))
        &&& (before.phase == Phase::Start && ev == Event::Leftover(false) && before.unusable@.len()
                > 0 ==> after.phase == Phase::Reporting && (r matches Action::ReportUnusable(u)
                && u@ == before.unusable@))
        &&& ((before.phase == Phase::Reporting || (before.phase == Phase::Start && ev
                == Event::Leftover(false) && before.unusable@.len() == 0)) ==> (if before.nameless is Some {
                after.phase == Phase::Done && r == Action::Finish(Err(before.nameless->Some_0))
            } else if before.sources@.len() == 0 {
                after.phase == Phase::Done && (r matches Action::Finish(Err(m)) && m@
                    == "no archivable files remain in this folder"@)
            } else {
                after.phase == Phase::CheckingArchive && r is CheckArchive
            }))
        &&& (before.phase == Phase::CheckingArchive ==> (after.appending == (ev
                == Event::Archive(true))) && (if ev == Event::Archive(true) {
                after.phase == Phase::ReadingArchive && r is ReadArchive
            } else {
                after.phase == Phase::Building && r == Action::Build { appending: false }
            }))
        &&& (before.phase == Phase::ReadingArchive ==> match ev {
                Event::ArchiveEntries(Err(e)) => after.phase == Phase::Done && r
                    == Action::Finish(Err(e)),
                Event::ArchiveEntries(Ok(existing)) => if exists|i: int|
                    0 <= i < before.entry_names@.len() && already_archived(
                        #[trigger] before.entry_names@[i]@,
                        existing@,
                    ) {
                    &&& after.phase == Phase::Done
                    &&& r is Finish
                    &&& r->Finish_0 is Err
                    &&& exists|order: Seq<usize>|
                        {
                            &&& lists_exactly(
                                order,
                                before.entry_names@.len(),
                                |i: int| already_archived(before.entry_names@[i]@, existing@),
                            )
                            &&& forall|k: int, l: int|
                                #![trigger order[k], order[l]]
                                0 <= k < l < order.len() ==> name_le(
                                    before.entry_names@[order[k] as int]@,
                                    before.entry_names@[order[l] as int]@,
                                )
                            &&& r->Finish_0->Err_0@ == collision_text(
                                before.archive_display@,
                                names_at(before.entry_names@, order),
                            )
                        }
                } else {
                    after.phase == Phase::Copying && r is CopyArchive && after.expected
                        == existing
                },
                _ => false,
            })
        &&& (before.phase == Phase::Copying ==> match ev {
                Event::Copied(Err(e)) => after.phase == Phase::Done && r == Action::Finish(
                    Err(e),
                ),
                Event::Copied(Ok(_)) => after.phase == Phase::Building && r
                    == Action::Build { appending: true },
                _ => false,
            })
        &&& (before.phase == Phase::Building ==> match ev {
                Event::Built(Ok(written)) => after.phase == Phase::Verifying && r is Verify
                    && after.expected@ == before.expected@ + written@,
                Event::Built(Err(e)) => after.failure == Some(e),
                _ => false,
            })
        &&& (before.phase == Phase::Verifying ==> after.expected == before.expected
                && match ev {
                Event::Verified(Ok(_)) => after.phase == Phase::Renaming && r is Rename,
                Event::Verified(Err(e)) => after.failure == Some(e),
                _ => false,
            })
        &&& (before.phase == Phase::Renaming ==> match ev {
                Event::Renamed(Err(e)) => after.failure == Some(e),
                _ => true,
            })
        &&& ((before.phase == Phase::Renaming && ev is Renamed && ev->Renamed_0 is Ok)
                || before.phase == Phase::Deleting ==> {
                &&& after.removed == (if before.phase == Phase::Deleting
                    && ev == Event::Deleted(true) {
                    before.removed + 1
                } else {
                    before.removed as int
                }) + (after.next - (if before.phase == Phase::Deleting {
                    before.next + 1
                } else {
                    before.next as int
                }))
                &&& (r is Delete || (r is Finish && r->Finish_0 == Ok::<usize, String>(after.removed)
                    && after.next == after.sources@.len()))
                // The only originals passed over are those named like the
                // archive, which the rename already replaced.
                &&& forall|j: int|
                    (if before.phase == Phase::Deleting {
                        before.next + 1
                    } else {
                        before.next as int
                    }) <= j < after.next ==> (#[trigger] before.entry_names@[j])@ == before.archive_name@
            })
        // What stays settled: a checked or renamed archive stays so, the
        // `.part` file is removed exactly when the job asks for it, and the
        // deletion count moves only while originals are being deleted.
        &&& (before.verified ==> after.verified)
        &&& (before.renamed ==> after.renamed)
        &&& (after.phase == Phase::Discarding <==> r is Discard)
        &&& (!(before.phase == Phase::Renaming && ev is Renamed && ev->Renamed_0 is Ok)
            && before.phase != Phase::Deleting ==> after.next == before.next && after.removed
            == before.removed)
        &&& ((before.phase == Phase::Renaming && ev is Renamed && ev->Renamed_0 is Ok)
            || before.phase == Phase::Deleting ==> after.verified && after.renamed)
    }

    /// Takes in what happened and decides the next action.
    pub fn step(&mut self, ev: Event) -> (r: Action)
        requires
            old(self).wf(),
            old(self).awaits(&ev),
        ensures
            FolderJob::stepped(*old(self), ev, *final(self), r),
    {
        match self.phase {
            Phase::Start => {
                let leftover = match ev {
                    Event::Leftover(b) => b,
                    _ => false,
                };
                if leftover {
                    self.phase = Phase::Done;
                    return Action::Finish(Err(leftover_part_message(self.part_display.as_str())));
                }
                if self.unusable.len() > 0 {
                    self.phase = Phase::Reporting;
                    return Action::ReportUnusable(self.unusable.clone());
                }
                self.after_report()
            },
            Phase::Reporting => self.after_report(),
            Phase::CheckingArchive => {
                let ours = match ev {
                    Event::Archive(b) => b,
                    _ => false,
                };
                self.appending = ours;
                if ours {
                    self.phase = Phase::ReadingArchive;
                    Action::ReadArchive
                } else {
                    self.phase = Phase::Building;
                    Action::Build { appending: false }
                }
            },
            Phase::ReadingArchive => {
                match ev {
                    Event::ArchiveEntries(Err(e)) => {
                        self.phase = Phase::Done;
                        Action::Finish(Err(e))
                    },
                    Event::ArchiveEntries(Ok(existing)) => {
                        match reject_collisions(
                            self.archive_display.as_str(),
                            &existing,
                            &self.entry_names,
                        ) {
                            Err(m) => {
                                self.phase = Phase::Done;
                                Action::Finish(Err(m))
                            },
                            Ok(()) => {
                                self.expected = existing;
                                self.phase = Phase::Copying;
                                Action::CopyArchive
                            },
                        }
                    },
                    _ => {
                        self.phase = Phase::Done;
                        Action::Finish(Ok(0))
                    },
                }
            },
            Phase::Copying => {
                match ev {
                    Event::Copied(Err(e)) => {
                        self.phase = Phase::Done;
                        Action::Finish(Err(e))
                    },
                    _ => {
                        self.phase = Phase::Building;
                        Action::Build { appending: true }
                    },
                }
            },
            Phase::Building => {
                match ev {
                    Event::Built(Ok(written)) => {
                        let mut existing: Vec<Recorded> = Vec::new();
                        std::mem::swap(&mut existing, &mut self.expected);
                        self.expected = carried_forward(existing, written);
                        self.phase = Phase::Verifying;
                        Action::Verify
                    },
                    Event::Built(Err(e)) => self.abandon(e),
                    _ => self.abandon(String::new()),
                }
            },
            Phase::Verifying => {
                match ev {
                    Event::Verified(Ok(())) => {
                        self.verified = true;
                        self.phase = Phase::Renaming;
                        Action::Rename
                    },
                    Event::Verified(Err(e)) => self.abandon(e),
                    _ => self.abandon(String::new()),
                }
            },
            Phase::Renaming => {
                match ev {
                    Event::Renamed(Ok(())) => {
                        self.phase = Phase::Done;
                        self.renamed = true;
                        self.continue_deleting()
                    },
                    Event::Renamed(Err(e)) => self.abandon(e),
                    _ => self.abandon(String::new()),
                }
            },
            Phase::Discarding => {
                self.phase = Phase::Done;
                match self.failure.take() {
                    Some(e) => Action::Finish(Err(e)),
                    None => Action::Finish(Err(String::new())),
                }
            },
            Phase::Deleting => {
                let total = self.sources.len();
                assert(self.removed < total);
                match ev {
                    Event::Deleted(true) => {
                        self.removed = self.removed + 1;
                    },
                    _ => {},
                }
                self.phase = Phase::Done;
                self.next = self.next + 1;
                self.continue_deleting()
            },
            Phase::Done => Action::Finish(Ok(0)),
        }
    }
}

// ---------------------------------------------------------------------------
// A job over its whole life.
// ---------------------------------------------------------------------------

/// Step `i` of a run: the job was waiting for `events[i]`, and `step`
/// turned `jobs[i]` into `jobs[i + 1]` with `actions[i]`.
pub open spec fn step_at(jobs: Seq<FolderJob>, events: Seq<Event>, actions: Seq<Action>, i: int) -> bool {
    &&& jobs[i].awaits(&events[i])
    &&& FolderJob::stepped(jobs[i], events[i], jobs[i + 1], actions[i])
}

/// `jobs`, `events` and `actions` record a job from its creation on: each
/// event answers what the job was waiting for, and each step is one call
/// of `step`.
pub open spec fn is_run(jobs: Seq<FolderJob>, events: Seq<Event>, actions: Seq<Action>) -> bool {
    &&& jobs.len() == events.len() + 1
    &&& actions.len() == events.len()
    &&& jobs[0].wf()
    &&& jobs[0].phase == Phase::Start
    &&& !jobs[0].verified
    &&& !jobs[0].renamed
    &&& jobs[0].next == 0
    &&& jobs[0].removed == 0
    &&& forall|i: int| 0 <= i < events.len() ==> #[trigger] step_at(jobs, events, actions, i)
}

/// How far along a job is; steps never move it back.
pub open spec fn phase_rank(p: Phase) -> int {
    match p {
        Phase::Start => 0,
        Phase::Reporting => 1,
        Phase::CheckingArchive => 2,
        Phase::ReadingArchive => 3,
        Phase::Copying => 4,
        Phase::Building => 5,
        Phase::Verifying => 6,
        Phase::Renaming => 7,
        Phase::Discarding => 8,
        Phase::Deleting => 8,
        Phase::Done => 9,
    }
}

proof fn lemma_run_so_far(jobs: Seq<FolderJob>, events: Seq<Event>, actions: Seq<Action>, m: int)
    requires
        is_run(jobs, events, actions),
        0 <= m < jobs.len(),
    ensures
        jobs[m].wf(),
        jobs[m].same_folder(&jobs[0]),
        jobs[m].verified ==> exists|j: int| 0 <= j < m && (#[trigger] events[j]) matches Event::Verified(Ok(_)),
        jobs[m].renamed ==> exists|k: int| 0 <= k < m && (#[trigger] events[k]) matches Event::Renamed(Ok(_)),
    decreases m,
{
    if m > 0 {
        lemma_run_so_far(jobs, events, actions, m - 1);
        assert(step_at(jobs, events, actions, m - 1));
    }
}

proof fn lemma_later_steps(jobs: Seq<FolderJob>, events: Seq<Event>, actions: Seq<Action>, a: int, b: int)
    requires
        is_run(jobs, events, actions),
        0 <= a <= b < jobs.len(),
    ensures
        phase_rank(jobs[a].phase) <= phase_rank(jobs[b].phase),
        jobs[a].renamed ==> jobs[b].renamed,
    decreases b - a,
{
    if a < b {
        lemma_later_steps(jobs, events, actions, a, b - 1);
        lemma_run_so_far(jobs, events, actions, b - 1);
        assert(step_at(jobs, events, actions, b - 1));
    }
}

/// An original is deleted only after the finished archive was read back
/// and matched, and was renamed into place; what is deleted is one of the
/// folder's archivable files, and never the archive itself.
pub proof fn law_deletes_wait_for_a_checked_archive(
    jobs: Seq<FolderJob>,
    events: Seq<Event>,
    actions: Seq<Action>,
    i: int,
)
    requires
        is_run(jobs, events, actions),
        0 <= i < actions.len(),
        actions[i] is Delete,
    ensures
        exists|j: int| 0 <= j <= i && (#[trigger] events[j]) matches Event::Verified(Ok(_)),
        exists|k: int| 0 <= k <= i && (#[trigger] events[k]) matches Event::Renamed(Ok(_)),
        jobs[0].sources@.contains(actions[i]->Delete_0),
        jobs[0].names@[actions[i]->Delete_0 as int]@ != jobs[0].archive_name@,
{
    lemma_run_so_far(jobs, events, actions, i);
    lemma_run_so_far(jobs, events, actions, i + 1);
    assert(step_at(jobs, events, actions, i));
    let n = jobs[i + 1].next as int;
    assert(jobs[0].sources@[n] == actions[i]->Delete_0);
}

/// A folder that ends in failure keeps every original: no delete is ever
/// asked for, and the archive was never renamed into place.
pub proof fn law_a_failed_folder_keeps_its_files(
    jobs: Seq<FolderJob>,
    events: Seq<Event>,
    actions: Seq<Action>,
)
    requires
        is_run(jobs, events, actions),
        actions.len() > 0,
        actions.last() matches Action::Finish(Err(_)),
    ensures
        forall|i: int| 0 <= i < actions.len() ==> !(#[trigger] actions[i] is Delete),
        forall|k: int| 0 <= k < events.len() ==> !((#[trigger] events[k]) matches Event::Renamed(Ok(_))),
{
    let last = actions.len() - 1;
    lemma_run_so_far(jobs, events, actions, last);
    assert(step_at(jobs, events, actions, last));
    // Once renamed, a job only deletes and finishes successfully.
    assert(!jobs[last].renamed);
    assert forall|i: int| 0 <= i < actions.len() implies !(#[trigger] actions[i] is Delete) by {
        if actions[i] is Delete {
            assert(step_at(jobs, events, actions, i));
            lemma_later_steps(jobs, events, actions, i + 1, last + 1);
            lemma_run_so_far(jobs, events, actions, last + 1);
            if i < last {
                lemma_later_steps(jobs, events, actions, i + 1, last);
            }
        }
    }
    assert forall|k: int| 0 <= k < events.len() implies !((#[trigger] events[k]) matches Event::Renamed(Ok(_))) by {
        if events[k] matches Event::Renamed(Ok(_)) {
            assert(step_at(jobs, events, actions, k));
            if k < last {
                lemma_run_so_far(jobs, events, actions, k + 1);
                lemma_later_steps(jobs, events, actions, k + 1, last);
            }
        }
    }
}

/// Once the archive has been written, a folder that ends in failure has
/// its `.part` file removed just before the failure is reported.
pub proof fn law_a_failed_build_is_cleaned_up(
    jobs: Seq<FolderJob>,
    events: Seq<Event>,
    actions: Seq<Action>,
    b: int,
)
    requires
        is_run(jobs, events, actions),
        0 <= b < actions.len(),
        actions[b] is Build,
        actions.last() matches Action::Finish(Err(_)),
    ensures
        actions.len() >= 2,
        actions[actions.len() - 2] is Discard,
{
    let last = actions.len() - 1;
    assert(step_at(jobs, events, actions, b));
    lemma_run_so_far(jobs, events, actions, b);
    assert(jobs[b + 1].phase == Phase::Building);
    assert(b < last) by {
        if b == last {
            assert(actions[b] is Finish);
        }
    }
    lemma_later_steps(jobs, events, actions, b + 1, last);
    lemma_run_so_far(jobs, events, actions, last);
    assert(step_at(jobs, events, actions, last));
    assert(jobs[last].phase == Phase::Discarding);
    assert(step_at(jobs, events, actions, last - 1));
}

/// A folder counts as archived only once its archive was read back and
/// matched, and renamed into place.
pub proof fn law_an_archived_folder_was_checked(
    jobs: Seq<FolderJob>,
    events: Seq<Event>,
    actions: Seq<Action>,
)
    requires
        is_run(jobs, events, actions),
        actions.len() > 0,
        actions.last() matches Action::Finish(Ok(_)),
    ensures
        exists|j: int| 0 <= j < events.len() && (#[trigger] events[j]) matches Event::Verified(Ok(_)),
        exists|k: int| 0 <= k < events.len() && (#[trigger] events[k]) matches Event::Renamed(Ok(_)),
{
    let last = actions.len() - 1;
    lemma_run_so_far(jobs, events, actions, last);
    lemma_run_so_far(jobs, events, actions, last + 1);
    assert(step_at(jobs, events, actions, last));
}

proof fn lemma_count_keeps_pace(jobs: Seq<FolderJob>, events: Seq<Event>, actions: Seq<Action>, m: int)
    requires
        is_run(jobs, events, actions),
        0 <= m < jobs.len(),
        forall|k: int| 0 <= k < events.len() && (#[trigger] events[k]) is Deleted ==> events[k]
            == Event::Deleted(true),
    ensures
        jobs[m].removed == jobs[m].next,
    decreases m,
{
    if m > 0 {
        lemma_count_keeps_pace(jobs, events, actions, m - 1);
        assert(step_at(jobs, events, actions, m - 1));
        if jobs[m - 1].phase == Phase::Deleting {
            assert(events[m - 1] == Event::Deleted(true));
        }
    }
}

/// When every delete succeeds, a folder's run reports as many files
/// removed as it had archivable files.
pub proof fn law_a_clean_run_counts_every_file(
    jobs: Seq<FolderJob>,
    events: Seq<Event>,
    actions: Seq<Action>,
)
    requires
        is_run(jobs, events, actions),
        actions.len() > 0,
        actions.last() matches Action::Finish(Ok(_)),
        forall|k: int| 0 <= k < events.len() && (#[trigger] events[k]) is Deleted ==> events[k]
            == Event::Deleted(true),
    ensures
        actions.last() == Action::Finish(Ok(jobs[0].sources@.len() as usize)),
{
    let last = actions.len() - 1;
    lemma_run_so_far(jobs, events, actions, last);
    lemma_run_so_far(jobs, events, actions, last + 1);
    lemma_count_keeps_pace(jobs, events, actions, last + 1);
    assert(step_at(jobs, events, actions, last));
}

} // verus!

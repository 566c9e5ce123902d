//! Which folders qualify: the loose files of one folder, the subfolders a
//! walk descends into, and the archive a folder already owns.

use vstd::prelude::*;
use vstd::seq_lib::group_to_multiset_ensures;

use crate::order::{bytes_le, le_bytes, ranked_in_order, sort_positions, Ranked, all_positions_valid};
use crate::order::{lemma_bytes_le_total, lemma_bytes_le_trans};
use crate::text::{chars_equal, chars_of, string_of};

verus! {

/// What a directory entry is, looked at without following symlinks.
#[derive(PartialEq, Eq, Structural, Clone, Copy)]
pub enum EntryKind {
    File,
    Directory,
    /// A symlink or anything else that is neither a plain file nor a folder.
    Other,
}

/// One entry directly inside a folder.
pub struct DirEntry {
    /// The entry's name, with any bytes that are not UTF-8 replaced.
    pub name: String,
    /// The entry's name exactly as the file system holds it.
    pub raw_name: Vec<u8>,
    pub kind: EntryKind,
    /// For an entry named like the folder's archive: whether it is a
    /// readable zip whose comment carries the marker.
    pub marked: bool,
}

impl Ranked for DirEntry {
    open spec fn ranks_le(&self, other: &Self) -> bool {
        bytes_le(self.raw_name@, other.raw_name@)
    }

    proof fn lemma_total(a: &Self, b: &Self) {
        lemma_bytes_le_total(a.raw_name@, b.raw_name@);
    }

    proof fn lemma_trans(a: &Self, b: &Self, c: &Self) {
        lemma_bytes_le_trans(a.raw_name@, b.raw_name@, c.raw_name@);
    }

    fn le(&self, other: &Self) -> (r: bool) {
        le_bytes(self.raw_name.as_slice(), other.raw_name.as_slice())
    }
}

/// Hidden or OS-generated: a leading dot, or `Thumbs.db`.
pub open spec fn is_hidden_name(name: Seq<char>) -> bool {
    (name.len() > 0 && name[0] == '.') || name == "Thumbs.db"@
}

/// The name of the archive a folder called `folder` owns.
pub open spec fn archive_name_of(folder: Seq<char>) -> Seq<char> {
    folder + ".zip"@
}

/// The name an archive is built under before it takes its place.
pub open spec fn part_name_of(folder: Seq<char>) -> Seq<char> {
    folder + ".zip.part"@
}

pub open spec fn is_visible(e: DirEntry, include_hidden: bool) -> bool {
    include_hidden || !is_hidden_name(e.name@)
}

/// A visible file named like the folder's archive, whose marker has to be
/// looked at before the folder can be judged.
pub open spec fn needs_probe(e: DirEntry, folder: Option<Seq<char>>, include_hidden: bool) -> bool {
    &&& e.kind == EntryKind::File
    &&& is_visible(e, include_hidden)
    &&& folder is Some
    &&& e.name@ == archive_name_of(folder->Some_0)
}

/// The folder's own archive: it neither counts nor gets archived again.
pub open spec fn is_own_archive(e: DirEntry, folder: Option<Seq<char>>, include_hidden: bool) -> bool {
    needs_probe(e, folder, include_hidden) && e.marked
}

/// A loose file: a visible plain file that is not the folder's own archive.
pub open spec fn is_loose(e: DirEntry, folder: Option<Seq<char>>, include_hidden: bool) -> bool {
    &&& e.kind == EntryKind::File
    &&& is_visible(e, include_hidden)
    &&& !is_own_archive(e, folder, include_hidden)
}

/// A visible folder, which the walk descends into.
pub open spec fn is_descended(e: DirEntry, include_hidden: bool) -> bool {
    e.kind == EntryKind::Directory && is_visible(e, include_hidden)
}

pub open spec fn opt_str_view(o: Option<&str>) -> Option<Seq<char>> {
    match o {
        Some(s) => Some(s@),
        None => None,
    }
}

/// `order` names each position below `n` that satisfies `pred`, once each,
/// and nothing else.
pub open spec fn lists_exactly(order: Seq<usize>, n: nat, pred: spec_fn(int) -> bool) -> bool {
    &&& order.no_duplicates()
    &&& forall|k: int| 0 <= k < order.len() ==> #[trigger] order[k] < n && pred(order[k] as int)
    &&& forall|i: int| 0 <= i < n && pred(i) ==> #[trigger] order.contains(i as usize)
}

pub proof fn lemma_lists_exactly_permuted(a: Seq<usize>, b: Seq<usize>, n: nat, pred: spec_fn(int) -> bool)
    requires
        lists_exactly(a, n, pred),
        a.to_multiset() == b.to_multiset(),
    ensures
        lists_exactly(b, n, pred),
{
    broadcast use group_to_multiset_ensures;

    a.lemma_multiset_has_no_duplicates();
    b.lemma_multiset_has_no_duplicates_conv();
    assert forall|k: int| 0 <= k < b.len() implies #[trigger] b[k] < n && pred(b[k] as int) by {
        assert(b.contains(b[k]));
        assert(a.to_multiset().count(b[k]) > 0);
        assert(a.contains(b[k]));
    }
    assert forall|i: int| 0 <= i < n && pred(i) implies #[trigger] b.contains(i as usize) by {
        assert(a.contains(i as usize));
        assert(b.to_multiset().count(i as usize) > 0);
    }
}

/// Whether `name` is hidden or OS-generated.
pub fn is_hidden(name: &str) -> (r: bool)
    ensures
        r == is_hidden_name(name@),
{
    let cs = chars_of(name);
    (cs.len() > 0 && cs[0] == '.') || crate::text::spells(cs.as_slice(), "Thumbs.db")
}

/// `<folder>.zip`.
pub fn archive_file_name(folder: &str) -> (r: String)
    ensures
        r@ == archive_name_of(folder@),
{
    let mut cs = chars_of(folder);
    let ext = chars_of(".zip");
    let mut i: usize = 0;
    let ghost start = cs@;
    while i < ext.len()
        invariant
            i <= ext@.len(),
            cs@ == start + ext@.take(i as int),
        decreases ext@.len() - i,
    {
        cs.push(ext[i]);
        i = i + 1;
        assert(cs@ =~= start + ext@.take(i as int));
    }
    assert(ext@.take(ext@.len() as int) =~= ext@);
    string_of(cs.as_slice())
}

/// `<folder>.zip.part`.
pub fn part_file_name(folder: &str) -> (r: String)
    ensures
        r@ == part_name_of(folder@),
{
    let mut cs = chars_of(folder);
    let ext = chars_of(".zip.part");
    let mut i: usize = 0;
    let ghost start = cs@;
    while i < ext.len()
        invariant
            i <= ext@.len(),
            cs@ == start + ext@.take(i as int),
        decreases ext@.len() - i,
    {
        cs.push(ext[i]);
        i = i + 1;
        assert(cs@ =~= start + ext@.take(i as int));
    }
    assert(ext@.take(ext@.len() as int) =~= ext@);
    string_of(cs.as_slice())
}

pub open spec fn archive_of_folder(folder: Option<Seq<char>>) -> Option<Seq<char>> {
    match folder {
        Some(f) => Some(archive_name_of(f)),
        None => None,
    }
}

pub open spec fn opt_chars(o: Option<Vec<char>>) -> Option<Seq<char>> {
    match o {
        Some(v) => Some(v@),
        None => None,
    }
}

fn archive_chars(folder: Option<&str>) -> (r: Option<Vec<char>>)
    ensures
        opt_chars(r) == archive_of_folder(opt_str_view(folder)),
{
    match folder {
        Some(f) => {
            let name = archive_file_name(f);
            Some(chars_of(name.as_str()))
        },
        None => None,
    }
}

fn visible(e: &DirEntry, include_hidden: bool) -> (r: bool)
    ensures
        r == is_visible(*e, include_hidden),
{
    include_hidden || !is_hidden(e.name.as_str())
}

fn probe_needed(
    e: &DirEntry,
    archive: &Option<Vec<char>>,
    Ghost(folder): Ghost<Option<Seq<char>>>,
    include_hidden: bool,
) -> (r: bool)
    requires
        opt_chars(*archive) == archive_of_folder(folder),
    ensures
        r == needs_probe(*e, folder, include_hidden),
{
    if e.kind != EntryKind::File || !visible(e, include_hidden) {
        return false;
    }
    match archive {
        Some(a) => {
            let n = chars_of(e.name.as_str());
            chars_equal(n.as_slice(), a.as_slice())
        },
        None => false,
    }
}

/// The files that are named like the folder's archive and have to be
/// opened to see whether they carry the marker, in entry order.
pub fn archives_to_probe(folder: Option<&str>, entries: &Vec<DirEntry>, include_hidden: bool) -> (r: Vec<usize>)
    ensures
        lists_exactly(
            r@,
            entries@.len(),
            |i: int| needs_probe(entries@[i], opt_str_view(folder), include_hidden),
        ),
{
    let archive = archive_chars(folder);
    let ghost f = opt_str_view(folder);
    let ghost pred = |i: int| needs_probe(entries@[i], f, include_hidden);
    let mut out: Vec<usize> = Vec::new();
    let mut i: usize = 0;
    while i < entries.len()
        invariant
            i <= entries@.len(),
            opt_chars(archive) == archive_of_folder(f),
            pred == (|i: int| needs_probe(entries@[i], f, include_hidden)),
            forall|k: int| 0 <= k < out@.len() ==> #[trigger] out@[k] < i && pred(out@[k] as int),
            forall|k: int, l: int| 0 <= k < l < out@.len() ==> out@[k] < out@[l],
            forall|j: int| 0 <= j < i && pred(j) ==> #[trigger] out@.contains(j as usize),
        decreases entries@.len() - i,
    {
        let take = probe_needed(&entries[i], &archive, Ghost(f), include_hidden);
        assert(take == pred(i as int));
        let ghost before = out@;
        if take {
            out.push(i);
            assert(out@[out@.len() - 1] == i);
        }
        proof {
            assert forall|j: int| 0 <= j <= i && pred(j) implies #[trigger] out@.contains(j as usize) by {
                if j < i {
                    assert(before.contains(j as usize));
                    let k = choose|k: int| 0 <= k < before.len() && before[k] == j as usize;
                    assert(out@[k] == j as usize);
                } else {
                    assert(out@[out@.len() - 1] == i);
                }
            }
        }
        i = i + 1;
    }
    assert(out@.no_duplicates()) by {
        assert forall|k: int, l: int| 0 <= k < out@.len() && 0 <= l < out@.len() && k != l implies out@[k] != out@[l] by {
            if k < l {
            } else {
            }
        }
    }
    out
}

/// What the walk does with one folder.
pub struct FolderPlan {
    /// The loose files, sorted by name.
    pub files: Vec<usize>,
    /// The subfolders to descend into, sorted by name.
    pub subfolders: Vec<usize>,
    /// Whether the folder holds more loose files than the threshold.
    pub qualifies: bool,
}

fn positions_where_loose(folder: Option<&str>, entries: &Vec<DirEntry>, include_hidden: bool, loose: bool) -> (r: Vec<usize>)
    ensures
        all_positions_valid(entries@, r@),
        loose ==> lists_exactly(
            r@,
            entries@.len(),
            |i: int| is_loose(entries@[i], opt_str_view(folder), include_hidden),
        ),
        !loose ==> lists_exactly(
            r@,
            entries@.len(),
            |i: int| is_descended(entries@[i], include_hidden),
        ),
{
    let archive = archive_chars(folder);
    let ghost f = opt_str_view(folder);
    let ghost pred = if loose {
        |i: int| is_loose(entries@[i], f, include_hidden)
    } else {
        |i: int| is_descended(entries@[i], include_hidden)
    };
    let mut out: Vec<usize> = Vec::new();
    let mut i: usize = 0;
    while i < entries.len()
        invariant
            i <= entries@.len(),
            opt_chars(archive) == archive_of_folder(f),
            pred == (if loose {
                |i: int| is_loose(entries@[i], f, include_hidden)
            } else {
                |i: int| is_descended(entries@[i], include_hidden)
            }),
            forall|k: int| 0 <= k < out@.len() ==> #[trigger] out@[k] < i && pred(out@[k] as int),
            forall|k: int, l: int| 0 <= k < l < out@.len() ==> out@[k] < out@[l],
            forall|j: int| 0 <= j < i && pred(j) ==> #[trigger] out@.contains(j as usize),
        decreases entries@.len() - i,
    {
        let e = &entries[i];
        let take = if loose {
            e.kind == EntryKind::File && visible(e, include_hidden) && !(probe_needed(e, &archive, Ghost(f), include_hidden) && e.marked)
        } else {
            e.kind == EntryKind::Directory && visible(e, include_hidden)
        };
        assert(take == pred(i as int));
        let ghost before = out@;
        if take {
            out.push(i);
            assert(out@[out@.len() - 1] == i);
        }
        proof {
            assert forall|j: int| 0 <= j <= i && pred(j) implies #[trigger] out@.contains(j as usize) by {
                if j < i {
                    assert(before.contains(j as usize));
                    let k = choose|k: int| 0 <= k < before.len() && before[k] == j as usize;
                    assert(out@[k] == j as usize);
                } else {
                    assert(out@[out@.len() - 1] == i);
                }
            }
        }
        i = i + 1;
    }
    assert(out@.no_duplicates()) by {
        assert forall|k: int, l: int| 0 <= k < out@.len() && 0 <= l < out@.len() && k != l implies out@[k] != out@[l] by {
            if k < l {
            } else {
            }
        }
    }
    out
}

/// Judges one folder from its direct entries: which files are loose,
/// which subfolders to descend into, and whether it qualifies.
///
/// `folder` is the folder's own name (`None` for a root without one);
/// `marked` must already be set on the entries [`archives_to_probe`] names.
pub fn plan_folder(folder: Option<&str>, entries: &Vec<DirEntry>, include_hidden: bool, threshold: usize) -> (r: FolderPlan)
    ensures
        lists_exactly(
            r.files@,
            entries@.len(),
            |i: int| is_loose(entries@[i], opt_str_view(folder), include_hidden),
        ),
        ranked_in_order(entries@, r.files@),
        lists_exactly(
            r.subfolders@,
            entries@.len(),
            |i: int| is_descended(entries@[i], include_hidden),
        ),
        ranked_in_order(entries@, r.subfolders@),
        r.qualifies == (r.files@.len() > threshold),
{
    let loose = positions_where_loose(folder, entries, include_hidden, true);
    let subs = positions_where_loose(folder, entries, include_hidden, false);
    let files = sort_positions(entries, &loose);
    let subfolders = sort_positions(entries, &subs);
    proof {
        lemma_lists_exactly_permuted(
            loose@,
            files@,
            entries@.len(),
            |i: int| is_loose(entries@[i], opt_str_view(folder), include_hidden),
        );
        lemma_lists_exactly_permuted(
            subs@,
            subfolders@,
            entries@.len(),
            |i: int| is_descended(entries@[i], include_hidden),
        );
    }
    let qualifies = files.len() > threshold;
    FolderPlan { files, subfolders, qualifies }
}

/// Re-running is safe: a folder whose only plain files are its own marked
/// archive (and hidden files, unless they are included) has no loose file,
/// so it never qualifies again.
pub proof fn law_archived_folder_is_left_alone(
    folder: Option<Seq<char>>,
    entries: Seq<DirEntry>,
    include_hidden: bool,
    files: Seq<usize>,
    qualifies: bool,
    threshold: usize,
)
    requires
        lists_exactly(files, entries.len(), |i: int| is_loose(entries[i], folder, include_hidden)),
        qualifies == (files.len() > threshold),
        forall|i: int|
            0 <= i < entries.len() && (#[trigger] entries[i]).kind == EntryKind::File ==> is_own_archive(
                entries[i],
                folder,
                include_hidden,
            ) || !is_visible(entries[i], include_hidden),
    ensures
        files.len() == 0,
        !qualifies,
{
    if files.len() > 0 {
        let i = files[0] as int;
        assert(is_loose(entries[i], folder, include_hidden));
    }
}

} // verus!

//! Building and checking one folder's archive: which files can go in, when
//! an append is refused, what the finished archive must hold, and which
//! originals may then be deleted.

use vstd::prelude::*;
use vstd::utf8::encode_utf8;

use crate::order::{bytes_le, all_positions_valid, ranked_in_order, sort_positions, Ranked};
use crate::select::{lists_exactly, lemma_lists_exactly_permuted};
use crate::text::{chars_equal, chars_of, debug_quoted, debug_text, decimal, decimal_string, decimal_u64, push_text};

verus! {

/// What was recorded about one entry as it went into the archive, or what
/// an existing archive's directory says about one of its entries.
pub struct Recorded {
    pub name: String,
    pub size: u64,
    pub crc: u32,
}

/// How entries are written.
#[derive(PartialEq, Eq, Structural, Clone, Copy)]
pub enum Compression {
    Stored,
    Deflated,
}

/// `-store` writes entries uncompressed; otherwise they are deflated.
pub fn compression_for(store: bool) -> (r: Compression)
    ensures
        r == (if store {
            Compression::Stored
        } else {
            Compression::Deflated
        }),
{
    if store {
        Compression::Stored
    } else {
        Compression::Deflated
    }
}

/// Entries of `u32::MAX` bytes or more need a zip64 record.
pub fn needs_zip64(len: u64) -> (r: bool)
    ensures
        r == (len >= u32::MAX),
{
    len >= 0xFFFF_FFFFu64
}

/// Appending happens only to an existing archive that carries the marker.
pub fn appends(archive_exists: bool, marked: bool) -> (r: bool)
    ensures
        r == (archive_exists && marked),
{
    archive_exists && marked
}

/// The files whose names are valid UTF-8 go into the archive; the others
/// stay on disk. Returns both lists of positions, each in the given order.
pub fn usable_sources(valid_utf8: &Vec<bool>) -> (r: (Vec<usize>, Vec<usize>))
    ensures
        lists_exactly(r.0@, valid_utf8@.len(), |i: int| valid_utf8@[i]),
        lists_exactly(r.1@, valid_utf8@.len(), |i: int| !valid_utf8@[i]),
        forall|k: int, l: int| 0 <= k < l < r.0@.len() ==> r.0@[k] < r.0@[l],
        forall|k: int, l: int| 0 <= k < l < r.1@.len() ==> r.1@[k] < r.1@[l],
        r.0@.len() + r.1@.len() == valid_utf8@.len(),
{
    let mut usable: Vec<usize> = Vec::new();
    let mut left: Vec<usize> = Vec::new();
    let mut i: usize = 0;
    while i < valid_utf8.len()
        invariant
            i <= valid_utf8@.len(),
            forall|k: int| 0 <= k < usable@.len() ==> #[trigger] usable@[k] < i && valid_utf8@[usable@[k] as int],
            forall|k: int| 0 <= k < left@.len() ==> #[trigger] left@[k] < i && !valid_utf8@[left@[k] as int],
            forall|k: int, l: int| 0 <= k < l < usable@.len() ==> usable@[k] < usable@[l],
            forall|k: int, l: int| 0 <= k < l < left@.len() ==> left@[k] < left@[l],
            forall|j: int| 0 <= j < i && valid_utf8@[j] ==> #[trigger] usable@.contains(j as usize),
            forall|j: int| 0 <= j < i && !valid_utf8@[j] ==> #[trigger] left@.contains(j as usize),
            usable@.len() + left@.len() == i,
        decreases valid_utf8@.len() - i,
    {
        let ghost u0 = usable@;
        let ghost l0 = left@;
        if valid_utf8[i] {
            usable.push(i);
        } else {
            left.push(i);
        }
        proof {
            assert forall|j: int| 0 <= j <= i && valid_utf8@[j] implies #[trigger] usable@.contains(j as usize) by {
                if j < i {
                    assert(u0.contains(j as usize));
                    let k = choose|k: int| 0 <= k < u0.len() && u0[k] == j as usize;
                    assert(usable@[k] == j as usize);
                } else {
                    assert(usable@[usable@.len() - 1] == i);
                }
            }
            assert forall|j: int| 0 <= j <= i && !valid_utf8@[j] implies #[trigger] left@.contains(j as usize) by {
                if j < i {
                    assert(l0.contains(j as usize));
                    let k = choose|k: int| 0 <= k < l0.len() && l0[k] == j as usize;
                    assert(left@[k] == j as usize);
                } else {
                    assert(left@[left@.len() - 1] == i);
                }
            }
        }
        i = i + 1;
    }
    assert(usable@.no_duplicates()) by {
        assert forall|k: int, l: int| 0 <= k < usable@.len() && 0 <= l < usable@.len() && k != l implies usable@[k] != usable@[l] by {
            if k < l {
            } else {
            }
        }
    }
    assert(left@.no_duplicates()) by {
        assert forall|k: int, l: int| 0 <= k < left@.len() && 0 <= l < left@.len() && k != l implies left@[k] != left@[l] by {
            if k < l {
            } else {
            }
        }
    }
    (usable, left)
}

/// What the audit counts is what an archive run takes in: when every loose
/// file's name is UTF-8, all of them are archived and none is left behind.
pub proof fn law_audit_count_is_archived_count(valid_utf8: Seq<bool>, usable: Seq<usize>, left: Seq<usize>)
    requires
        lists_exactly(usable, valid_utf8.len(), |i: int| valid_utf8[i]),
        lists_exactly(left, valid_utf8.len(), |i: int| !valid_utf8[i]),
        usable.len() + left.len() == valid_utf8.len(),
        forall|i: int| 0 <= i < valid_utf8.len() ==> #[trigger] valid_utf8[i],
    ensures
        usable.len() == valid_utf8.len(),
        left.len() == 0,
{
    if left.len() > 0 {
        assert(!valid_utf8[left[0] as int]);
    }
}

// ---------------------------------------------------------------------------
// Name collisions when appending.
// ---------------------------------------------------------------------------

/// Whether `name` is already an entry of the archive.
pub open spec fn already_archived(name: Seq<char>, existing: Seq<Recorded>) -> bool {
    exists|j: int| 0 <= j < existing.len() && #[trigger] existing[j].name@ == name
}

/// An incoming name together with its UTF-8 bytes, which is how names sort.
pub struct NameKey {
    pub bytes: Vec<u8>,
}

impl Ranked for NameKey {
    open spec fn ranks_le(&self, other: &Self) -> bool {
        bytes_le(self.bytes@, other.bytes@)
    }

    proof fn lemma_total(a: &Self, b: &Self) {
        crate::order::lemma_bytes_le_total(a.bytes@, b.bytes@);
    }

    proof fn lemma_trans(a: &Self, b: &Self, c: &Self) {
        crate::order::lemma_bytes_le_trans(a.bytes@, b.bytes@, c.bytes@);
    }

    fn le(&self, other: &Self) -> (r: bool) {
        crate::order::le_bytes(self.bytes.as_slice(), other.bytes.as_slice())
    }
}

/// Names ordered the way strings compare: by their UTF-8 bytes.
pub open spec fn name_le(a: Seq<char>, b: Seq<char>) -> bool {
    bytes_le(encode_utf8(a), encode_utf8(b))
}

fn name_key(s: &str) -> (r: NameKey)
    ensures
        r.bytes@ == encode_utf8(s@),
{
    let b = s.as_bytes();
    let mut out: Vec<u8> = Vec::new();
    let mut i: usize = 0;
    while i < b.len()
        invariant
            i <= b@.len(),
            out@ =~= b@.take(i as int),
        decreases b@.len() - i,
    {
        out.push(b[i]);
        i = i + 1;
    }
    assert(b@.take(b@.len() as int) =~= b@);
    NameKey { bytes: out }
}

/// Whether an entry of `existing` is named `name`. The entries are scanned
/// in turn: a `HashSet<String>` of their names would have no specification
/// of `contains` that these contracts could rest on.
fn archived_already(name: &str, existing: &Vec<Recorded>) -> (r: bool)
    ensures
        r == already_archived(name@, existing@),
{
    let n = chars_of(name);
    let mut j: usize = 0;
    while j < existing.len()
        invariant
            j <= existing@.len(),
            n@ == name@,
            forall|k: int| 0 <= k < j ==> existing@[k].name@ != name@,
        decreases existing@.len() - j,
    {
        let e = chars_of(existing[j].name.as_str());
        if chars_equal(e.as_slice(), n.as_slice()) {
            return true;
        }
        j = j + 1;
    }
    false
}

/// The positions of the incoming names that an existing entry already
/// holds, sorted by name.
pub fn find_collisions(existing: &Vec<Recorded>, incoming: &Vec<String>) -> (r: Vec<usize>)
    ensures
        lists_exactly(r@, incoming@.len(), |i: int| already_archived(incoming@[i]@, existing@)),
        forall|k: int, l: int|
            #![trigger r@[k], r@[l]]
            0 <= k < l < r@.len() ==> name_le(incoming@[r@[k] as int]@, incoming@[r@[l] as int]@),
{
    let mut keys: Vec<NameKey> = Vec::new();
    let mut picks: Vec<usize> = Vec::new();
    let ghost pred = |i: int| already_archived(incoming@[i]@, existing@);
    let mut i: usize = 0;
    while i < incoming.len()
        invariant
            i <= incoming@.len(),
            keys@.len() == i,
            forall|k: int| 0 <= k < i ==> (#[trigger] keys@[k]).bytes@ == encode_utf8(incoming@[k]@),
            pred == (|i: int| already_archived(incoming@[i]@, existing@)),
            forall|k: int| 0 <= k < picks@.len() ==> #[trigger] picks@[k] < i && pred(picks@[k] as int),
            forall|k: int, l: int| 0 <= k < l < picks@.len() ==> picks@[k] < picks@[l],
            forall|j: int| 0 <= j < i && pred(j) ==> #[trigger] picks@.contains(j as usize),
        decreases incoming@.len() - i,
    {
        keys.push(name_key(incoming[i].as_str()));
        let ghost p0 = picks@;
        if archived_already(incoming[i].as_str(), existing) {
            picks.push(i);
        }
        proof {
            assert forall|j: int| 0 <= j <= i && pred(j) implies #[trigger] picks@.contains(j as usize) by {
                if j < i {
                    assert(p0.contains(j as usize));
                    let k = choose|k: int| 0 <= k < p0.len() && p0[k] == j as usize;
                    assert(picks@[k] == j as usize);
                } else {
                    assert(picks@[picks@.len() - 1] == i);
                }
            }
        }
        i = i + 1;
    }
    assert(picks@.no_duplicates()) by {
        assert forall|k: int, l: int| 0 <= k < picks@.len() && 0 <= l < picks@.len() && k != l implies picks@[k] != picks@[l] by {
            if k < l {
            } else {
            }
        }
    }
    let sorted = sort_positions(&keys, &picks);
    proof {
        lemma_lists_exactly_permuted(picks@, sorted@, incoming@.len(), pred);
        assert forall|k: int, l: int|
            #![trigger sorted@[k], sorted@[l]]
            0 <= k < l < sorted@.len() implies name_le(
                incoming@[sorted@[k] as int]@,
                incoming@[sorted@[l] as int]@,
            ) by {
            assert(keys@[sorted@[k] as int].ranks_le(&keys@[sorted@[l] as int]));
        }
    }
    sorted
}

/// At most five names, joined by commas, then how many more there are.
pub open spec fn clash_list_text(names: Seq<Seq<char>>) -> Seq<char> {
    joined(names.take(if names.len() < 5 {
        names.len() as int
    } else {
        5
    })) + (if names.len() > 5 {
        ", and "@ + decimal((names.len() - 5) as nat) + " more"@
    } else {
        Seq::empty()
    })
}

/// `names` joined by `", "`.
pub open spec fn joined(names: Seq<Seq<char>>) -> Seq<char>
    decreases names.len(),
{
    if names.len() == 0 {
        Seq::empty()
    } else if names.len() == 1 {
        names[0]
    } else {
        joined(names.drop_last()) + ", "@ + names.last()
    }
}

/// The message refusing an append: the archive, how many names collide,
/// and which.
pub open spec fn collision_text(archive: Seq<char>, names: Seq<Seq<char>>) -> Seq<char> {
    archive + " already contains "@ + (if names.len() == 1 {
        "a file with the same name"@
    } else {
        decimal(names.len()) + " files with the same names"@
    }) + "; refusing to append and overwrite ("@ + clash_list_text(names) + ")"@
}

/// The colliding names, in the order `order` gives.
pub open spec fn names_at(incoming: Seq<String>, order: Seq<usize>) -> Seq<Seq<char>> {
    Seq::new(order.len(), |k: int| incoming[order[k] as int]@)
}

/// Builds the refusal message for the colliding names at `order`.
pub fn collision_message(archive: &str, incoming: &Vec<String>, order: &Vec<usize>) -> (r: String)
    requires
        order@.len() > 0,
        all_positions_valid(incoming@, order@),
    ensures
        r@ == collision_text(archive@, names_at(incoming@, order@)),
{
    let ghost names = names_at(incoming@, order@);
    let mut out = String::new();
    push_text(&mut out, archive);
    push_text(&mut out, " already contains ");
    if order.len() == 1 {
        push_text(&mut out, "a file with the same name");
    } else {
        let n = decimal_string(order.len());
        push_text(&mut out, n.as_str());
        push_text(&mut out, " files with the same names");
    }
    push_text(&mut out, "; refusing to append and overwrite (");
    let shown: usize = if order.len() < 5 {
        order.len()
    } else {
        5
    };
    let ghost head = out@;
    let mut k: usize = 0;
    while k < shown
        invariant
            k <= shown <= order@.len(),
            shown == (if order@.len() < 5 {
                order@.len()
            } else {
                5
            }),
            all_positions_valid(incoming@, order@),
            names == names_at(incoming@, order@),
            out@ == head + joined(names.take(k as int)),
        decreases shown - k,
    {
        assert(names.take(k + 1).drop_last() =~= names.take(k as int));
        assert(names.take(k + 1).last() == incoming@[order@[k as int] as int]@);
        if k > 0 {
            push_text(&mut out, ", ");
        } else {
            assert(names.take(1) =~= seq![names[0]]);
            assert(joined(names.take(0)) =~= Seq::<char>::empty());
        }
        push_text(&mut out, incoming[order[k]].as_str());
        k = k + 1;
    }
    if order.len() > shown {
        push_text(&mut out, ", and ");
        let more = decimal_string(order.len() - shown);
        push_text(&mut out, more.as_str());
        push_text(&mut out, " more");
    }
    push_text(&mut out, ")");
    proof {
        assert(names.len() == order@.len());
    }
    out
}

/// Refuses to append when an incoming name is already an entry of the
/// archive: the entry's original is long gone, so shadowing it would make it
/// unreachable. The message names the colliding files in sorted order.
pub fn reject_collisions(archive: &str, existing: &Vec<Recorded>, incoming: &Vec<String>) -> (r: Result<(), String>)
    ensures
        r is Ok <==> forall|i: int| 0 <= i < incoming@.len() ==> !already_archived(
            #[trigger] incoming@[i]@,
            existing@,
        ),
        r is Err ==> exists|order: Seq<usize>|
            {
                &&& lists_exactly(
                    order,
                    incoming@.len(),
                    |i: int| already_archived(incoming@[i]@, existing@),
                )
                &&& forall|k: int, l: int|
                    #![trigger order[k], order[l]]
                    0 <= k < l < order.len() ==> name_le(
                        incoming@[order[k] as int]@,
                        incoming@[order[l] as int]@,
                    )
                &&& r->Err_0@ == collision_text(archive@, names_at(incoming@, order))
            },
{
    let clashes = find_collisions(existing, incoming);
    if clashes.len() == 0 {
        proof {
            assert forall|i: int| 0 <= i < incoming@.len() implies !already_archived(
                #[trigger] incoming@[i]@,
                existing@,
            ) by {
                if already_archived(incoming@[i]@, existing@) {
                    assert(clashes@.contains(i as usize));
                }
            }
        }
        return Ok(());
    }
    proof {
        let i = clashes@[0] as int;
        assert(already_archived(incoming@[i]@, existing@));
    }
    let msg = collision_message(archive, incoming, &clashes);
    Err(msg)
}

// ---------------------------------------------------------------------------
// Checking the finished archive.
// ---------------------------------------------------------------------------

/// Why a finished archive was rejected.
pub enum VerifyError {
    /// It holds a different number of entries than were expected.
    EntryCount { held: usize, wanted: usize },
    /// Entry `index` has another name than expected.
    WrongName { index: usize, found_name: String, expected_name: String },
    /// An entry decompresses to another number of bytes.
    WrongSize { name: String, found_size: u64, expected_size: u64 },
    /// An entry's data hashes to another CRC-32.
    WrongChecksum { name: String },
}

impl VerifyError {
    /// The words that report this failure.
    pub open spec fn text(&self) -> Seq<char> {
        match self {
            VerifyError::EntryCount { held, wanted } => "archive holds "@ + decimal(*held as nat)
                + " entries but "@ + decimal(*wanted as nat) + " were expected"@,
            VerifyError::WrongName { index, found_name, expected_name } => "entry "@ + decimal(
                *index as nat,
            ) + " is named "@ + debug_text(found_name@) + " but "@ + debug_text(expected_name@)
                + " was expected"@,
            VerifyError::WrongSize { name, found_size, expected_size } => name@
                + " reads back as "@ + decimal(*found_size as nat) + " bytes but "@ + decimal(
                *expected_size as nat,
            ) + " were expected"@,
            VerifyError::WrongChecksum { name } => name@ + " failed its checksum check"@,
        }
    }

    /// Writes out the failure for the user.
    pub fn message(&self) -> (r: String)
        ensures
            r@ == self.text(),
    {
        let mut out = String::new();
        match self {
            VerifyError::EntryCount { held, wanted } => {
                push_text(&mut out, "archive holds ");
                push_text(&mut out, decimal_string(*held).as_str());
                push_text(&mut out, " entries but ");
                push_text(&mut out, decimal_string(*wanted).as_str());
                push_text(&mut out, " were expected");
            },
            VerifyError::WrongName { index, found_name, expected_name } => {
                push_text(&mut out, "entry ");
                push_text(&mut out, decimal_string(*index).as_str());
                push_text(&mut out, " is named ");
                push_text(&mut out, debug_quoted(found_name.as_str()).as_str());
                push_text(&mut out, " but ");
                push_text(&mut out, debug_quoted(expected_name.as_str()).as_str());
                push_text(&mut out, " was expected");
            },
            VerifyError::WrongSize { name, found_size, expected_size } => {
                push_text(&mut out, name.as_str());
                push_text(&mut out, " reads back as ");
                push_text(&mut out, decimal_u64(*found_size).as_str());
                push_text(&mut out, " bytes but ");
                push_text(&mut out, decimal_u64(*expected_size).as_str());
                push_text(&mut out, " were expected");
            },
            VerifyError::WrongChecksum { name } => {
                push_text(&mut out, name.as_str());
                push_text(&mut out, " failed its checksum check");
            },
        }
        out
    }
}

/// The entries a finished archive must hold: those it already held, in
/// their order, then the new ones in the order they were written.
pub fn carried_forward(existing: Vec<Recorded>, written: Vec<Recorded>) -> (r: Vec<Recorded>)
    ensures
        r@ == existing@ + written@,
{
    let mut all = existing;
    let mut rest = written;
    all.append(&mut rest);
    all
}

/// The archive must hold exactly as many entries as were recorded.
pub fn check_entry_count(found: usize, expected: usize) -> (r: Result<(), VerifyError>)
    ensures
        r is Ok <==> found == expected,
        r is Err ==> r->Err_0 == (VerifyError::EntryCount { held: found, wanted: expected }),
{
    if found != expected {
        Err(VerifyError::EntryCount { held: found, wanted: expected })
    } else {
        Ok(())
    }
}

/// An entry read back must carry the name recorded for its position.
pub fn check_entry_name(index: usize, expected: &Recorded, found_name: &str) -> (r: Result<(), VerifyError>)
    ensures
        r is Ok <==> found_name@ == expected.name@,
        r is Err ==> r->Err_0 is WrongName && r->Err_0->index == index && r->Err_0->found_name@
            == found_name@ && r->Err_0->expected_name@ == expected.name@,
{
    let a = chars_of(found_name);
    let b = chars_of(expected.name.as_str());
    if !chars_equal(a.as_slice(), b.as_slice()) {
        return Err(
            VerifyError::WrongName {
                index,
                found_name: found_name.to_owned(),
                expected_name: expected.name.clone(),
            },
        );
    }
    Ok(())
}

/// An entry's data, as actually decompressed, must have the recorded size
/// and CRC-32; the size is checked first.
pub fn check_entry_data(expected: &Recorded, found_size: u64, found_crc: u32) -> (r: Result<(), VerifyError>)
    ensures
        r is Ok <==> (found_size == expected.size && found_crc == expected.crc),
        r is Err && found_size != expected.size ==> r->Err_0 is WrongSize
            && r->Err_0->WrongSize_name@ == expected.name@ && r->Err_0->found_size == found_size
            && r->Err_0->expected_size == expected.size,
        r is Err && found_size == expected.size ==> r->Err_0 is WrongChecksum
            && r->Err_0->WrongChecksum_name@ == expected.name@,
{
    if found_size != expected.size {
        return Err(
            VerifyError::WrongSize {
                name: expected.name.clone(),
                found_size,
                expected_size: expected.size,
            },
        );
    }
    if found_crc != expected.crc {
        return Err(VerifyError::WrongChecksum { name: expected.name.clone() });
    }
    Ok(())
}

/// Checks one entry read back out of the finished archive against what was
/// recorded for it: first its name, then the size and CRC-32 of its data as
/// actually decompressed.
pub fn check_entry(index: usize, expected: &Recorded, found_name: &str, found_size: u64, found_crc: u32) -> (r: Result<(), VerifyError>)
    ensures
        r is Ok <==> (found_name@ == expected.name@ && found_size == expected.size && found_crc
            == expected.crc),
        r is Err && found_name@ != expected.name@ ==> r->Err_0 is WrongName
            && r->Err_0->index == index && r->Err_0->found_name@ == found_name@
            && r->Err_0->expected_name@ == expected.name@,
        r is Err && found_name@ == expected.name@ && found_size != expected.size ==> r->Err_0 is WrongSize
            && r->Err_0->WrongSize_name@ == expected.name@ && r->Err_0->found_size == found_size
            && r->Err_0->expected_size == expected.size,
        r is Err && found_name@ == expected.name@ && found_size == expected.size ==> r->Err_0 is WrongChecksum
            && r->Err_0->WrongChecksum_name@ == expected.name@,
{
    match check_entry_name(index, expected, found_name) {
        Err(e) => Err(e),
        Ok(()) => check_entry_data(expected, found_size, found_crc),
    }
}

/// What reading one entry of a finished archive back gave.
pub enum EntryRead {
    /// The entry could not be opened, or its name not read; why, in words.
    Unreadable(String),
    /// The entry's name, and the length and CRC-32 of its data as actually
    /// decompressed, or why the data could not be read.
    Read { name: String, data: Result<(u64, u32), String> },
}

/// What is wrong with entry `index`, read back as `read`, when `expected`
/// was recorded for it; `None` when it matches. The name is checked first,
/// then the data's length, then its CRC-32.
pub open spec fn entry_failure(index: int, expected: Recorded, read: EntryRead) -> Option<Seq<char>> {
    match read {
        EntryRead::Unreadable(why) => Some(why@),
        EntryRead::Read { name, data } => if name@ != expected.name@ {
            Some(
                (VerifyError::WrongName {
                    index: index as usize,
                    found_name: name,
                    expected_name: expected.name,
                }).text(),
            )
        } else {
            match data {
                Err(why) => Some(why@),
                Ok((size, crc)) => if size != expected.size {
                    Some(
                        (VerifyError::WrongSize {
                            name: expected.name,
                            found_size: size,
                            expected_size: expected.size,
                        }).text(),
                    )
                } else if crc != expected.crc {
                    Some((VerifyError::WrongChecksum { name: expected.name }).text())
                } else {
                    None
                },
            }
        },
    }
}

/// The first entry, from position `from` on, that does not match.
pub open spec fn first_failure(expected: Seq<Recorded>, reads: Seq<EntryRead>, from: int) -> Option<
    Seq<char>,
>
    decreases expected.len() - from,
{
    if from < 0 || from >= expected.len() {
        None
    } else {
        match entry_failure(from, expected[from], reads[from]) {
            Some(why) => Some(why),
            None => first_failure(expected, reads, from + 1),
        }
    }
}

/// What is wrong with an archive holding `held` entries, read back as
/// `reads`, when `expected` was recorded; `None` when it matches.
pub open spec fn archive_failure(held: int, expected: Seq<Recorded>, reads: Seq<EntryRead>) -> Option<
    Seq<char>,
> {
    if held != expected.len() {
        Some((VerifyError::EntryCount { held: held as usize, wanted: expected.len() as usize }).text())
    } else {
        first_failure(expected, reads, 0)
    }
}

/// Checks a finished archive read back against what was recorded: it must
/// hold exactly as many entries, and each, in order, must carry the
/// recorded name, length and CRC-32. The first failure is reported. The
/// entries need only be read when the count matches.
pub fn verify_entries(held: usize, expected: &Vec<Recorded>, reads: &Vec<EntryRead>) -> (r: Result<(), String>)
    requires
        held == expected@.len() ==> reads@.len() == expected@.len(),
    ensures
        r is Ok <==> held == expected@.len() && forall|i: int|
            0 <= i < expected@.len() ==> #[trigger] entry_failure(i, expected@[i], reads@[i]) is None,
        r is Ok ==> archive_failure(held as int, expected@, reads@) is None,
        r matches Err(why) ==> archive_failure(held as int, expected@, reads@) == Some(why@),
{
    match check_entry_count(held, expected.len()) {
        Err(e) => {
            return Err(e.message());
        },
        Ok(()) => {},
    }
    let mut i: usize = 0;
    while i < expected.len()
        invariant
            i <= expected@.len(),
            held == expected@.len(),
            reads@.len() == expected@.len(),
            forall|j: int| 0 <= j < i ==> #[trigger] entry_failure(j, expected@[j], reads@[j]) is None,
            first_failure(expected@, reads@, 0) == first_failure(expected@, reads@, i as int),
        decreases expected@.len() - i,
    {
        let ghost at = entry_failure(i as int, expected@[i as int], reads@[i as int]);
        match &reads[i] {
            EntryRead::Unreadable(why) => {
                return Err(why.clone());
            },
            EntryRead::Read { name, data } => {
                match check_entry_name(i, &expected[i], name.as_str()) {
                    Err(e) => {
                        return Err(e.message());
                    },
                    Ok(()) => {},
                }
                match data {
                    Err(why) => {
                        return Err(why.clone());
                    },
                    Ok((size, crc)) => {
                        match check_entry_data(&expected[i], *size, *crc) {
                            Err(e) => {
                                return Err(e.message());
                            },
                            Ok(()) => {},
                        }
                    },
                }
            },
        }
        assert(at is None);
        i = i + 1;
    }
    Ok(())
}

/// The refusal when a leftover `.part` file shows that an earlier run died
/// mid-write.
pub fn leftover_part_message(part: &str) -> (r: String)
    ensures
        r@ == part@ + " already exists (leftover from an interrupted run); remove it first"@,
{
    let mut out = String::new();
    push_text(&mut out, part);
    push_text(&mut out, " already exists (leftover from an interrupted run); remove it first");
    out
}

/// The refusal when none of a folder's files can go into an archive.
pub fn nothing_archivable_message() -> (r: String)
    ensures
        r@ == "no archivable files remain in this folder"@,
{
    let mut out = String::new();
    push_text(&mut out, "no archivable files remain in this folder");
    out
}

/// A file whose length changed while it was being archived abandons the
/// folder.
pub fn unchanged_while_copied(measured: u64, copied: u64) -> (r: bool)
    ensures
        r == (measured == copied),
{
    measured == copied
}

/// Whether an archived original is deleted from disk. A `<folder>.zip` that
/// was archived as ordinary content sits where the new archive was renamed
/// to: the rename already replaced it, and deleting it would destroy the new
/// archive.
pub fn deletes_original(source_name: &str, archive_name: &str) -> (r: bool)
    ensures
        r == (source_name@ != archive_name@),
{
    let a = chars_of(source_name);
    let b = chars_of(archive_name);
    !chars_equal(a.as_slice(), b.as_slice())
}

} // verus!

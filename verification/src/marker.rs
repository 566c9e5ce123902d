//! The marker that identifies an archive this tool wrote: it lives in the
//! zip's own comment, so it travels inside the archive.

use vstd::prelude::*;
use vstd::utf8::encode_utf8;

use crate::text::push_text;

verus! {

/// The marker every archive's comment starts with.
pub const ARCHIVE_MARKER: &'static str = "onezipper-archive-v1";

/// What follows the marker in the comment.
pub const MARKER_TAIL: &'static str = " — created by OneZipper; files later added to this folder are appended here";

/// The comment every archive is stamped with.
pub fn marker_comment() -> (r: String)
    ensures
        r@ == ARCHIVE_MARKER@ + MARKER_TAIL@,
{
    let mut out = String::new();
    push_text(&mut out, ARCHIVE_MARKER);
    push_text(&mut out, MARKER_TAIL);
    out
}

/// The marker as the bytes a comment holds.
pub open spec fn marker_bytes() -> Seq<u8> {
    encode_utf8(ARCHIVE_MARKER@)
}

pub open spec fn starts_with_bytes(s: Seq<u8>, prefix: Seq<u8>) -> bool {
    prefix.len() <= s.len() && s.take(prefix.len() as int) == prefix
}

/// A zip whose comment could be read is ours when the comment starts with
/// the marker; a file that could not be opened as a zip is not.
pub open spec fn carries_marker(comment: Option<Seq<u8>>) -> bool {
    match comment {
        Some(c) => starts_with_bytes(c, marker_bytes()),
        None => false,
    }
}

fn marker_byte_vec() -> (r: Vec<u8>)
    ensures
        r@ == marker_bytes(),
{
    let mut out: Vec<u8> = Vec::new();
    let b = ARCHIVE_MARKER.as_bytes();
    let mut i: usize = 0;
    while i < b.len()
        invariant
            i <= b@.len(),
            b@ == marker_bytes(),
            out@ =~= b@.take(i as int),
        decreases b@.len() - i,
    {
        out.push(b[i]);
        i = i + 1;
    }
    assert(b@.take(b@.len() as int) =~= b@);
    out
}

/// Whether an archive comment (`None` when the file is not a readable zip)
/// carries the marker.
pub fn is_marked(comment: Option<&[u8]>) -> (r: bool)
    ensures
        r == carries_marker(
            match comment {
                Some(c) => Some(c@),
                None => None,
            },
        ),
        r <==> (comment matches Some(c) && c@.len() >= marker_bytes().len() && forall|k: int|
            0 <= k < marker_bytes().len() ==> c@[k] == #[trigger] marker_bytes()[k]),
{
    match comment {
        None => false,
        Some(c) => {
            let m = marker_byte_vec();
            if m.len() > c.len() {
                return false;
            }
            let mut i: usize = 0;
            while i < m.len()
                invariant
                    comment == Some(c),
                    m@ == marker_bytes(),
                    m@.len() <= c@.len(),
                    i <= m@.len(),
                    forall|k: int| 0 <= k < i ==> c@[k] == m@[k],
                decreases m@.len() - i,
            {
                if c[i] != m[i] {
                    assert(c@.take(m@.len() as int)[i as int] != m@[i as int]);
                    assert(c@.take(m@.len() as int) != m@);
                    assert(!starts_with_bytes(c@, marker_bytes()));
                    return false;
                }
                i = i + 1;
            }
            assert(c@.take(m@.len() as int) =~= m@);
            true
        },
    }
}

pub proof fn lemma_encode_concat(a: Seq<char>, b: Seq<char>)
    ensures
        encode_utf8(a + b) == encode_utf8(a) + encode_utf8(b),
    decreases a.len(),
{
    if a.len() == 0 {
        assert(a + b =~= b);
        assert(encode_utf8(a) =~= Seq::<u8>::empty());
        assert(Seq::<u8>::empty() + encode_utf8(b) =~= encode_utf8(b));
    } else {
        assert((a + b).drop_first() =~= a.drop_first() + b);
        assert((a + b)[0] == a[0]);
        lemma_encode_concat(a.drop_first(), b);
        assert(encode_utf8(a + b) =~= encode_utf8(a) + encode_utf8(b));
    }
}

/// Every archive the tool writes is recognised as its own: the comment it
/// stamps, stored as UTF-8, carries the marker.
pub proof fn law_stamped_archives_are_recognised(comment: Seq<char>)
    requires
        comment == ARCHIVE_MARKER@ + MARKER_TAIL@,
    ensures
        carries_marker(Some(encode_utf8(comment))),
{
    lemma_encode_concat(ARCHIVE_MARKER@, MARKER_TAIL@);
    let m = encode_utf8(ARCHIVE_MARKER@);
    let t = encode_utf8(MARKER_TAIL@);
    assert((m + t).take(m.len() as int) =~= m);
}

/// The marker's bytes are those of its text, one per character: it is
/// plain ASCII, twenty characters long.
pub proof fn lemma_marker_is_ascii()
    ensures
        marker_bytes().len() == ARCHIVE_MARKER@.len(),
        ARCHIVE_MARKER@.len() == 20,
        forall|k: int| 0 <= k < marker_bytes().len() ==> #[trigger] marker_bytes()[k] == ARCHIVE_MARKER@[k] as u8,
{
    reveal_strlit("onezipper-archive-v1");
    assert(ARCHIVE_MARKER@ == "onezipper-archive-v1"@);
    assert(vstd::utf8::is_ascii_chars(ARCHIVE_MARKER@));
    vstd::utf8::is_ascii_chars_encode_utf8(ARCHIVE_MARKER@);
}

/// A comment is the tool's own exactly when it begins with the marker's
/// bytes; a comment shorter than the marker, an empty one among them, is
/// never ours, and neither is a file that is no readable zip.
pub proof fn law_only_comments_starting_with_the_marker_are_ours(c: Seq<u8>)
    ensures
        carries_marker(Some(c)) <==> (c.len() >= marker_bytes().len() && forall|k: int|
            0 <= k < marker_bytes().len() ==> c[k] == #[trigger] marker_bytes()[k]),
        c.len() < 20 ==> !carries_marker(Some(c)),
        !carries_marker(None),
{
    lemma_marker_is_ascii();
    let m = marker_bytes();
    if c.len() >= m.len() {
        if forall|k: int| 0 <= k < m.len() ==> c[k] == #[trigger] m[k] {
            assert(c.take(m.len() as int) =~= m);
        }
        if c.take(m.len() as int) == m {
            assert forall|k: int| 0 <= k < m.len() implies c[k] == #[trigger] m[k] by {
                assert(c.take(m.len() as int)[k] == c[k]);
            }
        }
    }
}

} // verus!

//! The `-ignore` file: one folder per line, blank lines and `#` comments
//! skipped, surrounding whitespace trimmed.

use vstd::prelude::*;

use crate::text::{chars_of, string_of};

verus! {

/// Unicode white space, which trimming removes.
pub open spec fn is_white(c: char) -> bool {
    ||| '\t' <= c <= '\r'
    ||| c == ' '
    ||| c == '\u{85}'
    ||| c == '\u{A0}'
    ||| c == '\u{1680}'
    ||| '\u{2000}' <= c <= '\u{200A}'
    ||| c == '\u{2028}'
    ||| c == '\u{2029}'
    ||| c == '\u{202F}'
    ||| c == '\u{205F}'
    ||| c == '\u{3000}'
}

pub open spec fn trim_start(s: Seq<char>) -> Seq<char>
    decreases s.len(),
{
    if s.len() > 0 && is_white(s[0]) {
        trim_start(s.drop_first())
    } else {
        s
    }
}

pub open spec fn trim_end(s: Seq<char>) -> Seq<char>
    decreases s.len(),
{
    if s.len() > 0 && is_white(s.last()) {
        trim_end(s.drop_last())
    } else {
        s
    }
}

/// `s` without white space at either end.
pub open spec fn trimmed(s: Seq<char>) -> Seq<char> {
    trim_end(trim_start(s))
}

/// Splits `s` at every newline, from position `i` on, with `cur` holding the
/// part of the current line already seen.
pub open spec fn split_from(s: Seq<char>, i: int, cur: Seq<char>) -> Seq<Seq<char>>
    decreases s.len() - i,
{
    if i < 0 || i >= s.len() {
        seq![cur]
    } else if s[i] == '\n' {
        seq![cur] + split_from(s, i + 1, Seq::empty())
    } else {
        split_from(s, i + 1, cur.push(s[i]))
    }
}

/// The pieces of `s` between newlines.
pub open spec fn pieces(s: Seq<char>) -> Seq<Seq<char>> {
    split_from(s, 0, Seq::empty())
}

/// A trimmed line that names a folder: not blank, not a comment.
pub open spec fn names_a_folder(line: Seq<char>) -> bool {
    line.len() > 0 && line[0] != '#'
}

/// The folders a list names, trimmed, in order. Splitting at newlines and
/// trimming gives the same lines as reading line by line would, since a
/// carriage return before a newline is white space, and the empty piece
/// after a final newline is blank.
pub open spec fn listed_folders(lines: Seq<Seq<char>>) -> Seq<Seq<char>>
    decreases lines.len(),
{
    if lines.len() == 0 {
        Seq::empty()
    } else {
        let rest = listed_folders(lines.drop_last());
        let t = trimmed(lines.last());
        if names_a_folder(t) {
            rest.push(t)
        } else {
            rest
        }
    }
}

fn is_white_char(c: char) -> (r: bool)
    ensures
        r == is_white(c),
{
    ('\t' <= c && c <= '\r') || c == ' ' || c == '\u{85}' || c == '\u{A0}' || c == '\u{1680}' || (
    '\u{2000}' <= c && c <= '\u{200A}') || c == '\u{2028}' || c == '\u{2029}' || c == '\u{202F}'
        || c == '\u{205F}' || c == '\u{3000}'
}

/// Trims white space from both ends of `s`.
pub fn trim(s: &[char]) -> (r: Vec<char>)
    ensures
        r@ == trimmed(s@),
{
    let mut a: usize = 0;
    assert(s@.subrange(0, s@.len() as int) =~= s@);
    while a < s.len() && is_white_char(s[a])
        invariant
            a <= s@.len(),
            trim_start(s@) == trim_start(s@.subrange(a as int, s@.len() as int)),
        decreases s@.len() - a,
    {
        assert(s@.subrange(a as int, s@.len() as int).drop_first() =~= s@.subrange(
            a + 1,
            s@.len() as int,
        ));
        a = a + 1;
    }
    let ghost front = s@.subrange(a as int, s@.len() as int);
    assert(trim_start(front) == front);
    let mut b: usize = s.len();
    assert(front.subrange(0, front.len() as int) =~= front);
    while b > a && is_white_char(s[b - 1])
        invariant
            a <= b <= s@.len(),
            front == s@.subrange(a as int, s@.len() as int),
            trim_end(front) == trim_end(s@.subrange(a as int, b as int)),
        decreases b - a,
    {
        assert(s@.subrange(a as int, b as int).drop_last() =~= s@.subrange(a as int, b - 1));
        assert(s@.subrange(a as int, b as int).last() == s@[b - 1]);
        b = b - 1;
    }
    let mut out: Vec<char> = Vec::new();
    let mut k: usize = a;
    while k < b
        invariant
            a <= k <= b,
            b <= s@.len(),
            out@ =~= s@.subrange(a as int, k as int),
        decreases b - k,
    {
        out.push(s[k]);
        k = k + 1;
    }
    out
}

/// The folders an ignore list names, one per non-blank, non-comment line,
/// with surrounding white space removed.
pub fn ignore_entries(text: &str) -> (r: Vec<String>)
    ensures
        r@.map_values(|s: String| s@) == listed_folders(pieces(text@)),
{
    let cs = chars_of(text);
    let ghost lines = pieces(cs@);
    let mut out: Vec<String> = Vec::new();
    let mut cur: Vec<char> = Vec::new();
    let ghost mut done: Seq<Seq<char>> = Seq::empty();
    let mut i: usize = 0;
    while i < cs.len()
        invariant
            i <= cs@.len(),
            lines == pieces(cs@),
            lines == done + split_from(cs@, i as int, cur@),
            out@.map_values(|s: String| s@) == listed_folders(done),
        decreases cs@.len() - i,
    {
        if cs[i] == '\n' {
            let t = trim(cur.as_slice());
            let ghost before = out@;
            proof {
                assert((done.push(cur@)).drop_last() =~= done);
                assert(done.push(cur@).last() == cur@);
            }
            if t.len() > 0 && t[0] != '#' {
                let line = string_of(t.as_slice());
                out.push(line);
                assert(out@.map_values(|s: String| s@) =~= before.map_values(|s: String| s@).push(
                    line@,
                ));
            }
            proof {
                assert(done + split_from(cs@, i as int, cur@) =~= done.push(cur@) + split_from(
                    cs@,
                    i + 1,
                    Seq::empty(),
                ));
                done = done.push(cur@);
            }
            cur = Vec::new();
        } else {
            cur.push(cs[i]);
        }
        i = i + 1;
    }
    let t = trim(cur.as_slice());
    let ghost before = out@;
    proof {
        assert(lines =~= done.push(cur@));
        assert((done.push(cur@)).drop_last() =~= done);
    }
    if t.len() > 0 && t[0] != '#' {
        let line = string_of(t.as_slice());
        out.push(line);
        assert(out@.map_values(|s: String| s@) =~= before.map_values(|s: String| s@).push(line@));
    }
    out
}

// ---------------------------------------------------------------------------
// What trimming keeps.
// ---------------------------------------------------------------------------

proof fn lemma_trim_start_cut(s: Seq<char>) -> (a: int)
    ensures
        0 <= a <= s.len(),
        trim_start(s) == s.subrange(a, s.len() as int),
        forall|i: int| 0 <= i < a ==> is_white(#[trigger] s[i]),
        a < s.len() ==> !is_white(s[a]),
    decreases s.len(),
{
    if s.len() > 0 && is_white(s[0]) {
        let a1 = lemma_trim_start_cut(s.drop_first());
        assert(s.drop_first().subrange(a1, s.drop_first().len() as int) =~= s.subrange(a1 + 1, s.len() as int));
        assert forall|i: int| 0 <= i < a1 + 1 implies is_white(#[trigger] s[i]) by {
            if i > 0 {
                assert(s[i] == s.drop_first()[i - 1]);
            }
        }
        a1 + 1
    } else {
        assert(s.subrange(0, s.len() as int) =~= s);
        0
    }
}

proof fn lemma_trim_end_cut(s: Seq<char>) -> (b: int)
    ensures
        0 <= b <= s.len(),
        trim_end(s) == s.subrange(0, b),
        forall|i: int| b <= i < s.len() ==> is_white(#[trigger] s[i]),
        b > 0 ==> !is_white(s[b - 1]),
    decreases s.len(),
{
    if s.len() > 0 && is_white(s.last()) {
        let b1 = lemma_trim_end_cut(s.drop_last());
        assert(s.drop_last().subrange(0, b1) =~= s.subrange(0, b1));
        assert forall|i: int| b1 <= i < s.len() implies is_white(#[trigger] s[i]) by {
            if i < s.len() - 1 {
                assert(s[i] == s.drop_last()[i]);
            }
        }
        b1
    } else {
        assert(s.subrange(0, s.len() as int) =~= s);
        s.len() as int
    }
}

/// Trimming removes white space at the two ends and nothing else: what
/// is kept is one unbroken stretch of the line, everything before and after
/// it is white space, and it neither starts nor ends with white space.
pub proof fn law_trimming_cuts_only_white_ends(s: Seq<char>)
    ensures
        exists|a: int, b: int|
            {
                &&& 0 <= a <= b <= s.len()
                &&& trimmed(s) == s.subrange(a, b)
                &&& forall|i: int| 0 <= i < a ==> is_white(#[trigger] s[i])
                &&& forall|i: int| b <= i < s.len() ==> is_white(#[trigger] s[i])
                &&& a < b ==> !is_white(s[a]) && !is_white(s[b - 1])
            },
{
    let a = lemma_trim_start_cut(s);
    let t = s.subrange(a, s.len() as int);
    let b1 = lemma_trim_end_cut(t);
    let b = a + b1;
    assert(t.subrange(0, b1) =~= s.subrange(a, b));
    assert forall|i: int| b <= i < s.len() implies is_white(#[trigger] s[i]) by {
        assert(s[i] == t[i - a]);
    }
    if a < b {
        assert(s[a] == t[0]);
        assert(s[b - 1] == t[b1 - 1]);
    }
}

proof fn lemma_no_newline_one_piece(s: Seq<char>, i: int, cur: Seq<char>)
    requires
        0 <= i <= s.len(),
        forall|k: int| i <= k < s.len() ==> s[k] != '\n',
    ensures
        split_from(s, i, cur) == seq![cur + s.subrange(i, s.len() as int)],
    decreases s.len() - i,
{
    if i < s.len() {
        lemma_no_newline_one_piece(s, i + 1, cur.push(s[i]));
        assert(cur.push(s[i]) + s.subrange(i + 1, s.len() as int) =~= cur + s.subrange(i, s.len() as int));
    } else {
        assert(cur + s.subrange(i, s.len() as int) =~= cur);
    }
}

/// A list of one line that neither starts nor ends with white space and is
/// not a comment names exactly that line, inner spaces and all.
pub proof fn law_a_plain_line_is_kept_whole(line: Seq<char>)
    requires
        line.len() > 0,
        forall|k: int| 0 <= k < line.len() ==> line[k] != '\n',
        !is_white(line[0]),
        !is_white(line.last()),
        line[0] != '#',
    ensures
        listed_folders(pieces(line)) == seq![line],
{
    lemma_no_newline_one_piece(line, 0, Seq::empty());
    assert(Seq::<char>::empty() + line.subrange(0, line.len() as int) =~= line);
    let a = lemma_trim_start_cut(line);
    assert(a == 0);
    assert(line.subrange(0, line.len() as int) =~= line);
    let b = lemma_trim_end_cut(line);
    assert(b == line.len()) by {
        if b < line.len() {
            assert(is_white(line[line.len() - 1]));
        }
    }
    assert(trimmed(line) == line);
    assert(pieces(line) == seq![line]);
    let one: Seq<Seq<char>> = seq![line];
    assert(one.drop_last() =~= Seq::<Seq<char>>::empty());
    assert(one.last() == line);
    assert(listed_folders(one.drop_last()) == Seq::<Seq<char>>::empty());
    assert(names_a_folder(line));
    assert(listed_folders(one) == Seq::<Seq<char>>::empty().push(line));
    assert(Seq::<Seq<char>>::empty().push(line) =~= one);
}

} // verus!

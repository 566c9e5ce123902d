//! Folder paths as sequences of components, the order candidates are
//! reported in, and the `-ignore` list.

use vstd::prelude::*;

use crate::order::{bytes_le, le_bytes, lemma_bytes_le_antisym, lemma_bytes_le_total, lemma_bytes_le_trans};
use crate::order::{all_positions_valid, ranked_in_order, sort_positions, Ranked};

verus! {

/// One component of a path, in the order paths compare: the root, then
/// `.`, then `..`, then names by their bytes.
pub enum PathPart {
    Root,
    Here,
    Up,
    Name(Vec<u8>),
}

pub enum PartModel {
    Root,
    Here,
    Up,
    Name(Seq<u8>),
}

/// A path, component by component.
pub struct FolderPath {
    pub parts: Vec<PathPart>,
}

impl View for PathPart {
    type V = PartModel;

    open spec fn view(&self) -> PartModel {
        match self {
            PathPart::Root => PartModel::Root,
            PathPart::Here => PartModel::Here,
            PathPart::Up => PartModel::Up,
            PathPart::Name(b) => PartModel::Name(b@),
        }
    }
}

impl View for FolderPath {
    type V = Seq<PartModel>;

    open spec fn view(&self) -> Seq<PartModel> {
        self.parts@.map_values(|p: PathPart| p@)
    }
}

pub open spec fn part_rank(p: PartModel) -> int {
    match p {
        PartModel::Root => 0,
        PartModel::Here => 1,
        PartModel::Up => 2,
        PartModel::Name(_) => 3,
    }
}

/// Strict order on components.
pub open spec fn part_lt(a: PartModel, b: PartModel) -> bool {
    if part_rank(a) != part_rank(b) {
        part_rank(a) < part_rank(b)
    } else {
        match (a, b) {
            (PartModel::Name(x), PartModel::Name(y)) => bytes_le(x, y) && x != y,
            _ => false,
        }
    }
}

/// Paths ordered component by component, a proper prefix first.
pub open spec fn path_le(a: Seq<PartModel>, b: Seq<PartModel>) -> bool
    decreases a.len(),
{
    if a.len() == 0 {
        true
    } else if b.len() == 0 {
        false
    } else if a[0] != b[0] {
        part_lt(a[0], b[0])
    } else {
        path_le(a.drop_first(), b.drop_first())
    }
}

proof fn lemma_part_total(a: PartModel, b: PartModel)
    requires
        a != b,
    ensures
        part_lt(a, b) || part_lt(b, a),
{
    match (a, b) {
        (PartModel::Name(x), PartModel::Name(y)) => {
            lemma_bytes_le_total(x, y);
        },
        _ => {},
    }
}

proof fn lemma_part_trans(a: PartModel, b: PartModel, c: PartModel)
    requires
        part_lt(a, b),
        part_lt(b, c),
    ensures
        part_lt(a, c),
{
    match (a, b, c) {
        (PartModel::Name(x), PartModel::Name(y), PartModel::Name(z)) => {
            lemma_bytes_le_trans(x, y, z);
            if x == z {
                lemma_bytes_le_antisym(x, y);
            }
        },
        _ => {},
    }
}

proof fn lemma_part_irreflexive(a: PartModel)
    ensures
        !part_lt(a, a),
{
}

pub proof fn lemma_path_le_total(a: Seq<PartModel>, b: Seq<PartModel>)
    ensures
        path_le(a, b) || path_le(b, a),
    decreases a.len(),
{
    if a.len() > 0 && b.len() > 0 {
        if a[0] != b[0] {
            lemma_part_total(a[0], b[0]);
        } else {
            lemma_path_le_total(a.drop_first(), b.drop_first());
        }
    }
}

pub proof fn lemma_path_le_trans(a: Seq<PartModel>, b: Seq<PartModel>, c: Seq<PartModel>)
    requires
        path_le(a, b),
        path_le(b, c),
    ensures
        path_le(a, c),
    decreases a.len(),
{
    if a.len() > 0 && b.len() > 0 && c.len() > 0 {
        if a[0] == b[0] && b[0] == c[0] {
            lemma_path_le_trans(a.drop_first(), b.drop_first(), c.drop_first());
        } else if a[0] == b[0] {
        } else if b[0] == c[0] {
        } else {
            lemma_part_trans(a[0], b[0], c[0]);
            if a[0] == c[0] {
                lemma_part_irreflexive(a[0]);
                lemma_part_trans(b[0], c[0], b[0]);
            }
        }
    }
}

fn bytes_equal(a: &[u8], b: &[u8]) -> (r: bool)
    ensures
        r == (a@ == b@),
{
    if a.len() != b.len() {
        return false;
    }
    let mut i: usize = 0;
    while i < a.len()
        invariant
            a@.len() == b@.len(),
            i <= a@.len(),
            forall|k: int| 0 <= k < i ==> a@[k] == b@[k],
        decreases a@.len() - i,
    {
        if a[i] != b[i] {
            return false;
        }
        i = i + 1;
    }
    assert(a@ =~= b@);
    true
}

fn part_equal(a: &PathPart, b: &PathPart) -> (r: bool)
    ensures
        r == (a@ == b@),
{
    match (a, b) {
        (PathPart::Root, PathPart::Root) => true,
        (PathPart::Here, PathPart::Here) => true,
        (PathPart::Up, PathPart::Up) => true,
        (PathPart::Name(x), PathPart::Name(y)) => bytes_equal(x.as_slice(), y.as_slice()),
        _ => false,
    }
}

fn rank_of(a: &PathPart) -> (r: u8)
    ensures
        r as int == part_rank(a@),
{
    match a {
        PathPart::Root => 0,
        PathPart::Here => 1,
        PathPart::Up => 2,
        PathPart::Name(_) => 3,
    }
}

fn part_less(a: &PathPart, b: &PathPart) -> (r: bool)
    ensures
        r == part_lt(a@, b@),
{
    let ra = rank_of(a);
    let rb = rank_of(b);
    if ra != rb {
        return ra < rb;
    }
    match (a, b) {
        (PathPart::Name(x), PathPart::Name(y)) => {
            le_bytes(x.as_slice(), y.as_slice()) && !bytes_equal(x.as_slice(), y.as_slice())
        },
        _ => false,
    }
}

/// Whether two paths are the same, component by component.
pub fn same_path(a: &FolderPath, b: &FolderPath) -> (r: bool)
    ensures
        r == (a@ == b@),
{
    if a.parts.len() != b.parts.len() {
        assert(a@.len() != b@.len());
        return false;
    }
    let mut i: usize = 0;
    while i < a.parts.len()
        invariant
            a.parts@.len() == b.parts@.len(),
            a@.len() == a.parts@.len(),
            b@.len() == b.parts@.len(),
            i <= a.parts@.len(),
            forall|k: int| 0 <= k < i ==> a@[k] == b@[k],
        decreases a.parts@.len() - i,
    {
        if !part_equal(&a.parts[i], &b.parts[i]) {
            assert(a@[i as int] != b@[i as int]);
            return false;
        }
        i = i + 1;
    }
    assert(a@ =~= b@);
    true
}

impl Ranked for FolderPath {
    open spec fn ranks_le(&self, other: &Self) -> bool {
        path_le(self@, other@)
    }

    proof fn lemma_total(a: &Self, b: &Self) {
        lemma_path_le_total(a@, b@);
    }

    proof fn lemma_trans(a: &Self, b: &Self, c: &Self) {
        lemma_path_le_trans(a@, b@, c@);
    }

    fn le(&self, other: &Self) -> (r: bool) {
        let n = self.parts.len();
        let m = other.parts.len();
        let mut i: usize = 0;
        assert(self@.subrange(0, n as int) =~= self@);
        assert(other@.subrange(0, m as int) =~= other@);
        while i < n && i < m && part_equal(&self.parts[i], &other.parts[i])
            invariant
                n == self.parts@.len(),
                m == other.parts@.len(),
                self@.len() == n,
                other@.len() == m,
                i <= n,
                i <= m,
                path_le(self@, other@) == path_le(
                    self@.subrange(i as int, n as int),
                    other@.subrange(i as int, m as int),
                ),
            decreases n - i,
        {
            assert(self@.subrange(i as int, n as int).drop_first() =~= self@.subrange(i + 1, n as int));
            assert(other@.subrange(i as int, m as int).drop_first() =~= other@.subrange(
                i + 1,
                m as int,
            ));
            i = i + 1;
        }
        if i == n {
            true
        } else if i == m {
            false
        } else {
            part_less(&self.parts[i], &other.parts[i])
        }
    }
}

/// The candidates' positions, ordered by path.
pub fn order_by_path(paths: &Vec<FolderPath>) -> (r: Vec<usize>)
    ensures
        r@.to_multiset() == Seq::new(paths@.len(), |i: int| i as usize).to_multiset(),
        all_positions_valid(paths@, r@),
        ranked_in_order(paths@, r@),
{
    let mut all: Vec<usize> = Vec::new();
    let mut i: usize = 0;
    while i < paths.len()
        invariant
            i <= paths@.len(),
            all@ =~= Seq::new(i as nat, |k: int| k as usize),
        decreases paths@.len() - i,
    {
        all.push(i);
        i = i + 1;
    }
    sort_positions(paths, &all)
}

/// Whether `p` is listed in `ignored`.
pub open spec fn is_listed(p: Seq<PartModel>, ignored: Seq<FolderPath>) -> bool {
    exists|j: int| 0 <= j < ignored.len() && #[trigger] ignored[j]@ == p
}

/// The positions of `order` whose path is not listed, in the same order.
pub open spec fn unlisted(paths: Seq<FolderPath>, order: Seq<usize>, ignored: Seq<FolderPath>) -> Seq<usize>
    decreases order.len(),
{
    if order.len() == 0 {
        Seq::empty()
    } else {
        let rest = unlisted(paths, order.drop_last(), ignored);
        if is_listed(paths[order.last() as int]@, ignored) {
            rest
        } else {
            rest.push(order.last())
        }
    }
}

/// Whether `p` is one of `ignored`.
pub fn listed(p: &FolderPath, ignored: &Vec<FolderPath>) -> (r: bool)
    ensures
        r == is_listed(p@, ignored@),
{
    let mut j: usize = 0;
    while j < ignored.len()
        invariant
            j <= ignored@.len(),
            forall|k: int| 0 <= k < j ==> ignored@[k]@ != p@,
        decreases ignored@.len() - j,
    {
        if same_path(&ignored[j], p) {
            return true;
        }
        j = j + 1;
    }
    false
}

/// Drops the candidates whose folder is listed exactly in `ignored`, keeping
/// the order of the rest, and says how many were dropped. A folder's
/// subfolders are not dropped with it.
pub fn drop_ignored(paths: &Vec<FolderPath>, order: &Vec<usize>, ignored: &Vec<FolderPath>) -> (r: (
    Vec<usize>,
    usize,
))
    requires
        all_positions_valid(paths@, order@),
    ensures
        r.0@ == unlisted(paths@, order@, ignored@),
        r.1 == order@.len() - r.0@.len(),
{
    let mut kept: Vec<usize> = Vec::new();
    let mut i: usize = 0;
    while i < order.len()
        invariant
            i <= order@.len(),
            all_positions_valid(paths@, order@),
            kept@ == unlisted(paths@, order@.take(i as int), ignored@),
            kept@.len() <= i,
        decreases order@.len() - i,
    {
        let k = order[i];
        assert(order@.take(i + 1).drop_last() =~= order@.take(i as int));
        if !listed(&paths[k], ignored) {
            kept.push(k);
        }
        i = i + 1;
    }
    assert(order@.take(order@.len() as int) =~= order@);
    let dropped = order.len() - kept.len();
    (kept, dropped)
}

/// Ignoring matches folders exactly: a candidate survives exactly when its
/// own path is not listed, whatever is listed above or below it.
pub proof fn law_ignoring_is_exact(paths: Seq<FolderPath>, order: Seq<usize>, ignored: Seq<FolderPath>, x: usize)
    ensures
        unlisted(paths, order, ignored).contains(x) <==> order.contains(x) && !is_listed(
            paths[x as int]@,
            ignored,
        ),
    decreases order.len(),
{
    if order.len() > 0 {
        let rest = order.drop_last();
        law_ignoring_is_exact(paths, rest, ignored, x);
        let u = unlisted(paths, rest, ignored);
        assert(order =~= rest.push(order.last()));
        if order.contains(x) && x != order.last() {
            let k = choose|k: int| 0 <= k < order.len() && order[k] == x;
            assert(rest[k] == x);
        }
        if rest.contains(x) {
            let k = choose|k: int| 0 <= k < rest.len() && rest[k] == x;
            assert(order[k] == x);
        }
        if !is_listed(paths[order.last() as int]@, ignored) {
            let v = u.push(order.last());
            assert(v[u.len() as int] == order.last());
            if u.contains(x) {
                let k = choose|k: int| 0 <= k < u.len() && u[k] == x;
                assert(v[k] == x);
            }
            if v.contains(x) && x != order.last() {
                let k = choose|k: int| 0 <= k < v.len() && v[k] == x;
                assert(u[k] == x);
            }
            assert(order[order.len() - 1] == order.last());
        }
    }
}

} // verus!

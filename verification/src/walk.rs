//! Walking the tree, as a sequence of decisions between directory reads:
//! the caller lists a folder and reports what it holds, and the walk
//! decides which entries to probe for the marker, whether the folder
//! qualifies and with which files, and which folder comes next. Folders are
//! known by number: the root is 0, and the subfolders a folder is found to
//! hold get the next free numbers, in name order. They are visited
//! depth first, each folder before its subfolders, in name order.

use vstd::prelude::*;

use crate::order::ranked_in_order;
use crate::select::{
    archives_to_probe, is_descended, is_loose, lists_exactly, needs_probe, plan_folder, DirEntry,
};

verus! {

/// Where a walk stands.
#[derive(PartialEq, Eq, Structural, Clone, Copy)]
pub enum WalkPhase {
    /// Waiting for the listing of the current folder.
    Listing,
    /// Waiting to learn which of the probed entries carry the marker.
    Probing,
    /// Waiting for the verdict on the current folder to be noted.
    Noting,
    /// Every folder found has been visited.
    Done,
}

/// What the caller does next.
pub enum WalkAction {
    /// List the folder with this number.
    List(usize),
    /// Tell, for each of these entries of the current folder, whether it is
    /// a readable zip whose comment carries the marker.
    Probe(Vec<usize>),
    /// The verdict on the current folder: its loose files (positions in its
    /// listing, sorted by name), whether it qualifies, and its subfolders
    /// (sorted by name), which are numbered from `first_id` on.
    Judged { loose: Vec<usize>, qualifies: bool, subfolders: Vec<usize>, first_id: usize },
    /// The walk is over.
    Finish,
}

/// What happened.
pub enum WalkEvent {
    /// The current folder's own name (`None` for a root without one) and
    /// its entries, or `None` when it could not be read.
    Listed { folder: Option<String>, entries: Option<Vec<DirEntry>> },
    /// For each probed entry, in order, whether it carries the marker.
    Probed(Vec<bool>),
    /// The verdict was noted.
    Noted,
}

/// A walk over a tree.
pub struct Walk {
    pub include_hidden: bool,
    pub threshold: usize,
    /// Folders found but not yet visited; the last is visited next.
    pub pending: Vec<usize>,
    /// The numbers below this one have been given out.
    pub next_id: usize,
    pub phase: WalkPhase,
    /// The folder being visited.
    pub current: usize,
    /// The current folder's own name.
    pub folder: Option<String>,
    /// The current folder's entries.
    pub entries: Vec<DirEntry>,
    /// The entries of the current folder that had to be probed.
    pub probe: Vec<usize>,
}

pub open spec fn opt_string_view(o: Option<String>) -> Option<Seq<char>> {
    match o {
        Some(s) => Some(s@),
        None => None,
    }
}

/// `after` is `before` with the marks of the entries at `probe` set from
/// `marks`, and nothing else changed.
pub open spec fn marked_as(before: Seq<DirEntry>, probe: Seq<usize>, marks: Seq<bool>, after: Seq<DirEntry>) -> bool {
    &&& after.len() == before.len()
    &&& forall|i: int|
        0 <= i < after.len() ==> {
            &&& (#[trigger] after[i]).name == before[i].name
            &&& after[i].raw_name == before[i].raw_name
            &&& after[i].kind == before[i].kind
            &&& !probe.contains(i as usize) ==> after[i].marked == before[i].marked
        }
    &&& forall|k: int| 0 <= k < probe.len() ==> after[#[trigger] probe[k] as int].marked == marks[k]
}

/// After moving on from a folder: the next pending folder is visited, or
/// the walk ends when there is none.
pub open spec fn moved_on(before: Walk, after: Walk, r: WalkAction) -> bool {
    &&& after.next_id == before.next_id
    &&& if before.pending@.len() == 0 {
        &&& after.phase == WalkPhase::Done
        &&& after.pending@ == before.pending@
        &&& r is Finish
    } else {
        &&& after.phase == WalkPhase::Listing
        &&& after.pending@ == before.pending@.drop_last()
        &&& after.current == before.pending@.last()
        &&& r == WalkAction::List(after.current)
    }
}

/// Distinct numbers below `n` are at most `n` in number.
proof fn lemma_distinct_below(order: Seq<usize>, n: nat)
    requires
        order.no_duplicates(),
        forall|k: int| 0 <= k < order.len() ==> #[trigger] order[k] < n,
    ensures
        order.len() <= n,
    decreases n,
{
    if n == 0 {
        if order.len() > 0 {
            assert(order[0] < n);
        }
    } else if order.contains((n - 1) as usize) {
        let k = choose|k: int| 0 <= k < order.len() && order[k] == (n - 1) as usize;
        let rest = order.remove(k);
        assert forall|a: int| 0 <= a < rest.len() implies #[trigger] rest[a] < n - 1 by {
            let at = if a < k { a } else { a + 1 };
            assert(rest[a] == order[at]);
        }
        assert forall|a: int, b: int| 0 <= a < rest.len() && 0 <= b < rest.len() && a != b implies rest[a] != rest[b] by {
            let at = if a < k { a } else { a + 1 };
            let bt = if b < k { b } else { b + 1 };
            assert(rest[a] == order[at] && rest[b] == order[bt]);
        }
        lemma_distinct_below(rest, (n - 1) as nat);
    } else {
        assert forall|a: int| 0 <= a < order.len() implies #[trigger] order[a] < n - 1 by {
            if order[a] == n - 1 {
                assert(order.contains(order[a]));
            }
        }
        lemma_distinct_below(order, (n - 1) as nat);
    }
}

impl Walk {
    /// What holds of a walk at every step.
    pub open spec fn wf(&self) -> bool {
        &&& self.pending@.no_duplicates()
        &&& forall|k: int| 0 <= k < self.pending@.len() ==> 1 <= #[trigger] self.pending@[k] < self.next_id
        &&& self.current < self.next_id
        &&& !self.pending@.contains(self.current)
        &&& self.phase == WalkPhase::Probing ==> lists_exactly(
            self.probe@,
            self.entries@.len(),
            |i: int| needs_probe(self.entries@[i], opt_string_view(self.folder), self.include_hidden),
        )
    }

    /// Whether `ev` is the report the walk is waiting for.
    pub open spec fn awaits(&self, ev: &WalkEvent) -> bool {
        match self.phase {
            WalkPhase::Listing => ev is Listed,
            WalkPhase::Probing => ev matches WalkEvent::Probed(marks) && marks@.len()
                == self.probe@.len(),
            WalkPhase::Noting => ev is Noted,
            WalkPhase::Done => false,
        }
    }

    /// One step of a walk: `after` is what `before` becomes, and `r` the
    /// action it asks for, when `ev` is what happened.
    pub open spec fn walked(before: Walk, ev: WalkEvent, after: Walk, r: WalkAction) -> bool {
        &&& after.wf()
        &&& after.include_hidden == before.include_hidden
        &&& after.threshold == before.threshold
        &&& (before.phase == WalkPhase::Listing && ev is Listed && ev->entries is None ==> moved_on(
            before,
            after,
            r,
        ))
        &&& (before.phase == WalkPhase::Listing ==> match ev {
            WalkEvent::Listed { folder, entries: Some(es) } => {
                &&& after.phase == WalkPhase::Probing
                &&& after.folder == folder
                &&& after.entries == es
                &&& after.current == before.current
                &&& after.pending == before.pending
                &&& after.next_id == before.next_id
                &&& lists_exactly(
                    after.probe@,
                    es@.len(),
                    |i: int| needs_probe(es@[i], opt_string_view(folder), before.include_hidden),
                )
                &&& r matches WalkAction::Probe(p) && p@ == after.probe@
            },
            _ => true,
        })
        &&& (before.phase == WalkPhase::Noting ==> moved_on(before, after, r))
        &&& (before.phase == WalkPhase::Probing ==> match ev {
            WalkEvent::Probed(marks) => {
                let es = after.entries@;
                let f = opt_string_view(before.folder);
                &&& marked_as(before.entries@, before.probe@, marks@, es)
                &&& after.phase == WalkPhase::Noting
                &&& after.current == before.current
                &&& r matches WalkAction::Judged { loose, qualifies, subfolders, first_id } && {
                    &&& lists_exactly(loose@, es.len(), |i: int| is_loose(es[i], f, before.include_hidden))
                    &&& ranked_in_order(es, loose@)
                    &&& qualifies == (loose@.len() > before.threshold)
                    &&& lists_exactly(subfolders@, es.len(), |i: int| is_descended(es[i], before.include_hidden))
                    &&& ranked_in_order(es, subfolders@)
                    &&& first_id == before.next_id
                    &&& after.next_id == before.next_id + subfolders@.len()
                    &&& after.pending@.len() == before.pending@.len() + subfolders@.len()
                    &&& after.pending@.take(before.pending@.len() as int) == before.pending@
                    // The first subfolder ends up on top, to be visited next.
                    &&& forall|k: int|
                        before.pending@.len() <= k < after.pending@.len() ==> #[trigger] after.pending@[k]
                            == first_id + after.pending@.len() - 1 - k
                }
            },
            _ => true,
        })
    }

    /// A walk that starts at the root, folder 0.
    pub fn new(include_hidden: bool, threshold: usize) -> (r: Walk)
        ensures
            r.wf(),
            r.include_hidden == include_hidden,
            r.threshold == threshold,
            r.phase == WalkPhase::Listing,
            r.current == 0,
            r.next_id == 1,
            r.pending@.len() == 0,
    {
        Walk {
            include_hidden,
            threshold,
            pending: Vec::new(),
            next_id: 1,
            phase: WalkPhase::Listing,
            current: 0,
            folder: None,
            entries: Vec::new(),
            probe: Vec::new(),
        }
    }

    /// The first action: list the root.
    pub fn first_action(&self) -> (r: WalkAction)
        ensures
            r == WalkAction::List(0),
    {
        WalkAction::List(0)
    }

    fn move_on(&mut self) -> (r: WalkAction)
        requires
            old(self).wf(),
        ensures
            final(self).wf(),
            final(self).include_hidden == old(self).include_hidden,
            final(self).threshold == old(self).threshold,
            moved_on(*old(self), *final(self), r),
    {
        match self.pending.pop() {
            Some(id) => {
                self.current = id;
                self.phase = WalkPhase::Listing;
                WalkAction::List(id)
            },
            None => {
                self.phase = WalkPhase::Done;
                WalkAction::Finish
            },
        }
    }

    /// Takes in what happened and decides the next action.
    pub fn step(&mut self, ev: WalkEvent) -> (r: WalkAction)
        requires
            old(self).wf(),
            old(self).awaits(&ev),
            old(self).phase == WalkPhase::Probing ==> old(self).next_id + old(self).entries@.len()
                <= usize::MAX,
        ensures
            Walk::walked(*old(self), ev, *final(self), r),
    {
        match self.phase {
            WalkPhase::Listing => {
                match ev {
                    WalkEvent::Listed { folder, entries: Some(es) } => {
                        let probe = archives_to_probe(
                            match &folder {
                                Some(s) => Some(s.as_str()),
                                None => None,
                            },
                            &es,
                            self.include_hidden,
                        );
                        self.folder = folder;
                        self.entries = es;
                        self.probe = probe;
                        self.phase = WalkPhase::Probing;
                        WalkAction::Probe(self.probe.clone())
                    },
                    _ => self.move_on(),
                }
            },
            WalkPhase::Probing => {
                let marks = match ev {
                    WalkEvent::Probed(m) => m,
                    _ => Vec::new(),
                };
                self.judge(marks)
            },
            WalkPhase::Noting => self.move_on(),
            WalkPhase::Done => WalkAction::Finish,
        }
    }

    fn judge(&mut self, marks: Vec<bool>) -> (r: WalkAction)
        requires
            old(self).wf(),
            old(self).phase == WalkPhase::Probing,
            marks@.len() == old(self).probe@.len(),
            old(self).next_id + old(self).entries@.len() <= usize::MAX,
        ensures
            Walk::walked(*old(self), WalkEvent::Probed(marks), *final(self), r),
    {
        let ghost orig = self.entries@;
        let mut k: usize = 0;
        while k < self.probe.len()
            invariant
                k <= self.probe@.len(),
                marks@.len() == self.probe@.len(),
                self.probe == old(self).probe,
                self.folder == old(self).folder,
                self.include_hidden == old(self).include_hidden,
                self.threshold == old(self).threshold,
                self.next_id == old(self).next_id,
                self.pending == old(self).pending,
                self.current == old(self).current,
                self.phase == old(self).phase,
                orig == old(self).entries@,
                lists_exactly(
                    self.probe@,
                    orig.len(),
                    |i: int| needs_probe(orig[i], opt_string_view(self.folder), self.include_hidden),
                ),
                marked_as(orig, self.probe@.take(k as int), marks@.take(k as int), self.entries@),
            decreases self.probe@.len() - k,
        {
            let p = self.probe[k];
            let ghost prev = self.entries@;
            assert(p < prev.len());
            self.entries[p].marked = marks[k];
            proof {
                let pk = self.probe@.take(k + 1);
                let pk0 = self.probe@.take(k as int);
                let mk = marks@.take(k + 1);
                assert(self.entries@.len() == prev.len());
                assert forall|i: int| 0 <= i < self.entries@.len() && i != p implies self.entries@[i] == prev[i] by {}
                assert forall|i: int| 0 <= i < self.entries@.len() && !pk.contains(i as usize) implies !(#[trigger] pk0.contains(i as usize)) by {
                    if pk0.contains(i as usize) {
                        let q = choose|q: int| 0 <= q < pk0.len() && pk0[q] == i as usize;
                        assert(pk[q] == i as usize);
                    }
                }
                assert(pk[k as int] == p);
                assert forall|q: int| 0 <= q < pk.len() implies self.entries@[#[trigger] pk[q] as int].marked == mk[q] by {
                    if q < k {
                        assert(pk[q] == pk0[q]);
                        assert(self.probe@[q] != self.probe@[k as int]);
                    }
                }
            }
            k = k + 1;
        }
        assert(self.probe@.take(k as int) == self.probe@);
        assert(marks@.take(k as int) == marks@);
        let plan = plan_folder(
            match &self.folder {
                Some(s) => Some(s.as_str()),
                None => None,
            },
            &self.entries,
            self.include_hidden,
            self.threshold,
        );
        let first_id = self.next_id;
        let s = plan.subfolders.len();
        proof {
            lemma_distinct_below(plan.subfolders@, self.entries@.len());
        }
        let ghost before = self.pending@;
        let ghost judged = self.entries@;
        let mut j: usize = s;
        while j > 0
            invariant
                j <= s,
                s <= self.entries@.len(),
                self.current == old(self).current,
                self.entries@ == judged,
                self.folder == old(self).folder,
                self.include_hidden == old(self).include_hidden,
                self.threshold == old(self).threshold,
                self.current < first_id,
                first_id == old(self).next_id,
                first_id + self.entries@.len() <= usize::MAX,
                self.pending@.len() == before.len() + (s - j),
                self.pending@.take(before.len() as int) == before,
                forall|k: int|
                    before.len() <= k < self.pending@.len() ==> #[trigger] self.pending@[k] == first_id + before.len()
                        + s - 1 - k,
            decreases j,
        {
            j = j - 1;
            self.pending.push(first_id + j);
        }
        proof {
            let ps = self.pending@;
            let b = before.len() as int;
            assert forall|a: int| 0 <= a < b implies ps[a] == before[a] && ps[a] < first_id by {
                assert(ps.take(b)[a] == ps[a]);
            }
            assert forall|a: int, c: int| 0 <= a < ps.len() && 0 <= c < ps.len() && a != c implies ps[a] != ps[c] by {
                if a < b && c < b {
                    assert(before[a] != before[c]);
                } else if a < b {
                    assert(ps[c] == first_id + ps.len() - 1 - c);
                } else if c < b {
                    assert(ps[a] == first_id + ps.len() - 1 - a);
                } else {
                    assert(ps[a] == first_id + ps.len() - 1 - a);
                    assert(ps[c] == first_id + ps.len() - 1 - c);
                }
            }
        }
        self.next_id = first_id + s;
        self.phase = WalkPhase::Noting;
        WalkAction::Judged {
            loose: plan.files,
            qualifies: plan.qualifies,
            subfolders: plan.subfolders,
            first_id,
        }
    }
}

// ---------------------------------------------------------------------------
// A walk over its whole life.
// ---------------------------------------------------------------------------

/// Step `i` of a walk: it was waiting for `events[i]`, and `step` turned
/// `walks[i]` into `walks[i + 1]` with `actions[i]`.
pub open spec fn walk_step_at(walks: Seq<Walk>, events: Seq<WalkEvent>, actions: Seq<WalkAction>, i: int) -> bool {
    &&& walks[i].awaits(&events[i])
    &&& Walk::walked(walks[i], events[i], walks[i + 1], actions[i])
}

/// `walks`, `events` and `actions` record a walk from its start at the
/// root, which its first action lists.
pub open spec fn is_walk_run(walks: Seq<Walk>, events: Seq<WalkEvent>, actions: Seq<WalkAction>) -> bool {
    &&& walks.len() == events.len() + 1
    &&& actions.len() == events.len()
    &&& walks[0].wf()
    &&& walks[0].phase == WalkPhase::Listing
    &&& walks[0].current == 0
    &&& walks[0].next_id == 1
    &&& walks[0].pending@.len() == 0
    &&& forall|i: int| 0 <= i < events.len() ==> #[trigger] walk_step_at(walks, events, actions, i)
}

/// Folder `id` has been listed by the first `m` actions: the root by the
/// walk's first action, any other by an action `List(id)`.
pub open spec fn listed_before(actions: Seq<WalkAction>, m: int, id: usize) -> bool {
    id == 0 || exists|i: int| 0 <= i < m && #[trigger] actions[i] == WalkAction::List(id)
}

/// Some action of the walk lists folder `id`.
pub open spec fn lists_folder(actions: Seq<WalkAction>, id: usize) -> bool {
    exists|i: int| 0 <= i < actions.len() && #[trigger] actions[i] == WalkAction::List(id)
}

proof fn lemma_walk_so_far(walks: Seq<Walk>, events: Seq<WalkEvent>, actions: Seq<WalkAction>, m: int)
    requires
        is_walk_run(walks, events, actions),
        0 <= m < walks.len(),
    ensures
        walks[m].wf(),
        forall|k: int| 0 <= k < walks[m].pending@.len() ==> !listed_before(actions, m, #[trigger] walks[m].pending@[k]),
        forall|id: usize| id < walks[m].next_id ==> listed_before(actions, m, id) || walks[m].pending@.contains(id),
        forall|id: usize| #[trigger] listed_before(actions, m, id) ==> id < walks[m].next_id,
        walks[m].phase != WalkPhase::Done ==> listed_before(actions, m, walks[m].current),
    decreases m,
{
    if m > 0 {
        let p = m - 1;
        lemma_walk_so_far(walks, events, actions, p);
        assert(walk_step_at(walks, events, actions, p));
        let (b, a) = (walks[p], walks[m]);
        assert forall|id: usize| listed_before(actions, m, id) == (listed_before(actions, p, id) || actions[p]
            == WalkAction::List(id)) by {
            if listed_before(actions, m, id) && id != 0 && actions[p] != WalkAction::List(id) {
                let i = choose|i: int| 0 <= i < m && #[trigger] actions[i] == WalkAction::List(id);
                assert(i < p);
            }
            if actions[p] == WalkAction::List(id) {
                assert(actions[p] == WalkAction::List(id));
            }
        }
        if b.phase == WalkPhase::Probing {
            let n0 = b.pending@.len() as int;
            assert forall|k: int| 0 <= k < n0 implies a.pending@[k] == b.pending@[k] by {
                assert(a.pending@.take(n0)[k] == a.pending@[k]);
            }
            assert forall|id: usize| id < a.next_id implies listed_before(actions, m, id) || a.pending@.contains(id) by {
                if id < b.next_id {
                    if b.pending@.contains(id) {
                        let k = choose|k: int| 0 <= k < n0 && b.pending@[k] == id;
                        assert(a.pending@[k] == id);
                    }
                } else {
                    let k = b.next_id + a.pending@.len() - 1 - id;
                    assert(a.pending@[k] == id);
                }
            }
            assert forall|k: int| 0 <= k < a.pending@.len() implies !listed_before(actions, m, #[trigger] a.pending@[k]) by {
                if k < n0 {
                    assert(a.pending@[k] == b.pending@[k]);
                } else {
                    assert(a.pending@[k] >= b.next_id);
                }
            }
        } else if b.pending@.len() > 0 && (b.phase == WalkPhase::Noting || (events[p] is Listed
            && events[p]->entries is None)) {
            let top = b.pending@.last();
            assert(actions[p] == WalkAction::List(top));
            assert forall|id: usize| id < a.next_id implies listed_before(actions, m, id) || a.pending@.contains(id) by {
                if b.pending@.contains(id) && id != top {
                    let k = choose|k: int| 0 <= k < b.pending@.len() && b.pending@[k] == id;
                    assert(k < b.pending@.len() - 1);
                    assert(a.pending@[k] == id);
                }
            }
            assert forall|k: int| 0 <= k < a.pending@.len() implies !listed_before(actions, m, #[trigger] a.pending@[k]) by {
                assert(a.pending@[k] == b.pending@[k]);
                assert(b.pending@[k] != b.pending@[b.pending@.len() - 1]);
            }
        }
    }
}

/// No folder is listed twice: the root is listed by the walk's first
/// action, and every later `List` names a folder not listed before.
pub proof fn law_no_folder_is_listed_twice(
    walks: Seq<Walk>,
    events: Seq<WalkEvent>,
    actions: Seq<WalkAction>,
    i: int,
    j: int,
)
    requires
        is_walk_run(walks, events, actions),
        0 <= i < j < actions.len(),
        actions[i] is List,
        actions[j] is List,
    ensures
        actions[i]->List_0 != actions[j]->List_0,
        actions[j]->List_0 != 0,
{
    lemma_walk_so_far(walks, events, actions, j);
    assert(walk_step_at(walks, events, actions, j));
    let b = walks[j];
    let top = b.pending@.last();
    assert(b.pending@.len() > 0);
    assert(actions[j] == WalkAction::List(top));
    assert(!listed_before(actions, j, b.pending@[b.pending@.len() - 1]));
    assert(listed_before(actions, j, actions[i]->List_0)) by {
        assert(actions[i] == WalkAction::List(actions[i]->List_0));
    }
}

/// A walk that has finished has listed every folder it found: each
/// number it gave out, to the root or to a subfolder found in a listing,
/// was listed.
pub proof fn law_a_finished_walk_lists_every_folder_found(
    walks: Seq<Walk>,
    events: Seq<WalkEvent>,
    actions: Seq<WalkAction>,
)
    requires
        is_walk_run(walks, events, actions),
        actions.len() > 0,
        actions.last() is Finish,
    ensures
        forall|id: usize| 0 < id < walks.last().next_id ==> #[trigger] lists_folder(actions, id),
{
    let last = actions.len() - 1;
    lemma_walk_so_far(walks, events, actions, last);
    lemma_walk_so_far(walks, events, actions, last + 1);
    assert(walk_step_at(walks, events, actions, last));
    assert(walks[last + 1].pending@.len() == 0);
    assert forall|id: usize| 0 < id < walks.last().next_id implies #[trigger] lists_folder(actions, id) by {
        assert(!walks[last + 1].pending@.contains(id));
        assert(listed_before(actions, last + 1, id));
    }
}

} // verus!

//! Garbage collection on the EFI System Partition: the paths still in use,
//! and the sweep that removes every other entry.

use crate::error::{outcome, Failure, FailureModel};
use crate::text::texts;
use vstd::prelude::*;

verus! {

/// One entry met while walking a directory tree: a file or a directory, at
/// `depth` levels below the directory where the walk began. The walk goes
/// through a directory's contents right after the directory itself.
#[derive(Debug, Clone)]
pub struct Entry {
    pub path: String,
    pub depth: usize,
    pub is_dir: bool,
}

/// An entry, with its path as a sequence of characters.
pub ghost struct EntryModel {
    pub path: Seq<char>,
    pub depth: nat,
    pub is_dir: bool,
}

impl View for Entry {
    type V = EntryModel;

    open spec fn view(&self) -> EntryModel {
        EntryModel { path: self.path@, depth: self.depth as nat, is_dir: self.is_dir }
    }
}

/// What a walk yields next: an entry, or the reason why it cannot go on.
#[derive(Debug, Clone)]
pub enum Visit {
    Found(Entry),
    Failed { reason: String },
}

/// What a sweep does with an entry.
#[derive(Debug, Clone, Copy, PartialEq, Eq)]
pub enum Fate {
    /// The entry is in use and stays.
    Kept,
    /// The entry is an unused directory: it is removed with all below it.
    RemovedTree,
    /// The entry is an unused file: it is removed.
    RemovedFile,
    /// The entry lay in a directory that the sweep removed as a whole.
    Gone,
}

/// The removal of one entry.
#[derive(Debug, Clone, PartialEq, Eq)]
pub enum Removal {
    /// Remove the directory at `path` with all below it.
    Tree { path: String },
    /// Remove the file at `path`.
    File { path: String },
}

/// A removal, with its path as a sequence of characters.
pub ghost enum RemovalModel {
    Tree { path: Seq<char> },
    File { path: Seq<char> },
}

impl View for Removal {
    type V = RemovalModel;

    open spec fn view(&self) -> RemovalModel {
        match self {
            Removal::Tree { path } => RemovalModel::Tree { path: path@ },
            Removal::File { path } => RemovalModel::File { path: path@ },
        }
    }
}

/// The fate of an entry, and where the sweep stands after it.
#[derive(Debug, Clone, Copy)]
pub struct Step {
    pub fate: Fate,
    /// The depth of the removed directory that the walk is still inside of.
    pub inside: Option<usize>,
}

/// A step, with its depth as a natural number.
pub ghost struct StepModel {
    pub fate: Fate,
    pub inside: Option<nat>,
}

impl View for Step {
    type V = StepModel;

    open spec fn view(&self) -> StepModel {
        StepModel { fate: self.fate, inside: depth_of(self.inside) }
    }
}

/// An optional depth as a natural number.
pub open spec fn depth_of(inside: Option<usize>) -> Option<nat> {
    match inside {
        Some(depth) => Some(depth as nat),
        None => None,
    }
}

/// The views of the entries of `v`, in order.
pub open spec fn entries_of(v: Seq<Entry>) -> Seq<EntryModel> {
    Seq::new(v.len(), |i: int| v[i]@)
}

/// The views of the removals of `v`, in order.
pub open spec fn removals_of(v: Seq<Removal>) -> Seq<RemovalModel> {
    Seq::new(v.len(), |i: int| v[i]@)
}

/// What a sweep does with `entry`, where `roots` are in use and `inside` is
/// the depth of the removed directory that the walk is still inside of.
///
/// An entry deeper than that directory went with it. Any other entry stays
/// if its very path is in use; if not, it is removed, a directory with all
/// below it.
pub open spec fn decide(roots: Set<Seq<char>>, inside: Option<nat>, entry: EntryModel) -> Fate {
    if inside is Some && entry.depth > inside->0 {
        Fate::Gone
    } else if roots.contains(entry.path) {
        Fate::Kept
    } else if entry.is_dir {
        Fate::RemovedTree
    } else {
        Fate::RemovedFile
    }
}

/// Where the sweep stands after an entry of the given fate: inside the
/// directory it has just removed, still inside the one it was in, or in
/// none.
pub open spec fn inside_after(inside: Option<nat>, entry: EntryModel, fate: Fate) -> Option<nat> {
    match fate {
        Fate::Gone => inside,
        Fate::RemovedTree => Some(entry.depth),
        _ => None,
    }
}

/// Where the sweep stands after the entries of a walk, taken in order.
pub open spec fn inside(roots: Set<Seq<char>>, entries: Seq<EntryModel>) -> Option<nat>
    decreases entries.len(),
{
    if entries.len() == 0 {
        None
    } else {
        let before = inside(roots, entries.drop_last());
        inside_after(before, entries.last(), decide(roots, before, entries.last()))
    }
}

/// What a sweep does with the entry at `i` of a walk.
pub open spec fn fate(roots: Set<Seq<char>>, entries: Seq<EntryModel>, i: int) -> Fate {
    decide(roots, inside(roots, entries.take(i)), entries[i])
}

/// The removal that a fate asks for, if any.
pub open spec fn removal_for(entry: EntryModel, fate: Fate) -> Seq<RemovalModel> {
    match fate {
        Fate::RemovedTree => seq![RemovalModel::Tree { path: entry.path }],
        Fate::RemovedFile => seq![RemovalModel::File { path: entry.path }],
        _ => Seq::empty(),
    }
}

/// The removals of a sweep over the entries of a walk, in order.
pub open spec fn removals(roots: Set<Seq<char>>, entries: Seq<EntryModel>) -> Seq<RemovalModel>
    decreases entries.len(),
{
    if entries.len() == 0 {
        Seq::empty()
    } else {
        removals(roots, entries.drop_last()) + removal_for(
            entries.last(),
            fate(roots, entries, entries.len() - 1),
        )
    }
}

/// Whether the entry at `outer` of a walk encloses the one at `inner`: it
/// comes first, and all from the next to `inner` lie deeper than it.
pub open spec fn encloses(entries: Seq<EntryModel>, outer: int, inner: int) -> bool {
    &&& 0 <= outer < inner < entries.len()
    &&& forall|k: int| outer < k <= inner ==> (#[trigger] entries[k]).depth > entries[outer].depth
}

/// What a step of the sweep makes of a visit.
pub open spec fn stepped(roots: Set<Seq<char>>, inside: Option<nat>, visit: Visit) -> Result<
    StepModel,
    FailureModel,
> {
    match visit {
        Visit::Found(entry) => {
            let fate = decide(roots, inside, entry@);
            Ok(StepModel { fate, inside: inside_after(inside, entry@, fate) })
        },
        Visit::Failed { reason } => Err(FailureModel::SweepIo { reason: reason@ }),
    }
}

/// What a failed removal means for the sweep: that of a directory ends it;
/// that of a file is passed over, since a directory above the file may have
/// been removed before.
pub open spec fn removal_failure(fate: Fate, reason: Seq<char>) -> Result<(), FailureModel> {
    match fate {
        Fate::RemovedTree => Err(FailureModel::SweepIo { reason }),
        _ => Ok(()),
    }
}

/// Whether the entry at `i` of a walk is still there after the sweep: the
/// sweep keeps it, and removes no directory that encloses it.
pub open spec fn survives(roots: Set<Seq<char>>, entries: Seq<EntryModel>, i: int) -> bool {
    &&& fate(roots, entries, i) == Fate::Kept
    &&& forall|j: int| encloses(entries, j, i) ==> fate(roots, entries, j) != Fate::RemovedTree
}

/// Whether the sweep removes the entry at `i` of a walk: the plan holds its
/// own removal, or that of a directory that encloses it.
pub open spec fn removed(roots: Set<Seq<char>>, entries: Seq<EntryModel>, i: int) -> bool {
    let plan = removals(roots, entries);
    ||| entries[i].is_dir && plan.contains(RemovalModel::Tree { path: entries[i].path })
    ||| !entries[i].is_dir && plan.contains(RemovalModel::File { path: entries[i].path })
    ||| exists|j: int|
        encloses(entries, j, i) && entries[j].is_dir && #[trigger] plan.contains(
            RemovalModel::Tree { path: entries[j].path },
        )
}

/// What the sweep does with an entry depends only on the walk up to it.
pub proof fn lemma_fate_looks_back(
    roots: Set<Seq<char>>,
    entries: Seq<EntryModel>,
    n: int,
    i: int,
)
    requires
        0 <= i < n <= entries.len(),
    ensures
        fate(roots, entries.take(n), i) == fate(roots, entries, i),
{
    assert(entries.take(n).take(i) == entries.take(i));
}

/// Where the sweep stands inside a removed directory, it has removed one at
/// that depth, and all entries since lie deeper.
pub proof fn lemma_inside_has_cause(roots: Set<Seq<char>>, entries: Seq<EntryModel>)
    ensures
        inside(roots, entries) matches Some(depth) ==> exists|j: int|
            {
                &&& 0 <= j < entries.len()
                &&& #[trigger] fate(roots, entries, j) == Fate::RemovedTree
                &&& entries[j].depth == depth
                &&& forall|k: int| j < k < entries.len() ==> (#[trigger] entries[k]).depth > depth
            },
    decreases entries.len(),
{
    if entries.len() > 0 {
        let last = entries.len() - 1;
        let front = entries.drop_last();
        let before = inside(roots, front);
        assert(entries.take(last) == front);
        match decide(roots, before, entries.last()) {
            Fate::Gone => {
                lemma_inside_has_cause(roots, front);
                let depth = before->0;
                let j = choose|j: int|
                    {
                        &&& 0 <= j < front.len()
                        &&& #[trigger] fate(roots, front, j) == Fate::RemovedTree
                        &&& front[j].depth == depth
                        &&& forall|k: int|
                            j < k < front.len() ==> (#[trigger] front[k]).depth > depth
                    };
                lemma_fate_looks_back(roots, entries, last, j);
                assert forall|k: int| j < k < entries.len() implies (#[trigger] entries[k]).depth
                    > depth by {
                    if k < last {
                        assert(front[k] == entries[k]);
                    }
                }
                assert(fate(roots, entries, j) == Fate::RemovedTree);
            },
            Fate::RemovedTree => {
                assert(fate(roots, entries, last) == Fate::RemovedTree);
            },
            _ => {},
        }
    }
}

/// The plan of a sweep holds the removal of every entry whose fate is to be
/// removed, and nothing else.
pub proof fn lemma_plan_is_the_fates(
    roots: Set<Seq<char>>,
    entries: Seq<EntryModel>,
    removal: RemovalModel,
)
    ensures
        removals(roots, entries).contains(removal) <==> exists|i: int|
            0 <= i < entries.len() && #[trigger] removal_for(
                entries[i],
                fate(roots, entries, i),
            ) == seq![removal],
    decreases entries.len(),
{
    if entries.len() > 0 {
        let last = entries.len() - 1;
        let front = entries.drop_last();
        let head = removals(roots, front);
        let tail = removal_for(entries.last(), fate(roots, entries, last));
        assert(entries.take(last) == front);
        lemma_plan_is_the_fates(roots, front, removal);
        if removals(roots, entries).contains(removal) {
            let at = choose|at: int|
                0 <= at < (head + tail).len() && (head + tail)[at] == removal;
            if at < head.len() {
                assert(head[at] == removal);
                assert(head.contains(removal));
                let i = choose|i: int|
                    0 <= i < front.len() && #[trigger] removal_for(
                        front[i],
                        fate(roots, front, i),
                    ) == seq![removal];
                lemma_fate_looks_back(roots, entries, last, i);
                assert(removal_for(entries[i], fate(roots, entries, i)) == seq![removal]);
            } else {
                assert(tail[at - head.len()] == removal);
                assert(tail == seq![removal]);
                assert(removal_for(entries[last], fate(roots, entries, last)) == seq![removal]);
            }
        }
        if exists|i: int|
            0 <= i < entries.len() && #[trigger] removal_for(
                entries[i],
                fate(roots, entries, i),
            ) == seq![removal] {
            let i = choose|i: int|
                0 <= i < entries.len() && #[trigger] removal_for(
                    entries[i],
                    fate(roots, entries, i),
                ) == seq![removal];
            if i < last {
                lemma_fate_looks_back(roots, entries, last, i);
                assert(front[i] == entries[i]);
                assert(removal_for(front[i], fate(roots, front, i)) == seq![removal]);
                assert(head.contains(removal));
                let at = choose|at: int| 0 <= at < head.len() && head[at] == removal;
                assert((head + tail)[at] == removal);
            } else {
                assert(tail == seq![removal]);
                assert((head + tail)[head.len() as int] == removal);
            }
        }
    }
}

/// A sweep never removes a path that is in use by that very path: no
/// removal of the plan names a root.
pub proof fn lemma_plan_spares_roots(
    roots: Set<Seq<char>>,
    entries: Seq<EntryModel>,
    removal: RemovalModel,
)
    requires
        removals(roots, entries).contains(removal),
    ensures
        removal matches RemovalModel::Tree { path } ==> !roots.contains(path),
        removal matches RemovalModel::File { path } ==> !roots.contains(path),
{
    lemma_plan_is_the_fates(roots, entries, removal);
    let i = choose|i: int|
        0 <= i < entries.len() && #[trigger] removal_for(entries[i], fate(roots, entries, i))
            == seq![removal];
    assert(removal_for(entries[i], fate(roots, entries, i))[0] == removal);
}

/// Root preservation: an entry that is in use is still there after the
/// sweep, provided that every directory that encloses it is in use too.
/// (An entry in use inside a directory that is not in use goes with that
/// directory.)
pub proof fn lemma_roots_survive(roots: Set<Seq<char>>, entries: Seq<EntryModel>, i: int)
    requires
        0 <= i < entries.len(),
        roots.contains(entries[i].path),
        forall|j: int| encloses(entries, j, i) ==> roots.contains(#[trigger] entries[j].path),
    ensures
        survives(roots, entries, i),
        !removed(roots, entries, i),
{
    let seen = entries.take(i);
    lemma_inside_has_cause(roots, seen);
    if inside(roots, seen) is Some && entries[i].depth > inside(roots, seen)->0 {
        let depth = inside(roots, seen)->0;
        let j = choose|j: int|
            {
                &&& 0 <= j < seen.len()
                &&& #[trigger] fate(roots, seen, j) == Fate::RemovedTree
                &&& seen[j].depth == depth
                &&& forall|k: int| j < k < seen.len() ==> (#[trigger] seen[k]).depth > depth
            };
        lemma_fate_looks_back(roots, entries, i, j);
        assert forall|k: int| j < k <= i implies (#[trigger] entries[k]).depth
            > entries[j].depth by {
            if k < i {
                assert(seen[k] == entries[k]);
            }
        }
        assert(encloses(entries, j, i));
        assert(roots.contains(entries[j].path));
    }
    assert(fate(roots, entries, i) == Fate::Kept);
    assert forall|j: int| encloses(entries, j, i) implies fate(roots, entries, j)
        != Fate::RemovedTree by {
        assert(roots.contains(entries[j].path));
    }
    let plan = removals(roots, entries);
    let tree = RemovalModel::Tree { path: entries[i].path };
    let file = RemovalModel::File { path: entries[i].path };
    if plan.contains(tree) {
        lemma_plan_spares_roots(roots, entries, tree);
    }
    if plan.contains(file) {
        lemma_plan_spares_roots(roots, entries, file);
    }
    if exists|j: int|
        encloses(entries, j, i) && entries[j].is_dir && #[trigger] plan.contains(
            RemovalModel::Tree { path: entries[j].path },
        ) {
        let j = choose|j: int|
            encloses(entries, j, i) && entries[j].is_dir && #[trigger] plan.contains(
                RemovalModel::Tree { path: entries[j].path },
            );
        lemma_plan_spares_roots(roots, entries, RemovalModel::Tree { path: entries[j].path });
    }
}

/// Sweep completeness: an entry that is not in use is removed by the sweep,
/// by itself or with a directory that encloses it.
pub proof fn lemma_garbage_is_removed(roots: Set<Seq<char>>, entries: Seq<EntryModel>, i: int)
    requires
        0 <= i < entries.len(),
        !roots.contains(entries[i].path),
    ensures
        !survives(roots, entries, i),
        removed(roots, entries, i),
{
    let plan = removals(roots, entries);
    match fate(roots, entries, i) {
        Fate::Kept => {},
        Fate::RemovedTree => {
            let removal = RemovalModel::Tree { path: entries[i].path };
            assert(removal_for(entries[i], fate(roots, entries, i)) == seq![removal]);
            lemma_plan_is_the_fates(roots, entries, removal);
        },
        Fate::RemovedFile => {
            let removal = RemovalModel::File { path: entries[i].path };
            assert(removal_for(entries[i], fate(roots, entries, i)) == seq![removal]);
            lemma_plan_is_the_fates(roots, entries, removal);
        },
        Fate::Gone => {
            let seen = entries.take(i);
            lemma_inside_has_cause(roots, seen);
            let depth = inside(roots, seen)->0;
            let j = choose|j: int|
                {
                    &&& 0 <= j < seen.len()
                    &&& #[trigger] fate(roots, seen, j) == Fate::RemovedTree
                    &&& seen[j].depth == depth
                    &&& forall|k: int| j < k < seen.len() ==> (#[trigger] seen[k]).depth > depth
                };
            lemma_fate_looks_back(roots, entries, i, j);
            assert forall|k: int| j < k <= i implies (#[trigger] entries[k]).depth
                > entries[j].depth by {
                if k < i {
                    assert(seen[k] == entries[k]);
                }
            }
            assert(encloses(entries, j, i));
            let removal = RemovalModel::Tree { path: entries[j].path };
            assert(removal_for(entries[j], fate(roots, entries, j)) == seq![removal]);
            lemma_plan_is_the_fates(roots, entries, removal);
            assert(entries[j].is_dir);
        },
    }
}

/// What the sweep keeps is in use.
pub proof fn lemma_kept_is_in_use(roots: Set<Seq<char>>, entries: Seq<EntryModel>, i: int)
    requires
        0 <= i < entries.len(),
        fate(roots, entries, i) == Fate::Kept,
    ensures
        roots.contains(entries[i].path),
{
}

/// A second sweep finds nothing to do: where every entry of a walk is in
/// use, the plan is empty.
pub proof fn lemma_clean_walk_is_left_alone(roots: Set<Seq<char>>, entries: Seq<EntryModel>)
    requires
        forall|i: int| 0 <= i < entries.len() ==> roots.contains(#[trigger] entries[i].path),
    ensures
        removals(roots, entries) == Seq::<RemovalModel>::empty(),
        inside(roots, entries) is None,
    decreases entries.len(),
{
    if entries.len() > 0 {
        let front = entries.drop_last();
        assert forall|i: int| 0 <= i < front.len() implies roots.contains(
            #[trigger] front[i].path,
        ) by {
            assert(front[i] == entries[i]);
        }
        lemma_clean_walk_is_left_alone(roots, front);
        assert(entries.take(entries.len() - 1) == front);
        assert(roots.contains(entries[entries.len() - 1].path));
    }
}

impl Fate {
    /// Says whether the sweep goes on after the removal that this fate
    /// asked for has failed for the given reason.
    pub fn removal_failed(self, reason: &str) -> (r: Result<(), Failure>)
        ensures
            outcome(r) == removal_failure(self, reason@),
    {
        match self {
            Fate::RemovedTree => Err(Failure::SweepIo { reason: reason.to_owned() }),
            _ => Ok(()),
        }
    }
}

/// Keeps track of the garbage collection roots.
///
/// The roots are all the paths still in use. They are used to find all
/// **unused** paths and delete them.
#[derive(Debug)]
pub struct Roots {
    paths: Vec<String>,
}

impl View for Roots {
    type V = Set<Seq<char>>;

    closed spec fn view(&self) -> Set<Seq<char>> {
        texts(self.paths@).to_set()
    }
}

impl Roots {
    /// No path is held twice.
    #[verifier::type_invariant]
    spec fn unique(&self) -> bool {
        texts(self.paths@).no_duplicates()
    }

    pub fn new() -> (r: Roots)
        ensures
            r@ == Set::<Seq<char>>::empty(),
    {
        let r = Roots { paths: Vec::new() };
        proof {
            assert(texts(r.paths@) == Seq::<Seq<char>>::empty());
            assert(r@ =~= Set::<Seq<char>>::empty());
        }
        r
    }

    /// Whether `path` is one of the roots.
    pub fn contains(&self, path: &str) -> (r: bool)
        ensures
            r == self@.contains(path@),
    {
        let wanted = path.to_owned();
        let mut i: usize = 0;
        while i < self.paths.len()
            invariant
                i <= self.paths.len(),
                wanted@ == path@,
                forall|k: int| 0 <= k < i ==> texts(self.paths@)[k] != path@,
            decreases self.paths.len() - i,
        {
            if self.paths[i] == wanted {
                proof {
                    assert(texts(self.paths@)[i as int] == path@);
                }
                return true;
            }
            i += 1;
        }
        false
    }

    /// Adds the paths of `other` to the roots.
    pub fn extend(&mut self, other: &Vec<String>)
        ensures
            final(self)@ == old(self)@.union(texts(other@).to_set()),
    {
        let mut i: usize = 0;
        while i < other.len()
            invariant
                i <= other.len(),
                self@ == old(self)@.union(texts(other@).take(i as int).to_set()),
            decreases other.len() - i,
        {
            let ghost before = self@;
            let ghost seen = texts(other@).take(i as int);
            proof {
                assert(texts(other@).take(i + 1) == seen.push(other[i as int]@));
                assert(seen.push(other[i as int]@).to_set() =~= seen.to_set().insert(
                    other[i as int]@,
                )) by {
                    let longer = seen.push(other[i as int]@);
                    assert forall|p: Seq<char>|
                        longer.to_set().contains(p) <==> seen.to_set().insert(
                            other[i as int]@,
                        ).contains(p) by {
                        if longer.contains(p) {
                            let at = choose|at: int| 0 <= at < longer.len() && longer[at] == p;
                            if at < seen.len() {
                                assert(seen[at] == p);
                            }
                        }
                        if seen.contains(p) {
                            let at = choose|at: int| 0 <= at < seen.len() && seen[at] == p;
                            assert(longer[at] == p);
                        }
                        assert(longer[seen.len() as int] == other[i as int]@);
                    }
                }
            }
            if !self.contains(other[i].as_str()) {
                self.add(other[i].clone());
            }
            proof {
                assert(self@ =~= before.insert(other[i as int]@));
            }
            i += 1;
        }
        proof {
            assert(texts(other@).take(other.len() as int) == texts(other@));
        }
    }

    /// Adds a path that is not yet among the roots.
    fn add(&mut self, path: String)
        requires
            !old(self)@.contains(path@),
        ensures
            final(self)@ == old(self)@.insert(path@),
    {
        let mut taken = Roots { paths: Vec::new() };
        proof {
            assert(texts(taken.paths@) == Seq::<Seq<char>>::empty());
        }
        std::mem::swap(self, &mut taken);
        proof {
            use_type_invariant(&taken);
        }
        let ghost before = texts(taken.paths@);
        let mut paths = taken.paths;
        paths.push(path);
        proof {
            let after = texts(paths@);
            assert(after == before.push(path@));
            assert forall|a: int, b: int|
                0 <= a < after.len() && 0 <= b < after.len() && a != b implies after[a]
                != after[b] by {
                if a < before.len() && b < before.len() {
                    assert(before[a] != before[b]);
                } else if a < before.len() {
                    assert(before.contains(before[a]));
                } else if b < before.len() {
                    assert(before.contains(before[b]));
                }
            }
            assert(after.to_set() =~= before.to_set().insert(path@)) by {
                assert forall|p: Seq<char>|
                    after.to_set().contains(p) <==> before.to_set().insert(path@).contains(
                        p,
                    ) by {
                    if after.contains(p) {
                        let at = choose|at: int| 0 <= at < after.len() && after[at] == p;
                        if at < before.len() {
                            assert(before[at] == p);
                        }
                    }
                    if before.contains(p) {
                        let at = choose|at: int| 0 <= at < before.len() && before[at] == p;
                        assert(after[at] == p);
                    }
                    assert(after[before.len() as int] == path@);
                }
            }
        }
        *self = Roots { paths };
    }

    /// Whether the entry that a walk came to is in use. Where the walk came
    /// to none, nothing is.
    pub fn in_use(&self, entry: Option<&Entry>) -> (r: bool)
        ensures
            r == (entry matches Some(e) && self@.contains(e.path@)),
    {
        match entry {
            Some(e) => self.contains(e.path.as_str()),
            None => false,
        }
    }

    /// Decides what the sweep does with the next visit of a walk, where
    /// `inside` is the depth of the removed directory that the walk is still
    /// inside of. A walk that cannot go on ends the sweep.
    pub fn step(&self, inside: Option<usize>, visit: &Visit) -> (r: Result<Step, Failure>)
        ensures
            outcome(r) == stepped(self@, depth_of(inside), *visit),
    {
        match visit {
            Visit::Failed { reason } => Err(Failure::SweepIo { reason: reason.clone() }),
            Visit::Found(entry) => {
                let gone = match inside {
                    Some(depth) => entry.depth > depth,
                    None => false,
                };
                if gone {
                    Ok(Step { fate: Fate::Gone, inside })
                } else if self.contains(entry.path.as_str()) {
                    Ok(Step { fate: Fate::Kept, inside: None })
                } else if entry.is_dir {
                    Ok(Step { fate: Fate::RemovedTree, inside: Some(entry.depth) })
                } else {
                    Ok(Step { fate: Fate::RemovedFile, inside: None })
                }
            },
        }
    }

    /// Sweeps the entries of a walk, taken in the walk's order: says what is
    /// to be removed so that nothing stays but what is in use.
    pub fn collect_garbage(&self, entries: &Vec<Entry>) -> (r: Vec<Removal>)
        ensures
            removals_of(r@) == removals(self@, entries_of(entries@)),
    {
        let mut plan: Vec<Removal> = Vec::new();
        let mut at: Option<usize> = None;
        let mut i: usize = 0;
        proof {
            assert(entries_of(entries@).take(0).len() == 0);
            assert(removals_of(plan@) == Seq::<RemovalModel>::empty());
        }
        while i < entries.len()
            invariant
                i <= entries.len(),
                depth_of(at) == inside(self@, entries_of(entries@).take(i as int)),
                removals_of(plan@) == removals(self@, entries_of(entries@).take(i as int)),
            decreases entries.len() - i,
        {
            let entry = &entries[i];
            let ghost seen = entries_of(entries@).take(i as int);
            let ghost next = entries_of(entries@).take(i + 1);
            let ghost before = removals_of(plan@);
            proof {
                assert(next.drop_last() == seen);
                assert(next.last() == entry@);
                assert(next.take(next.len() - 1) == seen);
            }
            let gone = match at {
                Some(depth) => entry.depth > depth,
                None => false,
            };
            if gone {
            } else if self.contains(entry.path.as_str()) {
                at = None;
            } else if entry.is_dir {
                plan.push(Removal::Tree { path: entry.path.clone() });
                at = Some(entry.depth);
                proof {
                    assert(removals_of(plan@) == before.push(
                        RemovalModel::Tree { path: entry.path@ },
                    ));
                }
            } else {
                plan.push(Removal::File { path: entry.path.clone() });
                at = None;
                proof {
                    assert(removals_of(plan@) == before.push(
                        RemovalModel::File { path: entry.path@ },
                    ));
                }
            }
            proof {
                assert(removals_of(plan@) == before + removal_for(
                    entry@,
                    fate(self@, next, next.len() - 1),
                ));
            }
            i += 1;
        }
        proof {
            assert(entries_of(entries@).take(entries.len() as int) == entries_of(entries@));
        }
        plan
    }
}

} // verus!

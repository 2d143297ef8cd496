//! The feature graph: tasks with dependencies, priorities and statuses, and
//! the scheduler that decides which task a worker may take next.
//!
//! A feature may be claimed only while it is unclaimed and every feature it
//! depends on is done; the scheduler hands out the pending feature with the
//! lowest priority number, ties broken by insertion order.

use vstd::prelude::*;

use crate::text::str_eq;

verus! {

/// What kind of work a feature asks for.
#[derive(Debug, Clone, PartialEq, Eq, Structural)]
pub enum FeatureType {
    Implement,
    Review,
    Poc,
}

/// Where a feature stands in its lifecycle.
#[derive(Debug, Clone, PartialEq, Eq, Structural)]
pub enum FeatureStatus {
    Pending,
    Claimed,
    Done,
    Blocked,
}

/// One unit of work in the shared task list.
#[derive(Debug, Clone, PartialEq)]
pub struct Feature {
    pub id: String,
    pub feature_type: FeatureType,
    pub scope: String,
    pub description: String,
    pub verify: String,
    pub depends_on: Vec<String>,
    pub priority: u32,
    pub status: FeatureStatus,
    pub claimed_by: Option<String>,
    pub blocked_reason: Option<String>,
    pub context_hints: Vec<String>,
}

/// The whole task list, in insertion order.
#[derive(Debug, Clone, PartialEq)]
pub struct FeatureList {
    pub features: Vec<Feature>,
}

/// Summary of how many features sit in each status.
#[derive(Debug, Default, Clone, PartialEq, Eq, Structural)]
pub struct StatusCounts {
    pub total: usize,
    pub pending: usize,
    pub claimed: usize,
    pub done: usize,
    pub blocked: usize,
}

/// Why a scheduling operation was refused.
#[derive(Debug)]
pub enum FeatureError {
    /// No feature carries the given id.
    NotFound(String),
    /// The feature is already claimed, by the named worker.
    AlreadyClaimed(String, String),
    /// The feature is not pending (already done or blocked), so it cannot
    /// be claimed.
    NotPending(String),
    /// The feature has dependencies that are not done yet; they are listed.
    DepsNotMet(String, Vec<String>),
}

/// Some feature with this id is `Done`.
pub open spec fn done_in(fs: Seq<Feature>, id: Seq<char>) -> bool {
    exists|i: int|
        0 <= i < fs.len() && (#[trigger] fs[i]).id@ == id && fs[i].status == FeatureStatus::Done
}

/// Every dependency of `f` names a feature that is `Done` in `fs`.
pub open spec fn deps_met(fs: Seq<Feature>, f: Feature) -> bool {
    forall|d: int| 0 <= d < f.depends_on@.len() ==> done_in(fs, (#[trigger] f.depends_on@[d])@)
}

/// The feature at index `i` is pending and all its dependencies are done.
pub open spec fn claimable_at(fs: Seq<Feature>, i: int) -> bool {
    &&& 0 <= i < fs.len()
    &&& fs[i].status == FeatureStatus::Pending
    &&& deps_met(fs, fs[i])
}

/// `i` is the first index whose feature carries `id`.
pub open spec fn is_first_with_id(fs: Seq<Feature>, id: Seq<char>, i: int) -> bool {
    &&& 0 <= i < fs.len()
    &&& fs[i].id@ == id
    &&& forall|j: int| 0 <= j < i ==> (#[trigger] fs[j]).id@ != id
}

/// Some feature carries `id`.
pub open spec fn has_id(fs: Seq<Feature>, id: Seq<char>) -> bool {
    exists|i: int| 0 <= i < fs.len() && (#[trigger] fs[i]).id@ == id
}

/// `f` names `id` among its direct dependencies.
pub open spec fn direct_dep(f: Feature, id: Seq<char>) -> bool {
    exists|d: int| 0 <= d < f.depends_on@.len() && (#[trigger] f.depends_on@[d])@ == id
}

/// A claimable feature, restricted (when `filter` is set) to direct
/// dependents of the feature named by the filter.
pub open spec fn scheduling_candidate(
    fs: Seq<Feature>,
    i: int,
    filter: Option<Seq<char>>,
) -> bool {
    &&& claimable_at(fs, i)
    &&& match filter {
        Some(dep) => direct_dep(fs[i], dep),
        None => true,
    }
}

/// The candidate the scheduler prefers: lowest priority number among the
/// candidates, earliest in insertion order among those of equal priority.
pub open spec fn is_preferred_candidate(
    fs: Seq<Feature>,
    i: int,
    filter: Option<Seq<char>>,
) -> bool {
    &&& scheduling_candidate(fs, i, filter)
    &&& forall|j: int|
        #[trigger] scheduling_candidate(fs, j, filter) ==> fs[i].priority <= fs[j].priority
    &&& forall|j: int|
        0 <= j < i && #[trigger] scheduling_candidate(fs, j, filter) ==> fs[i].priority
            < fs[j].priority
}

/// The dependencies of a prefix of `deps` that are not done in `fs`, in order.
pub open spec fn unmet_deps_upto(fs: Seq<Feature>, deps: Seq<String>, end: int) -> Seq<Seq<char>>
    decreases end,
{
    if end <= 0 {
        Seq::empty()
    } else {
        let pre = unmet_deps_upto(fs, deps, end - 1);
        if !done_in(fs, deps[end - 1]@) {
            pre.push(deps[end - 1]@)
        } else {
            pre
        }
    }
}

/// All dependencies of `f` that are not done in `fs`, in order.
pub open spec fn unmet_deps(fs: Seq<Feature>, f: Feature) -> Seq<Seq<char>> {
    unmet_deps_upto(fs, f.depends_on@, f.depends_on@.len() as int)
}

/// Fields a scheduling operation never touches are equal in `a` and `b`.
pub open spec fn same_core(a: Feature, b: Feature) -> bool {
    &&& a.id == b.id
    &&& a.feature_type == b.feature_type
    &&& a.scope == b.scope
    &&& a.description == b.description
    &&& a.verify == b.verify
    &&& a.depends_on == b.depends_on
    &&& a.priority == b.priority
    &&& a.context_hints == b.context_hints
}

/// `fs1` is `fs0` with the feature at `i` claimed for `agent`.
pub open spec fn claim_applied(fs0: Seq<Feature>, fs1: Seq<Feature>, i: int, agent: Seq<char>) -> bool {
    &&& 0 <= i < fs0.len()
    &&& fs1.len() == fs0.len()
    &&& forall|j: int| 0 <= j < fs0.len() && j != i ==> fs1[j] == fs0[j]
    &&& same_core(fs1[i], fs0[i])
    &&& fs1[i].blocked_reason == fs0[i].blocked_reason
    &&& fs1[i].status == FeatureStatus::Claimed
    &&& fs1[i].claimed_by matches Some(a) && a@ == agent
}

/// `fs1` is `fs0` with the feature at `i` marked done.
pub open spec fn done_applied(fs0: Seq<Feature>, fs1: Seq<Feature>, i: int) -> bool {
    &&& 0 <= i < fs0.len()
    &&& fs1.len() == fs0.len()
    &&& forall|j: int| 0 <= j < fs0.len() && j != i ==> fs1[j] == fs0[j]
    &&& same_core(fs1[i], fs0[i])
    &&& fs1[i].claimed_by is None
    &&& fs1[i].blocked_reason == fs0[i].blocked_reason
    &&& fs1[i].status == FeatureStatus::Done
}

/// `fs1` is `fs0` with the feature at `i` marked blocked for `reason`.
pub open spec fn blocked_applied(fs0: Seq<Feature>, fs1: Seq<Feature>, i: int, reason: Seq<char>) -> bool {
    &&& 0 <= i < fs0.len()
    &&& fs1.len() == fs0.len()
    &&& forall|j: int| 0 <= j < fs0.len() && j != i ==> fs1[j] == fs0[j]
    &&& same_core(fs1[i], fs0[i])
    &&& fs1[i].claimed_by == fs0[i].claimed_by
    &&& fs1[i].status == FeatureStatus::Blocked
    &&& fs1[i].blocked_reason matches Some(m) && m@ == reason
}

/// `fs1` is `fs0` with the feature at `i` reset to pending, unclaimed and
/// unblocked.
pub open spec fn reopen_applied(fs0: Seq<Feature>, fs1: Seq<Feature>, i: int) -> bool {
    &&& 0 <= i < fs0.len()
    &&& fs1.len() == fs0.len()
    &&& forall|j: int| 0 <= j < fs0.len() && j != i ==> fs1[j] == fs0[j]
    &&& same_core(fs1[i], fs0[i])
    &&& fs1[i].status == FeatureStatus::Pending
    &&& fs1[i].claimed_by is None
    &&& fs1[i].blocked_reason is None
}

/// How many features of `fs` before index `end` carry status `st`.
pub open spec fn count_with_status(fs: Seq<Feature>, end: int, st: FeatureStatus) -> int
    decreases end,
{
    if end <= 0 {
        0
    } else {
        count_with_status(fs, end - 1, st) + if fs[end - 1].status == st {
            1int
        } else {
            0int
        }
    }
}

/// The ids of the claimable features among the first `end`, in order.
pub open spec fn claimable_ids_upto(fs: Seq<Feature>, end: int) -> Seq<Seq<char>>
    decreases end,
{
    if end <= 0 {
        Seq::empty()
    } else {
        let pre = claimable_ids_upto(fs, end - 1);
        if claimable_at(fs, end - 1) {
            pre.push(fs[end - 1].id@)
        } else {
            pre
        }
    }
}

/// A claimable feature at an index not picked yet.
pub open spec fn remaining_candidate(fs: Seq<Feature>, i: int, picked: Seq<int>) -> bool {
    claimable_at(fs, i) && !picked.contains(i)
}

/// The remaining candidate the scheduler prefers (see
/// [`is_preferred_candidate`]).
pub open spec fn is_preferred_remaining(fs: Seq<Feature>, i: int, picked: Seq<int>) -> bool {
    &&& remaining_candidate(fs, i, picked)
    &&& forall|j: int|
        #[trigger] remaining_candidate(fs, j, picked) ==> fs[i].priority <= fs[j].priority
    &&& forall|j: int|
        0 <= j < i && #[trigger] remaining_candidate(fs, j, picked) ==> fs[i].priority
            < fs[j].priority
}

/// The indices the scheduler hands out for a batch of size `k`: repeatedly
/// the preferred remaining candidate, until none is left.
pub open spec fn pick_seq(fs: Seq<Feature>, k: nat) -> Seq<int>
    decreases k,
{
    if k == 0 {
        Seq::empty()
    } else {
        let prev = pick_seq(fs, (k - 1) as nat);
        if exists|i: int| is_preferred_remaining(fs, i, prev) {
            prev.push(choose|i: int| is_preferred_remaining(fs, i, prev))
        } else {
            prev
        }
    }
}

/// At most one index is the preferred remaining candidate.
proof fn lemma_preferred_remaining_unique(fs: Seq<Feature>, picked: Seq<int>, i: int, j: int)
    requires
        is_preferred_remaining(fs, i, picked),
        is_preferred_remaining(fs, j, picked),
    ensures
        i == j,
{
    if i < j {
        assert(remaining_candidate(fs, i, picked));
        assert(fs[j].priority < fs[i].priority);
        assert(remaining_candidate(fs, j, picked));
        assert(fs[i].priority <= fs[j].priority);
    } else if j < i {
        assert(remaining_candidate(fs, j, picked));
        assert(fs[i].priority < fs[j].priority);
        assert(remaining_candidate(fs, i, picked));
        assert(fs[j].priority <= fs[i].priority);
    }
}

/// Once no remaining candidate exists, larger batch sizes pick nothing more.
proof fn lemma_pick_seq_stalls(fs: Seq<Feature>, k: nat, n: nat)
    requires
        k <= n,
        forall|i: int| !is_preferred_remaining(fs, i, pick_seq(fs, k)),
    ensures
        pick_seq(fs, n) == pick_seq(fs, k),
    decreases n,
{
    if n > k {
        lemma_pick_seq_stalls(fs, k, (n - 1) as nat);
    }
}

/// A prefix of `deps` has an unmet entry exactly when the collected unmet
/// list of that prefix is non-empty.
proof fn lemma_unmet_empty_iff(fs: Seq<Feature>, deps: Seq<String>, end: int)
    ensures
        unmet_deps_upto(fs, deps, end).len() == 0 <==> forall|d: int|
            0 <= d < end ==> done_in(fs, (#[trigger] deps[d])@),
    decreases end,
{
    if end > 0 {
        lemma_unmet_empty_iff(fs, deps, end - 1);
    }
}

impl FeatureList {
    /// True when every feature is `Done`.
    pub fn all_done(&self) -> (r: bool)
        ensures
            r == forall|i: int|
                0 <= i < self.features@.len() ==> (#[trigger] self.features@[i]).status
                    == FeatureStatus::Done,
    {
        let n = self.features.len();
        let mut i: usize = 0;
        while i < n
            invariant
                0 <= i <= n,
                n == self.features@.len(),
                forall|j: int|
                    0 <= j < i ==> (#[trigger] self.features@[j]).status == FeatureStatus::Done,
            decreases n - i,
        {
            if !(self.features[i].status == FeatureStatus::Done) {
                return false;
            }
            i += 1;
        }
        true
    }

    /// Count features per status; `total` is the length of the list.
    pub fn status_counts(&self) -> (c: StatusCounts)
        ensures
            c.total == self.features@.len(),
            c.pending == count_with_status(
                self.features@,
                self.features@.len() as int,
                FeatureStatus::Pending,
            ),
            c.claimed == count_with_status(
                self.features@,
                self.features@.len() as int,
                FeatureStatus::Claimed,
            ),
            c.done == count_with_status(
                self.features@,
                self.features@.len() as int,
                FeatureStatus::Done,
            ),
            c.blocked == count_with_status(
                self.features@,
                self.features@.len() as int,
                FeatureStatus::Blocked,
            ),
            c.pending + c.claimed + c.done + c.blocked == c.total,
    {
        let n = self.features.len();
        let mut c = StatusCounts { total: n, pending: 0, claimed: 0, done: 0, blocked: 0 };
        let mut i: usize = 0;
        while i < n
            invariant
                0 <= i <= n,
                n == self.features@.len(),
                c.total == n,
                c.pending == count_with_status(self.features@, i as int, FeatureStatus::Pending),
                c.claimed == count_with_status(self.features@, i as int, FeatureStatus::Claimed),
                c.done == count_with_status(self.features@, i as int, FeatureStatus::Done),
                c.blocked == count_with_status(self.features@, i as int, FeatureStatus::Blocked),
                c.pending + c.claimed + c.done + c.blocked == i,
            decreases n - i,
        {
            match self.features[i].status {
                FeatureStatus::Pending => { c.pending += 1; }
                FeatureStatus::Claimed => { c.claimed += 1; }
                FeatureStatus::Done => { c.done += 1; }
                FeatureStatus::Blocked => { c.blocked += 1; }
            }
            i += 1;
        }
        c
    }

    /// Some `Done` feature carries `id`.
    fn is_done_id(&self, id: &str) -> (r: bool)
        ensures
            r == done_in(self.features@, id@),
    {
        let n = self.features.len();
        let mut i: usize = 0;
        while i < n
            invariant
                0 <= i <= n,
                n == self.features@.len(),
                forall|j: int|
                    0 <= j < i ==> !((#[trigger] self.features@[j]).id@ == id@
                        && self.features@[j].status == FeatureStatus::Done),
            decreases n - i,
        {
            if self.features[i].status == FeatureStatus::Done && str_eq(
                self.features[i].id.as_str(),
                id,
            ) {
                return true;
            }
            i += 1;
        }
        false
    }

    /// Every dependency of the feature at `i` is done.
    fn deps_met_at(&self, i: usize) -> (r: bool)
        requires
            i < self.features@.len(),
        ensures
            r == deps_met(self.features@, self.features@[i as int]),
    {
        let m = self.features[i].depends_on.len();
        let mut d: usize = 0;
        while d < m
            invariant
                0 <= d <= m,
                i < self.features@.len(),
                m == self.features@[i as int].depends_on@.len(),
                forall|e: int|
                    0 <= e < d ==> done_in(
                        self.features@,
                        (#[trigger] self.features@[i as int].depends_on@[e])@,
                    ),
            decreases m - d,
        {
            if !self.is_done_id(self.features[i].depends_on[d].as_str()) {
                return false;
            }
            d += 1;
        }
        true
    }

    /// The feature at `i` directly depends on `id`.
    fn has_direct_dep(&self, i: usize, id: &str) -> (r: bool)
        requires
            i < self.features@.len(),
        ensures
            r == direct_dep(self.features@[i as int], id@),
    {
        let m = self.features[i].depends_on.len();
        let mut d: usize = 0;
        while d < m
            invariant
                0 <= d <= m,
                i < self.features@.len(),
                m == self.features@[i as int].depends_on@.len(),
                forall|e: int|
                    0 <= e < d ==> (#[trigger] self.features@[i as int].depends_on@[e])@ != id@,
            decreases m - d,
        {
            if str_eq(self.features[i].depends_on[d].as_str(), id) {
                return true;
            }
            d += 1;
        }
        false
    }

    /// The feature at `i` is a scheduling candidate for `filter`.
    fn is_candidate(&self, i: usize, filter: Option<&str>) -> (r: bool)
        requires
            i < self.features@.len(),
        ensures
            r == scheduling_candidate(self.features@, i as int, spec_filter(filter)),
    {
        if !(self.features[i].status == FeatureStatus::Pending) {
            return false;
        }
        if !self.deps_met_at(i) {
            return false;
        }
        match filter {
            None => true,
            Some(dep) => self.has_direct_dep(i, dep),
        }
    }

    /// Index of the preferred scheduling candidate, if any candidate exists.
    fn best_candidate_index(&self, filter: Option<&str>) -> (r: Option<usize>)
        ensures
            match r {
                Some(b) => is_preferred_candidate(self.features@, b as int, spec_filter(filter)),
                None => forall|i: int|
                    !scheduling_candidate(self.features@, i, spec_filter(filter)),
            },
    {
        let n = self.features.len();
        let mut best: Option<usize> = None;
        let mut i: usize = 0;
        while i < n
            invariant
                0 <= i <= n,
                n == self.features@.len(),
                match best {
                    Some(b) => {
                        &&& (b as int) < i as int
                        &&& scheduling_candidate(self.features@, b as int, spec_filter(filter))
                        &&& forall|j: int|
                            0 <= j < i && #[trigger] scheduling_candidate(
                                self.features@,
                                j,
                                spec_filter(filter),
                            ) ==> self.features@[b as int].priority <= self.features@[j].priority
                        &&& forall|j: int|
                            0 <= j < b as int && #[trigger] scheduling_candidate(
                                self.features@,
                                j,
                                spec_filter(filter),
                            ) ==> self.features@[b as int].priority < self.features@[j].priority
                    },
                    None => forall|j: int|
                        0 <= j < i ==> !scheduling_candidate(self.features@, j, spec_filter(filter)),
                },
            decreases n - i,
        {
            if self.is_candidate(i, filter) {
                match best {
                    None => { best = Some(i); }
                    Some(b) => {
                        if self.features[i].priority < self.features[b].priority {
                            best = Some(i);
                        }
                    }
                }
            }
            i += 1;
        }
        best
    }

    /// The pending feature with all dependencies done that the scheduler
    /// prefers: lowest priority number, ties broken by insertion order.
    /// Returns `None` exactly when no feature is claimable.
    pub fn next_claimable(&self) -> (r: Option<&Feature>)
        ensures
            match r {
                Some(f) => {
                    &&& exists|i: int|
                        #[trigger] is_preferred_candidate(self.features@, i, None)
                            && *f == self.features@[i]
                    &&& f.status == FeatureStatus::Pending
                    &&& deps_met(self.features@, *f)
                },
                None => forall|i: int| !claimable_at(self.features@, i),
            },
    {
        match self.best_candidate_index(None) {
            Some(b) => {
                let fref = &self.features[b];
                proof {
                    assert(is_preferred_candidate(self.features@, b as int, None));
                    assert(*fref == self.features@[b as int]);
                    assert(exists|i: int|
                        #[trigger] is_preferred_candidate(self.features@, i, None) && *fref
                            == self.features@[i]);
                    assert(claimable_at(self.features@, b as int));
                    assert(fref.status == FeatureStatus::Pending);
                    assert(deps_met(self.features@, *fref));
                }
                Some(fref)
            }
            None => {
                proof {
                    assert forall|i: int| !claimable_at(self.features@, i) by {
                        assert(!scheduling_candidate(self.features@, i, spec_filter(None)));
                    }
                }
                None
            }
        }
    }

    /// The feature to hand out after `completed_id` finished: the preferred
    /// claimable direct dependent of `completed_id`, and where none exists,
    /// the preferred claimable feature overall. `None` exactly when nothing
    /// is claimable.
    pub fn next_after(&self, completed_id: &str) -> (r: Option<&Feature>)
        ensures
            match r {
                Some(f) => {
                    &&& if exists|i: int|
                        scheduling_candidate(self.features@, i, Some(completed_id@)) {
                        exists|i: int|
                            #[trigger] is_preferred_candidate(
                                self.features@,
                                i,
                                Some(completed_id@),
                            ) && *f == self.features@[i]
                    } else {
                        exists|i: int|
                            #[trigger] is_preferred_candidate(self.features@, i, None)
                                && *f == self.features@[i]
                    }
                    &&& f.status == FeatureStatus::Pending
                    &&& deps_met(self.features@, *f)
                },
                None => forall|i: int| !claimable_at(self.features@, i),
            },
    {
        match self.best_candidate_index(Some(completed_id)) {
            Some(b) => {
                let fref = &self.features[b];
                proof {
                    assert(is_preferred_candidate(self.features@, b as int, Some(completed_id@)));
                    assert(scheduling_candidate(self.features@, b as int, Some(completed_id@)));
                    assert(*fref == self.features@[b as int]);
                    assert(exists|i: int|
                        #[trigger] is_preferred_candidate(self.features@, i, Some(completed_id@))
                            && *fref == self.features@[i]);
                    assert(claimable_at(self.features@, b as int));
                    assert(fref.status == FeatureStatus::Pending);
                    assert(deps_met(self.features@, *fref));
                }
                Some(fref)
            }
            None => {
                match self.best_candidate_index(None) {
                    Some(b) => {
                        let fref = &self.features[b];
                        proof {
                            assert(is_preferred_candidate(self.features@, b as int, None));
                            assert(*fref == self.features@[b as int]);
                            assert(exists|i: int|
                                #[trigger] is_preferred_candidate(self.features@, i, None) && *fref
                                    == self.features@[i]);
                            assert(claimable_at(self.features@, b as int));
                            assert(fref.status == FeatureStatus::Pending);
                            assert(deps_met(self.features@, *fref));
                        }
                        Some(fref)
                    }
                    None => {
                        proof {
                            assert forall|i: int| !claimable_at(self.features@, i) by {
                                assert(!scheduling_candidate(
                                    self.features@,
                                    i,
                                    spec_filter(None),
                                ));
                            }
                        }
                        None
                    }
                }
            }
        }
    }

    /// The ids of all claimable features, in insertion order.
    pub fn claimable_ids(&self) -> (r: Vec<&str>)
        ensures
            r@.map_values(|s: &str| s@) == claimable_ids_upto(
                self.features@,
                self.features@.len() as int,
            ),
    {
        let n = self.features.len();
        let mut out: Vec<&str> = Vec::new();
        let mut i: usize = 0;
        while i < n
            invariant
                0 <= i <= n,
                n == self.features@.len(),
                out@.map_values(|s: &str| s@) == claimable_ids_upto(self.features@, i as int),
            decreases n - i,
        {
            if self.is_candidate(i, None) {
                out.push(self.features[i].id.as_str());
                proof {
                    assert(out@.map_values(|s: &str| s@) =~= claimable_ids_upto(
                        self.features@,
                        i as int + 1,
                    ));
                }
            }
            i += 1;
        }
        out
    }

    /// Index of the preferred claimable feature outside `picked`.
    fn best_remaining_index(&self, picked: &Vec<usize>) -> (r: Option<usize>)
        ensures
            match r {
                Some(b) => is_preferred_remaining(self.features@, b as int, idx_view(picked@)),
                None => forall|i: int| !remaining_candidate(self.features@, i, idx_view(picked@)),
            },
    {
        let ghost pk = idx_view(picked@);
        let n = self.features.len();
        let mut best: Option<usize> = None;
        let mut i: usize = 0;
        while i < n
            invariant
                0 <= i <= n,
                n == self.features@.len(),
                pk == idx_view(picked@),
                match best {
                    Some(b) => {
                        &&& (b as int) < i as int
                        &&& remaining_candidate(self.features@, b as int, pk)
                        &&& forall|j: int|
                            0 <= j < i && #[trigger] remaining_candidate(self.features@, j, pk)
                                ==> self.features@[b as int].priority <= self.features@[j].priority
                        &&& forall|j: int|
                            0 <= j < b as int && #[trigger] remaining_candidate(
                                self.features@,
                                j,
                                pk,
                            ) ==> self.features@[b as int].priority < self.features@[j].priority
                    },
                    None => forall|j: int|
                        0 <= j < i ==> !remaining_candidate(self.features@, j, pk),
                },
            decreases n - i,
        {
            if self.is_candidate(i, None) && !contains_index(picked, i) {
                proof {
                    assert(!pk.contains(i as int));
                }
                match best {
                    None => { best = Some(i); }
                    Some(b) => {
                        if self.features[i].priority < self.features[b].priority {
                            best = Some(i);
                        }
                    }
                }
            } else {
                proof {
                    if claimable_at(self.features@, i as int) && !pk.contains(i as int) {
                        assert(scheduling_candidate(self.features@, i as int, None));
                    }
                }
            }
            i += 1;
        }
        best
    }

    /// Up to `n` claimable features, ordered by priority (ties by insertion
    /// order): exactly the batch `pick_seq` describes.
    pub fn next_n_claimable(&self, n: usize) -> (r: Vec<&Feature>)
        ensures
            r@.len() == pick_seq(self.features@, n as nat).len(),
            forall|k: int|
                0 <= k < r@.len() ==> {
                    &&& 0 <= #[trigger] pick_seq(self.features@, n as nat)[k]
                        < self.features@.len()
                    &&& *r@[k] == self.features@[pick_seq(self.features@, n as nat)[k]]
                    &&& claimable_at(self.features@, pick_seq(self.features@, n as nat)[k])
                },
    {
        let mut picked: Vec<usize> = Vec::new();
        let mut out: Vec<&Feature> = Vec::new();
        let mut k: usize = 0;
        while k < n
            invariant
                0 <= k <= n,
                idx_view(picked@) == pick_seq(self.features@, k as nat),
                out@.len() == picked@.len(),
                forall|t: int|
                    0 <= t < picked@.len() ==> {
                        &&& (#[trigger] picked@[t]) < self.features@.len()
                        &&& *out@[t] == self.features@[picked@[t] as int]
                        &&& claimable_at(self.features@, picked@[t] as int)
                    },
            decreases n - k,
        {
            let ghost prev = idx_view(picked@);
            match self.best_remaining_index(&picked) {
                Some(b) => {
                    proof {
                        let w = choose|i: int| is_preferred_remaining(self.features@, i, prev);
                        assert(is_preferred_remaining(self.features@, b as int, prev));
                        lemma_preferred_remaining_unique(self.features@, prev, w, b as int);
                        assert(pick_seq(self.features@, (k + 1) as nat) == prev.push(b as int));
                    }
                    picked.push(b);
                    out.push(&self.features[b]);
                    proof {
                        assert(idx_view(picked@) =~= prev.push(b as int));
                    }
                    k += 1;
                }
                None => {
                    proof {
                        assert forall|i: int|
                            !is_preferred_remaining(
                                self.features@,
                                i,
                                pick_seq(self.features@, k as nat),
                            ) by {
                            assert(!remaining_candidate(self.features@, i, prev));
                        }
                        lemma_pick_seq_stalls(self.features@, k as nat, n as nat);
                    }
                    k = n;
                }
            }
        }
        proof {
            assert forall|t: int| 0 <= t < out@.len() implies {
                &&& 0 <= #[trigger] pick_seq(self.features@, n as nat)[t] < self.features@.len()
                &&& *out@[t] == self.features@[pick_seq(self.features@, n as nat)[t]]
                &&& claimable_at(self.features@, pick_seq(self.features@, n as nat)[t])
            } by {
                assert(pick_seq(self.features@, n as nat)[t] == idx_view(picked@)[t]);
                assert(idx_view(picked@)[t] == picked@[t] as int);
            }
        }
        out
    }

    /// First index carrying `id`, if the id exists at all.
    pub fn find_index(&self, id: &str) -> (r: Option<usize>)
        ensures
            match r {
                Some(i) => is_first_with_id(self.features@, id@, i as int),
                None => !has_id(self.features@, id@),
            },
    {
        let n = self.features.len();
        let mut i: usize = 0;
        while i < n
            invariant
                0 <= i <= n,
                n == self.features@.len(),
                forall|j: int| 0 <= j < i ==> (#[trigger] self.features@[j]).id@ != id@,
            decreases n - i,
        {
            if str_eq(self.features[i].id.as_str(), id) {
                return Some(i);
            }
            i += 1;
        }
        None
    }

    /// Claim a feature for a worker. Succeeds exactly when the id exists
    /// and the feature is pending, unclaimed, with every dependency done;
    /// then its status becomes `Claimed` and `claimed_by` names the
    /// worker. On any error the list is unchanged.
    pub fn claim(&mut self, feature_id: &str, agent_id: &str) -> (r: Result<(), FeatureError>)
        ensures
            r is Ok <==> exists|i: int|
                #[trigger] is_first_with_id(old(self).features@, feature_id@, i)
                    && old(self).features@[i].status == FeatureStatus::Pending
                    && old(self).features@[i].claimed_by is None
                    && deps_met(old(self).features@, old(self).features@[i]),
            match r {
                Ok(()) => exists|i: int|
                    {
                        &&& #[trigger] is_first_with_id(old(self).features@, feature_id@, i)
                        &&& old(self).features@[i].status == FeatureStatus::Pending
                        &&& old(self).features@[i].claimed_by is None
                        &&& deps_met(old(self).features@, old(self).features@[i])
                        &&& claim_applied(old(self).features@, final(self).features@, i, agent_id@)
                    },
                Err(e) => final(self).features@ == old(self).features@ && match e {
                    FeatureError::NotFound(m) => !has_id(old(self).features@, feature_id@)
                        && m@ == feature_id@,
                    FeatureError::AlreadyClaimed(m, by) => m@ == feature_id@ && exists|i: int|
                        {
                            &&& #[trigger] is_first_with_id(old(self).features@, feature_id@, i)
                            &&& old(self).features@[i].claimed_by matches Some(c) && c@ == by@
                        },
                    FeatureError::NotPending(m) => m@ == feature_id@ && exists|i: int|
                        {
                            &&& #[trigger] is_first_with_id(old(self).features@, feature_id@, i)
                            &&& old(self).features@[i].claimed_by is None
                            &&& old(self).features@[i].status != FeatureStatus::Pending
                        },
                    FeatureError::DepsNotMet(m, unmet) => m@ == feature_id@ && exists|i: int|
                        {
                            &&& #[trigger] is_first_with_id(old(self).features@, feature_id@, i)
                            &&& old(self).features@[i].status == FeatureStatus::Pending
                            &&& old(self).features@[i].claimed_by is None
                            &&& !deps_met(old(self).features@, old(self).features@[i])
                            &&& unmet.deep_view() == unmet_deps(
                                old(self).features@,
                                old(self).features@[i],
                            )
                        },
                },
            },
    {
        let ghost fs0 = self.features@;
        let idx = match self.find_index(feature_id) {
            Some(i) => i,
            None => {
                return Err(FeatureError::NotFound(feature_id.to_owned()));
            }
        };
        match &self.features[idx].claimed_by {
            Some(by) => {
                return Err(FeatureError::AlreadyClaimed(feature_id.to_owned(), by.clone()));
            }
            None => {}
        }
        if !(self.features[idx].status == FeatureStatus::Pending) {
            return Err(FeatureError::NotPending(feature_id.to_owned()));
        }
        let m = self.features[idx].depends_on.len();
        let mut unmet: Vec<String> = Vec::new();
        let mut d: usize = 0;
        while d < m
            invariant
                0 <= d <= m,
                idx < self.features@.len(),
                m == self.features@[idx as int].depends_on@.len(),
                unmet.deep_view() == unmet_deps_upto(
                    self.features@,
                    self.features@[idx as int].depends_on@,
                    d as int,
                ),
            decreases m - d,
        {
            if !self.is_done_id(self.features[idx].depends_on[d].as_str()) {
                unmet.push(self.features[idx].depends_on[d].clone());
                proof {
                    assert(unmet.deep_view() =~= unmet_deps_upto(
                        self.features@,
                        self.features@[idx as int].depends_on@,
                        d as int + 1,
                    ));
                }
            }
            d += 1;
        }
        proof {
            lemma_unmet_empty_iff(fs0, fs0[idx as int].depends_on@, m as int);
        }
        if unmet.len() > 0 {
            proof {
                assert(unmet.deep_view().len() == unmet@.len());
            }
            return Err(FeatureError::DepsNotMet(feature_id.to_owned(), unmet));
        }
        proof {
            assert(unmet.deep_view().len() == 0);
            assert(deps_met(fs0, fs0[idx as int]));
        }
        let mut f = self.features.remove(idx);
        let ghost f0 = fs0[idx as int];
        f.status = FeatureStatus::Claimed;
        f.claimed_by = Some(agent_id.to_owned());
        self.features.insert(idx, f);
        proof {
            assert forall|j: int| 0 <= j < fs0.len() && j != idx as int implies self.features@[j]
                == fs0[j] by {}
            assert(claim_applied(fs0, self.features@, idx as int, agent_id@));
        }
        Ok(())
    }

    /// Mark the feature as done and clear its claim — a done feature is
    /// unclaimed, per the data model. Fails only when the id is unknown.
    pub fn mark_done(&mut self, feature_id: &str) -> (r: Result<(), FeatureError>)
        ensures
            r is Ok <==> has_id(old(self).features@, feature_id@),
            match r {
                Ok(()) => exists|i: int|
                    #[trigger] is_first_with_id(old(self).features@, feature_id@, i)
                        && done_applied(old(self).features@, final(self).features@, i),
                Err(e) => final(self).features@ == old(self).features@ && match e {
                    FeatureError::NotFound(m) => !has_id(old(self).features@, feature_id@)
                        && m@ == feature_id@,
                    _ => false,
                },
            },
    {
        let ghost fs0 = self.features@;
        let idx = match self.find_index(feature_id) {
            Some(i) => i,
            None => {
                return Err(FeatureError::NotFound(feature_id.to_owned()));
            }
        };
        let mut f = self.features.remove(idx);
        f.status = FeatureStatus::Done;
        f.claimed_by = None;
        self.features.insert(idx, f);
        proof {
            assert forall|j: int| 0 <= j < fs0.len() && j != idx as int implies self.features@[j]
                == fs0[j] by {}
            assert(done_applied(fs0, self.features@, idx as int));
        }
        Ok(())
    }

    /// Mark the feature as blocked, recording the reason. Fails only when
    /// the id is unknown.
    pub fn mark_blocked(&mut self, feature_id: &str, reason: &str) -> (r: Result<
        (),
        FeatureError,
    >)
        ensures
            r is Ok <==> has_id(old(self).features@, feature_id@),
            match r {
                Ok(()) => exists|i: int|
                    #[trigger] is_first_with_id(old(self).features@, feature_id@, i)
                        && blocked_applied(old(self).features@, final(self).features@, i, reason@),
                Err(e) => final(self).features@ == old(self).features@ && match e {
                    FeatureError::NotFound(m) => !has_id(old(self).features@, feature_id@)
                        && m@ == feature_id@,
                    _ => false,
                },
            },
    {
        let ghost fs0 = self.features@;
        let idx = match self.find_index(feature_id) {
            Some(i) => i,
            None => {
                return Err(FeatureError::NotFound(feature_id.to_owned()));
            }
        };
        let mut f = self.features.remove(idx);
        f.status = FeatureStatus::Blocked;
        f.blocked_reason = Some(reason.to_owned());
        self.features.insert(idx, f);
        proof {
            assert forall|j: int| 0 <= j < fs0.len() && j != idx as int implies self.features@[j]
                == fs0[j] by {}
            assert(blocked_applied(fs0, self.features@, idx as int, reason@));
        }
        Ok(())
    }

    /// Reopen the feature: back to `Pending`, unclaimed, with the blocked
    /// reason cleared. Fails only when the id is unknown. Reopening a `Done`
    /// feature is legal — verification failure feeds back through here.
    pub fn reopen(&mut self, feature_id: &str) -> (r: Result<(), FeatureError>)
        ensures
            r is Ok <==> has_id(old(self).features@, feature_id@),
            match r {
                Ok(()) => exists|i: int|
                    #[trigger] is_first_with_id(old(self).features@, feature_id@, i)
                        && reopen_applied(old(self).features@, final(self).features@, i),
                Err(e) => final(self).features@ == old(self).features@ && match e {
                    FeatureError::NotFound(m) => !has_id(old(self).features@, feature_id@)
                        && m@ == feature_id@,
                    _ => false,
                },
            },
    {
        let ghost fs0 = self.features@;
        let idx = match self.find_index(feature_id) {
            Some(i) => i,
            None => {
                return Err(FeatureError::NotFound(feature_id.to_owned()));
            }
        };
        let mut f = self.features.remove(idx);
        f.status = FeatureStatus::Pending;
        f.claimed_by = None;
        f.blocked_reason = None;
        self.features.insert(idx, f);
        proof {
            assert forall|j: int| 0 <= j < fs0.len() && j != idx as int implies self.features@[j]
                == fs0[j] by {}
            assert(reopen_applied(fs0, self.features@, idx as int));
        }
        Ok(())
    }
}

/// The spec view of an optional id filter.
pub open spec fn spec_filter(filter: Option<&str>) -> Option<Seq<char>> {
    match filter {
        Some(s) => Some(s@),
        None => None,
    }
}

/// A sequence of vector indices, as mathematical integers.
pub open spec fn idx_view(v: Seq<usize>) -> Seq<int> {
    v.map_values(|u: usize| u as int)
}

/// `v` holds the index `i`.
fn contains_index(v: &Vec<usize>, i: usize) -> (r: bool)
    ensures
        r == idx_view(v@).contains(i as int),
{
    let n = v.len();
    let mut k: usize = 0;
    while k < n
        invariant
            0 <= k <= n,
            n == v@.len(),
            forall|t: int| 0 <= t < k ==> (#[trigger] v@[t]) != i,
        decreases n - k,
    {
        if v[k] == i {
            proof {
                assert(idx_view(v@)[k as int] == i as int);
            }
            return true;
        }
        k += 1;
    }
    proof {
        let m = idx_view(v@);
        assert forall|t: int| 0 <= t < m.len() implies m[t] != i as int by {
            assert(v@[t] != i);
        }
    }
    false
}

/// Law: on a list satisfying the data model's invariant — a feature is
/// claimed exactly when its status is `Claimed` — a claim of `id`
/// succeeds exactly when that feature is `Pending` and every one of its
/// dependencies is `Done`: the full condition `claim` tests collapses to
/// the pending-and-dependencies-done criterion.
pub proof fn lemma_claim_success_criterion(fs: Seq<Feature>, id: Seq<char>, i: int)
    requires
        is_first_with_id(fs, id, i),
        fs[i].claimed_by is Some <==> fs[i].status == FeatureStatus::Claimed,
    ensures
        (fs[i].status == FeatureStatus::Pending && fs[i].claimed_by is None && deps_met(
            fs,
            fs[i],
        )) <==> (fs[i].status == FeatureStatus::Pending && deps_met(fs, fs[i])),
{
}

/// Law: `reopen` composed after `claim` and `mark_done` restores the feature
/// to `Pending`, unclaimed and unblocked, leaves its other fields as they
/// were before the claim, and touches no other feature. A second `reopen` of
/// the same feature changes nothing more.
pub proof fn lemma_claim_done_reopen_round_trip(
    fs0: Seq<Feature>,
    fs1: Seq<Feature>,
    fs2: Seq<Feature>,
    fs3: Seq<Feature>,
    i: int,
    agent: Seq<char>,
)
    requires
        claim_applied(fs0, fs1, i, agent),
        done_applied(fs1, fs2, i),
        reopen_applied(fs2, fs3, i),
    ensures
        fs3.len() == fs0.len(),
        fs3[i].status == FeatureStatus::Pending,
        fs3[i].claimed_by is None,
        fs3[i].blocked_reason is None,
        same_core(fs3[i], fs0[i]),
        forall|j: int| 0 <= j < fs0.len() && j != i ==> fs3[j] == fs0[j],
        forall|fs4: Seq<Feature>| #[trigger] reopen_applied(fs3, fs4, i) ==> fs4 =~= fs3,
{
    assert forall|fs4: Seq<Feature>| #[trigger] reopen_applied(fs3, fs4, i) implies fs4 =~= fs3 by {
        assert(fs4[i].status == fs3[i].status);
    }
}

/// An ASCII decimal digit.
pub open spec fn is_ascii_digit_char(c: char) -> bool {
    48 <= c as int <= 57
}

/// One saturating step of reading a decimal number: append digit `d`.
pub open spec fn sat_mul10_add(pre: int, d: int) -> int {
    let v = if pre > 0xffff_ffff as int / 10 {
        0xffff_ffff as int
    } else {
        pre * 10
    };
    if v > 0xffff_ffff as int - d {
        0xffff_ffff as int
    } else {
        v + d
    }
}

/// The number read from the digits of `s` after its first character,
/// saturating at the largest `u32`; non-digits count as zero.
pub open spec fn label_digits_val(s: Seq<char>, end: int) -> int
    decreases end,
{
    if end <= 1 {
        0
    } else {
        let d = if is_ascii_digit_char(s[end - 1]) {
            s[end - 1] as int - 48
        } else {
            0
        };
        sat_mul10_add(label_digits_val(s, end - 1), d)
    }
}

impl FeatureList {
    /// The milestone tag of a feature: the first word of its description
    /// when that word is `M` followed by one or more digits, else empty.
    pub fn milestone_label(f: &Feature) -> (r: String)
        ensures
            r@.len() == 0 || (r@.len() >= 2 && r@[0] == 'M' && forall|k: int|
                1 <= k < r@.len() ==> is_ascii_digit_char(#[trigger] r@[k])),
    {
        let d: &str = f.description.as_str();
        let n = d.unicode_len();
        let mut end: usize = 0;
        while end < n
            invariant
                0 <= end <= n,
                n == d@.len(),
            decreases n - end,
        {
            let c = d.get_char(end);
            if c == ' ' || c == '\t' || c == '\n' || c == '\r' {
                break;
            }
            end += 1;
        }
        if end < 2 {
            return String::new();
        }
        if !(d.get_char(0) == 'M') {
            return String::new();
        }
        let mut k: usize = 1;
        while k < end
            invariant
                1 <= k <= end,
                2 <= end <= n,
                n == d@.len(),
                forall|t: int| 1 <= t < k ==> is_ascii_digit_char(#[trigger] d@[t]),
            decreases end - k,
        {
            let c = d.get_char(k);
            let u = c as u32;
            if !(48 <= u && u <= 57) {
                return String::new();
            }
            k += 1;
        }
        let lab = d.substring_char(0, end);
        lab.to_owned()
    }

    /// The number inside a milestone tag (the digits after the leading
    /// character), saturating at the largest `u32`; used to order tags.
    pub fn milestone_sort_key(label: &str) -> (r: u32)
        ensures
            r == label_digits_val(label@, label@.len() as int),
    {
        let n = label.unicode_len();
        let mut val: u32 = 0;
        let mut k: usize = if n == 0 {
            return 0;
        } else {
            1
        };
        while k < n
            invariant
                1 <= k <= n,
                n == label@.len(),
                val == label_digits_val(label@, k as int),
            decreases n - k,
        {
            let c = label.get_char(k);
            let u = c as u32;
            let d: u32 = if 48 <= u && u <= 57 {
                u - 48
            } else {
                0
            };
            let v: u32 = if val > 0xffff_ffffu32 / 10 {
                0xffff_ffffu32
            } else {
                val * 10
            };
            val = if v > 0xffff_ffffu32 - d {
                0xffff_ffffu32
            } else {
                v + d
            };
            k += 1;
        }
        val
    }
}

/// Inserting into a sequence adds exactly one membership.
proof fn lemma_insert_contains(s: Seq<usize>, j: int, x: usize)
    requires
        0 <= j <= s.len(),
    ensures
        forall|y: usize| #[trigger] s.insert(j, x).contains(y) <==> (s.contains(y) || y == x),
{
    let t = s.insert(j, x);
    assert forall|y: usize| #[trigger] t.contains(y) implies (s.contains(y) || y == x) by {
        let w = choose|w: int| 0 <= w < t.len() && t[w] == y;
        if w < j {
            assert(s[w] == y);
        } else if w > j {
            assert(s[w - 1] == y);
        }
    }
    assert forall|y: usize| (s.contains(y) || y == x) implies #[trigger] t.contains(y) by {
        if y == x {
            assert(t[j] == y);
        } else {
            let w = choose|w: int| 0 <= w < s.len() && s[w] == y;
            if w < j {
                assert(t[w] == y);
            } else {
                assert(t[w + 1] == y);
            }
        }
    }
}

/// Feature `a` directly depends on the feature at `b`: some dependency
/// id of `a` has its first occurrence at `b`.
pub open spec fn dep_edge(fs: Seq<Feature>, a: int, b: int) -> bool {
    &&& 0 <= a < fs.len()
    &&& exists|d: int|
        0 <= d < fs[a].depends_on@.len() && is_first_with_id(
            fs,
            (#[trigger] fs[a].depends_on@[d])@,
            b,
        )
}

/// The feature at `b` sits at most `k` dependency steps below `a`.
pub open spec fn reaches(fs: Seq<Feature>, a: int, b: int, k: nat) -> bool
    decreases k,
{
    if k == 0 {
        false
    } else {
        dep_edge(fs, a, b) || exists|m: int|
            #[trigger] dep_edge(fs, a, m) && reaches(fs, m, b, (k - 1) as nat)
    }
}

/// The feature at `i` lies in the transitive dependency closure of `a`.
pub open spec fn in_dep_closure(fs: Seq<Feature>, a: int, i: int) -> bool {
    exists|k: nat| reaches(fs, a, i, k)
}

/// An incomplete review feature — a milestone — stands at `m`.
pub open spec fn open_review_at(fs: Seq<Feature>, m: int) -> bool {
    &&& 0 <= m < fs.len()
    &&& fs[m].feature_type == FeatureType::Review
    &&& fs[m].status != FeatureStatus::Done
}

/// Milestone order: rising priority, ties by position.
pub open spec fn ms_before(fs: Seq<Feature>, m1: int, m2: int) -> bool {
    fs[m1].priority < fs[m2].priority || (fs[m1].priority == fs[m2].priority && m1 < m2)
}

/// The feature at `i` belongs to milestone `m`'s group: it is claimable,
/// sits in `m`'s dependency closure, and no earlier milestone's closure
/// holds it.
pub open spec fn grouped_under(fs: Seq<Feature>, m: int, i: int) -> bool {
    &&& open_review_at(fs, m)
    &&& claimable_at(fs, i)
    &&& in_dep_closure(fs, m, i)
    &&& forall|m2: int|
        open_review_at(fs, m2) && #[trigger] ms_before(fs, m2, m) ==> !in_dep_closure(fs, m2, i)
}

/// The feature at `i` is claimable but sits in no milestone's closure.
pub open spec fn orphaned(fs: Seq<Feature>, i: int) -> bool {
    &&& claimable_at(fs, i)
    &&& forall|m: int| #[trigger] open_review_at(fs, m) ==> !in_dep_closure(fs, m, i)
}

/// A step bound only grows: what is reachable in `k1` steps is reachable
/// in any larger bound.
proof fn lemma_reaches_mono(fs: Seq<Feature>, a: int, b: int, k1: nat, k2: nat)
    requires
        k1 <= k2,
        reaches(fs, a, b, k1),
    ensures
        reaches(fs, a, b, k2),
    decreases k1,
{
    if k1 > 0 && !dep_edge(fs, a, b) {
        let m = choose|m: int| #[trigger] dep_edge(fs, a, m) && reaches(fs, m, b, (k1 - 1) as nat);
        lemma_reaches_mono(fs, m, b, (k1 - 1) as nat, (k2 - 1) as nat);
    }
}

/// Growing a closure by one dependency edge stays inside it.
proof fn lemma_closure_step(fs: Seq<Feature>, a: int, m: int, b: int, k: nat)
    requires
        reaches(fs, a, m, k),
        dep_edge(fs, m, b),
    ensures
        reaches(fs, a, b, (k + 1) as nat),
    decreases k,
{
    if k > 0 {
        if dep_edge(fs, a, m) {
            assert(reaches(fs, m, b, 1));
            lemma_reaches_mono(fs, m, b, 1, k);
        } else {
            let w = choose|w: int| #[trigger] dep_edge(fs, a, w) && reaches(fs, w, m, (k - 1) as nat);
            lemma_closure_step(fs, w, m, b, (k - 1) as nat);
        }
    }
}

/// Everything reachable from inside a dependency-closed set stays inside.
proof fn lemma_closed_set_covers(fs: Seq<Feature>, rs: Seq<bool>, a: int, b: int, k: nat)
    requires
        rs.len() == fs.len(),
        forall|x: int, y: int|
            0 <= x < fs.len() && rs[x] && #[trigger] dep_edge(fs, x, y) ==> 0 <= y < fs.len()
                && rs[y],
        0 <= a < fs.len(),
        rs[a],
        reaches(fs, a, b, k),
    ensures
        0 <= b < fs.len() && rs[b],
    decreases k,
{
    if k > 0 {
        if dep_edge(fs, a, b) {
        } else {
            let m = choose|m: int| #[trigger] dep_edge(fs, a, m) && reaches(fs, m, b, (k - 1) as nat);
            lemma_closed_set_covers(fs, rs, m, b, (k - 1) as nat);
        }
    }
}

/// How many of the first `end` flags are set.
pub open spec fn count_true(rs: Seq<bool>, end: int) -> int
    decreases end,
{
    if end <= 0 {
        0
    } else {
        count_true(rs, end - 1) + if rs[end - 1] {
            1int
        } else {
            0int
        }
    }
}

/// Setting one unset flag raises the count of every prefix beyond it.
proof fn lemma_count_true_update(rs: Seq<bool>, j: int, end: int)
    requires
        0 <= j < rs.len(),
        !rs[j],
    ensures
        j < end <= rs.len() ==> count_true(rs.update(j, true), end) == count_true(rs, end) + 1,
        end <= j ==> count_true(rs.update(j, true), end) == count_true(rs, end),
    decreases end,
{
    if end > 0 {
        lemma_count_true_update(rs, j, end - 1);
    }
}

/// A count of flags never exceeds the prefix length.
proof fn lemma_count_true_bounds(rs: Seq<bool>, end: int)
    requires
        0 <= end,
    ensures
        0 <= count_true(rs, end) <= end,
    decreases end,
{
    if end > 0 {
        lemma_count_true_bounds(rs, end - 1);
    }
}

/// Strict priority order between two indices: rising priority number,
/// ties by rising index.
pub open spec fn prio_lt(fs: Seq<Feature>, a: usize, b: usize) -> bool {
    fs[a as int].priority < fs[b as int].priority || (fs[a as int].priority == fs[b as int].priority
        && a < b)
}

/// Indices listed in rising priority order (ties by rising index).
pub open spec fn prio_sorted(fs: Seq<Feature>, v: Seq<usize>) -> bool {
    forall|a: int, b: int| 0 <= a < b < v.len() ==> prio_lt(fs, #[trigger] v[a], #[trigger] v[b])
}

/// The id of the feature at index `i` appears in one of the groups.
pub open spec fn id_listed(fs: Seq<Feature>, gs: Seq<(&str, Vec<&str>)>, i: int) -> bool {
    exists|g: int, k: int|
        0 <= g < gs.len() && 0 <= k < gs[g].1@.len() && (#[trigger] gs[g].1@[k])@ == fs[i].id@
}

/// Some claimable feature carries `id`.
pub open spec fn claimable_id(fs: Seq<Feature>, id: Seq<char>) -> bool {
    exists|i: int| claimable_at(fs, i) && (#[trigger] fs[i]).id@ == id
}

/// Some incomplete review feature carries `id`.
pub open spec fn open_review_id(fs: Seq<Feature>, id: Seq<char>) -> bool {
    exists|m: int|
        0 <= m < fs.len() && (#[trigger] fs[m]).feature_type == FeatureType::Review && fs[m].status
            != FeatureStatus::Done && fs[m].id@ == id
}

/// What every group of `milestone_claimable` satisfies: groups are
/// non-empty, every listed id is the id of a claimable feature, and every
/// labelled group is headed by the id of an incomplete review feature.
pub open spec fn groups_wf(fs: Seq<Feature>, gs: Seq<(&str, Vec<&str>)>) -> bool {
    &&& forall|g: int| 0 <= g < gs.len() ==> (#[trigger] gs[g]).1@.len() > 0
    &&& forall|g: int, k: int|
        0 <= g < gs.len() && 0 <= k < gs[g].1@.len() ==> claimable_id(
            fs,
            (#[trigger] gs[g].1@[k])@,
        )
    &&& forall|g: int|
        0 <= g < gs.len() && (#[trigger] gs[g]).0@.len() > 0 ==> open_review_id(fs, gs[g].0@)
}

/// Every flagged feature has all its dependency targets flagged too.
pub open spec fn closed_flags(fs: Seq<Feature>, rs: Seq<bool>) -> bool {
    forall|x: int, y: int|
        0 <= x < fs.len() && rs[x] && #[trigger] dep_edge(fs, x, y) ==> 0 <= y < fs.len() && rs[y]
}

/// Every direct dependency target of `a` is flagged.
pub open spec fn seeds_in(fs: Seq<Feature>, a: int, rs: Seq<bool>) -> bool {
    forall|y: int| #[trigger] dep_edge(fs, a, y) ==> 0 <= y < fs.len() && rs[y]
}

/// `t` is claimable and sits in the closure of one of the first `upto`
/// milestones of the ordered milestone list.
pub open spec fn assigned_upto(fs: Seq<Feature>, ms: Seq<usize>, upto: int, t: int) -> bool {
    claimable_at(fs, t) && exists|q: int|
        0 <= q < upto && in_dep_closure(fs, (#[trigger] ms[q]) as int, t)
}

/// Entry `k` of the id list names the feature at member `k`.
pub open spec fn group_ids_match(fs: Seq<Feature>, v: Seq<usize>, ids: Seq<&str>) -> bool {
    &&& v.len() == ids.len()
    &&& forall|k: int| 0 <= k < v.len() ==> ((#[trigger] v[k]) as int) < fs.len()
    &&& forall|k: int| 0 <= k < ids.len() ==> (#[trigger] ids[k])@ == fs[v[k] as int].id@
}

/// `v` holds exactly the members of milestone `m`'s group, in priority
/// order.
pub open spec fn exact_group_members(fs: Seq<Feature>, m: int, v: Seq<usize>) -> bool {
    &&& forall|k: int| 0 <= k < v.len() ==> grouped_under(fs, m, (#[trigger] v[k]) as int)
    &&& forall|i: int| #[trigger] grouped_under(fs, m, i) ==> v.contains(i as usize)
    &&& prio_sorted(fs, v)
}

/// `v` holds exactly the orphaned claimable features, in priority order.
pub open spec fn exact_orphan_members(fs: Seq<Feature>, v: Seq<usize>) -> bool {
    &&& forall|k: int| 0 <= k < v.len() ==> orphaned(fs, (#[trigger] v[k]) as int)
    &&& forall|i: int| #[trigger] orphaned(fs, i) ==> v.contains(i as usize)
    &&& prio_sorted(fs, v)
}

/// The full shape of the grouping: one group per milestone that owns a
/// claimable feature, in milestone order, each listing exactly its
/// members in priority order; the orphans, when any exist, close the
/// list under an empty label.
pub open spec fn milestone_grouping(
    fs: Seq<Feature>,
    gs: Seq<(&str, Vec<&str>)>,
    heads: Seq<int>,
    members: Seq<Seq<usize>>,
) -> bool {
    &&& members.len() == gs.len()
    &&& heads.len() <= gs.len() <= heads.len() + 1
    &&& forall|g: int| 0 <= g < heads.len() ==> open_review_at(fs, #[trigger] heads[g])
    &&& forall|g: int| 0 <= g < heads.len() ==> (#[trigger] gs[g]).0@ == fs[heads[g]].id@
    &&& forall|g: int|
        0 <= g < heads.len() ==> exact_group_members(fs, #[trigger] heads[g], members[g])
    &&& forall|g: int| 0 <= g < gs.len() ==> group_ids_match(fs, members[g], (#[trigger] gs[g]).1@)
    &&& forall|g: int| 0 <= g < gs.len() ==> (#[trigger] gs[g]).1@.len() > 0
    &&& forall|g1: int, g2: int|
        0 <= g1 < g2 < heads.len() ==> ms_before(fs, #[trigger] heads[g1], #[trigger] heads[g2])
    &&& forall|m: int, i: int| #[trigger] grouped_under(fs, m, i) ==> heads.contains(m)
    &&& if gs.len() == heads.len() + 1 {
        gs[gs.len() - 1].0@.len() == 0 && exact_orphan_members(fs, members[members.len() - 1])
    } else {
        forall|i: int| !(#[trigger] orphaned(fs, i))
    }
}

/// A claimable feature inside any milestone's closure is owned by some
/// milestone: walking to ever-earlier milestones whose closures hold it
/// must stop at an earliest one.
proof fn lemma_grouped_somewhere(fs: Seq<Feature>, i: int, m: int)
    requires
        claimable_at(fs, i),
        open_review_at(fs, m),
        in_dep_closure(fs, m, i),
    ensures
        exists|m2: int| #[trigger] grouped_under(fs, m2, i),
    decreases fs[m].priority, m,
{
    if exists|m2: int|
        open_review_at(fs, m2) && #[trigger] ms_before(fs, m2, m) && in_dep_closure(fs, m2, i) {
        let m2 = choose|m2: int|
            open_review_at(fs, m2) && #[trigger] ms_before(fs, m2, m) && in_dep_closure(
                fs,
                m2,
                i,
            );
        lemma_grouped_somewhere(fs, i, m2);
    } else {
        assert(grouped_under(fs, m, i));
    }
}

impl FeatureList {
    /// Where `x` sorts into the ordered index list.
    fn sorted_position(&self, out: &Vec<usize>, x: usize) -> (j: usize)
        requires
            x < self.features@.len(),
            forall|y: usize| out@.contains(y) ==> y < self.features@.len(),
        ensures
            j <= out@.len(),
            forall|t: int|
                0 <= t < j ==> prio_lt(self.features@, #[trigger] out@[t], x) || out@[t] == x,
            (j as int) < out@.len() ==> prio_lt(self.features@, x, out@[j as int]),
    {
        let px = self.features[x].priority;
        let mut j: usize = 0;
        while j < out.len()
            invariant
                0 <= j <= out@.len(),
                x < self.features@.len(),
                forall|y: usize| out@.contains(y) ==> y < self.features@.len(),
                px == self.features@[x as int].priority,
                forall|t: int|
                    0 <= t < j ==> prio_lt(self.features@, #[trigger] out@[t], x) || out@[t] == x,
            decreases out@.len() - j,
        {
            let e = out[j];
            proof {
                assert(out@.contains(out@[j as int]));
            }
            let pe = self.features[e].priority;
            if pe > px || (pe == px && e > x) {
                return j;
            }
            j += 1;
        }
        j
    }

    /// Insert `x` into `out`, which is kept in strictly rising priority
    /// order (ties by rising index); `x` must not be listed yet.
    pub(crate) fn insert_sorted(&self, out: &mut Vec<usize>, x: usize)
        requires
            x < self.features@.len(),
            forall|y: usize| old(out)@.contains(y) ==> y < self.features@.len(),
            prio_sorted(self.features@, old(out)@),
            !old(out)@.contains(x),
        ensures
            final(out)@.len() == old(out)@.len() + 1,
            forall|y: usize|
                #[trigger] final(out)@.contains(y) <==> (old(out)@.contains(y) || y == x),
            prio_sorted(self.features@, final(out)@),
    {
        let j = self.sorted_position(out, x);
        proof {
            assert forall|t: int|
                0 <= t < j implies prio_lt(self.features@, #[trigger] out@[t], x) by {
                assert(out@.contains(out@[t]));
            }
        }
        out.insert(j, x);
        proof {
            lemma_insert_contains(old(out)@, j as int, x);
            let fs = self.features@;
            let v0 = old(out)@;
            let v1 = out@;
            assert forall|a: int, b: int|
                0 <= a < b < v1.len() implies prio_lt(fs, #[trigger] v1[a], #[trigger] v1[b]) by {
                if a < j as int && b < j as int {
                    assert(v1[a] == v0[a] && v1[b] == v0[b]);
                } else if a < j as int && b == j as int {
                    assert(v1[a] == v0[a] && v1[b] == x);
                } else if a < j as int && b > j as int {
                    assert(v1[a] == v0[a] && v1[b] == v0[b - 1]);
                } else if a == j as int && b > j as int {
                    assert(v1[a] == x && v1[b] == v0[b - 1]);
                    if j as int <= b - 1 && (j as int) < v0.len() {
                        assert(prio_lt(fs, x, v0[j as int]));
                        if b - 1 > j as int {
                            assert(prio_lt(fs, v0[j as int], v0[b - 1]));
                        }
                    }
                } else {
                    assert(v1[a] == v0[a - 1] && v1[b] == v0[b - 1]);
                }
            }
        }
    }

    /// Group the claimable features by the earliest incomplete review
    /// feature (milestone) whose transitive dependency tree they sit in:
    /// one group per milestone that owns a claimable feature, ordered by
    /// milestone priority, each listing exactly the claimable features of
    /// that milestone's closure not owned by an earlier milestone, in
    /// priority order; claimable features outside every milestone tree
    /// close the list under an empty label. Every group is non-empty and
    /// every claimable feature is listed.
    #[verifier::rlimit(100)]
    #[verifier::spinoff_prover]
    pub fn milestone_claimable(&self) -> (r: Vec<(&str, Vec<&str>)>)
        ensures
            groups_wf(self.features@, r@),
            forall|i: int| claimable_at(self.features@, i) ==> id_listed(self.features@, r@, i),
            exists|heads: Seq<int>, members: Seq<Seq<usize>>|
                #[trigger] milestone_grouping(self.features@, r@, heads, members),
    {
        let ghost fs = self.features@;
        let n = self.features.len();

        let mut cl: Vec<bool> = Vec::new();
        let mut i: usize = 0;
        while i < n
            invariant
                0 <= i <= n,
                n == fs.len(),
                fs == self.features@,
                cl@.len() == i as int,
                forall|t: int| 0 <= t < i ==> cl@[t] == claimable_at(fs, t),
            decreases n - i,
        {
            let c = self.is_candidate(i, None);
            proof {
                assert(scheduling_candidate(fs, i as int, spec_filter(None)) == claimable_at(
                    fs,
                    i as int,
                ));
            }
            cl.push(c);
            i += 1;
        }

        // every milestone, in priority order
        let mut milestones: Vec<usize> = Vec::new();
        let mut im: usize = 0;
        while im < n
            invariant
                0 <= im <= n,
                n == fs.len(),
                fs == self.features@,
                forall|y: usize|
                    #[trigger] milestones@.contains(y) ==> y < im && open_review_at(fs, y as int),
                forall|j: int|
                    0 <= j < im && open_review_at(fs, j) ==> milestones@.contains(j as usize),
                prio_sorted(fs, milestones@),
            decreases n - im,
        {
            if self.features[im].feature_type == FeatureType::Review && !(self.features[im].status
                == FeatureStatus::Done) {
                let ghost pre = milestones@;
                self.insert_sorted(&mut milestones, im);
                proof {
                    assert forall|j: int|
                        0 <= j < im + 1 && open_review_at(fs, j) implies milestones@.contains(
                        j as usize,
                    ) by {
                        if j < im {
                            assert(pre.contains(j as usize));
                        } else {
                            assert(milestones@.contains(im));
                        }
                    }
                }
            }
            im += 1;
        }

        let mut assigned: Vec<bool> = Vec::new();
        let mut ia: usize = 0;
        while ia < n
            invariant
                0 <= ia <= n,
                assigned@.len() == ia as int,
                forall|t: int| 0 <= t < ia ==> !(#[trigger] assigned@[t]),
            decreases n - ia,
        {
            assigned.push(false);
            ia += 1;
        }

        let mut result: Vec<(&str, Vec<&str>)> = Vec::new();
        let ghost mut heads: Seq<int> = Seq::empty();
        let ghost mut members: Seq<Seq<usize>> = Seq::empty();

        let mut mi: usize = 0;
        while mi < milestones.len()
            invariant
                n == fs.len(),
                fs == self.features@,
                cl@.len() == n as int,
                forall|t: int| 0 <= t < n ==> cl@[t] == claimable_at(fs, t),
                assigned@.len() == n as int,
                0 <= mi <= milestones@.len(),
                forall|y: usize|
                    #[trigger] milestones@.contains(y) ==> y < n && open_review_at(fs, y as int),
                forall|j: int|
                    0 <= j < n && open_review_at(fs, j) ==> milestones@.contains(j as usize),
                prio_sorted(fs, milestones@),
                forall|t: int|
                    0 <= t < n ==> ((#[trigger] assigned@[t]) <==> assigned_upto(
                        fs,
                        milestones@,
                        mi as int,
                        t,
                    )),
                heads.len() == result@.len(),
                members.len() == result@.len(),
                forall|g: int| 0 <= g < heads.len() ==> open_review_at(fs, #[trigger] heads[g]),
                forall|g: int|
                    0 <= g < heads.len() ==> (#[trigger] result@[g]).0@ == fs[heads[g]].id@,
                forall|g: int|
                    0 <= g < heads.len() ==> exact_group_members(
                        fs,
                        #[trigger] heads[g],
                        members[g],
                    ),
                forall|g: int|
                    0 <= g < result@.len() ==> group_ids_match(
                        fs,
                        members[g],
                        (#[trigger] result@[g]).1@,
                    ),
                forall|g: int| 0 <= g < result@.len() ==> (#[trigger] result@[g]).1@.len() > 0,
                forall|g1: int, g2: int|
                    0 <= g1 < g2 < heads.len() ==> ms_before(
                        fs,
                        #[trigger] heads[g1],
                        #[trigger] heads[g2],
                    ),
                forall|g: int|
                    0 <= g < heads.len() ==> exists|q: int|
                        0 <= q < mi && #[trigger] heads[g] == milestones@[q] as int,
                forall|q: int, t: int|
                    0 <= q < mi && #[trigger] grouped_under(fs, milestones@[q] as int, t)
                        ==> heads.contains(milestones@[q] as int),
            decreases milestones@.len() - mi,
        {
            let ms = milestones[mi];
            proof {
                assert(milestones@.contains(milestones@[mi as int]));
            }

            // flags for the dependency closure of ms
            let mut reached: Vec<bool> = Vec::new();
            let mut ir: usize = 0;
            while ir < n
                invariant
                    0 <= ir <= n,
                    reached@.len() == ir as int,
                    forall|t: int| 0 <= t < ir ==> !(#[trigger] reached@[t]),
                decreases n - ir,
            {
                reached.push(false);
                ir += 1;
            }

            // seed with the milestone's direct dependencies
            let ndeps = self.features[ms].depends_on.len();
            let mut d: usize = 0;
            while d < ndeps
                invariant
                    0 <= d <= ndeps,
                    n == fs.len(),
                    fs == self.features@,
                    (ms as int) < n as int,
                    open_review_at(fs, ms as int),
                    ndeps == fs[ms as int].depends_on@.len(),
                    reached@.len() == n as int,
                    forall|t: int|
                        0 <= t < n && #[trigger] reached@[t] ==> in_dep_closure(fs, ms as int, t),
                    forall|d2: int, y: int|
                        0 <= d2 < d && #[trigger] is_first_with_id(
                            fs,
                            (fs[ms as int].depends_on@[d2])@,
                            y,
                        ) ==> 0 <= y < n && reached@[y],
                decreases ndeps - d,
            {
                match self.find_index(self.features[ms].depends_on[d].as_str()) {
                    Some(di) => {
                        let ghost pre = reached@;
                        reached[di] = true;
                        proof {
                            assert(dep_edge(fs, ms as int, di as int));
                            assert(reaches(fs, ms as int, di as int, 1));
                            assert(in_dep_closure(fs, ms as int, di as int));
                            assert forall|t: int|
                                0 <= t < n && #[trigger] reached@[t] implies in_dep_closure(
                                fs,
                                ms as int,
                                t,
                            ) by {
                                if t != di as int {
                                    assert(reached@[t] == pre[t]);
                                }
                            }
                        }
                    }
                    None => {
                        proof {
                            assert forall|y: int|
                                !is_first_with_id(
                                    fs,
                                    (fs[ms as int].depends_on@[d as int])@,
                                    y,
                                ) by {
                                if is_first_with_id(fs, (fs[ms as int].depends_on@[d as int])@, y) {
                                    assert(has_id(fs, (fs[ms as int].depends_on@[d as int])@));
                                }
                            }
                        }
                    }
                }
                d += 1;
            }
            proof {
                assert forall|y: int|
                    #[trigger] dep_edge(fs, ms as int, y) implies 0 <= y < n && reached@[y] by {
                    let d0 = choose|d0: int|
                        0 <= d0 < fs[ms as int].depends_on@.len() && is_first_with_id(
                            fs,
                            (#[trigger] fs[ms as int].depends_on@[d0])@,
                            y,
                        );
                }
            }

            // count of set flags, for termination of the propagation
            let mut count: usize = 0;
            let mut ic: usize = 0;
            while ic < n
                invariant
                    0 <= ic <= n,
                    reached@.len() == n as int,
                    count == count_true(reached@, ic as int),
                    count <= ic,
                decreases n - ic,
            {
                if reached[ic] {
                    count += 1;
                }
                ic += 1;
            }

            // propagate along dependency edges until nothing changes
            let mut stable = false;
            while !stable
                invariant
                    n == fs.len(),
                    fs == self.features@,
                    reached@.len() == n as int,
                    (ms as int) < n as int,
                    open_review_at(fs, ms as int),
                    count == count_true(reached@, n as int),
                    count <= n,
                    forall|t: int|
                        0 <= t < n && #[trigger] reached@[t] ==> in_dep_closure(fs, ms as int, t),
                    seeds_in(fs, ms as int, reached@),
                    stable ==> closed_flags(fs, reached@),
                decreases n - count + if stable {
                    0int
                } else {
                    1int
                },
            {
                let ghost count0 = count;
                let mut changed = false;
                let mut i2: usize = 0;
                while i2 < n
                    invariant
                        0 <= i2 <= n,
                        n == fs.len(),
                        fs == self.features@,
                        reached@.len() == n as int,
                        (ms as int) < n as int,
                        count == count_true(reached@, n as int),
                        count <= n,
                        count >= count0,
                        changed == (count > count0),
                        forall|t: int|
                            0 <= t < n && #[trigger] reached@[t] ==> in_dep_closure(
                                fs,
                                ms as int,
                                t,
                            ),
                        seeds_in(fs, ms as int, reached@),
                        !changed ==> forall|x: int, y: int|
                            0 <= x < i2 && reached@[x] && #[trigger] dep_edge(fs, x, y) ==> 0 <= y
                                < n && reached@[y],
                    decreases n - i2,
                {
                    if reached[i2] {
                        let nd = self.features[i2].depends_on.len();
                        let mut d2: usize = 0;
                        while d2 < nd
                            invariant
                                0 <= d2 <= nd,
                                0 <= i2 < n,
                                n == fs.len(),
                                fs == self.features@,
                                reached@.len() == n as int,
                                (ms as int) < n as int,
                                nd == fs[i2 as int].depends_on@.len(),
                                reached@[i2 as int],
                                count == count_true(reached@, n as int),
                                count <= n,
                                count >= count0,
                                changed == (count > count0),
                                forall|t: int|
                                    0 <= t < n && #[trigger] reached@[t] ==> in_dep_closure(
                                        fs,
                                        ms as int,
                                        t,
                                    ),
                                seeds_in(fs, ms as int, reached@),
                                !changed ==> forall|x: int, y: int|
                                    0 <= x < i2 && reached@[x] && #[trigger] dep_edge(fs, x, y)
                                        ==> 0 <= y < n && reached@[y],
                                !changed ==> forall|e: int, y: int|
                                    0 <= e < d2 && #[trigger] is_first_with_id(
                                        fs,
                                        (fs[i2 as int].depends_on@[e])@,
                                        y,
                                    ) ==> 0 <= y < n && reached@[y],
                            decreases nd - d2,
                        {
                            match self.find_index(self.features[i2].depends_on[d2].as_str()) {
                                Some(dj) => {
                                    if !reached[dj] {
                                        let ghost pre = reached@;
                                        reached[dj] = true;
                                        proof {
                                            lemma_count_true_update(pre, dj as int, n as int);
                                            lemma_count_true_bounds(reached@, n as int);
                                        }
                                        count += 1;
                                        changed = true;
                                        proof {
                                            assert(dep_edge(fs, i2 as int, dj as int));
                                            assert(in_dep_closure(fs, ms as int, i2 as int));
                                            let k = choose|k: nat|
                                                reaches(fs, ms as int, i2 as int, k);
                                            lemma_closure_step(
                                                fs,
                                                ms as int,
                                                i2 as int,
                                                dj as int,
                                                k,
                                            );
                                            assert(in_dep_closure(fs, ms as int, dj as int));
                                            assert forall|t: int|
                                                0 <= t < n
                                                    && #[trigger] reached@[t] implies in_dep_closure(
                                                fs,
                                                ms as int,
                                                t,
                                            ) by {
                                                if t != dj as int {
                                                    assert(reached@[t] == pre[t]);
                                                }
                                            }
                                            assert forall|y: int|
                                                #[trigger] dep_edge(fs, ms as int, y) implies 0
                                                <= y < n && reached@[y] by {
                                                if y != dj as int {
                                                    assert(reached@[y] == pre[y]);
                                                }
                                            }
                                        }
                                    }
                                }
                                None => {
                                    proof {
                                        assert forall|y: int|
                                            !is_first_with_id(
                                                fs,
                                                (fs[i2 as int].depends_on@[d2 as int])@,
                                                y,
                                            ) by {
                                            if is_first_with_id(
                                                fs,
                                                (fs[i2 as int].depends_on@[d2 as int])@,
                                                y,
                                            ) {
                                                assert(has_id(
                                                    fs,
                                                    (fs[i2 as int].depends_on@[d2 as int])@,
                                                ));
                                            }
                                        }
                                    }
                                }
                            }
                            d2 += 1;
                        }
                        proof {
                            if !changed {
                                assert forall|x: int, y: int|
                                    0 <= x < i2 + 1 && reached@[x] && #[trigger] dep_edge(
                                        fs,
                                        x,
                                        y,
                                    ) implies 0 <= y < n && reached@[y] by {
                                    if x == i2 as int {
                                        let e = choose|e: int|
                                            0 <= e < fs[x].depends_on@.len() && is_first_with_id(
                                                fs,
                                                (#[trigger] fs[x].depends_on@[e])@,
                                                y,
                                            );
                                    }
                                }
                            }
                        }
                    } else {
                        proof {
                            if !changed {
                                assert forall|x: int, y: int|
                                    0 <= x < i2 + 1 && reached@[x] && #[trigger] dep_edge(
                                        fs,
                                        x,
                                        y,
                                    ) implies 0 <= y < n && reached@[y] by {
                                    if x == i2 as int {
                                        assert(!reached@[x]);
                                    }
                                }
                            }
                        }
                    }
                    i2 += 1;
                }
                if !changed {
                    proof {
                        assert(closed_flags(fs, reached@));
                    }
                    stable = true;
                }
            }

            // the flags now mark exactly the dependency closure of ms
            proof {
                assert forall|t: int|
                    0 <= t < n implies ((#[trigger] reached@[t]) == in_dep_closure(
                    fs,
                    ms as int,
                    t,
                )) by {
                    if in_dep_closure(fs, ms as int, t) && !reached@[t] {
                        let k = choose|k: nat| reaches(fs, ms as int, t, k);
                        if dep_edge(fs, ms as int, t) {
                            assert(reached@[t]);
                        } else {
                            assert(k > 0);
                            let m2 = choose|m2: int|
                                #[trigger] dep_edge(fs, ms as int, m2) && reaches(
                                    fs,
                                    m2,
                                    t,
                                    (k - 1) as nat,
                                );
                            lemma_closed_set_covers(fs, reached@, m2, t, (k - 1) as nat);
                        }
                    }
                }
            }

            // the frontier: claimable, in the closure, not yet owned
            let mut frontier: Vec<usize> = Vec::new();
            let mut i3: usize = 0;
            while i3 < n
                invariant
                    0 <= i3 <= n,
                    n == fs.len(),
                    fs == self.features@,
                    cl@.len() == n as int,
                    forall|t: int| 0 <= t < n ==> cl@[t] == claimable_at(fs, t),
                    assigned@.len() == n as int,
                    reached@.len() == n as int,
                    forall|y: usize|
                        #[trigger] frontier@.contains(y) ==> y < i3 && reached@[y as int]
                            && cl@[y as int] && !assigned@[y as int],
                    forall|t: int|
                        0 <= t < i3 && reached@[t] && cl@[t] && !assigned@[t]
                            ==> frontier@.contains(t as usize),
                    prio_sorted(fs, frontier@),
                decreases n - i3,
            {
                if reached[i3] && cl[i3] && !assigned[i3] {
                    let ghost pre = frontier@;
                    self.insert_sorted(&mut frontier, i3);
                    proof {
                        assert forall|t: int|
                            0 <= t < i3 + 1 && reached@[t] && cl@[t]
                                && !assigned@[t] implies frontier@.contains(t as usize) by {
                            if t < i3 {
                                assert(pre.contains(t as usize));
                            } else {
                                assert(frontier@.contains(i3));
                            }
                        }
                    }
                }
                i3 += 1;
            }

            // frontier membership is exactly ownership by ms
            proof {
                assert forall|t: int|
                    0 <= t < n implies ((reached@[t] && cl@[t] && !assigned@[t])
                    == grouped_under(fs, ms as int, t)) by {
                    if reached@[t] && cl@[t] && !assigned@[t] {
                        assert forall|m2: int|
                            open_review_at(fs, m2) && #[trigger] ms_before(
                                fs,
                                m2,
                                ms as int,
                            ) implies !in_dep_closure(fs, m2, t) by {
                            if in_dep_closure(fs, m2, t) {
                                assert(milestones@.contains(m2 as usize));
                                let q = choose|q: int|
                                    0 <= q < milestones@.len() && milestones@[q] == m2 as usize;
                                if q < mi as int {
                                    assert(assigned_upto(fs, milestones@, mi as int, t));
                                } else if q == mi as int {
                                    assert(ms_before(fs, ms as int, ms as int));
                                } else {
                                    assert(prio_lt(fs, milestones@[mi as int], milestones@[q]));
                                }
                            }
                        }
                        assert(grouped_under(fs, ms as int, t));
                    }
                    if grouped_under(fs, ms as int, t) {
                        assert(reached@[t]);
                        assert(cl@[t]);
                        if assigned@[t] {
                            let q = choose|q: int|
                                0 <= q < mi as int && in_dep_closure(
                                    fs,
                                    (#[trigger] milestones@[q]) as int,
                                    t,
                                );
                            assert(milestones@.contains(milestones@[q]));
                            assert(prio_lt(fs, milestones@[q], milestones@[mi as int]));
                            assert(ms_before(fs, milestones@[q] as int, ms as int));
                        }
                    }
                }
            }

            if frontier.len() > 0 {
                let mut ids: Vec<&str> = Vec::new();
                let mut k: usize = 0;
                while k < frontier.len()
                    invariant
                        0 <= k <= frontier@.len(),
                        n == fs.len(),
                        fs == self.features@,
                        ids@.len() == k as int,
                        forall|t: int|
                            0 <= t < k ==> (#[trigger] ids@[t])@ == fs[frontier@[t] as int].id@,
                        forall|y: usize| #[trigger] frontier@.contains(y) ==> y < n,
                    decreases frontier@.len() - k,
                {
                    proof {
                        assert(frontier@.contains(frontier@[k as int]));
                    }
                    ids.push(self.features[frontier[k]].id.as_str());
                    k += 1;
                }
                let head = self.features[ms].id.as_str();
                let ghost pre_result = result@;
                let ghost pre_heads = heads;
                let ghost pre_members = members;
                let ghost ids_g = ids;
                let ghost fr = frontier@;
                result.push((head, ids));
                proof {
                    heads = heads.push(ms as int);
                    members = members.push(fr);
                    assert(result@ == pre_result.push((head, ids_g)));
                    assert forall|k4: int|
                        0 <= k4 < fr.len() implies grouped_under(
                        fs,
                        ms as int,
                        (#[trigger] fr[k4]) as int,
                    ) by {
                        assert(fr.contains(fr[k4]));
                    }
                    assert forall|i6: int|
                        #[trigger] grouped_under(fs, ms as int, i6) implies fr.contains(
                        i6 as usize,
                    ) by {
                        assert(0 <= i6 < n);
                        assert(reached@[i6] && cl@[i6] && !assigned@[i6]);
                    }
                    assert(exact_group_members(fs, ms as int, fr));
                    assert(group_ids_match(fs, fr, ids_g@));
                    assert forall|g: int|
                        0 <= g < heads.len() implies open_review_at(fs, #[trigger] heads[g]) by {
                        if g < pre_heads.len() {
                            assert(heads[g] == pre_heads[g]);
                        }
                    }
                    assert forall|g: int|
                        0 <= g < heads.len() implies (#[trigger] result@[g]).0@
                        == fs[heads[g]].id@ by {
                        if g < pre_heads.len() {
                            assert(heads[g] == pre_heads[g] && result@[g] == pre_result[g]);
                        }
                    }
                    assert forall|g: int|
                        0 <= g < heads.len() implies exact_group_members(
                        fs,
                        #[trigger] heads[g],
                        members[g],
                    ) by {
                        if g < pre_heads.len() {
                            assert(heads[g] == pre_heads[g] && members[g] == pre_members[g]);
                        }
                    }
                    assert forall|g: int|
                        0 <= g < result@.len() implies group_ids_match(
                        fs,
                        members[g],
                        (#[trigger] result@[g]).1@,
                    ) by {
                        if g < pre_result.len() {
                            assert(result@[g] == pre_result[g] && members[g] == pre_members[g]);
                        }
                    }
                    assert forall|g: int|
                        0 <= g < result@.len() implies (#[trigger] result@[g]).1@.len() > 0 by {
                        if g < pre_result.len() {
                            assert(result@[g] == pre_result[g]);
                        }
                    }
                    assert forall|g1: int, g2: int|
                        0 <= g1 < g2 < heads.len() implies ms_before(
                        fs,
                        #[trigger] heads[g1],
                        #[trigger] heads[g2],
                    ) by {
                        if g2 < pre_heads.len() {
                            assert(heads[g1] == pre_heads[g1] && heads[g2] == pre_heads[g2]);
                        } else {
                            assert(heads[g1] == pre_heads[g1] && heads[g2] == ms as int);
                            let q = choose|q: int|
                                0 <= q < mi && #[trigger] pre_heads[g1] == milestones@[q] as int;
                            assert(prio_lt(fs, milestones@[q], milestones@[mi as int]));
                        }
                    }
                    assert forall|g: int|
                        0 <= g < heads.len() implies exists|q: int|
                        0 <= q < mi + 1 && #[trigger] heads[g] == milestones@[q] as int by {
                        if g < pre_heads.len() {
                            let q = choose|q: int|
                                0 <= q < mi && #[trigger] pre_heads[g] == milestones@[q] as int;
                            assert(0 <= q < mi + 1 && heads[g] == milestones@[q] as int);
                        } else {
                            assert(heads[g] == milestones@[mi as int] as int);
                        }
                    }
                    assert forall|q: int, t: int|
                        0 <= q < mi + 1 && #[trigger] grouped_under(
                            fs,
                            milestones@[q] as int,
                            t,
                        ) implies heads.contains(milestones@[q] as int) by {
                        if q < mi as int {
                            assert(pre_heads.contains(milestones@[q] as int));
                            let g0 = choose|g0: int|
                                0 <= g0 < pre_heads.len() && pre_heads[g0] == milestones@[
                                    q
                                ] as int;
                            assert(heads[g0] == milestones@[q] as int);
                        } else {
                            assert(heads[heads.len() - 1] == milestones@[q] as int);
                        }
                    }
                }
                // take ownership of the frontier
                let ghost pre_assigned = assigned@;
                let mut k2: usize = 0;
                while k2 < frontier.len()
                    invariant
                        0 <= k2 <= frontier@.len(),
                        n == fs.len(),
                        fs == self.features@,
                        assigned@.len() == n as int,
                        pre_assigned.len() == n as int,
                        forall|y: usize| #[trigger] frontier@.contains(y) ==> y < n,
                        forall|t: int|
                            0 <= t < n ==> ((#[trigger] assigned@[t]) <==> (pre_assigned[t]
                                || exists|k3: int|
                                0 <= k3 < k2 && (#[trigger] frontier@[k3]) as int == t)),
                    decreases frontier@.len() - k2,
                {
                    proof {
                        assert(frontier@.contains(frontier@[k2 as int]));
                    }
                    let fi = frontier[k2];
                    let ghost pre = assigned@;
                    assigned[fi] = true;
                    proof {
                        assert forall|t: int|
                            0 <= t < n implies ((#[trigger] assigned@[t]) <==> (pre_assigned[t]
                            || exists|k3: int|
                            0 <= k3 < k2 + 1 && (#[trigger] frontier@[k3]) as int == t)) by {
                            if t == fi as int {
                                assert(frontier@[k2 as int] as int == t);
                            } else {
                                assert(assigned@[t] == pre[t]);
                            }
                        }
                    }
                    k2 += 1;
                }
                proof {
                    assert forall|t: int|
                        0 <= t < n implies ((#[trigger] assigned@[t]) <==> assigned_upto(
                        fs,
                        milestones@,
                        mi + 1,
                        t,
                    )) by {
                        if assigned@[t] {
                            if pre_assigned[t] {
                                assert(assigned_upto(fs, milestones@, mi as int, t));
                                let q = choose|q: int|
                                    0 <= q < mi as int && in_dep_closure(
                                        fs,
                                        (#[trigger] milestones@[q]) as int,
                                        t,
                                    );
                                assert(assigned_upto(fs, milestones@, mi + 1, t));
                            } else {
                                let k3 = choose|k3: int|
                                    0 <= k3 < frontier@.len() && (#[trigger] frontier@[k3]) as int
                                        == t;
                                assert(frontier@.contains(frontier@[k3]));
                                assert(reached@[t] && cl@[t]);
                                assert(in_dep_closure(fs, milestones@[mi as int] as int, t));
                                assert(assigned_upto(fs, milestones@, mi + 1, t));
                            }
                        }
                        if assigned_upto(fs, milestones@, mi + 1, t) {
                            let q = choose|q: int|
                                0 <= q < mi + 1 && in_dep_closure(
                                    fs,
                                    (#[trigger] milestones@[q]) as int,
                                    t,
                                );
                            if q < mi as int {
                                assert(assigned_upto(fs, milestones@, mi as int, t));
                                assert(pre_assigned[t]);
                            } else {
                                if !pre_assigned[t] {
                                    assert(reached@[t] && cl@[t]);
                                    assert(frontier@.contains(t as usize));
                                    let k3 = choose|k3: int|
                                        0 <= k3 < frontier@.len() && frontier@[k3] == t as usize;
                                    assert((frontier@[k3]) as int == t);
                                }
                            }
                        }
                    }
                }
            } else {
                proof {
                    assert forall|t: int|
                        0 <= t < n implies ((#[trigger] assigned@[t]) <==> assigned_upto(
                        fs,
                        milestones@,
                        mi + 1,
                        t,
                    )) by {
                        if assigned_upto(fs, milestones@, mi + 1, t) && !assigned@[t] {
                            let q = choose|q: int|
                                0 <= q < mi + 1 && in_dep_closure(
                                    fs,
                                    (#[trigger] milestones@[q]) as int,
                                    t,
                                );
                            if q == mi as int {
                                assert(reached@[t] && cl@[t] && !assigned@[t]);
                                assert(frontier@.contains(t as usize));
                            } else {
                                assert(assigned_upto(fs, milestones@, mi as int, t));
                            }
                        }
                        if assigned@[t] {
                            assert(assigned_upto(fs, milestones@, mi as int, t));
                            let q = choose|q: int|
                                0 <= q < mi as int && in_dep_closure(
                                    fs,
                                    (#[trigger] milestones@[q]) as int,
                                    t,
                                );
                            assert(assigned_upto(fs, milestones@, mi + 1, t));
                        }
                    }
                    assert forall|q: int, t: int|
                        0 <= q < mi + 1 && #[trigger] grouped_under(
                            fs,
                            milestones@[q] as int,
                            t,
                        ) implies heads.contains(milestones@[q] as int) by {
                        if q == mi as int {
                            assert(reached@[t] && cl@[t] && !assigned@[t]);
                            assert(frontier@.contains(t as usize));
                        }
                    }
                }
            }
            mi += 1;
        }

        // the orphans: claimable but in no milestone's closure
        let mut orph: Vec<usize> = Vec::new();
        let mut i4: usize = 0;
        while i4 < n
            invariant
                0 <= i4 <= n,
                n == fs.len(),
                fs == self.features@,
                cl@.len() == n as int,
                forall|t: int| 0 <= t < n ==> cl@[t] == claimable_at(fs, t),
                assigned@.len() == n as int,
                forall|y: usize|
                    #[trigger] orph@.contains(y) ==> y < i4 && cl@[y as int] && !assigned@[y as int],
                forall|t: int|
                    0 <= t < i4 && cl@[t] && !assigned@[t] ==> orph@.contains(t as usize),
                prio_sorted(fs, orph@),
            decreases n - i4,
        {
            if cl[i4] && !assigned[i4] {
                let ghost pre = orph@;
                self.insert_sorted(&mut orph, i4);
                proof {
                    assert forall|t: int|
                        0 <= t < i4 + 1 && cl@[t] && !assigned@[t] implies orph@.contains(
                        t as usize,
                    ) by {
                        if t < i4 {
                            assert(pre.contains(t as usize));
                        } else {
                            assert(orph@.contains(i4));
                        }
                    }
                }
            }
            i4 += 1;
        }
        proof {
            assert forall|t: int|
                0 <= t < n implies ((cl@[t] && !assigned@[t]) == orphaned(fs, t)) by {
                if cl@[t] && !assigned@[t] {
                    assert forall|m: int|
                        #[trigger] open_review_at(fs, m) implies !in_dep_closure(fs, m, t) by {
                        if in_dep_closure(fs, m, t) {
                            assert(milestones@.contains(m as usize));
                            let q = choose|q: int|
                                0 <= q < milestones@.len() && milestones@[q] == m as usize;
                            assert(assigned_upto(fs, milestones@, milestones@.len() as int, t));
                        }
                    }
                    assert(orphaned(fs, t));
                }
                if orphaned(fs, t) && assigned@[t] {
                    let q = choose|q: int|
                        0 <= q < milestones@.len() && in_dep_closure(
                            fs,
                            (#[trigger] milestones@[q]) as int,
                            t,
                        );
                    assert(milestones@.contains(milestones@[q]));
                    assert(open_review_at(fs, milestones@[q] as int));
                }
            }
        }

        if orph.len() > 0 {
            let mut ids2: Vec<&str> = Vec::new();
            let mut k3: usize = 0;
            while k3 < orph.len()
                invariant
                    0 <= k3 <= orph@.len(),
                    n == fs.len(),
                    fs == self.features@,
                    ids2@.len() == k3 as int,
                    forall|t: int|
                        0 <= t < k3 ==> (#[trigger] ids2@[t])@ == fs[orph@[t] as int].id@,
                    forall|y: usize| #[trigger] orph@.contains(y) ==> y < n,
                decreases orph@.len() - k3,
            {
                proof {
                    assert(orph@.contains(orph@[k3 as int]));
                }
                ids2.push(self.features[orph[k3]].id.as_str());
                k3 += 1;
            }
            let ghost pre_result = result@;
            let ghost ids2_g = ids2;
            let ghost og = orph@;
            let empty_head = "";
            proof {
                reveal_strlit("");
            }
            result.push((empty_head, ids2));
            proof {
                members = members.push(og);
                assert(result@ == pre_result.push((empty_head, ids2_g)));
                assert forall|k4: int|
                    0 <= k4 < og.len() implies orphaned(fs, (#[trigger] og[k4]) as int) by {
                    assert(og.contains(og[k4]));
                }
                assert forall|i6: int| #[trigger] orphaned(fs, i6) implies og.contains(
                    i6 as usize,
                ) by {
                    assert(0 <= i6 < n);
                    assert(cl@[i6] && !assigned@[i6]);
                }
                assert(exact_orphan_members(fs, og));
                assert(group_ids_match(fs, og, ids2_g@));
                assert forall|g: int|
                    0 <= g < result@.len() implies group_ids_match(
                    fs,
                    members[g],
                    (#[trigger] result@[g]).1@,
                ) by {
                    if g < pre_result.len() {
                        assert(result@[g] == pre_result[g]);
                    }
                }
                assert forall|g: int|
                    0 <= g < result@.len() implies (#[trigger] result@[g]).1@.len() > 0 by {
                    if g < pre_result.len() {
                        assert(result@[g] == pre_result[g]);
                    }
                }
                assert forall|g: int|
                    0 <= g < heads.len() implies (#[trigger] result@[g]).0@
                    == fs[heads[g]].id@ by {
                    assert(result@[g] == pre_result[g]);
                }
                assert(milestone_grouping(fs, result@, heads, members));
            }
        } else {
            proof {
                assert forall|i5: int| !(#[trigger] orphaned(fs, i5)) by {
                    if orphaned(fs, i5) {
                        assert(0 <= i5 < n);
                        assert(cl@[i5] && !assigned@[i5]);
                        assert(orph@.contains(i5 as usize));
                    }
                }
                assert(milestone_grouping(fs, result@, heads, members));
            }
        }

        // the two coarser guarantees follow from the grouping
        proof {
            assert forall|g: int, k4: int|
                0 <= g < result@.len() && 0 <= k4 < result@[g].1@.len() implies claimable_id(
                fs,
                (#[trigger] result@[g].1@[k4])@,
            ) by {
                let mem = members[g];
                assert(group_ids_match(fs, mem, result@[g].1@));
                let t = mem[k4] as int;
                if g < heads.len() {
                    assert(grouped_under(fs, heads[g], t));
                    assert(claimable_at(fs, t) && fs[t].id@ == (result@[g].1@[k4])@);
                    assert(claimable_id(fs, fs[t].id@));
                } else {
                    assert(exact_orphan_members(fs, mem));
                    assert(orphaned(fs, t));
                    assert(claimable_at(fs, t) && fs[t].id@ == (result@[g].1@[k4])@);
                    assert(claimable_id(fs, fs[t].id@));
                }
            }
            assert forall|g: int|
                0 <= g < result@.len() && (#[trigger] result@[g]).0@.len()
                    > 0 implies open_review_id(fs, result@[g].0@) by {
                assert(g < heads.len());
                assert(open_review_at(fs, heads[g]));
                assert(open_review_id(fs, fs[heads[g]].id@));
            }
            assert(groups_wf(fs, result@));
            assert forall|i5: int| claimable_at(fs, i5) implies id_listed(fs, result@, i5) by {
                if exists|m: int| open_review_at(fs, m) && in_dep_closure(fs, m, i5) {
                    let m = choose|m: int| open_review_at(fs, m) && in_dep_closure(fs, m, i5);
                    lemma_grouped_somewhere(fs, i5, m);
                    let m2 = choose|m2: int| #[trigger] grouped_under(fs, m2, i5);
                    assert(heads.contains(m2));
                    let g = choose|g: int| 0 <= g < heads.len() && heads[g] == m2;
                    assert(exact_group_members(fs, heads[g], members[g]));
                    assert(members[g].contains(i5 as usize));
                    let k4 = choose|k4: int|
                        0 <= k4 < members[g].len() && members[g][k4] == i5 as usize;
                    assert((result@[g].1@[k4])@ == fs[i5].id@);
                    assert(id_listed(fs, result@, i5));
                } else {
                    assert forall|m: int|
                        #[trigger] open_review_at(fs, m) implies !in_dep_closure(fs, m, i5) by {}
                    assert(orphaned(fs, i5));
                    assert(result@.len() == heads.len() + 1);
                    let g = result@.len() - 1;
                    assert(exact_orphan_members(fs, members[g]));
                    assert(members[g].contains(i5 as usize));
                    let k4 = choose|k4: int|
                        0 <= k4 < members[g].len() && members[g][k4] == i5 as usize;
                    assert((result@[g].1@[k4])@ == fs[i5].id@);
                    assert(id_listed(fs, result@, i5));
                }
            }
        }
        result
    }
}

} // verus!

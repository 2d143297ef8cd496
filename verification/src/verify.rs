//! Verification results: which features a run must verify, the report
//! written after each round, and the reopen step that feeds failed
//! features back to the scheduler.

use vstd::prelude::*;

use crate::features::is_first_with_id;
use crate::features::same_core;
use crate::features::Feature;
use crate::features::FeatureList;
use crate::features::FeatureStatus;

verus! {

/// One verify run: the feature, whether its script passed, and the
/// combined output.
#[derive(Debug, Clone, PartialEq)]
pub struct VerifyResult {
    pub feature_id: String,
    pub passed: bool,
    pub output: String,
}

/// The report written after a round's verification.
#[derive(Debug, Clone, PartialEq)]
pub struct VerifyReport {
    pub pass: usize,
    pub fail: usize,
    pub total: usize,
    pub failures: Vec<VerifyFailure>,
}

/// One failed verification in the report.
#[derive(Debug, Clone, PartialEq)]
pub struct VerifyFailure {
    pub feature_id: String,
    pub output: String,
}

/// Some failed result names `id`.
pub open spec fn named_by_failed(results: Seq<VerifyResult>, id: Seq<char>) -> bool {
    exists|u: int|
        0 <= u < results.len() && !(#[trigger] results[u]).passed && results[u].feature_id@ == id
}

/// How many of the first `end` results passed.
pub open spec fn count_passed(rs: Seq<VerifyResult>, end: int) -> int
    decreases end,
{
    if end <= 0 {
        0
    } else {
        count_passed(rs, end - 1) + if rs[end - 1].passed {
            1int
        } else {
            0int
        }
    }
}

/// The failures among the first `end` results, in order.
pub open spec fn spec_failures(rs: Seq<VerifyResult>, end: int) -> Seq<VerifyFailure>
    decreases end,
{
    if end <= 0 {
        Seq::empty()
    } else {
        let pre = spec_failures(rs, end - 1);
        if !rs[end - 1].passed {
            pre.push(
                VerifyFailure { feature_id: rs[end - 1].feature_id, output: rs[end - 1].output },
            )
        } else {
            pre
        }
    }
}

impl VerifyReport {
    /// Summarize a round's results: the pass and fail counts and, for each
    /// failure, the feature and its output, in order.
    pub fn from_results(results: &[VerifyResult]) -> (r: VerifyReport)
        ensures
            r.total == results@.len(),
            r.pass == count_passed(results@, results@.len() as int),
            r.fail == r.total - r.pass,
            r.failures@ == spec_failures(results@, results@.len() as int),
    {
        let n = results.len();
        let mut pass: usize = 0;
        let mut failures: Vec<VerifyFailure> = Vec::new();
        let mut i: usize = 0;
        while i < n
            invariant
                0 <= i <= n,
                n == results@.len(),
                pass == count_passed(results@, i as int),
                pass + failures@.len() == i as int,
                failures@ == spec_failures(results@, i as int),
            decreases n - i,
        {
            if results[i].passed {
                pass += 1;
            } else {
                failures.push(
                    VerifyFailure {
                        feature_id: results[i].feature_id.clone(),
                        output: results[i].output.clone(),
                    },
                );
                proof {
                    assert(failures@ =~= spec_failures(results@, i as int + 1));
                }
            }
            i += 1;
        }
        VerifyReport { pass, fail: n - pass, total: n, failures }
    }
}

/// What one background orchestration pass found: the verification
/// results, the features it reopened, and whether everything is done.
#[derive(Debug, Clone, PartialEq)]
pub struct OrchestrationUpdate {
    pub verify_results: Vec<VerifyResult>,
    pub reopened: Vec<String>,
    pub all_done: bool,
}

/// One verify command to execute: a feature and its script.
#[derive(Debug, Clone, PartialEq)]
pub struct VerifyTask {
    pub feature_id: String,
    pub verify: String,
}

/// The features a round verifies: those `Done` or `Claimed`, in order.
pub open spec fn spec_verify_targets(fs: Seq<Feature>, end: int) -> Seq<(Seq<char>, Seq<char>)>
    decreases end,
{
    if end <= 0 {
        Seq::empty()
    } else {
        let pre = spec_verify_targets(fs, end - 1);
        if fs[end - 1].status == FeatureStatus::Done || fs[end - 1].status
            == FeatureStatus::Claimed {
            pre.push((fs[end - 1].id@, fs[end - 1].verify@))
        } else {
            pre
        }
    }
}

impl FeatureList {
    /// The verify commands a round runs: one per feature that is done or
    /// claimed, in insertion order, with the feature's own script.
    pub fn verify_plan(&self) -> (r: Vec<VerifyTask>)
        ensures
            r@.len() == spec_verify_targets(self.features@, self.features@.len() as int).len(),
            forall|k: int|
                0 <= k < r@.len() ==> {
                    let t = spec_verify_targets(self.features@, self.features@.len() as int)[k];
                    (#[trigger] r@[k]).feature_id@ == t.0 && r@[k].verify@ == t.1
                },
    {
        let n = self.features.len();
        let mut out: Vec<VerifyTask> = Vec::new();
        let mut i: usize = 0;
        while i < n
            invariant
                0 <= i <= n,
                n == self.features@.len(),
                out@.len() == spec_verify_targets(self.features@, i as int).len(),
                forall|k: int|
                    0 <= k < out@.len() ==> {
                        let t = spec_verify_targets(self.features@, i as int)[k];
                        (#[trigger] out@[k]).feature_id@ == t.0 && out@[k].verify@ == t.1
                    },
            decreases n - i,
        {
            let st = &self.features[i].status;
            if *st == FeatureStatus::Done || *st == FeatureStatus::Claimed {
                out.push(
                    VerifyTask {
                        feature_id: self.features[i].id.clone(),
                        verify: self.features[i].verify.clone(),
                    },
                );
            }
            i += 1;
        }
        out
    }

    /// Reopen every feature whose verification failed, returning the ids
    /// that were reopened. Failed ids that name no feature are skipped.
    /// Afterwards every feature either stands as before or is reset to
    /// pending, unclaimed and unblocked; the first feature named by each
    /// failed id (where one exists) is reset; nothing else changes.
    pub fn reopen_failed(&mut self, results: &[VerifyResult]) -> (reopened: Vec<String>)
        ensures
            final(self).features@.len() == old(self).features@.len(),
            forall|j: int|
                0 <= j < old(self).features@.len() ==> same_core(
                    #[trigger] final(self).features@[j],
                    old(self).features@[j],
                ),
            forall|j: int|
                0 <= j < old(self).features@.len() ==> (#[trigger] final(self).features@[j]
                    == old(self).features@[j] || (final(self).features@[j].status
                    == FeatureStatus::Pending && final(self).features@[j].claimed_by is None
                    && final(self).features@[j].blocked_reason is None)),
            forall|k: int, j: int|
                0 <= k < results@.len() && !results@[k].passed && is_first_with_id(
                    old(self).features@,
                    (#[trigger] results@[k]).feature_id@,
                    j,
                ) ==> (#[trigger] final(self).features@[j]).status == FeatureStatus::Pending
                    && final(self).features@[j].claimed_by is None
                    && final(self).features@[j].blocked_reason is None,
            forall|j: int|
                0 <= j < old(self).features@.len() && (#[trigger] final(self).features@[j]) != old(
                    self,
                ).features@[j] ==> named_by_failed(results@, old(self).features@[j].id@),
            forall|t: int|
                0 <= t < reopened@.len() ==> named_by_failed(results@, (#[trigger] reopened@[t])@),
    {
        let ghost fs0 = self.features@;
        let n = results.len();
        let mut reopened: Vec<String> = Vec::new();
        let mut k: usize = 0;
        while k < n
            invariant
                0 <= k <= n,
                n == results@.len(),
                self.features@.len() == fs0.len(),
                forall|j: int|
                    0 <= j < fs0.len() ==> same_core(#[trigger] self.features@[j], fs0[j]),
                forall|j: int|
                    0 <= j < fs0.len() ==> (#[trigger] self.features@[j] == fs0[j] || (
                    self.features@[j].status == FeatureStatus::Pending
                        && self.features@[j].claimed_by is None
                        && self.features@[j].blocked_reason is None)),
                forall|t: int, j: int|
                    0 <= t < k && !results@[t].passed && is_first_with_id(
                        fs0,
                        (#[trigger] results@[t]).feature_id@,
                        j,
                    ) ==> (#[trigger] self.features@[j]).status == FeatureStatus::Pending
                        && self.features@[j].claimed_by is None
                        && self.features@[j].blocked_reason is None,
                forall|j: int|
                    0 <= j < fs0.len() && (#[trigger] self.features@[j]) != fs0[j]
                        ==> named_by_failed(results@, fs0[j].id@),
                forall|t: int|
                    0 <= t < reopened@.len() ==> named_by_failed(
                        results@,
                        (#[trigger] reopened@[t])@,
                    ),
            decreases n - k,
        {
            if !results[k].passed {
                let ghost pre = self.features@;
                let outcome = self.reopen(results[k].feature_id.as_str());
                proof {
                    lemma_first_id_stable(fs0, pre);
                }
                let ghost pre_reopened = reopened@;
                match outcome {
                    Ok(()) => {
                        reopened.push(results[k].feature_id.clone());
                        proof {
                            assert forall|t: int|
                                0 <= t < reopened@.len() implies named_by_failed(
                                results@,
                                (#[trigger] reopened@[t])@,
                            ) by {
                                if t < pre_reopened.len() {
                                    assert(reopened@[t] == pre_reopened[t]);
                                } else {
                                    assert(reopened@[t]@ == results@[k as int].feature_id@);
                                    assert(!results@[k as int].passed);
                                    assert(named_by_failed(results@, reopened@[t]@));
                                }
                            }
                        }
                    }
                    Err(_) => {}
                }
                proof {
                    assert forall|j: int|
                        0 <= j < fs0.len() implies same_core(
                        #[trigger] self.features@[j],
                        fs0[j],
                    ) by {
                        assert(same_core(pre[j], fs0[j]));
                    }
                }
            }
            k += 1;
        }
        reopened
    }
}

/// Lists whose features agree on ids field for field keep the same first
/// occurrence of every id.
proof fn lemma_first_id_stable(fs0: Seq<Feature>, fs1: Seq<Feature>)
    requires
        fs0.len() == fs1.len(),
        forall|j: int| 0 <= j < fs0.len() ==> same_core(#[trigger] fs1[j], fs0[j]),
    ensures
        forall|id: Seq<char>, i: int|
            is_first_with_id(fs0, id, i) <==> #[trigger] is_first_with_id(fs1, id, i),
{
    assert forall|id: Seq<char>, i: int|
        is_first_with_id(fs0, id, i) <==> #[trigger] is_first_with_id(fs1, id, i) by {
        if is_first_with_id(fs0, id, i) {
            assert(same_core(fs1[i], fs0[i]));
            assert forall|j: int| 0 <= j < i implies (#[trigger] fs1[j]).id@ != id by {
                assert(same_core(fs1[j], fs0[j]));
            }
        }
        if is_first_with_id(fs1, id, i) {
            assert(same_core(fs1[i], fs0[i]));
            assert forall|j: int| 0 <= j < i implies (#[trigger] fs0[j]).id@ != id by {
                assert(same_core(fs1[j], fs0[j]));
            }
        }
    }
}

} // verus!

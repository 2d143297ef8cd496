//! The headless runners' round logic: what a round does next given the
//! stop flag, the session budget and the task list, and how a multi-worker
//! round settles its merges — one worker's conflict never touches the
//! others.

use vstd::prelude::*;

use crate::config::RoleSpec;
use crate::features::count_with_status;
use crate::features::claimable_at;
use crate::features::deps_met;
use crate::features::is_preferred_candidate;
use crate::features::pick_seq;
use crate::features::FeatureList;
use crate::features::FeatureStatus;
use crate::features::FeatureType;

verus! {

/// How a headless run ended.
#[derive(Debug)]
pub enum RunOutcome {
    /// Every feature is done.
    AllDone { sessions: usize },
    /// The session budget ran out with features remaining.
    MaxSessions { sessions: usize, remaining: usize },
    /// A stop was requested.
    Stopped { sessions: usize },
    /// An agent process could not be started.
    SpawnError(String),
}

/// What a run was asked to do.
#[derive(Debug, Clone)]
pub struct RunConfig {
    pub project_dir: String,
    pub protocol: RoleSpec,
    pub orchestrating: RoleSpec,
    pub max_sessions: usize,
    pub num_agents: usize,
}

/// What the single-worker loop does at the top of a round.
#[derive(Debug)]
pub enum RoundGate {
    /// A stop was requested: clear it and end the run.
    Stop,
    /// Every feature is done: end the run.
    AllDone,
    /// The session budget is spent; this many features are not done.
    Budget { remaining: usize },
    /// Nothing is claimable (all claimed or blocked); this many features
    /// are not done.
    NoneClaimable { remaining: usize },
    /// Run one agent session on this feature; review features take the
    /// review role.
    Run { feature_id: String, review: bool },
}

/// Features not yet done.
pub open spec fn spec_remaining(fs: Seq<crate::features::Feature>) -> int {
    fs.len() - count_with_status(fs, fs.len() as int, FeatureStatus::Done)
}

/// Entry `t` of a planned batch matches the scheduler's pick: the id and
/// the review mark of the picked feature.
pub open spec fn batch_entry_ok(
    fs: Seq<crate::features::Feature>,
    n: nat,
    ids: Seq<String>,
    revs: Seq<bool>,
    t: int,
) -> bool {
    &&& ids[t]@ == fs[pick_seq(fs, n)[t]].id@
    &&& revs[t] == (fs[pick_seq(fs, n)[t]].feature_type == FeatureType::Review)
    &&& claimable_at(fs, pick_seq(fs, n)[t])
}

impl FeatureList {
    /// Features not yet `Done`.
    pub fn remaining_count(&self) -> (r: usize)
        ensures
            r == spec_remaining(self.features@),
    {
        let n = self.features.len();
        let mut done: usize = 0;
        let mut i: usize = 0;
        while i < n
            invariant
                0 <= i <= n,
                n == self.features@.len(),
                done == count_with_status(self.features@, i as int, FeatureStatus::Done),
                done <= i,
            decreases n - i,
        {
            if self.features[i].status == FeatureStatus::Done {
                done += 1;
            }
            i += 1;
        }
        n - done
    }

    /// Decide one round of the single-worker loop, in the fixed order the
    /// runner checks: a stop request ends the run first; then a fully done
    /// list; then the session budget; then, if any feature is claimable,
    /// the preferred one is run — with the review role exactly when it
    /// is a review feature; otherwise the round reports what remains.
    pub fn plan_round(&self, stop_requested: bool, session: usize, max_sessions: usize) -> (g:
        RoundGate)
        ensures
            g is Stop <==> stop_requested,
            !stop_requested ==> (g is AllDone <==> forall|i: int|
                0 <= i < self.features@.len() ==> (#[trigger] self.features@[i]).status
                    == FeatureStatus::Done),
            match g {
                RoundGate::Budget { remaining } => !stop_requested && session >= max_sessions
                    && remaining == spec_remaining(self.features@),
                RoundGate::NoneClaimable { remaining } => !stop_requested && session < max_sessions
                    && (forall|i: int| !claimable_at(self.features@, i)) && remaining
                    == spec_remaining(self.features@),
                RoundGate::Run { feature_id, review } => {
                    &&& !stop_requested
                    &&& session < max_sessions
                    &&& exists|i: int|
                        {
                            &&& #[trigger] is_preferred_candidate(self.features@, i, None)
                            &&& feature_id@ == self.features@[i].id@
                            &&& review == (self.features@[i].feature_type == FeatureType::Review)
                            &&& deps_met(self.features@, self.features@[i])
                        }
                },
                _ => true,
            },
    {
        if stop_requested {
            return RoundGate::Stop;
        }
        if self.all_done() {
            return RoundGate::AllDone;
        }
        if session >= max_sessions {
            return RoundGate::Budget { remaining: self.remaining_count() };
        }
        match self.next_claimable() {
            Some(f) => RoundGate::Run {
                feature_id: f.id.clone(),
                review: f.feature_type == FeatureType::Review,
            },
            None => RoundGate::NoneClaimable { remaining: self.remaining_count() },
        }
    }

    /// Decide one round of the multi-worker loop: as `plan_round`, but the
    /// round claims up to `num_agents` features — exactly the batch the
    /// scheduler picks, each marked for the review role when it is a
    /// review feature.
    #[verifier::rlimit(50)]
    pub fn plan_multi_round(
        &self,
        stop_requested: bool,
        session: usize,
        max_sessions: usize,
        num_agents: usize,
    ) -> (g: MultiRoundGate)
        ensures
            g is Stop <==> stop_requested,
            !stop_requested ==> (g is AllDone <==> forall|i: int|
                0 <= i < self.features@.len() ==> (#[trigger] self.features@[i]).status
                    == FeatureStatus::Done),
            match g {
                MultiRoundGate::Budget { remaining } => !stop_requested && session >= max_sessions
                    && remaining == spec_remaining(self.features@),
                MultiRoundGate::NoneClaimable { remaining } => !stop_requested && session
                    < max_sessions && pick_seq(self.features@, num_agents as nat).len() == 0
                    && remaining == spec_remaining(self.features@),
                MultiRoundGate::Run { feature_ids, reviews } => {
                    &&& !stop_requested
                    &&& session < max_sessions
                    &&& feature_ids@.len() == pick_seq(self.features@, num_agents as nat).len()
                    &&& feature_ids@.len() > 0
                    &&& reviews@.len() == feature_ids@.len()
                    &&& forall|k: int|
                        0 <= k < feature_ids@.len() ==> #[trigger] batch_entry_ok(
                            self.features@,
                            num_agents as nat,
                            feature_ids@,
                            reviews@,
                            k,
                        )
                },
                _ => true,
            },
    {
        if stop_requested {
            return MultiRoundGate::Stop;
        }
        if self.all_done() {
            return MultiRoundGate::AllDone;
        }
        if session >= max_sessions {
            return MultiRoundGate::Budget { remaining: self.remaining_count() };
        }
        let batch = self.next_n_claimable(num_agents);
        if batch.len() == 0 {
            return MultiRoundGate::NoneClaimable { remaining: self.remaining_count() };
        }
        let mut feature_ids: Vec<String> = Vec::new();
        let mut reviews: Vec<bool> = Vec::new();
        let mut k: usize = 0;
        while k < batch.len()
            invariant
                0 <= k <= batch@.len(),
                feature_ids@.len() == k as int,
                reviews@.len() == k as int,
                batch@.len() == pick_seq(self.features@, num_agents as nat).len(),
                forall|t: int|
                    0 <= t < batch@.len() ==> {
                        &&& 0 <= #[trigger] pick_seq(self.features@, num_agents as nat)[t]
                            < self.features@.len()
                        &&& *batch@[t] == self.features@[pick_seq(
                            self.features@,
                            num_agents as nat,
                        )[t]]
                        &&& claimable_at(
                            self.features@,
                            pick_seq(self.features@, num_agents as nat)[t],
                        )
                    },
                forall|t: int|
                    0 <= t < k ==> #[trigger] batch_entry_ok(
                        self.features@,
                        num_agents as nat,
                        feature_ids@,
                        reviews@,
                        t,
                    ),
            decreases batch@.len() - k,
        {
            let ghost pre_ids = feature_ids@;
            let ghost pre_rev = reviews@;
            feature_ids.push(batch[k].id.clone());
            reviews.push(batch[k].feature_type == FeatureType::Review);
            proof {
                assert forall|t: int| 0 <= t < k + 1 implies #[trigger] batch_entry_ok(
                    self.features@,
                    num_agents as nat,
                    feature_ids@,
                    reviews@,
                    t,
                ) by {
                    if t < k {
                        assert(batch_entry_ok(
                            self.features@,
                            num_agents as nat,
                            pre_ids,
                            pre_rev,
                            t,
                        ));
                        assert(feature_ids@[t] == pre_ids[t]);
                        assert(reviews@[t] == pre_rev[t]);
                    } else {
                        let p = pick_seq(self.features@, num_agents as nat)[t];
                        assert(*batch@[t] == self.features@[p]);
                        assert(feature_ids@[t]@ == self.features@[p].id@);
                    }
                }
            }
            k += 1;
        }
        MultiRoundGate::Run { feature_ids, reviews }
    }
}

/// What the multi-worker loop does at the top of a round.
#[derive(Debug)]
pub enum MultiRoundGate {
    /// A stop was requested: clear it and end the run.
    Stop,
    /// Every feature is done: end the run.
    AllDone,
    /// The session budget is spent; this many features are not done.
    Budget { remaining: usize },
    /// Nothing is claimable; this many features are not done.
    NoneClaimable { remaining: usize },
    /// Run one round with these features, one worker each.
    Run { feature_ids: Vec<String>, reviews: Vec<bool> },
}

/// What a background verification pass does, given how many features
/// were done when the last pass ran.
#[derive(Debug, Clone, Copy, PartialEq, Eq, Structural)]
pub enum VerifyPassGate {
    /// Nothing new finished and work remains: wait.
    Idle,
    /// More features are done than at the last pass: verify them all and
    /// remember the new count.
    RunVerify { done_count: usize },
    /// Everything is done with nothing new to verify: stop the passes.
    Finished,
}

impl FeatureList {
    /// Decide one background verification pass: run a pass exactly when
    /// the done count rose since the last one; once everything is done
    /// and nothing new remains to verify, finish.
    pub fn plan_verify_pass(&self, last_done_count: usize) -> (g: VerifyPassGate)
        ensures
            match g {
                VerifyPassGate::RunVerify { done_count } => done_count == count_with_status(
                    self.features@,
                    self.features@.len() as int,
                    FeatureStatus::Done,
                ) && done_count > last_done_count,
                VerifyPassGate::Finished => count_with_status(
                    self.features@,
                    self.features@.len() as int,
                    FeatureStatus::Done,
                ) <= last_done_count && (forall|i: int|
                    0 <= i < self.features@.len() ==> (#[trigger] self.features@[i]).status
                        == FeatureStatus::Done),
                VerifyPassGate::Idle => count_with_status(
                    self.features@,
                    self.features@.len() as int,
                    FeatureStatus::Done,
                ) <= last_done_count && !(forall|i: int|
                    0 <= i < self.features@.len() ==> (#[trigger] self.features@[i]).status
                        == FeatureStatus::Done),
            },
    {
        let counts = self.status_counts();
        if counts.done > last_done_count {
            VerifyPassGate::RunVerify { done_count: counts.done }
        } else if self.all_done() {
            VerifyPassGate::Finished
        } else {
            VerifyPassGate::Idle
        }
    }
}

/// How one worker's branch merge ended.
#[derive(Debug, Clone, Copy, PartialEq, Eq, Structural)]
pub enum MergeOutcome {
    /// The branch merged into the main line.
    Merged,
    /// The merge conflicted; it was aborted and the branch's changes
    /// rolled back.
    Conflicted,
}

/// The outcome recorded for worker `k`, given which merges conflicted.
pub open spec fn spec_settle(conflicted: Seq<bool>, k: int) -> MergeOutcome {
    if conflicted[k] {
        MergeOutcome::Conflicted
    } else {
        MergeOutcome::Merged
    }
}

/// Settle a round's merges: every worker gets exactly one outcome, in
/// claim order — rolled back exactly when its merge conflicted, merged
/// otherwise.
pub fn settle_merges(conflicted: &Vec<bool>) -> (r: Vec<MergeOutcome>)
    ensures
        r@.len() == conflicted@.len(),
        forall|k: int| 0 <= k < r@.len() ==> r@[k] == spec_settle(conflicted@, k),
{
    let n = conflicted.len();
    let mut out: Vec<MergeOutcome> = Vec::new();
    let mut i: usize = 0;
    while i < n
        invariant
            0 <= i <= n,
            n == conflicted@.len(),
            out@.len() == i as int,
            forall|k: int| 0 <= k < i ==> out@[k] == spec_settle(conflicted@, k),
        decreases n - i,
    {
        if conflicted[i] {
            out.push(MergeOutcome::Conflicted);
        } else {
            out.push(MergeOutcome::Merged);
        }
        i += 1;
    }
    out
}

/// Law: a merge conflict is isolated to its worker. If two rounds differ
/// only in whether worker `k`'s merge conflicted, every other worker's
/// recorded outcome is identical — and `k` itself is reported rolled back
/// exactly in the round where it conflicted. Both outcomes appear in the
/// round's report, one per worker.
pub proof fn lemma_merge_conflict_isolated(a: Seq<bool>, b: Seq<bool>, k: int)
    requires
        a.len() == b.len(),
        forall|t: int| 0 <= t < a.len() && t != k ==> a[t] == b[t],
    ensures
        forall|t: int|
            0 <= t < a.len() && t != k ==> spec_settle(a, t) == spec_settle(b, t),
        0 <= k < a.len() && a[k] ==> spec_settle(a, k) is Conflicted,
        0 <= k < a.len() && !a[k] ==> spec_settle(a, k) is Merged,
{
}

/// A protocol-compliance finding after a session; advisory only, never
/// blocking.
#[derive(Debug, Clone, Copy, PartialEq, Eq, Structural)]
pub enum ComplianceIssue {
    /// The worker wrote no handoff record.
    MissingHandoff,
    /// The handoff record maps no requirements to code or tests.
    MissingDelivery,
    /// The feature is still claimed: the worker set no final status.
    StillClaimed,
}

/// The findings for one session, in reporting order.
pub open spec fn spec_compliance(
    has_handoff: bool,
    has_delivery: bool,
    still_claimed: bool,
) -> Seq<ComplianceIssue> {
    let a: Seq<ComplianceIssue> = if !has_handoff {
        seq![ComplianceIssue::MissingHandoff]
    } else if !has_delivery {
        seq![ComplianceIssue::MissingDelivery]
    } else {
        Seq::empty()
    };
    if still_claimed {
        a.push(ComplianceIssue::StillClaimed)
    } else {
        a
    }
}

/// Inspect a session's artifacts: a missing handoff record is flagged, a
/// handoff without delivery proof is flagged, and a feature left claimed
/// is flagged. Findings only — the round goes on regardless.
pub fn compliance_issues(has_handoff: bool, has_delivery: bool, still_claimed: bool) -> (r: Vec<
    ComplianceIssue,
>)
    ensures
        r@ == spec_compliance(has_handoff, has_delivery, still_claimed),
{
    let mut out: Vec<ComplianceIssue> = Vec::new();
    if !has_handoff {
        out.push(ComplianceIssue::MissingHandoff);
    } else if !has_delivery {
        out.push(ComplianceIssue::MissingDelivery);
    }
    if still_claimed {
        out.push(ComplianceIssue::StillClaimed);
    }
    proof {
        assert(out@ =~= spec_compliance(has_handoff, has_delivery, still_claimed));
    }
    out
}

} // verus!

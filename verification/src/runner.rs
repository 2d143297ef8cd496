//! Building agent invocations: the backend-specific command lines, their
//! headless variants, the prompts handed to workers, and the decision that
//! picks and claims the feature a fresh pane runs.

use vstd::prelude::*;
use vstd::string::StringExecFns;

use crate::config::RoleSpec;
use crate::features::claim_applied;
use crate::features::claimable_at;
use crate::features::deps_met;
use crate::features::is_first_with_id;
use crate::features::is_preferred_candidate;
use crate::features::scheduling_candidate;
use crate::features::FeatureList;
use crate::features::FeatureType;
use crate::text::dec_str;
use crate::text::str_eq;
use crate::text::u32_to_string;

verus! {

/// The interactive invocation for a role: two built-in backends get their
/// own flag conventions; an unknown backend is run verbatim with the
/// prompt as its only argument — a deliberate escape hatch, not an error.
pub fn build_agent_command(role: &RoleSpec, prompt: &str) -> (r: (String, Vec<String>))
    ensures
        role.backend@ == "aide"@ ==> r.0@ == "aide"@ && r.1@.len() == 4 && r.1@[0]@
            == "--model"@ && r.1@[1]@ == role.model@ && r.1@[2]@
            == "--skip-confirmations"@ && r.1@[3]@ == prompt@,
        role.backend@ == "pilot"@ ==> r.0@ == "pilot"@ && r.1@.len() == 4 && r.1@[0]@
            == "--model"@ && r.1@[1]@ == role.model@ && r.1@[2]@ == "--full-auto"@ && r.1@[3]@
            == prompt@,
        role.backend@ != "aide"@ && role.backend@ != "pilot"@ ==> r.0@ == role.backend@
            && r.1@.len() == 1 && r.1@[0]@ == prompt@,
{
    proof {
        reveal_strlit("aide");
        reveal_strlit("pilot");
    }
    if str_eq(role.backend.as_str(), "aide") {
        let mut args: Vec<String> = Vec::new();
        args.push(String::from_str("--model"));
        args.push(role.model.clone());
        args.push(String::from_str("--skip-confirmations"));
        args.push(prompt.to_owned());
        (String::from_str("aide"), args)
    } else if str_eq(role.backend.as_str(), "pilot") {
        let mut args: Vec<String> = Vec::new();
        args.push(String::from_str("--model"));
        args.push(role.model.clone());
        args.push(String::from_str("--full-auto"));
        args.push(prompt.to_owned());
        (String::from_str("pilot"), args)
    } else {
        let mut args: Vec<String> = Vec::new();
        args.push(prompt.to_owned());
        (role.backend.clone(), args)
    }
}

/// The headless invocation: the interactive one with the backend's
/// print-and-exit or execute-and-exit flag put first; unknown backends
/// run unchanged.
pub fn build_headless_command(role: &RoleSpec, prompt: &str) -> (r: (String, Vec<String>))
    ensures
        role.backend@ == "aide"@ ==> r.0@ == "aide"@ && r.1@.len() == 5 && r.1@[0]@ == "--print"@
            && r.1@[1]@ == "--model"@ && r.1@[2]@ == role.model@ && r.1@[3]@
            == "--skip-confirmations"@ && r.1@[4]@ == prompt@,
        role.backend@ == "pilot"@ ==> r.0@ == "pilot"@ && r.1@.len() == 5 && r.1@[0]@ == "exec"@
            && r.1@[1]@ == "--model"@ && r.1@[2]@ == role.model@ && r.1@[3]@ == "--full-auto"@
            && r.1@[4]@ == prompt@,
        role.backend@ != "aide"@ && role.backend@ != "pilot"@ ==> r.0@ == role.backend@
            && r.1@.len() == 1 && r.1@[0]@ == prompt@,
{
    proof {
        reveal_strlit("aide");
        reveal_strlit("pilot");
    }
    let (cmd, mut args) = build_agent_command(role, prompt);
    if str_eq(role.backend.as_str(), "aide") {
        args.insert(0, String::from_str("--print"));
    } else if str_eq(role.backend.as_str(), "pilot") {
        args.insert(0, String::from_str("exec"));
    }
    (cmd, args)
}

/// The prompt for a worker without a pre-compiled context package.
pub fn render_agent_prompt(feature_id: &str) -> (r: String)
    ensures
        r@ == "You are a forge agent. Your assigned feature is "@ + feature_id@
            + ". Read features.json for details. Follow the forge-protocol skill. When done, set status to done and exit."@,
{
    let mut s = String::from_str("You are a forge agent. Your assigned feature is ");
    s.append(feature_id);
    s.append(
        ". Read features.json for details. Follow the forge-protocol skill. When done, set status to done and exit.",
    );
    s
}

/// The prompt for a worker whose context package was pre-compiled: the
/// package contents stand in the prompt so the worker need not search.
pub fn render_agent_prompt_with_context(feature_id: &str, context_block: &str) -> (r: String)
    ensures
        r@ == "You are a forge agent. Your assigned feature is "@ + feature_id@
            + ". Follow the forge-protocol skill.\n\n## Pre-compiled context (DO NOT use Explore agents - this has what you need)\n\n"@
            + context_block@
            + "\n\nRead features.json for your verify command. When done, set status to done and exit."@,
{
    let mut s = String::from_str("You are a forge agent. Your assigned feature is ");
    s.append(feature_id);
    s.append(
        ". Follow the forge-protocol skill.\n\n## Pre-compiled context (DO NOT use Explore agents - this has what you need)\n\n",
    );
    s.append(context_block);
    s.append(
        "\n\nRead features.json for your verify command. When done, set status to done and exit.",
    );
    s
}

/// The review agent's prompt after a round that worked on `feature_ids` (one
/// id, or several joined by commas).
pub fn render_review_prompt(feature_ids: &str) -> (r: String)
    ensures
        r@ == "You are a forge orchestrating agent. Follow the forge-orchestrating skill. Review the last executor session: read feedback/last-verify.json, check code against principles. Review the handoff records of ["@
            + feature_ids@
            + "] - assess approach, test strategy, and insights quality. Write feedback/session-review.md and any context entries. Then commit and exit."@,
{
    let mut s = String::from_str(
        "You are a forge orchestrating agent. Follow the forge-orchestrating skill. Review the last executor session: read feedback/last-verify.json, check code against principles. Review the handoff records of [",
    );
    s.append(feature_ids);
    s.append(
        "] - assess approach, test strategy, and insights quality. Write feedback/session-review.md and any context entries. Then commit and exit.",
    );
    s
}

/// The worker id for the `n`-th spawned agent.
pub fn agent_name(n: u32) -> (r: String)
    ensures
        r@ == "agent-"@ + dec_str(n as int),
{
    let mut s = String::from_str("agent-");
    let num = u32_to_string(n);
    s.append(num.as_str());
    s
}

/// What a fresh pane will run: the feature it claimed, the worker id, and
/// whether it takes the review role.
#[derive(Debug, Clone, PartialEq)]
pub struct PaneSpawnPlan {
    pub feature_id: String,
    pub agent_id: String,
    pub review: bool,
}

/// The plan names the feature the scheduler prefers under `filter`, with
/// the review mark of that feature.
pub open spec fn pane_pick_ok(
    fs: Seq<crate::features::Feature>,
    filter: Option<Seq<char>>,
    p: PaneSpawnPlan,
) -> bool {
    exists|i: int|
        #[trigger] is_preferred_candidate(fs, i, filter) && p.feature_id@ == fs[i].id@ && p.review
            == (fs[i].feature_type == FeatureType::Review)
}

/// Either the claim of `id` for `agent` went through — recorded at the
/// first feature carrying `id` — or the list is unchanged (the claim was
/// refused and tolerated).
pub open spec fn claim_recorded(
    fs0: Seq<crate::features::Feature>,
    fs1: Seq<crate::features::Feature>,
    id: Seq<char>,
    agent: Seq<char>,
) -> bool {
    fs1 == fs0 || exists|i: int|
        #[trigger] is_first_with_id(fs0, id, i) && claim_applied(fs0, fs1, i, agent)
}

impl FeatureList {
    /// Pick and claim the feature a replacement pane runs: the preferred
    /// claimable direct dependent of `completed_id` when one exists (keep
    /// momentum toward what just got unblocked), else the preferred
    /// claimable feature; `None` exactly when nothing is claimable. The
    /// chosen feature is claimed for `agent-<agent_num>` — whenever that
    /// feature is genuinely pending, unclaimed and ready, the claim goes
    /// through, so a second pane cannot pick it — and review features are
    /// marked for the review role.
    #[verifier::rlimit(80)]
    #[verifier::spinoff_prover]
    pub fn plan_pane_spawn(&mut self, completed_id: Option<&str>, agent_num: u32) -> (r: Option<
        PaneSpawnPlan,
    >)
        ensures
            r is None <==> (forall|i: int| !claimable_at(old(self).features@, i)),
            r is None ==> final(self).features@ == old(self).features@,
            r matches Some(p) ==> p.agent_id@ == "agent-"@ + dec_str(agent_num as int),
            r matches Some(p) ==> match completed_id {
                Some(cid) => if exists|i: int|
                    scheduling_candidate(old(self).features@, i, Some(cid@)) {
                    pane_pick_ok(old(self).features@, Some(cid@), p)
                } else {
                    pane_pick_ok(old(self).features@, None, p)
                },
                None => pane_pick_ok(old(self).features@, None, p),
            },
            r matches Some(p) ==> claim_recorded(
                old(self).features@,
                final(self).features@,
                p.feature_id@,
                p.agent_id@,
            ),
            r matches Some(p) ==> ((exists|i: int|
                #[trigger] is_first_with_id(old(self).features@, p.feature_id@, i)
                    && old(self).features@[i].status == crate::features::FeatureStatus::Pending
                    && old(self).features@[i].claimed_by is None && deps_met(
                    old(self).features@,
                    old(self).features@[i],
                )) ==> exists|i: int|
                #[trigger] is_first_with_id(old(self).features@, p.feature_id@, i)
                    && claim_applied(
                    old(self).features@,
                    final(self).features@,
                    i,
                    p.agent_id@,
                )),
    {
        let ghost fs0 = self.features@;
        let picked: Option<(String, bool)> = match completed_id {
            Some(cid) => {
                match self.next_after(cid) {
                    Some(f) => {
                        let fid = f.id.clone();
                        let rev = f.feature_type == FeatureType::Review;
                        proof {
                            if exists|i: int| scheduling_candidate(fs0, i, Some(cid@)) {
                                let w = choose|i: int|
                                    #[trigger] is_preferred_candidate(fs0, i, Some(cid@)) && *f
                                        == fs0[i];
                                assert(is_preferred_candidate(fs0, w, Some(cid@)) && fid@
                                    == fs0[w].id@ && rev == (fs0[w].feature_type
                                    == FeatureType::Review));
                                assert(claimable_at(fs0, w));
                            } else {
                                let w = choose|i: int|
                                    #[trigger] is_preferred_candidate(fs0, i, None) && *f
                                        == fs0[i];
                                assert(is_preferred_candidate(fs0, w, None) && fid@ == fs0[w].id@
                                    && rev == (fs0[w].feature_type == FeatureType::Review));
                                assert(claimable_at(fs0, w));
                            }
                        }
                        Some((fid, rev))
                    }
                    None => None,
                }
            }
            None => {
                match self.next_claimable() {
                    Some(f) => {
                        let fid = f.id.clone();
                        let rev = f.feature_type == FeatureType::Review;
                        proof {
                            let w = choose|i: int|
                                #[trigger] is_preferred_candidate(fs0, i, None) && *f == fs0[i];
                            assert(is_preferred_candidate(fs0, w, None) && fid@ == fs0[w].id@
                                && rev == (fs0[w].feature_type == FeatureType::Review));
                            assert(claimable_at(fs0, w));
                        }
                        Some((fid, rev))
                    }
                    None => None,
                }
            }
        };
        match picked {
            None => None,
            Some((feature_id, review)) => {
                let agent_id = agent_name(agent_num);
                let outcome = self.claim(feature_id.as_str(), agent_id.as_str());
                proof {
                    if outcome is Err {
                        assert(self.features@ == fs0);
                    } else {
                        assert(exists|i: int|
                            #[trigger] is_first_with_id(fs0, feature_id@, i) && claim_applied(
                                fs0,
                                self.features@,
                                i,
                                agent_id@,
                            ));
                    }
                    assert(claim_recorded(fs0, self.features@, feature_id@, agent_id@));
                }
                Some(PaneSpawnPlan { feature_id, agent_id, review })
            }
        }
    }
}

} // verus!

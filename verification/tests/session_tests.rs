use forge::config::RoleSpec;
use forge::features::{Feature, FeatureList, FeatureStatus, FeatureType};
use forge::runner::{agent_name, build_agent_command, build_headless_command};
use forge::session::{
    compliance_issues, settle_merges, ComplianceIssue, MergeOutcome, MultiRoundGate, RoundGate,
    VerifyPassGate,
};
use forge::verify::{VerifyReport, VerifyResult};

fn make(id: &str, deps: Vec<String>, priority: u32, status: FeatureStatus) -> Feature {
    Feature {
        id: id.into(),
        feature_type: FeatureType::Implement,
        scope: "test".into(),
        description: format!("work on {id}"),
        verify: format!("./scripts/verify/{id}.sh"),
        depends_on: deps,
        priority,
        status,
        claimed_by: None,
        blocked_reason: None,
        context_hints: vec![],
    }
}

fn sample() -> FeatureList {
    FeatureList {
        features: vec![
            make("f001", vec![], 1, FeatureStatus::Pending),
            make("f002", vec!["f001".into()], 2, FeatureStatus::Pending),
        ],
    }
}

#[test]
fn round_honors_stop_first() {
    let list = sample();
    assert!(matches!(list.plan_round(true, 0, 10), RoundGate::Stop));
}

#[test]
fn round_reports_all_done() {
    let mut list = sample();
    for f in &mut list.features {
        f.status = FeatureStatus::Done;
    }
    assert!(matches!(list.plan_round(false, 0, 10), RoundGate::AllDone));
}

#[test]
fn round_respects_session_budget() {
    let list = sample();
    match list.plan_round(false, 10, 10) {
        RoundGate::Budget { remaining } => assert_eq!(remaining, 2),
        other => panic!("expected the budget gate, got {other:?}"),
    }
}

#[test]
fn round_picks_preferred_feature() {
    let list = sample();
    match list.plan_round(false, 0, 10) {
        RoundGate::Run { feature_id, review } => {
            assert_eq!(feature_id, "f001");
            assert!(!review);
        }
        other => panic!("expected a run gate, got {other:?}"),
    }
}

#[test]
fn round_reports_none_claimable() {
    let mut list = sample();
    list.features[0].status = FeatureStatus::Blocked;
    match list.plan_round(false, 0, 10) {
        RoundGate::NoneClaimable { remaining } => assert_eq!(remaining, 2),
        other => panic!("expected none claimable, got {other:?}"),
    }
}

#[test]
fn multi_round_claims_batch() {
    let mut list = sample();
    list.features.push(make("f003", vec![], 3, FeatureStatus::Pending));
    match list.plan_multi_round(false, 0, 10, 2) {
        MultiRoundGate::Run { feature_ids, reviews } => {
            assert_eq!(feature_ids, vec!["f001", "f003"]);
            assert_eq!(reviews, vec![false, false]);
        }
        other => panic!("expected a run gate, got {other:?}"),
    }
}

#[test]
fn merge_conflict_is_isolated() {
    // one worker's conflict is rolled back; the others still merge, and
    // every worker of the round is reported
    let outcomes = settle_merges(&vec![false, true, false]);
    assert_eq!(
        outcomes,
        vec![MergeOutcome::Merged, MergeOutcome::Conflicted, MergeOutcome::Merged]
    );
    // the same round without the conflict differs only for that worker
    let clean = settle_merges(&vec![false, false, false]);
    assert_eq!(clean[0], outcomes[0]);
    assert_eq!(clean[2], outcomes[2]);
}

#[test]
fn compliance_flags_are_advisory_findings() {
    assert_eq!(compliance_issues(true, true, false), vec![]);
    assert_eq!(
        compliance_issues(false, true, false),
        vec![ComplianceIssue::MissingHandoff]
    );
    assert_eq!(
        compliance_issues(true, false, true),
        vec![ComplianceIssue::MissingDelivery, ComplianceIssue::StillClaimed]
    );
}

#[test]
fn verify_report_counts_failures() {
    let results = vec![
        VerifyResult { feature_id: "f001".into(), passed: true, output: "ok".into() },
        VerifyResult { feature_id: "f002".into(), passed: false, output: "left 3 != right 4".into() },
    ];
    let report = VerifyReport::from_results(&results);
    assert_eq!(report.pass, 1);
    assert_eq!(report.fail, 1);
    assert_eq!(report.total, 2);
    assert_eq!(report.failures.len(), 1);
    assert_eq!(report.failures[0].feature_id, "f002");
    assert_eq!(report.failures[0].output, "left 3 != right 4");
}

#[test]
fn verify_plan_targets_done_and_claimed() {
    let mut list = sample();
    list.claim("f001", "agent-1").unwrap();
    let plan = list.verify_plan();
    assert_eq!(plan.len(), 1);
    assert_eq!(plan[0].feature_id, "f001");
    assert_eq!(plan[0].verify, "./scripts/verify/f001.sh");
}

#[test]
fn reopen_failed_feeds_back_to_scheduler() {
    let mut list = sample();
    list.claim("f001", "agent-1").unwrap();
    list.mark_done("f001").unwrap();
    let results = vec![VerifyResult {
        feature_id: "f001".into(),
        passed: false,
        output: "boom".into(),
    }];
    let reopened = list.reopen_failed(&results);
    assert_eq!(reopened, vec!["f001"]);
    let f = &list.features[0];
    assert_eq!(f.status, FeatureStatus::Pending);
    assert!(f.claimed_by.is_none());
}

#[test]
fn verify_pass_gate_tracks_done_count() {
    let mut list = sample();
    assert_eq!(list.plan_verify_pass(0), VerifyPassGate::Idle);
    list.claim("f001", "agent-1").unwrap();
    list.mark_done("f001").unwrap();
    assert_eq!(list.plan_verify_pass(0), VerifyPassGate::RunVerify { done_count: 1 });
    assert_eq!(list.plan_verify_pass(1), VerifyPassGate::Idle);
    list.claim("f002", "agent-1").unwrap();
    list.mark_done("f002").unwrap();
    assert_eq!(list.plan_verify_pass(2), VerifyPassGate::Finished);
}

#[test]
fn agent_commands_follow_backend_conventions() {
    let aide = RoleSpec { backend: "aide".into(), model: "sonnet".into() };
    let (cmd, args) = build_agent_command(&aide, "do the thing");
    assert_eq!(cmd, "aide");
    assert_eq!(args, vec!["--model", "sonnet", "--skip-confirmations", "do the thing"]);

    let pilot = RoleSpec { backend: "pilot".into(), model: "o3".into() };
    let (cmd, args) = build_agent_command(&pilot, "p");
    assert_eq!(cmd, "pilot");
    assert_eq!(args, vec!["--model", "o3", "--full-auto", "p"]);

    let other = RoleSpec { backend: "echo".into(), model: "x".into() };
    let (cmd, args) = build_agent_command(&other, "p");
    assert_eq!(cmd, "echo");
    assert_eq!(args, vec!["p"]);
}

#[test]
fn headless_commands_prepend_exit_flags() {
    let aide = RoleSpec { backend: "aide".into(), model: "sonnet".into() };
    let (_, args) = build_headless_command(&aide, "p");
    assert_eq!(args[0], "--print");

    let pilot = RoleSpec { backend: "pilot".into(), model: "o3".into() };
    let (_, args) = build_headless_command(&pilot, "p");
    assert_eq!(args[0], "exec");
}

#[test]
fn pane_spawn_claims_the_picked_feature() {
    let mut list = sample();
    let plan = list.plan_pane_spawn(None, 1).unwrap();
    assert_eq!(plan.feature_id, "f001");
    assert_eq!(plan.agent_id, "agent-1");
    assert!(!plan.review);
    let f = &list.features[0];
    assert_eq!(f.status, FeatureStatus::Claimed);
    assert_eq!(f.claimed_by.as_deref(), Some("agent-1"));
    // a second pane cannot pick the same feature
    assert!(list.plan_pane_spawn(None, 2).is_none());
}

#[test]
fn pane_spawn_prefers_direct_dependents() {
    let mut list = sample();
    list.features.push(make("f099", vec![], 1, FeatureStatus::Pending));
    list.claim("f001", "agent-1").unwrap();
    list.mark_done("f001").unwrap();
    let plan = list.plan_pane_spawn(Some("f001"), 2).unwrap();
    assert_eq!(plan.feature_id, "f002");
}

#[test]
fn agent_names_count_up() {
    assert_eq!(agent_name(1), "agent-1");
    assert_eq!(agent_name(12), "agent-12");
}

#[test]
fn prompts_embed_the_feature_and_context() {
    let p = forge::runner::render_agent_prompt("f007");
    assert!(p.contains("f007"));
    assert!(p.contains("forge-protocol"));
    let q = forge::runner::render_agent_prompt_with_context("f007", "the package");
    assert!(q.contains("the package"));
    assert!(q.contains("f007"));
}

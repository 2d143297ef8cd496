use forge::features::{Feature, FeatureError, FeatureList, FeatureStatus, FeatureType};

fn make(
    id: &str,
    ft: FeatureType,
    scope: &str,
    desc: &str,
    verify: &str,
    deps: Vec<String>,
    priority: u32,
    status: FeatureStatus,
) -> Feature {
    Feature {
        id: id.into(),
        feature_type: ft,
        scope: scope.into(),
        description: desc.into(),
        verify: verify.into(),
        depends_on: deps,
        priority,
        status,
        claimed_by: None,
        blocked_reason: None,
        context_hints: vec![],
    }
}

fn sample_features() -> FeatureList {
    FeatureList {
        features: vec![
            make(
                "f001",
                FeatureType::Implement,
                "data-model",
                "Create User struct",
                "./scripts/verify/f001.sh",
                vec![],
                1,
                FeatureStatus::Pending,
            ),
            make(
                "f002",
                FeatureType::Implement,
                "auth",
                "Add login endpoint",
                "./scripts/verify/f002.sh",
                vec!["f001".into()],
                2,
                FeatureStatus::Pending,
            ),
            make(
                "f003",
                FeatureType::Review,
                "data-model",
                "Review data-model boundaries",
                "./scripts/verify/review-dm.sh",
                vec!["f001".into()],
                3,
                FeatureStatus::Pending,
            ),
        ],
    }
}

#[test]
fn next_claimable_respects_deps() {
    let list = sample_features();
    let next = list.next_claimable().unwrap();
    // f001 has no deps, should be claimable. f002/f003 depend on f001.
    assert_eq!(next.id, "f001");
}

#[test]
fn next_claimable_after_dep_done() {
    let mut list = sample_features();
    list.claim("f001", "agent-1").unwrap();
    list.mark_done("f001").unwrap();

    let next = list.next_claimable().unwrap();
    // f002 (priority 2) should be claimable now
    assert_eq!(next.id, "f002");
}

#[test]
fn claim_prevents_double_claim() {
    let mut list = sample_features();
    list.claim("f001", "agent-1").unwrap();
    let result = list.claim("f001", "agent-2");
    assert!(matches!(result, Err(FeatureError::AlreadyClaimed(_, _))));
}

#[test]
fn claim_checks_deps() {
    let mut list = sample_features();
    let result = list.claim("f002", "agent-1");
    assert!(matches!(result, Err(FeatureError::DepsNotMet(_, _))));
}

#[test]
fn mark_blocked_sets_reason() {
    let mut list = sample_features();
    list.claim("f001", "agent-1").unwrap();
    list.mark_blocked("f001", "stuck on compile error").unwrap();

    let f = list.features.iter().find(|f| f.id == "f001").unwrap();
    assert_eq!(f.status, FeatureStatus::Blocked);
    assert_eq!(f.blocked_reason.as_deref(), Some("stuck on compile error"));
}

#[test]
fn reopen_resets_status() {
    let mut list = sample_features();
    list.claim("f001", "agent-1").unwrap();
    list.mark_done("f001").unwrap();
    list.reopen("f001").unwrap();

    let f = list.features.iter().find(|f| f.id == "f001").unwrap();
    assert_eq!(f.status, FeatureStatus::Pending);
    assert!(f.claimed_by.is_none());
}

#[test]
fn status_counts() {
    let mut list = sample_features();
    list.claim("f001", "agent-1").unwrap();
    list.mark_done("f001").unwrap();

    let counts = list.status_counts();
    assert_eq!(counts.total, 3);
    assert_eq!(counts.done, 1);
    assert_eq!(counts.pending, 2);
}

#[test]
fn all_done_false_when_pending() {
    let list = sample_features();
    assert!(!list.all_done());
}

#[test]
fn all_done_true_when_complete() {
    let mut list = sample_features();
    for id in ["f001", "f002", "f003"] {
        list.claim(id, "agent-1").ok();
        list.mark_done(id).unwrap();
    }
    assert!(list.all_done());
}

#[test]
fn next_n_claimable_returns_up_to_n() {
    let mut list = sample_features();
    // Make f001 done so f002 and f003 become claimable
    list.claim("f001", "agent-1").unwrap();
    list.mark_done("f001").unwrap();

    let claimable = list.next_n_claimable(5);
    // f002 (priority 2) and f003 (priority 3) should be claimable
    assert_eq!(claimable.len(), 2);
    assert_eq!(claimable[0].id, "f002");
    assert_eq!(claimable[1].id, "f003");
}

#[test]
fn next_n_claimable_respects_limit() {
    let mut list = sample_features();
    list.claim("f001", "agent-1").unwrap();
    list.mark_done("f001").unwrap();

    let claimable = list.next_n_claimable(1);
    assert_eq!(claimable.len(), 1);
    assert_eq!(claimable[0].id, "f002"); // highest priority
}

#[test]
fn next_after_prefers_unblocked() {
    let mut list = sample_features();
    // Add an unrelated low-priority feature with no deps
    list.features.push(make(
        "f099",
        FeatureType::Implement,
        "misc",
        "Unrelated low-pri feature",
        "./scripts/verify/f099.sh",
        vec![],
        1,
        FeatureStatus::Pending,
    ));
    // Complete f001
    list.claim("f001", "agent-1").unwrap();
    list.mark_done("f001").unwrap();

    // next_after("f001") should prefer f002/f003 (depend on f001) over f099
    let next = list.next_after("f001").unwrap();
    assert!(
        next.id == "f002" || next.id == "f003",
        "expected f002 or f003 (depends on f001), got {}",
        next.id,
    );
    // Specifically f002 because it has lower priority number (2 < 3)
    assert_eq!(next.id, "f002");
}

#[test]
fn next_after_falls_back() {
    let mut list = sample_features();
    // Add an unrelated feature with no deps
    list.features.push(make(
        "f099",
        FeatureType::Implement,
        "misc",
        "Unrelated feature",
        "./scripts/verify/f099.sh",
        vec![],
        1,
        FeatureStatus::Pending,
    ));
    // Complete f001, then claim f002 and f003 (the direct dependents)
    list.claim("f001", "agent-1").unwrap();
    list.mark_done("f001").unwrap();
    list.claim("f002", "agent-2").unwrap();
    list.mark_done("f002").unwrap();
    list.claim("f003", "agent-3").unwrap();
    list.mark_done("f003").unwrap();

    // next_after("f003") — no features depend on f003, falls back to global
    let next = list.next_after("f003").unwrap();
    assert_eq!(next.id, "f099");
}

#[test]
fn next_after_handles_unknown_id() {
    let mut list = sample_features();
    list.claim("f001", "agent-1").unwrap();
    list.mark_done("f001").unwrap();

    // "f999" doesn't exist — should fall back to global priority
    let next = list.next_after("f999").unwrap();
    assert_eq!(next.id, "f002");
}

#[test]
fn not_pending_error() {
    let mut list = sample_features();
    list.mark_done("f001").unwrap();
    let result = list.claim("f001", "agent-1");
    assert!(matches!(result, Err(FeatureError::NotPending(_))));
}

#[test]
fn mark_done_clears_the_claim() {
    let mut list = sample_features();
    list.claim("f001", "agent-1").unwrap();
    list.mark_done("f001").unwrap();
    let f = &list.features[0];
    assert_eq!(f.status, FeatureStatus::Done);
    assert!(f.claimed_by.is_none());
}

#[test]
fn not_found_error() {
    let mut list = sample_features();
    let result = list.claim("f999", "agent-1");
    assert!(matches!(result, Err(FeatureError::NotFound(_))));
}

#[test]
fn claimable_ids_no_deps_done() {
    let list = sample_features();
    // Only f001 is claimable (no deps)
    let ids = list.claimable_ids();
    assert_eq!(ids, vec!["f001"]);
}

#[test]
fn claimable_ids_after_done() {
    let mut list = sample_features();
    list.claim("f001", "agent-1").unwrap();
    list.mark_done("f001").unwrap();
    // f002 and f003 both depend on f001, now claimable
    let mut ids = list.claimable_ids();
    ids.sort();
    assert_eq!(ids, vec!["f002", "f003"]);
}

#[test]
fn claimable_ids_empty_when_all_done() {
    let mut list = sample_features();
    for id in ["f001", "f002", "f003"] {
        list.claim(id, "agent-1").ok();
        list.mark_done(id).unwrap();
    }
    assert!(list.claimable_ids().is_empty());
}

#[test]
fn claimable_ids_excludes_claimed() {
    let mut list = sample_features();
    list.claim("f001", "agent-1").unwrap();
    // f001 is now claimed, not pending — should not appear
    assert!(list.claimable_ids().is_empty());
}

#[test]
fn milestone_claimable_groups_by_review() {
    let list = FeatureList {
        features: vec![
            make(
                "f030",
                FeatureType::Implement,
                "sql",
                "Done dep",
                "true",
                vec![],
                50,
                FeatureStatus::Done,
            ),
            make(
                "f042",
                FeatureType::Implement,
                "sql",
                "UNION",
                "true",
                vec!["f030".into()],
                139,
                FeatureStatus::Pending,
            ),
            make(
                "f065",
                FeatureType::Implement,
                "node",
                "Role mgmt",
                "true",
                vec![],
                100,
                FeatureStatus::Pending,
            ),
            make(
                "r104",
                FeatureType::Review,
                "all",
                "M4 review",
                "true",
                vec!["f042".into()],
                154,
                FeatureStatus::Pending,
            ),
            make(
                "r105",
                FeatureType::Review,
                "all",
                "M5 review",
                "true",
                vec!["f065".into()],
                179,
                FeatureStatus::Pending,
            ),
        ],
    };

    let groups = list.milestone_claimable();
    // r104 (priority 154) is the nearest milestone
    assert_eq!(groups[0].0, "r104");
    assert_eq!(groups[0].1, vec!["f042"]);
    // r105 (priority 179) is next
    assert_eq!(groups[1].0, "r105");
    assert_eq!(groups[1].1, vec!["f065"]);
}

#[test]
fn milestone_claimable_transitive() {
    let list = FeatureList {
        features: vec![
            make(
                "f030",
                FeatureType::Implement,
                "sql",
                "Done",
                "true",
                vec![],
                50,
                FeatureStatus::Done,
            ),
            make(
                "f043",
                FeatureType::Implement,
                "sql",
                "INSERT",
                "true",
                vec!["f030".into()],
                140,
                FeatureStatus::Pending,
            ),
            make(
                "f044",
                FeatureType::Implement,
                "http",
                "Stream load",
                "true",
                vec!["f043".into()],
                141,
                FeatureStatus::Pending,
            ),
            // r104 depends on f044, which transitively depends on f043
            make(
                "r104",
                FeatureType::Review,
                "all",
                "M4 review",
                "true",
                vec!["f044".into()],
                154,
                FeatureStatus::Pending,
            ),
        ],
    };

    let groups = list.milestone_claimable();
    // f043 is claimable and transitively blocks r104 (via f044)
    assert_eq!(groups[0].0, "r104");
    assert_eq!(groups[0].1, vec!["f043"]);
}

#[test]
fn milestone_claimable_orphans_come_last() {
    let mut list = sample_features();
    // f007 is claimable but unreachable from the review feature f003
    list.features.push(make(
        "f007",
        FeatureType::Implement,
        "misc",
        "Standalone",
        "true",
        vec![],
        9,
        FeatureStatus::Pending,
    ));
    list.claim("f001", "agent-1").unwrap();
    list.mark_done("f001").unwrap();

    let groups = list.milestone_claimable();
    // f002, the review feature f003 and f007 are all claimable, and none
    // sits in the dependency tree of an incomplete review feature, so all
    // land in the single orphan group, ordered by priority
    assert_eq!(groups.len(), 1);
    assert_eq!(groups[0].0, "");
    assert_eq!(groups[0].1, vec!["f002", "f003", "f007"]);
}

#[test]
fn claim_succeeds_exactly_on_ready_features() {
    // claim succeeds exactly when the feature is pending with all
    // dependencies done, and then records status and worker
    let mut list = sample_features();
    assert!(list.claim("f002", "agent-1").is_err()); // dep not done
    list.claim("f001", "agent-1").unwrap();
    assert!(list.claim("f001", "agent-2").is_err()); // already claimed
    list.mark_done("f001").unwrap();
    list.claim("f002", "agent-2").unwrap();
    let f = list.features.iter().find(|f| f.id == "f002").unwrap();
    assert_eq!(f.status, FeatureStatus::Claimed);
    assert_eq!(f.claimed_by.as_deref(), Some("agent-2"));
}

#[test]
fn claim_done_reopen_round_trip_restores_fields() {
    let mut list = sample_features();
    let before = list.features[0].clone();
    list.claim("f001", "agent-1").unwrap();
    list.mark_done("f001").unwrap();
    list.reopen("f001").unwrap();
    let f = &list.features[0];
    assert_eq!(f.status, FeatureStatus::Pending);
    assert!(f.claimed_by.is_none());
    assert!(f.blocked_reason.is_none());
    assert_eq!(f.id, before.id);
    assert_eq!(f.priority, before.priority);
    assert_eq!(f.depends_on, before.depends_on);
    // a second reopen changes nothing
    let snapshot = list.clone();
    list.reopen("f001").unwrap();
    assert_eq!(list, snapshot);
}

#[test]
fn next_claimable_only_returns_ready_features() {
    // the scheduler never hands out a feature with an unmet dependency
    let mut list = sample_features();
    list.features[0].status = FeatureStatus::Claimed;
    list.features[0].claimed_by = Some("agent-1".into());
    // f002 and f003 depend on f001 which is not done: nothing claimable
    assert!(list.next_claimable().is_none());
}

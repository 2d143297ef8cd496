use forge::dag::render_feature_dag;
use forge::features::{Feature, FeatureList, FeatureStatus, FeatureType};

fn make_feature(id: &str, ft: FeatureType, desc: &str, deps: Vec<String>, priority: u32) -> Feature {
    Feature {
        id: id.into(),
        feature_type: ft,
        scope: "test".into(),
        description: desc.into(),
        verify: format!("./scripts/verify/{id}.sh"),
        depends_on: deps,
        priority,
        status: FeatureStatus::Pending,
        claimed_by: None,
        blocked_reason: None,
        context_hints: vec![],
    }
}

#[test]
fn dag_empty_features() {
    let list = FeatureList { features: vec![] };
    let out = render_feature_dag(&list);
    assert!(out.contains("0 total"));
    assert!(out.contains("0 done"));
}

#[test]
fn dag_all_done() {
    let mut list = FeatureList {
        features: vec![
            make_feature("f001", FeatureType::Implement, "Create User struct", vec![], 1),
            make_feature("f002", FeatureType::Implement, "Add login endpoint", vec!["f001".into()], 2),
        ],
    };
    for f in &mut list.features {
        f.status = FeatureStatus::Done;
    }
    let out = render_feature_dag(&list);
    assert!(out.contains("2 done"));
    assert!(out.contains("Progress: 100%"));
    assert!(!out.contains("Next up"));
    assert!(!out.contains("In progress"));
}

#[test]
fn dag_mixed_states() {
    let mut list = FeatureList {
        features: vec![
            make_feature("f001", FeatureType::Implement, "Create User struct", vec![], 1),
            make_feature("f002", FeatureType::Implement, "Add login endpoint", vec!["f001".into()], 2),
            make_feature("f003", FeatureType::Implement, "Data model boundaries", vec!["f001".into()], 3),
            make_feature("f004", FeatureType::Implement, "Add user validation", vec!["f002".into(), "f003".into()], 4),
        ],
    };
    list.features[0].status = FeatureStatus::Done;
    list.features[1].status = FeatureStatus::Claimed;
    list.features[1].claimed_by = Some("agent-1".into());

    let out = render_feature_dag(&list);
    assert!(out.contains("4 total (1 done, 1 claimed, 2 pending)"));
    assert!(out.contains("Progress: 25%"));
    // Claimed in "In progress" section
    assert!(out.contains("\u{29D7} f002"));
    assert!(out.contains("(agent-1)"));
    // f003 is claimable → shows in "Next up"
    assert!(out.contains("Next up: f003"));
}

#[test]
fn dag_blocked_feature() {
    let mut list = FeatureList {
        features: vec![
            make_feature("f001", FeatureType::Implement, "Create User struct", vec![], 1),
        ],
    };
    list.features[0].status = FeatureStatus::Blocked;
    list.features[0].blocked_reason = Some("stuck on compile error".into());

    let out = render_feature_dag(&list);
    assert!(out.contains("\u{2717} f001"));
    assert!(out.contains("reason: stuck on compile error"));
}

#[test]
fn dag_truncates_long_description() {
    let mut list = FeatureList {
        features: vec![
            make_feature(
                "f001",
                FeatureType::Implement,
                "This is a very long description that exceeds forty-five characters and should be truncated",
                vec![],
                1,
            ),
        ],
    };
    // Must be claimed or blocked to show individual description
    list.features[0].status = FeatureStatus::Claimed;
    list.features[0].claimed_by = Some("agent-1".into());
    let out = render_feature_dag(&list);
    assert!(out.contains("..."));
    assert!(!out.contains("should be truncated"));
}

#[test]
fn dag_milestone_summary() {
    let mut list = FeatureList {
        features: vec![
            make_feature("f001", FeatureType::Implement, "Feature A", vec![], 1),
            make_feature("f002", FeatureType::Implement, "Feature B", vec![], 2),
            make_feature("f003", FeatureType::Implement, "Feature C", vec!["f001".into()], 3),
            make_feature("f004", FeatureType::Implement, "Feature D", vec![], 4),
            make_feature("r101", FeatureType::Review, "M1 Foundation review. Verify scaffold", vec!["f001".into(), "f002".into()], 10),
            make_feature("r104", FeatureType::Review, "M4 milestone review. Docker oracle gate: run tests", vec!["f003".into(), "f004".into()], 20),
        ],
    };
    list.features[0].status = FeatureStatus::Done; // f001
    list.features[1].status = FeatureStatus::Done; // f002
    list.features[3].status = FeatureStatus::Done; // f004
    list.features[4].status = FeatureStatus::Done; // r101

    let out = render_feature_dag(&list);
    // M1 done: 2/2 with description
    assert!(out.contains("\u{2713}") && out.contains("M1"), "M1 should show done: {out}");
    assert!(out.contains("2/2"), "M1 should show 2/2: {out}");
    assert!(out.contains("Foundation"), "M1 should show description: {out}");
    // M4 partial: 1/2, gate description extracted
    assert!(out.contains("\u{25D0}"), "M4 should show partial: {out}");
    assert!(out.contains("1/2"), "M4 should show 1/2: {out}");
    assert!(out.contains("Docker oracle gate"), "M4 should show gate desc: {out}");
}

#[test]
fn dag_milestone_wip_count() {
    let mut list = FeatureList {
        features: vec![
            make_feature("f001", FeatureType::Implement, "A", vec![], 1),
            make_feature("f002", FeatureType::Implement, "B", vec![], 2),
            make_feature("f003", FeatureType::Implement, "C", vec![], 3),
            make_feature("r104", FeatureType::Review, "M4 review", vec!["f001".into(), "f002".into(), "f003".into()], 10),
        ],
    };
    list.features[0].status = FeatureStatus::Done;
    list.features[1].status = FeatureStatus::Claimed;
    list.features[1].claimed_by = Some("agent-1".into());

    let out = render_feature_dag(&list);
    assert!(out.contains("1/3"), "M4 should show 1 done out of 3: {out}");
    assert!(out.contains("1 wip"), "M4 should show 1 wip: {out}");
    assert!(out.contains("\u{25D0}"), "M4 should show partial indicator: {out}");
}

#[test]
fn dag_milestone_priority() {
    let mut list = FeatureList {
        features: vec![
            make_feature("f030", FeatureType::Implement, "Fragment builder", vec![], 50),
            make_feature("f035", FeatureType::Implement, "Optimizer", vec![], 51),
            make_feature("f042", FeatureType::Implement, "UNION/INTERSECT", vec!["f035".into()], 139),
            make_feature("f043", FeatureType::Implement, "INSERT", vec!["f030".into()], 140),
            make_feature("f065", FeatureType::Implement, "Role management", vec![], 100),
            make_feature("f099", FeatureType::Implement, "Misc feature", vec![], 1),
            make_feature("r104", FeatureType::Review, "M4 review", vec!["f042".into(), "f043".into()], 154),
            make_feature("r105", FeatureType::Review, "M5 review", vec!["f065".into()], 179),
        ],
    };
    list.features[0].status = FeatureStatus::Done; // f030
    list.features[1].status = FeatureStatus::Done; // f035

    let out = render_feature_dag(&list);

    // Milestone summary shows both
    assert!(out.contains("M4"), "Should show M4: {out}");
    assert!(out.contains("M5"), "Should show M5: {out}");
    // Next up grouped by milestone
    assert!(out.contains("Next up (M4): f042, f043"), "M4 next up: {out}");
    assert!(out.contains("Next up (M5): f065"), "M5 next up: {out}");
    assert!(out.contains("Next up: f099"), "Orphan next up: {out}");
    // M4 before M5
    let pos_m4 = out.find("Next up (M4)").unwrap();
    let pos_m5 = out.find("Next up (M5)").unwrap();
    assert!(pos_m4 < pos_m5, "M4 before M5 in next up");
}

#[test]
fn dag_transitive_milestone_deps() {
    let mut list = FeatureList {
        features: vec![
            make_feature("f030", FeatureType::Implement, "Done dep", vec![], 50),
            make_feature("f043", FeatureType::Implement, "INSERT", vec!["f030".into()], 140),
            make_feature("f044", FeatureType::Implement, "Stream load", vec!["f043".into()], 141),
            make_feature("r104", FeatureType::Review, "M4 review", vec!["f044".into()], 154),
        ],
    };
    list.features[0].status = FeatureStatus::Done; // f030

    let out = render_feature_dag(&list);
    assert!(out.contains("Next up (M4): f043"), "Transitive dep in next up: {out}");
}

#[test]
fn dag_no_milestone_labels_skips_section() {
    // Review features without milestone tags should not show in Milestones
    let mut list = FeatureList {
        features: vec![
            make_feature("f001", FeatureType::Implement, "Feature A", vec![], 1),
            make_feature("r001", FeatureType::Review, "Review p001 results", vec!["f001".into()], 10),
        ],
    };
    list.features[0].status = FeatureStatus::Done;
    list.features[1].status = FeatureStatus::Done;

    let out = render_feature_dag(&list);
    assert!(!out.contains("Milestones:"), "No milestone section for non-M reviews: {out}");
}

#[test]
fn status_line_shows_counts() {
    let counts = forge::features::StatusCounts {
        total: 10,
        pending: 3,
        claimed: 2,
        done: 4,
        blocked: 1,
    };
    let text = forge::dag::status_line(&counts);
    assert!(text.contains("4/10 done (40%)"), "got: {text}");
    assert!(text.contains("3 pending"), "got: {text}");
}

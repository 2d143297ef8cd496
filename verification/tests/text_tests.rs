use forge::config::{default_backend, default_max_agents, default_role_orchestrating, RoleConfig};
use forge::export::build_feature_summary;
use forge::features::{Feature, FeatureList, FeatureStatus, FeatureType};
use forge::text::{find_sub, percent_rounded, str_eq, str_le, u64_to_string, usize_to_string};

#[test]
fn decimal_rendering_is_exact() {
    assert_eq!(u64_to_string(0), "0");
    assert_eq!(u64_to_string(7), "7");
    assert_eq!(u64_to_string(10), "10");
    assert_eq!(u64_to_string(90210), "90210");
    assert_eq!(usize_to_string(12345), "12345");
}

#[test]
fn string_comparisons() {
    assert!(str_eq("abc", "abc"));
    assert!(!str_eq("abc", "abd"));
    assert!(str_le("a-first", "z-last"));
    assert!(!str_le("z", "a"));
    assert!(str_le("", "anything"));
}

#[test]
fn substring_search() {
    assert_eq!(find_sub("hello world", "world", 0), Some(6));
    assert_eq!(find_sub("hello world", "world", 7), None);
    assert_eq!(find_sub("aaa", "aa", 0), Some(0));
    assert_eq!(find_sub("abc", "x", 0), None);
}

#[test]
fn percent_rounds_to_nearest() {
    assert_eq!(percent_rounded(0, 0), 0);
    assert_eq!(percent_rounded(4, 10), 40);
    assert_eq!(percent_rounded(1, 3), 33);
    assert_eq!(percent_rounded(2, 3), 67);
    assert_eq!(percent_rounded(3, 3), 100);
}

#[test]
fn role_defaults_match_convention() {
    assert_eq!(default_max_agents(), 4);
    assert_eq!(default_backend(), "aide");
    let roles = RoleConfig::default();
    assert_eq!(roles.protocol.model, "sonnet");
    assert_eq!(roles.orchestrating.model, "haiku");
    assert_eq!(roles.planning.backend, "aide");
    assert_eq!(default_role_orchestrating().model, "haiku");
}

#[test]
fn feature_summary_adds_up() {
    let list = FeatureList {
        features: vec![
            Feature {
                id: "f001".into(),
                feature_type: FeatureType::Implement,
                scope: "s".into(),
                description: "d".into(),
                verify: "v".into(),
                depends_on: vec![],
                priority: 1,
                status: FeatureStatus::Done,
                claimed_by: None,
                blocked_reason: None,
                context_hints: vec![],
            },
            Feature {
                id: "f002".into(),
                feature_type: FeatureType::Implement,
                scope: "s".into(),
                description: "d".into(),
                verify: "v".into(),
                depends_on: vec![],
                priority: 2,
                status: FeatureStatus::Pending,
                claimed_by: None,
                blocked_reason: None,
                context_hints: vec![],
            },
        ],
    };
    let s = build_feature_summary(&list);
    assert_eq!(s.total, 2);
    assert_eq!(s.done, 1);
    assert_eq!(s.pending, 1);
    assert_eq!(s.claimed, 0);
    assert_eq!(s.blocked, 0);
}

#[test]
fn milestone_labels_parse_tags() {
    let f = Feature {
        id: "r104".into(),
        feature_type: FeatureType::Review,
        scope: "all".into(),
        description: "M4 milestone review".into(),
        verify: "true".into(),
        depends_on: vec![],
        priority: 1,
        status: FeatureStatus::Pending,
        claimed_by: None,
        blocked_reason: None,
        context_hints: vec![],
    };
    assert_eq!(FeatureList::milestone_label(&f), "M4");
    assert_eq!(FeatureList::milestone_sort_key("M4"), 4);
    assert_eq!(FeatureList::milestone_sort_key("M12"), 12);
    let mut g = f.clone();
    g.description = "Review p001 results".into();
    assert_eq!(FeatureList::milestone_label(&g), "");
}

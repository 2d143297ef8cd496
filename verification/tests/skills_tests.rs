use forge::skills::{all_skills, forge_planning_files, forge_protocol_files};

#[test]
fn all_skills_have_skill_md() {
    for (name, files) in all_skills() {
        let has_skill_md = files.iter().any(|(path, _)| *path == "SKILL.md");
        assert!(has_skill_md, "Skill {name} missing SKILL.md");
    }
}

#[test]
fn skill_md_has_frontmatter() {
    for (name, files) in all_skills() {
        let (_, content) = files.iter().find(|(p, _)| *p == "SKILL.md").unwrap();
        assert!(
            content.starts_with("---"),
            "Skill {name}/SKILL.md missing YAML frontmatter"
        );
        assert!(
            content.contains("name:"),
            "Skill {name}/SKILL.md missing name field"
        );
        assert!(
            content.contains("description:"),
            "Skill {name}/SKILL.md missing description field"
        );
    }
}

#[test]
fn skill_md_under_500_lines() {
    for (name, files) in all_skills() {
        let (_, content) = files.iter().find(|(p, _)| *p == "SKILL.md").unwrap();
        let lines = content.lines().count();
        assert!(
            lines <= 500,
            "Skill {name}/SKILL.md is {lines} lines, max 500"
        );
    }
}

#[test]
fn planning_has_coverage_and_references() {
    let files = forge_planning_files();
    assert!(files.iter().any(|(p, _)| *p == "COVERAGE.md"));
    assert!(files.iter().any(|(p, _)| *p == "REFERENCES.md"));
}

#[test]
fn protocol_has_claiming_and_context() {
    let files = forge_protocol_files();
    assert!(files.iter().any(|(p, _)| *p == "CLAIMING.md"));
    assert!(files.iter().any(|(p, _)| *p == "CONTEXT-WRITING.md"));
    assert!(files.iter().any(|(p, _)| *p == "CONTEXT-READING.md"));
    assert!(files.iter().any(|(p, _)| *p == "TESTING.md"));
}

use forge::config::{scaffold_principles, ProjectConfig};
use forge::template::generate_agents_md;

fn project(name: &str, stack: &str) -> ProjectConfig {
    ProjectConfig { name: name.into(), stack: stack.into() }
}

#[test]
fn agents_md_has_project_name() {
    let md = generate_agents_md(&project("my-app", "Rust, axum"), &scaffold_principles());
    assert!(md.starts_with("# my-app\n"));
    assert!(md.contains("Stack: Rust, axum"));
}

#[test]
fn agents_md_has_principles() {
    let md = generate_agents_md(&project("test", "Rust"), &scaffold_principles());
    assert!(md.contains("## Principles (non-negotiable)"));
    assert!(md.contains("1. Code understood in one read"));
}

#[test]
fn agents_md_has_protocol() {
    let md = generate_agents_md(&project("test", "Rust"), &scaffold_principles());
    assert!(md.contains("### Protocol"));
    assert!(md.contains("Read features.json"));
    assert!(md.contains("context/references/"));
}

#[test]
fn agents_md_has_poc_context() {
    let md = generate_agents_md(&project("test", "Rust"), &scaffold_principles());
    assert!(md.contains("context/poc/"));
}

#[test]
fn agents_md_has_hard_rules() {
    let md = generate_agents_md(&project("test", "Rust"), &scaffold_principles());
    assert!(md.contains("### Hard rules"));
    assert!(md.contains("One feature per session"));
    assert!(md.contains("Never weaken verify"));
}

#[test]
fn agents_md_under_45_lines() {
    let md = generate_agents_md(&project("test", "Rust"), &scaffold_principles());
    let line_count = md.lines().count();
    assert!(
        line_count <= 45,
        "The instruction file is {line_count} lines, should be <= 45"
    );
}

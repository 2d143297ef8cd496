use forge::context::{ContextError, ContextManager};

fn lookup(counts: &[(String, usize)], category: &str) -> usize {
    counts
        .iter()
        .find(|(c, _)| c == category)
        .map(|(_, n)| *n)
        .unwrap()
}

#[test]
fn write_and_read_entry() {
    let mut mgr = ContextManager::new();
    mgr.write_entry("decisions", "use-vec", "Use Vec<u8> for buffer")
        .unwrap();
    let content = mgr.read_entry("decisions", "use-vec").unwrap();
    assert_eq!(content, "Use Vec<u8> for buffer");
}

#[test]
fn list_category_returns_sorted() {
    let mut mgr = ContextManager::new();
    mgr.write_entry("gotchas", "z-last", "last").unwrap();
    mgr.write_entry("gotchas", "a-first", "first").unwrap();

    let entries = mgr.list_category("gotchas").unwrap();
    assert_eq!(entries.len(), 2);
    assert_eq!(entries[0].slug, "a-first");
    assert_eq!(entries[1].slug, "z-last");
}

#[test]
fn list_all_across_categories() {
    let mut mgr = ContextManager::new();
    mgr.write_entry("decisions", "d1", "decision 1").unwrap();
    mgr.write_entry("gotchas", "g1", "gotcha 1").unwrap();
    mgr.write_entry("references", "r1", "ref 1").unwrap();

    let all = mgr.list_all();
    assert_eq!(all.len(), 3);
}

#[test]
fn counts_per_category() {
    let mut mgr = ContextManager::new();
    mgr.write_entry("decisions", "d1", "x").unwrap();
    mgr.write_entry("decisions", "d2", "y").unwrap();
    mgr.write_entry("gotchas", "g1", "z").unwrap();

    let counts = mgr.counts();
    assert_eq!(lookup(&counts, "decisions"), 2);
    assert_eq!(lookup(&counts, "gotchas"), 1);
    assert_eq!(lookup(&counts, "patterns"), 0);
    assert_eq!(lookup(&counts, "poc"), 0);
    assert_eq!(lookup(&counts, "references"), 0);
}

#[test]
fn unknown_category_rejected() {
    let mut mgr = ContextManager::new();
    let result = mgr.write_entry("unknown", "test", "content");
    assert!(matches!(result, Err(ContextError::UnknownCategory(_))));
}

#[test]
fn generate_agents_section_empty() {
    let mgr = ContextManager::new();
    let section = mgr.generate_agents_section();
    assert!(section.is_empty());
}

#[test]
fn generate_agents_section_with_entries() {
    let mut mgr = ContextManager::new();
    mgr.write_entry("decisions", "use-vec", "x").unwrap();
    mgr.write_entry("gotchas", "head-tail", "y").unwrap();
    mgr.write_entry("references", "bf-tree-blog", "z").unwrap();

    let section = mgr.generate_agents_section();
    assert!(section.contains("## Context"));
    assert!(section.contains("Decisions: use-vec"));
    assert!(section.contains("Gotchas: head-tail"));
    assert!(section.contains("References: bf-tree-blog"));
    assert!(section.contains("Read context/{category}/{name}.md for details."));
}

#[test]
fn write_reference_with_frontmatter() {
    let mut mgr = ContextManager::new();
    mgr.write_reference(
        "bf-tree-blog",
        "https://example.com/bf-tree",
        &["bf-tree", "rust"],
        "## Key Points\n- Circular buffer uses Vec<u8>",
    )
    .unwrap();

    let content = mgr.read_entry("references", "bf-tree-blog").unwrap();
    assert!(content.contains("source: https://example.com/bf-tree"));
    assert!(content.contains("tags: [bf-tree, rust]"));
    assert!(content.contains("## Key Points"));
}

#[test]
fn overwrite_existing_entry() {
    let mut mgr = ContextManager::new();
    mgr.write_entry("decisions", "d1", "version 1").unwrap();
    mgr.write_entry("decisions", "d1", "version 2").unwrap();
    let content = mgr.read_entry("decisions", "d1").unwrap();
    assert_eq!(content, "version 2");
}

#[test]
fn write_and_read_poc_entry() {
    let mut mgr = ContextManager::new();
    mgr.write_entry("poc", "p001-thrift-parsing", "# POC: Thrift Parsing\n\n**Goal**: Validate thrift parser crate.\n**Result**: pass\n**Learnings**: nom-based parser works.\n**Design Impact**: Use nom for all parsing.")
        .unwrap();
    let content = mgr.read_entry("poc", "p001-thrift-parsing").unwrap();
    assert!(content.contains("**Result**: pass"));
}

#[test]
fn generate_index_empty_returns_empty() {
    let mgr = ContextManager::new();
    let index = mgr.generate_index();
    assert!(index.is_empty());
}

#[test]
fn generate_index_lists_entries_with_headings() {
    let mut mgr = ContextManager::new();
    mgr.write_entry("decisions", "use-vec", "# Use Vec<u8> for buffer\nSimpler than ring buffer.")
        .unwrap();
    mgr.write_entry("gotchas", "sqlx-nullable", "# sqlx requires Option<T> for nullable\nOtherwise panics.")
        .unwrap();

    let index = mgr.generate_index();
    assert!(index.contains("# Context Index"));
    assert!(index.contains("## Decisions (1 entries)"));
    assert!(index.contains("- use-vec: Use Vec<u8> for buffer"));
    assert!(index.contains("## Gotchas (1 entries)"));
    assert!(index.contains("- sqlx-nullable: sqlx requires Option<T> for nullable"));
}

#[test]
fn generate_index_skips_frontmatter() {
    let mut mgr = ContextManager::new();
    mgr.write_reference("bf-tree", "https://example.com", &["rust"], "Key points about bf-tree")
        .unwrap();

    let index = mgr.generate_index();
    assert!(index.contains("- bf-tree: Key points about bf-tree"));
    // Should NOT contain front matter
    assert!(!index.contains("source:"));
}

#[test]
fn missing_entry_reported() {
    let mgr = ContextManager::new();
    let result = mgr.read_entry("decisions", "nothing-here");
    assert!(matches!(result, Err(ContextError::Missing(_))));
}

#[test]
fn first_heading_truncates_long_lines() {
    let long = "X".repeat(120);
    let summary = forge::context::first_heading(&long);
    assert_eq!(summary.chars().count(), 80);
    assert!(summary.ends_with("..."));
}

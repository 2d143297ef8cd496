//! The agent instruction document generated into a project: its name and
//! stack, the principles, and the worker protocol in short form.

use vstd::prelude::*;
use vstd::string::StringExecFns;

use crate::config::Principles;
use crate::config::ProjectConfig;

verus! {

/// Render the instruction document from the project's configuration. The
/// text opens with the project name as a heading; the stack line, the
/// non-empty principles, the state files, the protocol and the hard rules
/// follow.
pub fn generate_agents_md(project: &ProjectConfig, principles: &Principles) -> (r: String)
    ensures
        r@.len() >= 2 + project.name@.len(),
        r@.subrange(0, 2 + project.name@.len() as int) == "# "@ + project.name@,
{
    proof {
        reveal_strlit("# ");
    }
    let mut head = String::from_str("# ");
    head.append(project.name.as_str());
    let mut s = String::new();
    s.append("\n");
    if !project.stack.as_str().is_empty() {
        s.append("Stack: ");
        s.append(project.stack.as_str());
        s.append("\n");
    }
    s.append("\n## Build & Test\n\n- Build: `cargo build`\n- Test: `cargo test`\n- Lint: `cargo clippy`\n- Format: `cargo fmt`\n\n");
    s.append("## Principles (non-negotiable)\n\n");
    if !principles.readability.as_str().is_empty() {
        s.append("1. ");
        s.append(principles.readability.as_str());
        s.append("\n");
    }
    if !principles.proofs.as_str().is_empty() {
        s.append("2. ");
        s.append(principles.proofs.as_str());
        s.append("\n");
    }
    if !principles.style.as_str().is_empty() {
        s.append("3. ");
        s.append(principles.style.as_str());
        s.append("\n");
    }
    if !principles.boundaries.as_str().is_empty() {
        s.append("4. ");
        s.append(principles.boundaries.as_str());
        s.append("\n");
    }
    s.append("\n## Forge Agent\n\nYou are in a managed development loop. Follow the forge-protocol skill.\n\n");
    s.append("### State (read first every session)\n");
    s.append("- `context/INDEX.md` - scan one-liners to find relevant context.\n");
    s.append("- `features.json` - task list. Find your work here.\n");
    s.append("- `context/decisions/` - why choices were made.\n");
    s.append("- `context/gotchas/` - known pitfalls.\n");
    s.append("- `context/patterns/` - code conventions.\n");
    s.append("- `context/poc/` - POC outcomes (goal, result, learnings, design impact).\n");
    s.append("- `context/references/` - external knowledge, read instead of re-searching.\n");
    s.append("- `feedback/session-review.md` - last session's review (read first!).\n\n");
    s.append("### Protocol\n");
    s.append("1. Read features.json -> claim highest-priority unblocked pending feature\n");
    s.append("2. Commit the claim. If push fails, pick another.\n");
    s.append("3. Implement. Run the feature's `verify` command.\n");
    s.append("4. Pass -> status \"done\". Fail -> fix and retry.\n");
    s.append("5. Discoveries -> write to context/{decisions,gotchas,patterns}/\n");
    s.append("6. External knowledge (web search, blog, doc) -> write to context/references/\n");
    s.append("7. Commit all. Push. Exit.\n\n");
    s.append("### Hard rules\n");
    s.append("- One feature per session. Never scope-creep.\n");
    s.append("- Never modify features you didn't claim.\n");
    s.append("- Never weaken verify commands.\n");
    s.append("- Stuck 10+ attempts -> status \"blocked\", add reason, exit.\n");
    let ghost head_view = head@;
    head.append(s.as_str());
    proof {
        assert(head@ == head_view + s@);
        assert(head@.subrange(0, 2 + project.name@.len() as int) =~= "# "@ + project.name@);
    }
    head
}

} // verus!

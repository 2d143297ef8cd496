//! The built-in skill documents, written into the project tree for the
//! agents: planning, the worker protocol, orchestrating, and replanning.
//! Each skill is a list of (file name, content) pairs.

use vstd::prelude::*;

verus! {

/// The planning skill: how a design becomes a dependency-ordered feature
/// list.
pub fn forge_planning_files() -> (r: Vec<(&'static str, &'static str)>)
    ensures
        r@.len() == 3,
        r@[0].0@ == "SKILL.md"@,
        r@[1].0@ == "COVERAGE.md"@,
        r@[2].0@ == "REFERENCES.md"@,
{
    proof {
        reveal_strlit("SKILL.md");
        reveal_strlit("COVERAGE.md");
        reveal_strlit("REFERENCES.md");
    }
    let mut v: Vec<(&'static str, &'static str)> = Vec::new();
    v.push((
        "SKILL.md",
        "---\nname: forge-planning\ndescription: Turn a design document into a dependency-ordered feature list with priorities, scopes and verify scripts.\n---\n\n# forge-planning\n\nRead DESIGN.md. Break the work into features: an id, a type (implement,\nreview or poc), a scope, a one-line description, a priority (lower runs\nfirst), the ids it depends on, and a verify script under scripts/verify/.\nWrite the list to features.json. Gate each milestone with a review\nfeature whose dependencies cover the milestone's features.\n",
    ));
    v.push((
        "COVERAGE.md",
        "# Coverage\n\nEvery requirement of the design maps to at least one feature, and every\nfeature names the requirement it delivers. List gaps at the end of the\nplan and close them before the first run.\n",
    ));
    v.push((
        "REFERENCES.md",
        "# References\n\nPut external knowledge the plan rests on into context/references/, one\nnote per source, and point features at the notes they need through\ncontext hints.\n",
    ));
    v
}

/// The worker protocol skill: claim, implement, verify, hand off.
pub fn forge_protocol_files() -> (r: Vec<(&'static str, &'static str)>)
    ensures
        r@.len() == 5,
        r@[0].0@ == "SKILL.md"@,
        r@[1].0@ == "CLAIMING.md"@,
        r@[2].0@ == "CONTEXT-WRITING.md"@,
        r@[3].0@ == "CONTEXT-READING.md"@,
        r@[4].0@ == "TESTING.md"@,
{
    proof {
        reveal_strlit("SKILL.md");
        reveal_strlit("CLAIMING.md");
        reveal_strlit("CONTEXT-WRITING.md");
        reveal_strlit("CONTEXT-READING.md");
        reveal_strlit("TESTING.md");
    }
    let mut v: Vec<(&'static str, &'static str)> = Vec::new();
    v.push((
        "SKILL.md",
        "---\nname: forge-protocol\ndescription: The worker loop - claim one feature, implement it, run its verify script, record the handoff, set the final status.\n---\n\n# forge-protocol\n\nOne feature per session. Claim it, implement it, run its verify command\nuntil it passes, write the handoff record, set the status to done, and\nexit. Stuck after repeated attempts: set the status to blocked with a\nreason and exit.\n",
    ));
    v.push((
        "CLAIMING.md",
        "# Claiming\n\nRead features.json and take the highest-priority pending feature whose\ndependencies are all done. Set its status to claimed with your worker id\nand save before you start; if the save is rejected, pick another.\n",
    ));
    v.push((
        "CONTEXT-WRITING.md",
        "# Writing context\n\nRecord decisions, gotchas and patterns you discover as one note each\nunder context/, named by a short slug. Keep a note to one idea.\n",
    ));
    v.push((
        "CONTEXT-READING.md",
        "# Reading context\n\nScan context/INDEX.md first, one line per note, and read in full only\nwhat your feature touches. Hints on the feature point at the notes that\nmatter.\n",
    ));
    v.push((
        "TESTING.md",
        "# Testing\n\nThe feature's verify script decides completion: run it unchanged\nuntil it succeeds. Add tests beside the code you change; never\nweaken a verify script.\n",
    ));
    v
}

/// The orchestrating skill: review a session and keep the loop healthy.
pub fn forge_orchestrating_files() -> (r: Vec<(&'static str, &'static str)>)
    ensures
        r@.len() == 1,
        r@[0].0@ == "SKILL.md"@,
{
    proof {
        reveal_strlit("SKILL.md");
    }
    let mut v: Vec<(&'static str, &'static str)> = Vec::new();
    v.push((
        "SKILL.md",
        "---\nname: forge-orchestrating\ndescription: Review the last session - verification results, the diff and the handoff record - and write the session review.\n---\n\n# forge-orchestrating\n\nRead feedback/last-verify.json and the handoff records of the features\njust worked on. Check the changes against the project principles, write\nfeedback/session-review.md, add context notes for anything the next\nworker must know, commit and exit.\n",
    ));
    v
}

/// The replanning skill: adjust the feature list as reality comes in.
pub fn forge_adjusting_files() -> (r: Vec<(&'static str, &'static str)>)
    ensures
        r@.len() == 1,
        r@[0].0@ == "SKILL.md"@,
{
    proof {
        reveal_strlit("SKILL.md");
    }
    let mut v: Vec<(&'static str, &'static str)> = Vec::new();
    v.push((
        "SKILL.md",
        "---\nname: forge-adjusting\ndescription: Amend the feature list in place - split, reorder or retire features - without breaking claimed work.\n---\n\n# forge-adjusting\n\nAdjust features.json against what the sessions learned: split features\nthat proved too big, add dependencies that surfaced, retire features\nthat no longer matter. Never edit a feature another worker holds.\n",
    ));
    v
}

/// All four skills, with their directory names.
pub fn all_skills() -> (r: Vec<(&'static str, Vec<(&'static str, &'static str)>)>)
    ensures
        r@.len() == 4,
        r@[0].0@ == "forge-planning"@,
        r@[1].0@ == "forge-protocol"@,
        r@[2].0@ == "forge-orchestrating"@,
        r@[3].0@ == "forge-adjusting"@,
        r@[0].1@.len() == 3 && r@[0].1@[0].0@ == "SKILL.md"@ && r@[0].1@[1].0@ == "COVERAGE.md"@
            && r@[0].1@[2].0@ == "REFERENCES.md"@,
        r@[1].1@.len() == 5 && r@[1].1@[0].0@ == "SKILL.md"@ && r@[1].1@[1].0@ == "CLAIMING.md"@
            && r@[1].1@[2].0@ == "CONTEXT-WRITING.md"@ && r@[1].1@[3].0@
            == "CONTEXT-READING.md"@ && r@[1].1@[4].0@ == "TESTING.md"@,
        r@[2].1@.len() == 1 && r@[2].1@[0].0@ == "SKILL.md"@,
        r@[3].1@.len() == 1 && r@[3].1@[0].0@ == "SKILL.md"@,
{
    proof {
        reveal_strlit("forge-planning");
        reveal_strlit("forge-protocol");
        reveal_strlit("forge-orchestrating");
        reveal_strlit("forge-adjusting");
    }
    let mut v: Vec<(&'static str, Vec<(&'static str, &'static str)>)> = Vec::new();
    v.push(("forge-planning", forge_planning_files()));
    v.push(("forge-protocol", forge_protocol_files()));
    v.push(("forge-orchestrating", forge_orchestrating_files()));
    v.push(("forge-adjusting", forge_adjusting_files()));
    v
}

} // verus!

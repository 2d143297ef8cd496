//! Role configuration: which agent backend and model each of the four
//! roles runs with, and the defaults a fresh project starts from.

use vstd::prelude::*;
use vstd::string::StringExecFns;

verus! {

/// A backend and model pair; model names are backend-specific.
#[derive(Debug, Clone, PartialEq)]
pub struct RoleSpec {
    pub backend: String,
    pub model: String,
}

/// Each role independently picks its backend and model.
#[derive(Debug, Clone, PartialEq)]
pub struct RoleConfig {
    /// Executor: implements features.
    pub protocol: RoleSpec,
    /// Review role: post-session feedback and triage.
    pub orchestrating: RoleSpec,
    /// Architect: design analysis and feature decomposition.
    pub planning: RoleSpec,
    /// Replanning: context-aware plan modification.
    pub adjusting: RoleSpec,
}

/// The project's name and technology stack.
#[derive(Debug, Clone, PartialEq)]
pub struct ProjectConfig {
    pub name: String,
    pub stack: String,
}

/// The four project principles written into the agent instructions.
#[derive(Debug, Clone, PartialEq)]
pub struct Principles {
    pub readability: String,
    pub proofs: String,
    pub style: String,
    pub boundaries: String,
}

/// A named area of the project: the files it owns, its API surface and the
/// scopes it builds on.
#[derive(Debug, Clone, PartialEq)]
pub struct Scope {
    pub owns: Vec<String>,
    pub api: String,
    pub upstream: Vec<String>,
}

/// The default worker-pool bound.
pub fn default_max_agents() -> (r: usize)
    ensures
        r == 4,
{
    4
}

/// The default backend name.
pub fn default_backend() -> (r: String)
    ensures
        r@ == "aide"@,
{
    String::from_str("aide")
}

/// The default model for the coding roles.
pub fn default_model_sonnet() -> (r: String)
    ensures
        r@ == "sonnet"@,
{
    String::from_str("sonnet")
}

/// Default executor role.
pub fn default_role_protocol() -> (r: RoleSpec)
    ensures
        r.backend@ == "aide"@,
        r.model@ == "sonnet"@,
{
    RoleSpec { backend: String::from_str("aide"), model: String::from_str("sonnet") }
}

/// Default review role: cheap and fast.
pub fn default_role_orchestrating() -> (r: RoleSpec)
    ensures
        r.backend@ == "aide"@,
        r.model@ == "haiku"@,
{
    RoleSpec { backend: String::from_str("aide"), model: String::from_str("haiku") }
}

/// Default planner role.
pub fn default_role_planning() -> (r: RoleSpec)
    ensures
        r.backend@ == "aide"@,
        r.model@ == "sonnet"@,
{
    RoleSpec { backend: String::from_str("aide"), model: String::from_str("sonnet") }
}

/// Default replanner role.
pub fn default_role_adjusting() -> (r: RoleSpec)
    ensures
        r.backend@ == "aide"@,
        r.model@ == "sonnet"@,
{
    RoleSpec { backend: String::from_str("aide"), model: String::from_str("sonnet") }
}

impl Default for RoleConfig {
    /// All four roles on their defaults.
    fn default() -> (r: RoleConfig)
        ensures
            r.protocol.backend@ == "aide"@ && r.protocol.model@ == "sonnet"@,
            r.orchestrating.backend@ == "aide"@ && r.orchestrating.model@ == "haiku"@,
            r.planning.backend@ == "aide"@ && r.planning.model@ == "sonnet"@,
            r.adjusting.backend@ == "aide"@ && r.adjusting.model@ == "sonnet"@,
    {
        RoleConfig {
            protocol: default_role_protocol(),
            orchestrating: default_role_orchestrating(),
            planning: default_role_planning(),
            adjusting: default_role_adjusting(),
        }
    }
}

/// The principles a scaffolded project starts with.
pub fn scaffold_principles() -> (r: Principles)
    ensures
        r.readability@.len() > 0,
        r.proofs@.len() > 0,
        r.style@.len() > 0,
        r.boundaries@.len() > 0,
{
    proof {
        reveal_strlit("Code understood in one read after an all nighter");
        reveal_strlit("Tests prove code works, not test that it works");
        reveal_strlit("Follow a style even in private projects");
        reveal_strlit("Divide at abstraction boundaries. APIs guide communication.");
    }
    Principles {
        readability: String::from_str("Code understood in one read after an all nighter"),
        proofs: String::from_str("Tests prove code works, not test that it works"),
        style: String::from_str("Follow a style even in private projects"),
        boundaries: String::from_str("Divide at abstraction boundaries. APIs guide communication."),
    }
}

} // verus!

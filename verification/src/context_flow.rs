//! The embedded files of the optional context-indexing pipeline: a flow
//! definition, its data models, and the requirements list. Thin callers
//! write them into the project tree and run the external indexer; here
//! they are plain text.

use vstd::prelude::*;

verus! {

/// The indexing flow definition written to the project's runtime
/// directory.
pub fn context_flow_py() -> (r: &'static str)
    ensures
        r@.len() > 0,
{
    let r =
        "# Context packaging flow for the cocoindex indexer.\n#\n# Reads the feature list and the context notes, maps every feature to\n# the notes its hints name, and writes one package per claimable\n# feature under context/packages/.\n\nimport cocoindex\n\nfrom context_models import FileMapInfo, PackageSpec\n\n\ndef build_flow(scope):\n    flow = cocoindex.Flow(\"forge-context\")\n    notes = flow.read_dir(\"context\", pattern=\"*.md\")\n    features = flow.read_json(\"features.json\")\n    packages = flow.join(features, notes, on=\"context_hints\")\n    flow.write_dir(packages, \"context/packages\")\n    return flow\n";
    proof {
        reveal_strlit(
            "# Context packaging flow for the cocoindex indexer.\n#\n# Reads the feature list and the context notes, maps every feature to\n# the notes its hints name, and writes one package per claimable\n# feature under context/packages/.\n\nimport cocoindex\n\nfrom context_models import FileMapInfo, PackageSpec\n\n\ndef build_flow(scope):\n    flow = cocoindex.Flow(\"forge-context\")\n    notes = flow.read_dir(\"context\", pattern=\"*.md\")\n    features = flow.read_json(\"features.json\")\n    packages = flow.join(features, notes, on=\"context_hints\")\n    flow.write_dir(packages, \"context/packages\")\n    return flow\n",
        );
    }
    r
}

/// The data models the flow definition imports.
pub fn context_models_py() -> (r: &'static str)
    ensures
        r@.len() > 0,
{
    let r =
        "# Data models of the context packaging flow.\n\nimport dataclasses\n\n\n@dataclasses.dataclass\nclass FileMapInfo:\n    path: str\n    category: str\n    slug: str\n\n\n@dataclasses.dataclass\nclass PackageSpec:\n    feature_id: str\n    notes: list\n";
    proof {
        reveal_strlit(
            "# Data models of the context packaging flow.\n\nimport dataclasses\n\n\n@dataclasses.dataclass\nclass FileMapInfo:\n    path: str\n    category: str\n    slug: str\n\n\n@dataclasses.dataclass\nclass PackageSpec:\n    feature_id: str\n    notes: list\n",
        );
    }
    r
}

/// The requirements list for the pipeline's interpreter environment.
pub fn requirements_txt() -> (r: &'static str)
    ensures
        r@.len() > 0,
{
    let r = "cocoindex>=1.0\n";
    proof {
        reveal_strlit("cocoindex>=1.0\n");
    }
    r
}

} // verus!

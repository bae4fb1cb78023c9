//! The validated configuration record the engine consumes read-only. The
//! command-line loader that produces it lives outside the engine.

use vstd::prelude::*;

verus! {

/// Recognized options of a run.
pub struct Config {
    /// Explicit root packages; empty means all workspace members.
    pub root: Vec<String>,
    /// When non-empty, only packages named here are admitted.
    pub only: Vec<String>,
    /// Packages named here are never admitted.
    pub exclude: Vec<String>,
    /// Maximum number of breadth-first hops from a root; `None` is unbounded.
    pub depth: Option<u32>,
    /// Whether build-dependency edges (and proc-macro packages) are kept.
    pub build_deps: bool,
    /// Whether dev-dependency edges are kept.
    pub dev_deps: bool,
    /// Whether target-specific edges are kept.
    pub target_deps: bool,
    /// Whether only workspace members may be added as dependency nodes.
    pub workspace_only: bool,
    /// Whether the transitive-edge deduplication pass runs.
    pub dedup_transitive_deps: bool,
    /// Post-build filter: keep only ancestors and descendants of these names.
    pub focus: Vec<String>,
    /// Post-build filter: delete nodes with these names.
    pub hide: Vec<String>,
}

impl Default for Config {
    /// Every gate open, every filter empty, no depth limit, no reduction.
    fn default() -> (r: Self)
        ensures
            r.root@ =~= Seq::<String>::empty(),
            r.only@ =~= Seq::<String>::empty(),
            r.exclude@ =~= Seq::<String>::empty(),
            r.depth == Option::<u32>::None,
            r.build_deps,
            r.dev_deps,
            r.target_deps,
            !r.workspace_only,
            !r.dedup_transitive_deps,
            r.focus@ =~= Seq::<String>::empty(),
            r.hide@ =~= Seq::<String>::empty(),
    {
        Config {
            root: Vec::new(),
            only: Vec::new(),
            exclude: Vec::new(),
            depth: None,
            build_deps: true,
            dev_deps: true,
            target_deps: true,
            workspace_only: false,
            dedup_transitive_deps: false,
            focus: Vec::new(),
            hide: Vec::new(),
        }
    }
}

/// The two command-line tokens an option with a value expands to.
pub fn cli_args(opt_name: &str, val: &str) -> (r: Vec<String>)
    ensures
        r@.len() == 2,
        r@[0]@ == opt_name@,
        r@[1]@ == val@,
{
    let mut out: Vec<String> = Vec::new();
    out.push(opt_name.to_owned());
    out.push(val.to_owned());
    out
}

} // verus!

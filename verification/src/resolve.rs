//! A plain-value model of the package manager's resolved dependency graph:
//! packages, their declared dependencies, and resolver edges with kind and
//! target annotations. The adapter that obtains the real metadata converts
//! it into these records before the engine runs.

use vstd::prelude::*;
use crate::dep_info::RawDepKind;

verus! {

/// One (kind, optional target expression) annotation on a resolver edge.
/// The engine records *that* an edge is target-specific, not which target
/// expression it requires, but the expression's text is kept so that it can
/// be matched against the declared-dependency list.
pub struct DepKindInfo {
    pub kind: RawDepKind,
    pub target: Option<String>,
}

/// One entry of a package's declared-dependency list.
pub struct DeclaredDep {
    /// The dependency's package name (as the resolver reports it).
    pub name: String,
    pub kind: RawDepKind,
    pub target: Option<String>,
    /// Whether this dependency can be removed by deactivating a feature.
    pub optional: bool,
}

/// One resolver edge: the dependency's package (an index into the resolved
/// graph's package list) and the annotations it was resolved under.
pub struct ResolvedDep {
    pub pkg: usize,
    pub dep_kinds: Vec<DepKindInfo>,
}

/// One fully resolved package.
pub struct ResolvedPackage {
    pub name: String,
    pub version: String,
    pub is_ws_member: bool,
    /// Whether any of the package's build targets is a proc-macro.
    pub has_proc_macro_target: bool,
    /// Whether any of the package's build targets is a regular library.
    pub has_lib_target: bool,
    /// The package's declared dependencies, used to look up optional flags.
    pub declared: Vec<DeclaredDep>,
    /// The package's resolver edges.
    pub deps: Vec<ResolvedDep>,
}

/// The fully version-resolved dependency graph, prior to any
/// visualization-specific filtering.
pub struct ResolvedGraph {
    pub packages: Vec<ResolvedPackage>,
}

impl ResolvedGraph {
    /// Every resolver edge points at a package of the graph.
    pub open spec fn wf(self) -> bool {
        forall|p: int, d: int|
            0 <= p < self.packages@.len() && 0 <= d < self.packages@[p].deps@.len()
                ==> (#[trigger] self.packages@[p].deps@[d]).pkg < self.packages@.len()
    }
}

/// Two optional target expressions agree: both absent, or both present with
/// the same text.
pub open spec fn target_matches(a: Option<String>, b: Option<String>) -> bool {
    match (a, b) {
        (Option::None, Option::None) => true,
        (Option::Some(x), Option::Some(y)) => x@ == y@,
        _ => false,
    }
}

/// Whether a declared-dependency entry matches a resolver edge's name, kind
/// and target annotation.
pub open spec fn declared_matches(d: DeclaredDep, name: Seq<char>, info: DepKindInfo) -> bool {
    d.name@ == name && d.kind == info.kind && target_matches(d.target, info.target)
}

/// The optional flag the builder records for a resolver edge annotation:
/// the flag of the first matching declared-dependency entry, or `false`
/// (fail open) when none matches.
pub open spec fn optional_of(declared: Seq<DeclaredDep>, name: Seq<char>, info: DepKindInfo) -> bool
    decreases declared.len(),
{
    if declared.len() == 0 {
        false
    } else if declared_matches(declared[0], name, info) {
        declared[0].optional
    } else {
        optional_of(declared.skip(1), name, info)
    }
}

/// Look up a resolver edge annotation in a declared-dependency list.
pub fn lookup_optional(declared: &Vec<DeclaredDep>, name: &String, info: &DepKindInfo) -> (r: bool)
    ensures
        r == optional_of(declared@, name@, *info),
{
    let mut i: usize = 0;
    proof {
        assert(declared@.skip(0) =~= declared@);
    }
    while i < declared.len()
        invariant
            i <= declared@.len(),
            optional_of(declared@, name@, *info) == optional_of(declared@.skip(i as int), name@, *info),
        decreases declared@.len() - i,
    {
        let d = &declared[i];
        let name_eq = d.name == *name;
        let kind_eq = d.kind == info.kind;
        let target_eq = match (&d.target, &info.target) {
            (Option::None, Option::None) => true,
            (Option::Some(x), Option::Some(y)) => *x == *y,
            _ => false,
        };
        proof {
            assert(declared@.skip(i as int)[0] == declared@[i as int]);
        }
        if name_eq && kind_eq && target_eq {
            proof {
                assert(declared_matches(declared@[i as int], name@, *info));
            }
            return d.optional;
        }
        proof {
            assert(!declared_matches(declared@[i as int], name@, *info));
            assert(declared@.skip(i as int).skip(1) =~= declared@.skip(i + 1));
        }
        i = i + 1;
    }
    proof {
        assert(declared@.skip(i as int).len() == 0);
    }
    false
}

/// Whether `name` occurs in a list of names.
pub open spec fn name_in(names: Seq<String>, name: Seq<char>) -> bool {
    exists|i: int| 0 <= i < names.len() && (#[trigger] names[i])@ == name
}

/// Membership test for the name lists the configuration carries.
pub fn contains_name(names: &Vec<String>, name: &String) -> (r: bool)
    ensures
        r == name_in(names@, name@),
{
    let mut i: usize = 0;
    while i < names.len()
        invariant
            i <= names@.len(),
            forall|j: int| 0 <= j < i ==> (#[trigger] names@[j])@ != name@,
        decreases names@.len() - i,
    {
        if names[i] == *name {
            return true;
        }
        i = i + 1;
    }
    false
}

} // verus!

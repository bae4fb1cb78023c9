//! The three-valued build-flag lattice and the dependency-kind pairs built
//! from it, together with the per-edge information record that graph edges
//! carry and nodes aggregate.

use vstd::prelude::*;

verus! {

/// When a dependency is required: never, only in the test profile, or always.
/// Ordered `Never < Test < Always`; AND is the minimum and OR the maximum.
#[derive(Clone, Copy, Debug, PartialEq, Eq, Structural, Hash)]
pub enum BuildFlag {
    Always,
    Test,
    Never,
}

impl BuildFlag {
    /// The meet of two flags: the weaker requirement of the two.
    pub open spec fn and_spec(self, rhs: BuildFlag) -> BuildFlag {
        match (self, rhs) {
            (BuildFlag::Always, BuildFlag::Always) => BuildFlag::Always,
            (BuildFlag::Always, BuildFlag::Test) => BuildFlag::Test,
            (BuildFlag::Test, BuildFlag::Always) => BuildFlag::Test,
            (BuildFlag::Test, BuildFlag::Test) => BuildFlag::Test,
            _ => BuildFlag::Never,
        }
    }

    /// The join of two flags: the stronger requirement of the two.
    pub open spec fn or_spec(self, rhs: BuildFlag) -> BuildFlag {
        match (self, rhs) {
            (BuildFlag::Never, BuildFlag::Never) => BuildFlag::Never,
            (BuildFlag::Never, BuildFlag::Test) => BuildFlag::Test,
            (BuildFlag::Test, BuildFlag::Never) => BuildFlag::Test,
            (BuildFlag::Test, BuildFlag::Test) => BuildFlag::Test,
            _ => BuildFlag::Always,
        }
    }

    pub fn bitand(self, rhs: BuildFlag) -> (r: BuildFlag)
        ensures
            r == self.and_spec(rhs),
    {
        match (self, rhs) {
            (BuildFlag::Always, BuildFlag::Always) => BuildFlag::Always,
            (BuildFlag::Always, BuildFlag::Test)
            | (BuildFlag::Test, BuildFlag::Always)
            | (BuildFlag::Test, BuildFlag::Test) => BuildFlag::Test,
            _ => BuildFlag::Never,
        }
    }

    pub fn bitand_assign(&mut self, rhs: BuildFlag)
        ensures
            *final(self) == old(self).and_spec(rhs),
    {
        *self = self.bitand(rhs);
    }

    pub fn bitor(self, rhs: BuildFlag) -> (r: BuildFlag)
        ensures
            r == self.or_spec(rhs),
    {
        match (self, rhs) {
            (BuildFlag::Never, BuildFlag::Never) => BuildFlag::Never,
            (BuildFlag::Never, BuildFlag::Test)
            | (BuildFlag::Test, BuildFlag::Never)
            | (BuildFlag::Test, BuildFlag::Test) => BuildFlag::Test,
            _ => BuildFlag::Always,
        }
    }

    pub fn bitor_assign(&mut self, rhs: BuildFlag)
        ensures
            *final(self) == old(self).or_spec(rhs),
    {
        *self = self.bitor(rhs);
    }
}

/// AND and OR on [`BuildFlag`] are commutative, associative and idempotent.
pub proof fn lemma_build_flag_lattice(a: BuildFlag, b: BuildFlag, c: BuildFlag)
    ensures
        a.and_spec(b) == b.and_spec(a),
        a.or_spec(b) == b.or_spec(a),
        a.and_spec(b).and_spec(c) == a.and_spec(b.and_spec(c)),
        a.or_spec(b).or_spec(c) == a.or_spec(b.or_spec(c)),
        a.and_spec(a) == a,
        a.or_spec(a) == a,
{
}

/// `Never` is the OR-identity and the AND-absorbing element; `Always` is the
/// AND-identity and the OR-absorbing element.
pub proof fn lemma_build_flag_units(a: BuildFlag)
    ensures
        BuildFlag::Never.or_spec(a) == a,
        a.or_spec(BuildFlag::Never) == a,
        BuildFlag::Never.and_spec(a) == BuildFlag::Never,
        a.and_spec(BuildFlag::Never) == BuildFlag::Never,
        BuildFlag::Always.and_spec(a) == a,
        a.and_spec(BuildFlag::Always) == a,
        BuildFlag::Always.or_spec(a) == BuildFlag::Always,
        a.or_spec(BuildFlag::Always) == BuildFlag::Always,
{
}

/// The resolver's own classification of a dependency edge.
#[derive(Clone, Copy, Debug, PartialEq, Eq, Structural, Hash)]
pub enum RawDepKind {
    Normal,
    Build,
    Development,
    Unknown,
}

/// Whether a dependency must exist at build time on the host toolchain
/// (`host`) vs. at compile/link time for the target artifact (`target`).
#[derive(Clone, Copy, Debug, PartialEq, Eq, Structural, Hash)]
pub struct DepKind {
    pub host: BuildFlag,
    pub target: BuildFlag,
}

impl DepKind {
    pub open spec fn normal_spec() -> DepKind {
        DepKind { host: BuildFlag::Never, target: BuildFlag::Always }
    }

    #[verifier::when_used_as_spec(normal_spec)]
    pub fn normal() -> (r: DepKind)
        ensures
            r == DepKind::normal_spec(),
    {
        DepKind { host: BuildFlag::Never, target: BuildFlag::Always }
    }

    pub open spec fn build_spec() -> DepKind {
        DepKind { host: BuildFlag::Always, target: BuildFlag::Never }
    }

    #[verifier::when_used_as_spec(build_spec)]
    pub fn build() -> (r: DepKind)
        ensures
            r == DepKind::build_spec(),
    {
        DepKind { host: BuildFlag::Always, target: BuildFlag::Never }
    }

    pub open spec fn dev_spec() -> DepKind {
        DepKind { host: BuildFlag::Never, target: BuildFlag::Test }
    }

    #[verifier::when_used_as_spec(dev_spec)]
    pub fn dev() -> (r: DepKind)
        ensures
            r == DepKind::dev_spec(),
    {
        DepKind { host: BuildFlag::Never, target: BuildFlag::Test }
    }

    pub open spec fn build_of_dev_spec() -> DepKind {
        DepKind { host: BuildFlag::Test, target: BuildFlag::Never }
    }

    #[verifier::when_used_as_spec(build_of_dev_spec)]
    pub fn build_of_dev() -> (r: DepKind)
        ensures
            r == DepKind::build_of_dev_spec(),
    {
        DepKind { host: BuildFlag::Test, target: BuildFlag::Never }
    }

    pub open spec fn normal_and_build_spec() -> DepKind {
        DepKind { host: BuildFlag::Always, target: BuildFlag::Always }
    }

    #[verifier::when_used_as_spec(normal_and_build_spec)]
    pub fn normal_and_build() -> (r: DepKind)
        ensures
            r == DepKind::normal_and_build_spec(),
    {
        DepKind { host: BuildFlag::Always, target: BuildFlag::Always }
    }

    pub open spec fn dev_and_build_spec() -> DepKind {
        DepKind { host: BuildFlag::Always, target: BuildFlag::Test }
    }

    #[verifier::when_used_as_spec(dev_and_build_spec)]
    pub fn dev_and_build() -> (r: DepKind)
        ensures
            r == DepKind::dev_and_build_spec(),
    {
        DepKind { host: BuildFlag::Always, target: BuildFlag::Test }
    }

    pub open spec fn normal_and_build_of_dev_spec() -> DepKind {
        DepKind { host: BuildFlag::Test, target: BuildFlag::Always }
    }

    #[verifier::when_used_as_spec(normal_and_build_of_dev_spec)]
    pub fn normal_and_build_of_dev() -> (r: DepKind)
        ensures
            r == DepKind::normal_and_build_of_dev_spec(),
    {
        DepKind { host: BuildFlag::Test, target: BuildFlag::Always }
    }

    pub open spec fn dev_and_build_of_dev_spec() -> DepKind {
        DepKind { host: BuildFlag::Test, target: BuildFlag::Test }
    }

    #[verifier::when_used_as_spec(dev_and_build_of_dev_spec)]
    pub fn dev_and_build_of_dev() -> (r: DepKind)
        ensures
            r == DepKind::dev_and_build_of_dev_spec(),
    {
        DepKind { host: BuildFlag::Test, target: BuildFlag::Test }
    }

    /// The poisoning value: the activation condition could not be determined,
    /// so nothing is provably inactive.
    pub open spec fn unknown_spec() -> DepKind {
        DepKind { host: BuildFlag::Never, target: BuildFlag::Never }
    }

    #[verifier::when_used_as_spec(unknown_spec)]
    pub fn unknown() -> (r: DepKind)
        ensures
            r == DepKind::unknown_spec(),
    {
        DepKind { host: BuildFlag::Never, target: BuildFlag::Never }
    }

    /// The base kind the resolver's classification maps to.
    pub open spec fn from_raw_spec(kind: RawDepKind) -> DepKind {
        match kind {
            RawDepKind::Normal => DepKind::normal_spec(),
            RawDepKind::Build => DepKind::build_spec(),
            RawDepKind::Development => DepKind::dev_spec(),
            RawDepKind::Unknown => DepKind::unknown_spec(),
        }
    }

    #[verifier::when_used_as_spec(from_raw_spec)]
    pub fn from_raw(kind: RawDepKind) -> (r: DepKind)
        ensures
            r == DepKind::from_raw_spec(kind),
    {
        match kind {
            RawDepKind::Normal => DepKind::normal(),
            RawDepKind::Build => DepKind::build(),
            RawDepKind::Development => DepKind::dev(),
            RawDepKind::Unknown => DepKind::unknown(),
        }
    }

    /// The kind of an edge as recorded in the graph. A proc-macro crate
    /// executes only inside the host compiler process and is never linked
    /// into the produced target artifact, so for a proc-macro target the
    /// base kind's target component moves to the host and the target
    /// component is forced to `Never`, regardless of the resolver's
    /// classification.
    pub open spec fn new_spec(kind: RawDepKind, proc_macro: bool) -> DepKind {
        let base = DepKind::from_raw_spec(kind);
        if proc_macro {
            DepKind { host: base.target, target: BuildFlag::Never }
        } else {
            base
        }
    }

    #[verifier::when_used_as_spec(new_spec)]
    pub fn new(kind: RawDepKind, proc_macro: bool) -> (r: DepKind)
        ensures
            r == DepKind::new_spec(kind, proc_macro),
    {
        let res = DepKind::from_raw(kind);
        if proc_macro {
            DepKind { host: res.target, target: BuildFlag::Never }
        } else {
            res
        }
    }

    /// Component-wise OR, except that `unknown` poisons: combined with
    /// anything it yields `unknown` again.
    pub open spec fn combine_spec(self, other: DepKind) -> DepKind {
        if self == DepKind::unknown_spec() || other == DepKind::unknown_spec() {
            DepKind::unknown_spec()
        } else {
            DepKind { host: self.host.or_spec(other.host), target: self.target.or_spec(other.target) }
        }
    }

    /// Fold another incoming edge's kind into this aggregate.
    pub fn combine_incoming(&mut self, other: DepKind)
        ensures
            *final(self) == old(self).combine_spec(other),
    {
        if *self == DepKind::unknown() || other == DepKind::unknown() {
            *self = DepKind::unknown();
        } else {
            self.host.bitor_assign(other.host);
            self.target.bitor_assign(other.target);
        }
    }

    /// Whether this dependency is never required outside the test profile.
    pub fn is_dev_only(&self) -> (r: bool)
        ensures
            r == (self.host != BuildFlag::Always && self.target != BuildFlag::Always),
    {
        self.host != BuildFlag::Always && self.target != BuildFlag::Always
    }
}

impl Default for DepKind {
    fn default() -> (r: Self)
        ensures
            r == DepKind::normal_spec(),
    {
        DepKind::normal()
    }
}

/// The combine operation is commutative, associative and idempotent, so the
/// aggregate a node reaches is the same whatever order its incoming edges
/// are folded in.
pub proof fn lemma_combine_lattice(a: DepKind, b: DepKind, c: DepKind)
    ensures
        a.combine_spec(b) == b.combine_spec(a),
        a.combine_spec(b).combine_spec(c) == a.combine_spec(b.combine_spec(c)),
        a.combine_spec(a) == a,
{
    lemma_build_flag_lattice(a.host, b.host, c.host);
    lemma_build_flag_lattice(a.target, b.target, c.target);
}

/// The information carried by a dependency edge, and aggregated onto nodes.
#[derive(Clone, Copy, Debug, PartialEq, Eq, Structural)]
pub struct DepInfoInner {
    pub kind: DepKind,
    /// Whether the dependency is conditional on a target platform.
    pub is_target_dep: bool,
    /// Whether this dependency could be removed by deactivating a feature.
    pub is_optional: bool,
    /// If optional, whether it is optional directly or only transitively.
    pub is_optional_direct: bool,
    /// Whether the aggregation pass has folded this edge into its target.
    pub visited: bool,
    pub is_dev: bool,
    pub is_build: bool,
    pub is_normal: bool,
}

impl DepInfoInner {
    /// The record a fresh node starts from before any edge is folded in.
    pub open spec fn init_spec() -> DepInfoInner {
        DepInfoInner {
            kind: DepKind::normal_spec(),
            is_target_dep: false,
            is_optional: false,
            is_optional_direct: false,
            visited: false,
            is_dev: false,
            is_build: false,
            is_normal: false,
        }
    }

    /// What folding `other` into `self` leaves behind: the three category
    /// flags are OR-ed, everything else keeps its old value.
    pub open spec fn combine_spec(self, other: DepInfoInner) -> DepInfoInner {
        DepInfoInner {
            is_build: self.is_build || other.is_build,
            is_dev: self.is_dev || other.is_dev,
            is_normal: self.is_normal || other.is_normal,
            ..self
        }
    }

    /// Used to gather edge info into a node.
    pub fn combine_incoming(&mut self, other: DepInfoInner)
        ensures
            *final(self) == old(self).combine_spec(other),
    {
        self.is_build = self.is_build || other.is_build;
        self.is_dev = self.is_dev || other.is_dev;
        self.is_normal = self.is_normal || other.is_normal;
    }
}

impl Default for DepInfoInner {
    fn default() -> (r: Self)
        ensures
            r == DepInfoInner::init_spec(),
    {
        DepInfoInner {
            kind: DepKind::normal(),
            is_target_dep: false,
            is_optional: false,
            is_optional_direct: false,
            visited: false,
            is_dev: false,
            is_build: false,
            is_normal: false,
        }
    }
}

/// A dependency edge of the graph. The edge's identity is the arena slot it
/// occupies, recorded in `id`; `edge_no` disambiguates parallel edges
/// between the same ordered pair of nodes.
#[derive(Clone, Copy, Debug, PartialEq, Eq, Structural)]
pub struct DepInfo {
    pub id: usize,
    pub source: usize,
    pub target: usize,
    pub edge_no: u32,
    pub inner: DepInfoInner,
}

} // verus!

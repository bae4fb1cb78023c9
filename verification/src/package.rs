//! The data associated with dependency graph nodes.

use vstd::prelude::*;
use crate::dep_info::{DepInfoInner, DepKind};
use crate::resolve::ResolvedPackage;

verus! {

/// A package node of the dependency graph. A node's identity is the arena
/// slot it occupies in the graph; `name` and `version` identify the package
/// it stands for.
#[derive(Debug)]
pub struct Package {
    pub name: String,
    pub version: String,
    /// The aggregate of the conditions under which this package is required,
    /// over all incoming edges. Only ever widened after creation.
    pub dep_info: DepInfoInner,
    pub is_ws_member: bool,
    pub is_proc_macro: bool,
    /// How many nodes of the graph share this node's name; `None` until the
    /// name-statistics pass has run.
    pub name_uses: Option<u16>,
}

impl Package {
    /// The node a freshly discovered package starts from: a proc-macro
    /// defaults its own aggregate kind to `build`, every other package to
    /// `normal`.
    pub open spec fn new_spec(pkg: ResolvedPackage, is_ws_member: bool) -> Package {
        Package {
            name: pkg.name,
            version: pkg.version,
            dep_info: DepInfoInner {
                kind: if pkg.has_proc_macro_target {
                    DepKind::build_spec()
                } else {
                    DepKind::normal_spec()
                },
                ..DepInfoInner::init_spec()
            },
            is_ws_member,
            is_proc_macro: pkg.has_proc_macro_target,
            name_uses: None,
        }
    }

    pub fn new(pkg: &ResolvedPackage, is_ws_member: bool) -> (r: Package)
        ensures
            r == Package::new_spec(*pkg, is_ws_member),
    {
        let mut dep_info = DepInfoInner::default();
        let is_proc_macro = crate::util::is_proc_macro(pkg);
        if is_proc_macro {
            dep_info.kind = DepKind::build();
        }

        Package {
            name: pkg.name.clone(),
            version: pkg.version.clone(),
            dep_info,
            is_ws_member,
            is_proc_macro,
            name_uses: None,
        }
    }

    /// Whether a display label for this node should carry the version
    /// beside the name: always before the name statistics have run, and
    /// afterwards exactly for names the graph holds more than once.
    pub fn show_version(&self) -> (r: bool)
        ensures
            r == (self.name_uses is None || self.name_uses->0 > 1),
    {
        match self.name_uses {
            None => true,
            Some(c) => c > 1,
        }
    }

    /// An explicit copy; every field is reproduced exactly.
    pub fn duplicate(&self) -> (r: Package)
        ensures
            r == *self,
    {
        Package {
            name: self.name.clone(),
            version: self.version.clone(),
            dep_info: self.dep_info,
            is_ws_member: self.is_ws_member,
            is_proc_macro: self.is_proc_macro,
            name_uses: self.name_uses,
        }
    }
}

} // verus!

//! The minimal-dependency tracker.
//!
//! During the cold path every loaded dependency is recorded and held
//! against an allowlist; in strict mode a load outside the list is
//! refused. Deactivating the tracker lets everything through.

use vstd::prelude::*;

use crate::dictionary::str_eq;

verus! {

/// Whether a name occurs in a list of names.
pub open spec fn spec_name_in(names: Seq<&'static str>, name: Seq<char>) -> bool {
    exists|i: int| 0 <= i < names.len() && (#[trigger] names[i])@ == name
}

/// Counters over the recorded dependency loads.
pub struct DependencyStats {
    /// How many distinct dependencies were recorded.
    pub total_loaded: usize,
    /// How many of them are on the allowlist.
    pub essential: usize,
    /// How many are not.
    pub non_essential: usize,
    /// The names of the non-essential ones.
    pub non_essential_deps: Vec<&'static str>,
}

/// Tracks dependencies loaded during initialization.
pub struct MinimalDependencyLoader {
    /// Whether tracking is active.
    pub active: bool,
    /// The recorded loads, in order of first sight.
    pub loaded: Vec<&'static str>,
    /// The allowlisted dependency names.
    pub allowed: Vec<&'static str>,
    /// Whether a disallowed load is refused.
    pub strict: bool,
}

fn names_contain(names: &Vec<&'static str>, name: &'static str) -> (r: bool)
    ensures
        r == spec_name_in(names@, name@),
{
    let mut i: usize = 0;
    while i < names.len()
        invariant
            i <= names@.len(),
            forall|j: int| 0 <= j < i ==> (#[trigger] names@[j])@ != name@,
        decreases names@.len() - i,
    {
        if str_eq(names[i], name) {
            return true;
        }
        i = i + 1;
    }
    false
}

impl MinimalDependencyLoader {
    /// A tracker with the core runtime crates allowlisted.
    pub fn new(strict: bool) -> (r: MinimalDependencyLoader)
        ensures
            r.active,
            r.strict == strict,
            r.loaded@.len() == 0,
            r.allowed@.len() == 10,
    {
        let mut allowed: Vec<&'static str> = Vec::new();
        allowed.push("std");
        allowed.push("core");
        allowed.push("alloc");
        allowed.push("tokio");
        allowed.push("tracing");
        allowed.push("anyhow");
        allowed.push("serde");
        allowed.push("serde_json");
        allowed.push("lazy_static");
        allowed.push("once_cell");
        MinimalDependencyLoader { active: true, loaded: Vec::new(), allowed, strict }
    }

    /// Add names to the allowlist.
    pub fn allow(&mut self, dependencies: &Vec<&'static str>)
        ensures
            final(self).allowed@ == old(self).allowed@ + dependencies@,
            final(self).loaded@ == old(self).loaded@,
            final(self).active == old(self).active,
            final(self).strict == old(self).strict,
    {
        let mut i: usize = 0;
        while i < dependencies.len()
            invariant
                i <= dependencies@.len(),
                self.allowed@ == old(self).allowed@ + dependencies@.take(i as int),
                self.loaded@ == old(self).loaded@,
                self.active == old(self).active,
                self.strict == old(self).strict,
            decreases dependencies@.len() - i,
        {
            self.allowed.push(dependencies[i]);
            proof {
                assert(self.allowed@ =~= old(self).allowed@ + dependencies@.take(i as int + 1));
            }
            i = i + 1;
        }
        proof {
            assert(dependencies@.take(dependencies@.len() as int) =~= dependencies@);
        }
    }

    /// Record a dependency load. The load is accepted unless tracking
    /// is active, the tracker is strict, and the name is not
    /// allowlisted.
    pub fn load_dependency(&mut self, name: &'static str) -> (r: bool)
        ensures
            final(self).allowed@ == old(self).allowed@,
            final(self).active == old(self).active,
            final(self).strict == old(self).strict,
            !old(self).active ==> r && final(self).loaded@ == old(self).loaded@,
            old(self).active ==> final(self).loaded@ == old(self).loaded@.push(name) && r == (
            spec_name_in(old(self).allowed@, name@) || !old(self).strict),
    {
        if !self.active {
            return true;
        }
        let allowed = names_contain(&self.allowed, name);
        self.loaded.push(name);
        if !allowed && self.strict {
            false
        } else {
            true
        }
    }

    /// Stop tracking; later loads are accepted and not recorded.
    pub fn deactivate(&mut self)
        ensures
            !final(self).active,
            final(self).loaded@ == old(self).loaded@,
            final(self).allowed@ == old(self).allowed@,
            final(self).strict == old(self).strict,
    {
        self.active = false;
    }

    /// The recorded loads, in order of first sight.
    pub fn get_loaded_dependencies(&self) -> (r: Vec<&'static str>)
        ensures
            r@ == self.loaded@,
    {
        self.loaded.clone()
    }

    /// Count the recorded loads against the allowlist.
    pub fn get_statistics(&self) -> (r: DependencyStats)
        ensures
            r.total_loaded == self.loaded@.len(),
            r.essential + r.non_essential == r.total_loaded,
            r.non_essential == r.non_essential_deps@.len(),
            forall|i: int|
                0 <= i < r.non_essential_deps@.len() ==> !spec_name_in(
                    self.allowed@,
                    (#[trigger] r.non_essential_deps@[i])@,
                ),
    {
        let mut essential: usize = 0;
        let mut non_essential_deps: Vec<&'static str> = Vec::new();
        let mut i: usize = 0;
        while i < self.loaded.len()
            invariant
                i <= self.loaded@.len(),
                essential + non_essential_deps@.len() == i,
                forall|j: int|
                    0 <= j < non_essential_deps@.len() ==> !spec_name_in(
                        self.allowed@,
                        (#[trigger] non_essential_deps@[j])@,
                    ),
            decreases self.loaded@.len() - i,
        {
            if names_contain(&self.allowed, self.loaded[i]) {
                essential = essential + 1;
            } else {
                non_essential_deps.push(self.loaded[i]);
            }
            i = i + 1;
        }
        DependencyStats {
            total_loaded: self.loaded.len(),
            essential,
            non_essential: non_essential_deps.len(),
            non_essential_deps,
        }
    }
}

} // verus!

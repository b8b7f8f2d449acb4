//! hut.lock: pinned dependency versions and integrity hashes, one entry per
//! package name.

use vstd::prelude::*;

use crate::table::{sorted_keys, table_find, table_insert, table_remove, table_view, lemma_view_at};

verus! {

/// hut.lock — pinned dependency versions + integrity hashes.
#[derive(Debug)]
pub struct Lockfile {
    pub version: u32,
    /// Locked packages by name, in name order.
    pub packages: Vec<(String, LockedPackage)>,
}

/// One pinned package.
#[derive(Debug)]
pub struct LockedPackage {
    pub name: String,
    pub version: String,
    /// Git commit SHA.
    pub source: String,
    /// SHA-256 of the package contents.
    pub integrity: String,
    /// Resolved URL.
    pub resolved: String,
    /// Transitive dependencies: name and constraint, in name order.
    pub dependencies: Vec<(String, String)>,
}

impl Lockfile {
    /// Names are in order and occur once.
    pub open spec fn wf(&self) -> bool {
        sorted_keys(self.packages@)
    }

    /// The locked packages by name.
    pub open spec fn entries(&self) -> Map<Seq<char>, LockedPackage> {
        table_view(self.packages@)
    }

    /// An empty lockfile of format version 1.
    pub fn new() -> (r: Lockfile)
        ensures
            r.wf(),
            r.version == 1,
            r.entries() == Map::<Seq<char>, LockedPackage>::empty(),
    {
        let r = Lockfile { version: 1, packages: Vec::new() };
        assert(r.entries() =~= Map::<Seq<char>, LockedPackage>::empty());
        r
    }

    /// The package locked under `name`.
    pub fn get(&self, name: &str) -> (r: Option<&LockedPackage>)
        requires
            self.wf(),
        ensures
            match r {
                Some(p) => self.entries().contains_key(name@) && self.entries()[name@] == *p,
                None => !self.entries().contains_key(name@),
            },
    {
        match table_find(&self.packages, name) {
            Some(i) => {
                proof {
                    lemma_view_at(self.packages@, i as int);
                }
                Some(&self.packages[i].1)
            },
            None => None,
        }
    }

    /// Lock a package under its name, replacing an earlier entry.
    pub fn insert(&mut self, pkg: LockedPackage)
        requires
            old(self).wf(),
        ensures
            final(self).wf(),
            final(self).version == old(self).version,
            final(self).entries() == old(self).entries().insert(pkg.name@, pkg),
    {
        let key = pkg.name.clone();
        table_insert(&mut self.packages, key, pkg);
    }

    /// Drop the entry under `name`, if any.
    pub fn remove(&mut self, name: &str)
        requires
            old(self).wf(),
        ensures
            final(self).wf(),
            final(self).version == old(self).version,
            final(self).entries() == old(self).entries().remove(name@),
    {
        table_remove(&mut self.packages, name);
    }
}

impl Default for Lockfile {
    fn default() -> (r: Self)
        ensures
            r.wf(),
            r.version == 1,
            r.entries() == Map::<Seq<char>, LockedPackage>::empty(),
    {
        Lockfile::new()
    }
}

/// A package inserted into a lockfile is what `get` then finds under its name.
pub proof fn law_get_after_insert(lf: Lockfile, pkg: LockedPackage)
    requires
        lf.wf(),
    ensures
        lf.entries().insert(pkg.name@, pkg).contains_key(pkg.name@),
        lf.entries().insert(pkg.name@, pkg)[pkg.name@] == pkg,
{
}

/// Inserting a package leaves every other name as it was.
pub proof fn law_insert_keeps_others(lf: Lockfile, pkg: LockedPackage, other: Seq<char>)
    requires
        lf.wf(),
        other != pkg.name@,
    ensures
        lf.entries().insert(pkg.name@, pkg).contains_key(other) == lf.entries().contains_key(other),
        lf.entries().contains_key(other) ==> lf.entries().insert(pkg.name@, pkg)[other]
            == lf.entries()[other],
{
}

/// After removing a name, `get` finds nothing under it, and every other name
/// is as it was.
pub proof fn law_remove(lf: Lockfile, name: Seq<char>, other: Seq<char>)
    requires
        lf.wf(),
    ensures
        !lf.entries().remove(name).contains_key(name),
        other != name ==> lf.entries().remove(name).contains_key(other) == lf.entries().contains_key(
            other,
        ),
        other != name && lf.entries().contains_key(other) ==> lf.entries().remove(name)[other]
            == lf.entries()[other],
{
}

} // verus!

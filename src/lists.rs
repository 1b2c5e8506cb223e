//! Lists of packages: the manifests known to the store, and the packages
//! installed into the theme tree.

use vstd::prelude::*;
use crate::manifest::Manifest;
use crate::paths::same_text;
use crate::pkg::InstalledPackage;

verus! {

/// The manifests of a manifest store.
#[derive(Debug)]
pub struct PkgList {
    pub version: u8,
    pub pkgs: Vec<Manifest>,
}

impl PkgList {
    /// The first manifest with the id `id`.
    pub fn get_pkg(&self, id: &str) -> (r: Option<&Manifest>)
        ensures
            r is None <==> forall|j: int|
                0 <= j < self.pkgs@.len() ==> (#[trigger] self.pkgs@[j]).id_view() != id@,
            r matches Some(m) ==> exists|k: int|
                0 <= k < self.pkgs@.len() && self.pkgs@[k] == *m && m.id_view() == id@ && forall|
                    j: int,
                | 0 <= j < k ==> (#[trigger] self.pkgs@[j]).id_view() != id@,
    {
        let mut i: usize = 0;
        while i < self.pkgs.len()
            invariant
                i <= self.pkgs@.len(),
                forall|j: int| 0 <= j < i ==> (#[trigger] self.pkgs@[j]).id_view() != id@,
            decreases self.pkgs@.len() - i,
        {
            if same_text(self.pkgs[i].id(), id) {
                return Some(&self.pkgs[i]);
            }
            i = i + 1;
        }
        None
    }
}

/// Whether a package is not the package `id`.
pub open spec fn other_than(id: Seq<char>) -> spec_fn(InstalledPackage) -> bool {
    |p: InstalledPackage| p@.id != id
}

/// The packages installed into the theme tree.
#[derive(Debug)]
pub struct InstalledPkgList {
    pub version: u8,
    pub pkgs: Vec<InstalledPackage>,
}

impl InstalledPkgList {
    pub fn new() -> (r: InstalledPkgList)
        ensures
            r.version == 0,
            r.pkgs@.len() == 0,
    {
        InstalledPkgList { version: 0, pkgs: Vec::new() }
    }

    /// The first installed package with the id `id`.
    pub fn get_pkg(&self, id: &str) -> (r: Option<&InstalledPackage>)
        ensures
            r is None <==> forall|j: int|
                0 <= j < self.pkgs@.len() ==> (#[trigger] self.pkgs@[j])@.id != id@,
            r matches Some(p) ==> exists|k: int|
                0 <= k < self.pkgs@.len() && self.pkgs@[k] == *p && p@.id == id@ && forall|
                    j: int,
                | 0 <= j < k ==> (#[trigger] self.pkgs@[j])@.id != id@,
    {
        let mut i: usize = 0;
        while i < self.pkgs.len()
            invariant
                i <= self.pkgs@.len(),
                forall|j: int| 0 <= j < i ==> (#[trigger] self.pkgs@[j])@.id != id@,
            decreases self.pkgs@.len() - i,
        {
            if same_text(self.pkgs[i].id(), id) {
                return Some(&self.pkgs[i]);
            }
            i = i + 1;
        }
        None
    }

    /// Appends `pkg` to the list.
    pub fn add_pkg(&mut self, pkg: InstalledPackage)
        ensures
            final(self).version == old(self).version,
            final(self).pkgs@ == old(self).pkgs@.push(pkg),
    {
        self.pkgs.push(pkg);
    }

    /// Drops every package with the id `id`, keeping the others in order.
    pub fn rm_pkg(&mut self, id: &str)
        ensures
            final(self).version == old(self).version,
            final(self).pkgs@ == old(self).pkgs@.filter(other_than(id@)),
    {
        let ghost keep = other_than(id@);
        let mut kept: Vec<InstalledPackage> = Vec::new();
        let mut rest: Vec<InstalledPackage> = Vec::new();
        core::mem::swap(&mut rest, &mut self.pkgs);
        let ghost before = rest@;
        let ghost mut i: int = 0;
        proof {
            reveal(Seq::filter);
            assert(before.take(0) =~= Seq::<InstalledPackage>::empty());
            assert(before.skip(0) =~= before);
        }
        while rest.len() > 0
            invariant
                0 <= i <= before.len(),
                keep == other_than(id@),
                rest@ == before.skip(i),
                kept@ == before.take(i).filter(keep),
            decreases rest@.len(),
        {
            let p = rest.remove(0);
            proof {
                reveal(Seq::filter);
                assert(p == before[i]);
                assert(before.take(i + 1).drop_last() =~= before.take(i));
                assert(before.take(i + 1).last() == p);
                assert(rest@ =~= before.skip(i + 1));
            }
            let ghost old_kept = kept@;
            let ghost q = p;
            if !same_text(p.id(), id) {
                kept.push(p);
            }
            proof {
                reveal(Seq::filter);
                let t = before.take(i + 1);
                assert(keep(q) == (q@.id != id@));
                assert(t.filter(keep) == if keep(t.last()) {
                    t.drop_last().filter(keep).push(t.last())
                } else {
                    t.drop_last().filter(keep)
                });
                assert(kept@ =~= t.filter(keep));
                i = i + 1;
            }
        }
        proof {
            assert(before.take(i) =~= before);
        }
        self.pkgs = kept;
    }
}

} // verus!

//! The shared-asset directory registry: for each shared directory of the
//! theme tree, the set of packages that currently depend on it.

use vstd::prelude::*;
use crate::paths::{join, joined, same_text};

verus! {

/// What has to happen on disk after a change of a registry record.
#[derive(Clone, Copy, Debug, PartialEq, Eq, Structural)]
pub enum RegistryAction {
    /// Write the record into the directory's sidecar file.
    Persist,
    /// Delete the directory, sidecar file included: nobody uses it anymore.
    DeleteDir,
}

/// A sidecar record whose stored path is not the directory it was read from.
#[derive(Clone, Copy, Debug, PartialEq, Eq, Structural)]
pub enum RegistryError {
    BrokenRecord,
}

/// The name of the sidecar file inside a shared directory.
pub open spec fn sidecar_name() -> Seq<char> {
    seq!['.', 'l', 'o', 'c', 'k']
}

/// The ids as character sequences.
pub open spec fn id_views(ids: Seq<String>) -> Seq<Seq<char>> {
    ids.map_values(|s: String| s@)
}

/// The set of ids that `ids` holds.
pub open spec fn id_set(ids: Seq<String>) -> Set<Seq<char>> {
    id_views(ids).to_set()
}

/// The ids that `ids` holds, each once.
pub open spec fn distinct_ids(ids: Seq<String>) -> bool {
    forall|i: int, j: int| 0 <= i < j < ids.len() ==> ids[i]@ != ids[j]@
}

/// A shared directory of the theme tree and the packages that use it.
#[derive(Debug)]
pub struct ShareDir {
    path: String,
    used_by: Vec<String>,
}

impl ShareDir {
    /// Where the directory lies.
    pub closed spec fn path_view(&self) -> Seq<char> {
        self.path@
    }

    /// The ids of the packages that depend on the directory.
    pub closed spec fn users(&self) -> Set<Seq<char>> {
        id_set(self.used_by@)
    }

    pub closed spec fn wf(&self) -> bool {
        distinct_ids(self.used_by@)
    }

    /// A record for a directory that no package has used so far.
    pub fn new(path: &str) -> (r: ShareDir)
        ensures
            r.wf(),
            r.path_view() == path@,
            r.users() == Set::<Seq<char>>::empty(),
    {
        let r = ShareDir { path: path.to_owned(), used_by: Vec::new() };
        assert(id_set(r.used_by@) =~= Set::<Seq<char>>::empty());
        r
    }

    /// Rebuilds the record read from the sidecar file of the directory
    /// `dir`: `stored` is the path that the file holds, `used_by` its ids.
    pub fn from_record(dir: &str, stored: &str, used_by: &Vec<String>) -> (r: Result<
        ShareDir,
        RegistryError,
    >)
        ensures
            r is Err <==> stored@ != dir@,
            r matches Ok(d) ==> d.wf() && d.path_view() == dir@ && d.users() == id_set(used_by@),
    {
        if !same_text(dir, stored) {
            return Err(RegistryError::BrokenRecord);
        }
        let mut d = ShareDir::new(dir);
        let mut i: usize = 0;
        while i < used_by.len()
            invariant
                i <= used_by@.len(),
                d.wf(),
                d.path_view() == dir@,
                d.users() == id_set(used_by@.take(i as int)),
            decreases used_by@.len() - i,
        {
            d.add_user(used_by[i].as_str());
            proof {
                let t = used_by@.take(i + 1);
                assert(t =~= used_by@.take(i as int).push(used_by@[i as int]));
                assert(id_views(t) =~= id_views(used_by@.take(i as int)).push(used_by@[i as int]@));
                id_views(used_by@.take(i as int)).lemma_push_to_set_commute(
                    used_by@[i as int]@,
                );
            }
            i = i + 1;
        }
        assert(used_by@.take(i as int) =~= used_by@);
        Ok(d)
    }

    fn position(&self, id: &str) -> (r: Option<usize>)
        ensures
            r is None <==> !self.users().contains(id@),
            r matches Some(k) ==> k < self.used_by@.len() && self.used_by@[k as int]@ == id@,
    {
        let mut i: usize = 0;
        while i < self.used_by.len()
            invariant
                i <= self.used_by@.len(),
                forall|j: int| 0 <= j < i ==> self.used_by@[j]@ != id@,
            decreases self.used_by@.len() - i,
        {
            if same_text(self.used_by[i].as_str(), id) {
                assert(id_views(self.used_by@)[i as int] == id@);
                assert(self.users().contains(id@));
                return Some(i);
            }
            i = i + 1;
        }
        proof {
            if self.users().contains(id@) {
                let k = choose|k: int|
                    0 <= k < self.used_by@.len() && #[trigger] id_views(self.used_by@)[k] == id@;
                assert(self.used_by@[k]@ != id@);
            }
        }
        None
    }

    fn add_user(&mut self, id: &str)
        requires
            old(self).wf(),
        ensures
            final(self).wf(),
            final(self).path_view() == old(self).path_view(),
            final(self).users() == old(self).users().insert(id@),
    {
        if self.position(id).is_some() {
            assert(self.users().insert(id@) =~= self.users());
            return;
        }
        let ghost before = self.used_by@;
        self.used_by.push(id.to_owned());
        proof {
            assert(id_views(self.used_by@) =~= id_views(before).push(id@));
            id_views(before).lemma_push_to_set_commute(id@);
            assert forall|i: int, j: int| 0 <= i < j < self.used_by@.len() implies self.used_by@[i]@
                != self.used_by@[j]@ by {
                if j == before.len() {
                    assert(id_views(before)[i] == before[i]@);
                    assert(id_set(before).contains(before[i]@));
                }
            }
        }
    }

    /// Records that package `id` depends on the directory. The record is to
    /// be written through at once.
    pub fn used_by(&mut self, id: &str) -> (r: RegistryAction)
        requires
            old(self).wf(),
        ensures
            final(self).wf(),
            final(self).path_view() == old(self).path_view(),
            final(self).users() == old(self).users().insert(id@),
            r == RegistryAction::Persist,
    {
        self.add_user(id);
        RegistryAction::Persist
    }

    /// Records that package `id` no longer depends on the directory. When
    /// nobody is left, the directory itself is to be deleted; otherwise the
    /// record is to be written through.
    pub fn removed_by(&mut self, id: &str) -> (r: RegistryAction)
        requires
            old(self).wf(),
        ensures
            final(self).wf(),
            final(self).path_view() == old(self).path_view(),
            final(self).users() == old(self).users().remove(id@),
            r == release_action(final(self).users()),
    {
        match self.position(id) {
            None => {
                assert(self.users().remove(id@) =~= self.users());
            },
            Some(k) => {
                let ghost before = self.used_by@;
                self.used_by.remove(k);
                proof {
                    let after = self.used_by@;
                    assert(after =~= before.remove(k as int));
                    assert(id_views(after) =~= id_views(before).remove(k as int));
                    assert forall|x: Seq<char>| #[trigger]
                        id_set(after).contains(x) == id_set(before).remove(id@).contains(x) by {
                        if id_set(after).contains(x) {
                            let j = choose|j: int| 0 <= j < after.len() && id_views(after)[j] == x;
                            let jj = if j < k { j } else { j + 1 };
                            assert(id_views(before)[jj] == x);
                            assert(before[jj]@ != before[k as int]@);
                        }
                        if id_set(before).remove(id@).contains(x) {
                            let j = choose|j: int| 0 <= j < before.len() && id_views(before)[j] == x;
                            assert(j != k);
                            let jj = if j < k { j } else { j - 1 };
                            assert(id_views(after)[jj] == x);
                        }
                    }
                    assert(id_set(after) =~= id_set(before).remove(id@));
                }
            },
        }
        if self.used_by.len() == 0 {
            assert(self.users() =~= Set::<Seq<char>>::empty());
            RegistryAction::DeleteDir
        } else {
            assert(id_views(self.used_by@)[0] == self.used_by@[0]@);
            assert(self.users().contains(self.used_by@[0]@));
            RegistryAction::Persist
        }
    }

    /// Where the directory lies.
    pub fn path(&self) -> (r: &str)
        ensures
            r@ == self.path_view(),
    {
        self.path.as_str()
    }

    /// The ids of the packages that use the directory, each once.
    pub fn users_list(&self) -> (r: &Vec<String>)
        requires
            self.wf(),
        ensures
            id_set(r@) == self.users(),
            distinct_ids(r@),
    {
        &self.used_by
    }

    /// The path of the directory's sidecar file.
    pub fn sidecar_path(&self) -> (r: String)
        ensures
            r@ == joined(self.path_view(), sidecar_name()),
    {
        proof {
            reveal_strlit(".lock");
        }
        join(self.path.as_str(), ".lock")
    }
}

/// What a release leaves to do: the directory goes once nobody uses it.
pub open spec fn release_action(users: Set<Seq<char>>) -> RegistryAction {
    if users.is_empty() {
        RegistryAction::DeleteDir
    } else {
        RegistryAction::Persist
    }
}

/// A shared directory outlives the first of two packages that use it, and
/// goes with the second: after `used_by(a)`, `used_by(b)` and
/// `removed_by(a)`, with `a` and `b` two packages, the directory stays;
/// for a directory that nobody used before, `removed_by(b)` then deletes it.
pub proof fn lemma_shared_dir_reference_count(start: Set<Seq<char>>, a: Seq<char>, b: Seq<char>)
    requires
        a != b,
    ensures
        ({
            let left = start.insert(a).insert(b).remove(a);
            &&& left.contains(b)
            &&& release_action(left) == RegistryAction::Persist
            &&& start.is_empty() ==> release_action(left.remove(b)) == RegistryAction::DeleteDir
        }),
{
    let left = start.insert(a).insert(b).remove(a);
    assert(left.contains(b));
    assert(!left.is_empty());
    if start.is_empty() {
        assert(left.remove(b) =~= Set::<Seq<char>>::empty());
    }
}

} // verus!

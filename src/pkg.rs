//! Installed packages: what a package placed into the theme tree, and the
//! bookkeeping of adding and removing its sub-packages.

use vstd::prelude::*;
use crate::paths::{join, joined, same_text, texts, all_distinct, no_repeats, lemma_joined_injective};
use crate::manifest::{Manifest, manifest_file, manifest_file_path, first_sub_pos, declares_sub};
use crate::mover::{MovePlan, MoveStep, move_file_to, steps, tree_steps, rename_targets, within, lemma_move_fuses_into_dir};
use crate::tree::DirTree;
use crate::paths::ObjName;
use crate::registry::{RegistryAction, release_action, lemma_shared_dir_reference_count};

verus! {

/// An installed sub-package as contracts see it.
pub struct SubRecord {
    pub id: Seq<char>,
    pub file: Seq<char>,
}

/// What an installed package holds, as contracts see it.
pub struct PkgState {
    pub id: Seq<char>,
    /// The shared asset directories the package registered itself with.
    pub assets: Seq<Seq<char>>,
    /// The installed sub-packages, in the order they were added.
    pub subs: Seq<SubRecord>,
}

/// Whether sub-package `id` is installed.
pub open spec fn has_sub(s: PkgState, id: Seq<char>) -> bool {
    exists|k: int| 0 <= k < s.subs.len() && (#[trigger] s.subs[k]).id == id
}

/// Where the installed sub-package `id` stands among the sub-packages.
pub open spec fn sub_pos(s: PkgState, id: Seq<char>) -> int {
    choose|k: int| 0 <= k < s.subs.len() && (#[trigger] s.subs[k]).id == id
}

/// Each sub-package is installed at most once.
pub open spec fn subs_distinct(subs: Seq<SubRecord>) -> bool {
    forall|i: int, j: int| 0 <= i < j < subs.len() ==> subs[i].id != subs[j].id
}

/// The files of the installed sub-packages.
pub open spec fn sub_files(subs: Seq<SubRecord>) -> Seq<Seq<char>> {
    subs.map_values(|r: SubRecord| r.file)
}

/// The package after sub-package `id` is removed: unchanged when it is not
/// installed; when it was the last one, the assets are released as well.
pub open spec fn without_sub(s: PkgState, id: Seq<char>) -> PkgState {
    if !has_sub(s, id) {
        s
    } else {
        let subs = s.subs.remove(sub_pos(s, id));
        PkgState { id: s.id, assets: if subs.len() == 0 { seq![] } else { s.assets }, subs }
    }
}

/// The asset directories that removing sub-package `id` releases.
pub open spec fn released_by_removal(s: PkgState, id: Seq<char>) -> Seq<Seq<char>> {
    if has_sub(s, id) && s.subs.len() == 1 {
        s.assets
    } else {
        seq![]
    }
}

/// Whether the package has a record on disk: exactly while one of its
/// sub-packages is installed.
pub open spec fn keeps_record(s: PkgState) -> bool {
    s.subs.len() > 0
}

/// The package after sub-package `id`, whose file now lies at `file`, is
/// added; a sub-package that is installed already keeps its record.
pub open spec fn with_sub(s: PkgState, id: Seq<char>, file: Seq<char>) -> PkgState {
    if has_sub(s, id) {
        s
    } else {
        PkgState { subs: s.subs.push(SubRecord { id, file }), ..s }
    }
}

/// The names of a package's assets.
pub open spec fn asset_names(assets: Seq<ObjName>) -> Seq<Seq<char>> {
    assets.map_values(|a: ObjName| a@)
}

/// A freshly installed package `id` whose assets `names` went into the
/// theme directory `theme`: no sub-package yet.
pub open spec fn installed_state(id: Seq<char>, theme: Seq<char>, names: Seq<Seq<char>>) -> PkgState {
    PkgState { id, assets: names.map_values(|n: Seq<char>| joined(theme, n)), subs: seq![] }
}

/// The file of the first sub-package `id` that manifest `m` declares.
pub open spec fn declared_file(m: Manifest, id: Seq<char>) -> Seq<char> {
    m.pkgs_view()[first_sub_pos(m.pkgs_view(), id)].file@
}

/// An installed sub-package: its id and where its file lies.
#[derive(Debug)]
pub struct InstalledSubPackage {
    pub id: String,
    pub file: String,
}

impl View for InstalledSubPackage {
    type V = SubRecord;

    open spec fn view(&self) -> SubRecord {
        SubRecord { id: self.id@, file: self.file@ }
    }
}

pub open spec fn sub_records(v: Seq<InstalledSubPackage>) -> Seq<SubRecord> {
    v.map_values(|p: InstalledSubPackage| p@)
}

/// Why a package operation was refused.
#[derive(Clone, Copy, Debug, PartialEq, Eq, Structural)]
pub enum PkgError {
    /// A record of installed sub-packages names one of them twice.
    DuplicateSub,
    /// A record of installed assets names one of them twice.
    DuplicateAsset,
    /// The package declares no sub-package of the id asked for.
    SubNotFound,
}

/// The outcome of removing one sub-package.
#[derive(Debug)]
pub struct SubRemoval {
    /// The file to delete, if the sub-package was installed.
    pub removed: Option<String>,
    /// The asset directories to release, when no sub-package is left.
    pub released: Vec<String>,
}

/// The outcome of a full removal.
#[derive(Debug)]
pub struct Uninstall {
    /// The files of the sub-packages, to delete.
    pub files: Vec<String>,
    /// The asset directories to release.
    pub released: Vec<String>,
}

/// What to do with a package's record file.
#[derive(Debug)]
pub enum RecordAction {
    /// Replace the file with the package's current state.
    Write { path: String },
    /// Delete the file if it is there.
    Delete { path: String },
}

/// What a package placed into the theme tree.
#[derive(Debug)]
pub struct InstalledPackage {
    id: String,
    name: String,
    version: String,
    assets: Vec<String>,
    pkgs: Vec<InstalledSubPackage>,
}

impl View for InstalledPackage {
    type V = PkgState;

    closed spec fn view(&self) -> PkgState {
        PkgState { id: self.id@, assets: texts(self.assets@), subs: sub_records(self.pkgs@) }
    }
}

impl InstalledPackage {
    pub closed spec fn wf(&self) -> bool {
        subs_distinct(sub_records(self.pkgs@)) && no_repeats(texts(self.assets@))
    }

    pub closed spec fn name_view(&self) -> Seq<char> {
        self.name@
    }

    pub closed spec fn version_view(&self) -> Seq<char> {
        self.version@
    }

    /// Rebuilds a package from its record.
    pub fn from_parts(
        id: String,
        name: String,
        version: String,
        assets: Vec<String>,
        pkgs: Vec<InstalledSubPackage>,
    ) -> (r: Result<InstalledPackage, PkgError>)
        ensures
            r == Err::<InstalledPackage, PkgError>(PkgError::DuplicateSub) <==> !subs_distinct(
                sub_records(pkgs@),
            ),
            r == Err::<InstalledPackage, PkgError>(PkgError::DuplicateAsset) <==> subs_distinct(
                sub_records(pkgs@),
            ) && !no_repeats(texts(assets@)),
            subs_distinct(sub_records(pkgs@)) && no_repeats(texts(assets@)) ==> r is Ok,
            r matches Ok(p) ==> p.wf() && p.name_view() == name@ && p.version_view() == version@
                && p@ == (PkgState { id: id@, assets: texts(assets@), subs: sub_records(pkgs@) }),
    {
        let mut j: usize = 1;
        while j < pkgs.len()
            invariant
                1 <= j,
                j <= pkgs@.len() || pkgs@.len() == 0,
                forall|a: int, b: int|
                    0 <= a < b < j && b < pkgs@.len() ==> pkgs@[a].id@ != pkgs@[b].id@,
            decreases pkgs@.len() - j,
        {
            let mut i: usize = 0;
            while i < j
                invariant
                    i <= j < pkgs@.len(),
                    forall|a: int| 0 <= a < i ==> pkgs@[a].id@ != pkgs@[j as int].id@,
                decreases j - i,
            {
                if same_text(pkgs[i].id.as_str(), pkgs[j].id.as_str()) {
                    proof {
                        let rs = sub_records(pkgs@);
                        assert(rs[i as int].id == rs[j as int].id);
                    }
                    return Err(PkgError::DuplicateSub);
                }
                i = i + 1;
            }
            j = j + 1;
        }
        proof {
            let rs = sub_records(pkgs@);
            assert forall|a: int, b: int| 0 <= a < b < rs.len() implies rs[a].id != rs[b].id by {
                assert(rs[a].id == pkgs@[a].id@);
                assert(rs[b].id == pkgs@[b].id@);
            }
        }
        if !all_distinct(&assets) {
            return Err(PkgError::DuplicateAsset);
        }
        Ok(InstalledPackage { id, name, version, assets, pkgs })
    }

    fn position(&self, id: &str) -> (r: Option<usize>)
        requires
            self.wf(),
        ensures
            r is None <==> !has_sub(self@, id@),
            r matches Some(k) ==> k < self.pkgs@.len() && k == sub_pos(self@, id@),
    {
        let mut i: usize = 0;
        while i < self.pkgs.len()
            invariant
                self.wf(),
                i <= self.pkgs@.len(),
                forall|j: int| 0 <= j < i ==> self.pkgs@[j].id@ != id@,
            decreases self.pkgs@.len() - i,
        {
            if same_text(self.pkgs[i].id.as_str(), id) {
                proof {
                    let rs = self@.subs;
                    assert(rs[i as int].id == id@);
                    assert(has_sub(self@, id@));
                    let k = sub_pos(self@, id@);
                    assert(0 <= k < rs.len() && rs[k].id == id@);
                    assert(k == i) by {
                        if k < i {
                            assert(rs[k].id != rs[i as int].id);
                        } else if k > i {
                            assert(rs[i as int].id != rs[k].id);
                        }
                    }
                }
                return Some(i);
            }
            i = i + 1;
        }
        proof {
            if has_sub(self@, id@) {
                let k = choose|k: int| 0 <= k < self@.subs.len() && (#[trigger] self@.subs[k]).id == id@;
                assert(self@.subs[k].id == self.pkgs@[k].id@);
            }
        }
        None
    }

    /// The asset directories, which are released; precondition: no
    /// sub-package is installed anymore.
    pub fn clear_assets(&mut self) -> (r: Vec<String>)
        requires
            old(self)@.subs.len() == 0,
        ensures
            texts(r@) == old(self)@.assets,
            final(self)@ == (PkgState { assets: seq![], ..old(self)@ }),
            final(self).wf(),
            final(self).name_view() == old(self).name_view(),
            final(self).version_view() == old(self).version_view(),
    {
        let mut r: Vec<String> = Vec::new();
        core::mem::swap(&mut r, &mut self.assets);
        assert(texts(self.assets@) =~= seq![]);
        r
    }

    /// Removes sub-package `id`: nothing happens when it is not installed;
    /// otherwise its file is to be deleted, and when it was the last one,
    /// the assets are released.
    pub fn remove_sub(&mut self, id: &str) -> (r: SubRemoval)
        requires
            old(self).wf(),
        ensures
            final(self).wf(),
            final(self).name_view() == old(self).name_view(),
            final(self).version_view() == old(self).version_view(),
            final(self)@ == without_sub(old(self)@, id@),
            !has_sub(old(self)@, id@) ==> *final(self) == *old(self) && r.removed is None,
            has_sub(old(self)@, id@) ==> (r.removed matches Some(f) && f@ == old(
                self,
            )@.subs[sub_pos(old(self)@, id@)].file),
            texts(r.released@) == released_by_removal(old(self)@, id@),
    {
        let k = match self.position(id) {
            None => {
                let released: Vec<String> = Vec::new();
                assert(texts(released@) =~= seq![]);
                return SubRemoval { removed: None, released };
            },
            Some(k) => k,
        };
        let ghost before = self@;
        let gone = self.pkgs.remove(k);
        proof {
            assert(sub_records(self.pkgs@) =~= before.subs.remove(k as int));
            assert(gone@ == before.subs[k as int]);
        }
        let released = if self.pkgs.len() == 0 {
            self.clear_assets()
        } else {
            Vec::new()
        };
        proof {
            let rs = sub_records(self.pkgs@);
            assert forall|i: int, j: int| 0 <= i < j < rs.len() implies rs[i].id != rs[j].id by {
                let ii = if i < k { i } else { i + 1 };
                let jj = if j < k { j } else { j + 1 };
                assert(rs[i] == before.subs[ii]);
                assert(rs[j] == before.subs[jj]);
            }
            assert(self@ =~= without_sub(before, id@));
            assert(texts(released@) =~= released_by_removal(before, id@));
        }
        SubRemoval { removed: Some(gone.file), released }
    }

    /// Removes the whole package: every sub-package file is to be deleted
    /// and every asset released.
    pub fn uninstall(&mut self) -> (r: Uninstall)
        ensures
            texts(r.files@) == sub_files(old(self)@.subs),
            texts(r.released@) == old(self)@.assets,
            final(self)@ == (PkgState { id: old(self)@.id, assets: seq![], subs: seq![] }),
            final(self).wf(),
            final(self).name_view() == old(self).name_view(),
            final(self).version_view() == old(self).version_view(),
    {
        let mut pkgs: Vec<InstalledSubPackage> = Vec::new();
        core::mem::swap(&mut pkgs, &mut self.pkgs);
        let mut files: Vec<String> = Vec::new();
        let mut i: usize = 0;
        while i < pkgs.len()
            invariant
                i <= pkgs@.len(),
                texts(files@) == sub_files(sub_records(pkgs@)).take(i as int),
            decreases pkgs@.len() - i,
        {
            let ghost prev = files@;
            files.push(pkgs[i].file.clone());
            proof {
                assert(texts(files@) =~= texts(prev).push(pkgs@[i as int].file@));
                assert(sub_files(sub_records(pkgs@))[i as int] == pkgs@[i as int].file@);
                assert(texts(files@) =~= sub_files(sub_records(pkgs@)).take(i + 1));
            }
            i = i + 1;
        }
        assert(sub_files(sub_records(pkgs@)).take(i as int) =~= sub_files(sub_records(pkgs@)));
        assert(sub_records(self.pkgs@) =~= seq![]);
        let released = self.clear_assets();
        Uninstall { files, released }
    }

    /// What to do with the package's record file in the store `store`:
    /// write it while a sub-package is installed, delete it otherwise.
    pub fn sync_record(&self, store: &str) -> (r: RecordAction)
        ensures
            r is Write <==> keeps_record(self@),
            r matches RecordAction::Write { path } ==> path@ == manifest_file_path(store@, self@.id),
            r matches RecordAction::Delete { path } ==> path@ == manifest_file_path(store@, self@.id),
    {
        let path = manifest_file(store, self.id.as_str());
        if self.pkgs.len() > 0 {
            RecordAction::Write { path }
        } else {
            RecordAction::Delete { path }
        }
    }

    /// The record file to replace with the package's state; precondition:
    /// a sub-package is installed, since an empty package has no record.
    pub fn save(&self, store: &str) -> (r: String)
        requires
            keeps_record(self@),
        ensures
            r@ == manifest_file_path(store@, self@.id),
    {
        manifest_file(store, self.id.as_str())
    }

    pub fn id(&self) -> (r: &str)
        ensures
            r@ == self@.id,
    {
        self.id.as_str()
    }

    pub fn name(&self) -> (r: &str)
        ensures
            r@ == self.name_view(),
    {
        self.name.as_str()
    }

    pub fn version(&self) -> (r: &str)
        ensures
            r@ == self.version_view(),
    {
        self.version.as_str()
    }

    pub fn assets(&self) -> (r: &Vec<String>)
        ensures
            texts(r@) == self@.assets,
    {
        &self.assets
    }

    pub fn pkgs(&self) -> (r: &Vec<InstalledSubPackage>)
        ensures
            sub_records(r@) == self@.subs,
    {
        &self.pkgs
    }
}

/// One shared asset to put in place: the directory of the theme tree that
/// the registry tracks, and the fetched object to move there.
#[derive(Debug)]
pub struct AssetPlacement {
    pub dir: String,
    pub from: String,
}

/// A manifest bound to the directory that holds its fetched content.
#[derive(Debug)]
pub struct Package {
    manifest: Manifest,
    staged: String,
}

impl Package {
    pub closed spec fn manifest_view(&self) -> Manifest {
        self.manifest
    }

    pub closed spec fn staged_view(&self) -> Seq<char> {
        self.staged@
    }

    pub fn new(manifest: Manifest, staged: String) -> (r: Package)
        ensures
            r.manifest_view() == manifest,
            r.staged_view() == staged@,
    {
        Package { manifest, staged }
    }

    pub fn manifest(&self) -> (r: &Manifest)
        ensures
            *r == self.manifest_view(),
    {
        &self.manifest
    }

    pub fn staged(&self) -> (r: &str)
        ensures
            r@ == self.staged_view(),
    {
        self.staged.as_str()
    }

    /// Installs the package's shared assets into the theme directory
    /// `theme`: each asset `name` is registered as `theme/name` and the
    /// fetched object of that name moves there. The package that results
    /// has no sub-package yet.
    pub fn install(&self, theme: &str) -> (r: (InstalledPackage, Vec<AssetPlacement>))
        ensures
            r.0.wf(),
            r.0.name_view() == self.manifest_view().name_view(),
            r.0.version_view() == self.manifest_view().version_view(),
            r.0@ == installed_state(
                self.manifest_view().id_view(),
                theme@,
                asset_names(self.manifest_view().assets_view()),
            ),
            r.1@.len() == self.manifest_view().assets_view().len(),
            forall|i: int|
                0 <= i < r.1@.len() ==> {
                    let name = #[trigger] self.manifest_view().assets_view()[i]@;
                    &&& r.1@[i].dir@ == joined(theme@, name)
                    &&& r.1@[i].from@ == joined(self.staged_view(), name)
                },
    {
        let names = self.manifest.assets();
        let ghost wanted = asset_names(names@).map_values(|n: Seq<char>| joined(theme@, n));
        let mut dirs: Vec<String> = Vec::new();
        let mut places: Vec<AssetPlacement> = Vec::new();
        let mut i: usize = 0;
        while i < names.len()
            invariant
                names@ == self.manifest_view().assets_view(),
                wanted == asset_names(names@).map_values(|n: Seq<char>| joined(theme@, n)),
                i <= names@.len(),
                texts(dirs@) == wanted.take(i as int),
                places@.len() == i,
                forall|j: int|
                    0 <= j < i ==> {
                        let name = #[trigger] names@[j]@;
                        &&& places@[j].dir@ == joined(theme@, name)
                        &&& places@[j].from@ == joined(self.staged_view(), name)
                    },
            decreases names@.len() - i,
        {
            let name = names[i].as_str();
            let dir = join(theme, name);
            let ghost prev = dirs@;
            dirs.push(join(theme, name));
            places.push(AssetPlacement { dir, from: join(self.staged.as_str(), name) });
            proof {
                assert(texts(dirs@) =~= texts(prev).push(joined(theme@, name@)));
                assert(wanted[i as int] == joined(theme@, name@));
                assert(texts(dirs@) =~= wanted.take(i + 1));
            }
            i = i + 1;
        }
        assert(wanted.take(i as int) =~= wanted);
        proof {
            assert forall|x: int, y: int| 0 <= x < y < wanted.len() implies wanted[x] != wanted[y] by {
                assert(wanted[x] == joined(theme@, names@[x]@));
                assert(wanted[y] == joined(theme@, names@[y]@));
                lemma_joined_injective(theme@, names@[x]@, names@[y]@);
            }
        }
        let record = InstalledPackage {
            id: self.manifest.id().to_owned(),
            name: self.manifest.name().to_owned(),
            version: self.manifest.version().to_owned(),
            assets: dirs,
            pkgs: Vec::new(),
        };
        assert(sub_records(record.pkgs@) =~= seq![]);
        (record, places)
    }
}

impl InstalledPackage {
    /// Adds sub-package `sub_id` of the fetched package `from`: its file is
    /// to move into the theme directory `theme`, under its own name. A
    /// sub-package that `from` does not declare is an error, and changes
    /// nothing.
    pub fn add_sub(&mut self, sub_id: &str, from: &Package, theme: &str) -> (r: Result<
        MovePlan,
        PkgError,
    >)
        requires
            old(self).wf(),
        ensures
            final(self).wf(),
            final(self).name_view() == old(self).name_view(),
            final(self).version_view() == old(self).version_view(),
            r is Err <==> !declares_sub(from.manifest_view().pkgs_view(), sub_id@),
            r is Err ==> *final(self) == *old(self) && r == Err::<MovePlan, PkgError>(
                PkgError::SubNotFound,
            ),
            r matches Ok(plan) ==> {
                let file = declared_file(from.manifest_view(), sub_id@);
                &&& steps(plan.ops@) == seq![
                    MoveStep::Rename(joined(from.staged_view(), file), joined(theme@, file)),
                ]
                &&& plan.dest@ == joined(theme@, file)
                &&& final(self)@ == with_sub(old(self)@, sub_id@, joined(theme@, file))
            },
    {
        let sub = match from.manifest().find_sub(sub_id) {
            None => {
                return Err(PkgError::SubNotFound);
            },
            Some(sub) => sub,
        };
        let plan = move_file_to(from.staged(), sub.file.as_str(), theme);
        if self.position(sub_id).is_none() {
            let ghost before = self@;
            let dest = join(theme, sub.file.as_str());
            self.pkgs.push(InstalledSubPackage { id: sub_id.to_owned(), file: dest });
            proof {
                let rs = sub_records(self.pkgs@);
                assert(rs =~= before.subs.push(SubRecord { id: sub_id@, file: joined(theme@, sub.file@) }));
                assert forall|i: int, j: int| 0 <= i < j < rs.len() implies rs[i].id != rs[j].id by {
                    if j == before.subs.len() {
                        assert(before.subs[i] == rs[i]);
                    }
                }
                assert(self@ =~= with_sub(before, sub_id@, joined(theme@, sub.file@)));
            }
        }
        Ok(plan)
    }
}

/// The package after each of `adds` is added in turn.
pub open spec fn with_subs(s: PkgState, adds: Seq<SubRecord>) -> PkgState
    decreases adds.len(),
{
    if adds.len() == 0 {
        s
    } else {
        with_sub(with_subs(s, adds.drop_last()), adds.last().id, adds.last().file)
    }
}

proof fn lemma_with_subs(s: PkgState, adds: Seq<SubRecord>)
    ensures
        with_subs(s, adds).id == s.id,
        with_subs(s, adds).assets == s.assets,
        forall|i: int| 0 <= i < adds.len() ==> has_sub(with_subs(s, adds), #[trigger] adds[i].id),
        forall|k: int|
            0 <= k < with_subs(s, adds).subs.len() ==> s.subs.contains(
                #[trigger] with_subs(s, adds).subs[k],
            ) || adds.contains(with_subs(s, adds).subs[k]),
    decreases adds.len(),
{
    if adds.len() > 0 {
        let prev = with_subs(s, adds.drop_last());
        let last = adds.last();
        lemma_with_subs(s, adds.drop_last());
        let next = with_subs(s, adds);
        assert(next == with_sub(prev, last.id, last.file));
        assert forall|i: int| 0 <= i < adds.len() implies has_sub(next, #[trigger] adds[i].id) by {
            if i < adds.len() - 1 {
                assert(adds.drop_last()[i] == adds[i]);
                assert(has_sub(prev, adds[i].id));
                let k = choose|k: int| 0 <= k < prev.subs.len() && (#[trigger] prev.subs[k]).id == adds[i].id;
                if !has_sub(prev, last.id) {
                    assert(next.subs[k] == prev.subs[k]);
                }
            } else if !has_sub(prev, last.id) {
                assert(next.subs[prev.subs.len() as int].id == last.id);
            }
        }
        assert forall|k: int| 0 <= k < next.subs.len() implies s.subs.contains(
            #[trigger] next.subs[k],
        ) || adds.contains(next.subs[k]) by {
            if k < prev.subs.len() {
                assert(next.subs[k] == prev.subs[k]);
                if adds.drop_last().contains(prev.subs[k]) {
                    let i = choose|i: int| 0 <= i < adds.drop_last().len() && adds.drop_last()[i] == prev.subs[k];
                    assert(adds[i] == next.subs[k]);
                }
            } else {
                assert(next.subs[k] == SubRecord { id: last.id, file: last.file });
                assert(adds[adds.len() - 1] == next.subs[k]);
            }
        }
    } else {
        assert forall|k: int| 0 <= k < with_subs(s, adds).subs.len() implies s.subs.contains(
            #[trigger] with_subs(s, adds).subs[k],
        ) by {
            assert(s.subs[k] == with_subs(s, adds).subs[k]);
        }
    }
}

/// Installing a package, adding sub-packages to it and removing all of it
/// leaves nothing of it behind: the full removal deletes the file of every
/// sub-package that was added, and each file it deletes is one that was
/// added; it releases every asset directory that the installation
/// registered, which goes where this package was its only user; and the
/// package keeps no record.
pub proof fn lemma_install_uninstall_round_trip(
    id: Seq<char>,
    theme: Seq<char>,
    names: Seq<Seq<char>>,
    adds: Seq<SubRecord>,
)
    ensures
        ({
            let s = with_subs(installed_state(id, theme, names), adds);
            &&& s.assets == names.map_values(|n: Seq<char>| joined(theme, n))
            &&& forall|i: int| 0 <= i < adds.len() ==> has_sub(s, #[trigger] adds[i].id)
            &&& forall|k: int| 0 <= k < s.subs.len() ==> adds.contains(#[trigger] s.subs[k])
            &&& !keeps_record(PkgState { id: s.id, assets: seq![], subs: seq![] })
            &&& forall|users: Set<Seq<char>>|
                users.subset_of(set![id]) ==> release_action(#[trigger] users.remove(id))
                    == RegistryAction::DeleteDir
        }),
{
    let s0 = installed_state(id, theme, names);
    lemma_with_subs(s0, adds);
    assert forall|users: Set<Seq<char>>| users.subset_of(set![id]) implies release_action(
        #[trigger] users.remove(id),
    ) == RegistryAction::DeleteDir by {
        assert(users.remove(id) =~= Set::<Seq<char>>::empty());
    }
}

/// The record follows the sub-packages: a removal leaves a record exactly
/// when the package had one and the removal did not take its last installed
/// sub-package; removing the last one deletes the record and releases the
/// assets; adding a sub-package always leaves a record to write.
pub proof fn lemma_record_follows_subs(s: PkgState, id: Seq<char>, file: Seq<char>)
    ensures
        keeps_record(without_sub(s, id)) == (keeps_record(s) && !(has_sub(s, id) && s.subs.len()
            == 1)),
        s.subs.len() == 1 && s.subs[0].id == id ==> !keeps_record(without_sub(s, id))
            && released_by_removal(s, id) == s.assets,
        keeps_record(with_sub(s, id, file)),
{
    if s.subs.len() == 1 && s.subs[0].id == id {
        assert(has_sub(s, id));
    }
    if has_sub(s, id) {
        let k = choose|k: int| 0 <= k < s.subs.len() && (#[trigger] s.subs[k]).id == id;
        assert(s.subs.len() > 0);
    }
}

/// Two packages that declare an asset of the same name share one directory
/// of the theme tree: both installations register that one directory, the
/// moves of each package's object fuse into it rather than replace it, and
/// the directory outlives the removal of the first package and goes with
/// the removal of the second.
pub proof fn lemma_shared_asset_reuse(
    theme: Seq<char>,
    id1: Seq<char>,
    names1: Seq<Seq<char>>,
    i1: int,
    staged1: Seq<char>,
    t1: DirTree,
    id2: Seq<char>,
    names2: Seq<Seq<char>>,
    i2: int,
    staged2: Seq<char>,
    t2: DirTree,
)
    requires
        0 <= i1 < names1.len(),
        0 <= i2 < names2.len(),
        names1[i1] == names2[i2],
        t1.name@ == names1[i1],
        t2.name@ == names2[i2],
        id1 != id2,
    ensures
        ({
            let dir = joined(theme, names1[i1]);
            let users = Set::<Seq<char>>::empty().insert(id1).insert(id2);
            &&& installed_state(id1, theme, names1).assets[i1] == dir
            &&& installed_state(id2, theme, names2).assets[i2] == dir
            &&& tree_steps(staged1, theme, t1)[0] == MoveStep::EnsureDir(dir)
            &&& tree_steps(staged2, theme, t2)[0] == MoveStep::EnsureDir(dir)
            &&& forall|k: int|
                0 <= k < rename_targets(tree_steps(staged1, theme, t1)).len() ==> within(
                    #[trigger] rename_targets(tree_steps(staged1, theme, t1))[k],
                    dir,
                )
            &&& forall|k: int|
                0 <= k < rename_targets(tree_steps(staged2, theme, t2)).len() ==> within(
                    #[trigger] rename_targets(tree_steps(staged2, theme, t2))[k],
                    dir,
                )
            &&& release_action(users.remove(id1)) == RegistryAction::Persist
            &&& release_action(users.remove(id1).remove(id2)) == RegistryAction::DeleteDir
        }),
{
    lemma_move_fuses_into_dir(staged1, theme, t1);
    lemma_move_fuses_into_dir(staged2, theme, t2);
    lemma_shared_dir_reference_count(Set::<Seq<char>>::empty(), id1, id2);
}

} // verus!

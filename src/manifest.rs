//! Package manifests: what a package is, where its content comes from,
//! which shared assets and which sub-packages it has.

use vstd::prelude::*;
use crate::UrlType;
use crate::paths::{join, joined, same_text, texts, ObjName, stays_inside, stays_inside_dir};

verus! {

/// What `relative_path` makes of a relative path when it normalizes it.
pub uninterp spec fn normalized(p: Seq<char>) -> Seq<char>;

/// Relies on `relative_path::RelativePath::normalize`: the logical form of
/// a relative path, with `.` dropped and `..` resolved against what
/// precedes it; it depends on the text alone.
#[verifier::external_body]
fn normalize(p: &str) -> (r: String)
    ensures
        r@ == normalized(p@),
{
    relative_path::RelativePath::new(p).normalize().into_string()
}

/// Content fetched as a zip archive.
#[derive(Debug)]
pub struct Zip {
    pub url: String,
    pub content: String,
    pub excludes: Vec<String>,
}

/// Content fetched as a clone of a git repository.
#[derive(Debug)]
pub struct Git {
    pub url: String,
    pub content: String,
    pub excludes: Vec<String>,
}

/// Where a package's content comes from: a URL, the directory of the theme
/// within what is fetched, and paths within it that are left out.
#[derive(Debug)]
pub enum Source {
    Zip(Zip),
    Git(Git),
}

/// The work of fetching, all paths relative to the directory that the
/// fetch fills.
#[derive(Debug)]
pub struct FetchPlan {
    pub kind: UrlType,
    pub url: String,
    /// The directory of the theme's content.
    pub content: String,
    /// The files and directories to delete before the content is used.
    pub excludes: Vec<String>,
}

/// A source whose content directory or an excluded path leaves the
/// directory that the fetch fills.
#[derive(Clone, Copy, Debug, PartialEq, Eq, Structural)]
pub enum FetchError {
    LeavesFetchDir,
}

impl Source {
    /// Whether the content directory and every excluded path, once
    /// normalized, stay inside the directory that the fetch fills.
    pub open spec fn paths_stay_inside(&self) -> bool {
        &&& stays_inside(normalized(self.content_view()))
        &&& forall|i: int|
            0 <= i < self.excludes_view().len() ==> stays_inside(
                normalized(joined(self.content_view(), #[trigger] self.excludes_view()[i]@)),
            )
    }

    pub open spec fn kind(&self) -> UrlType {
        match self {
            Source::Zip(_) => UrlType::Zip,
            Source::Git(_) => UrlType::Git,
        }
    }

    pub open spec fn url_view(&self) -> Seq<char> {
        match self {
            Source::Zip(z) => z.url@,
            Source::Git(g) => g.url@,
        }
    }

    pub open spec fn content_view(&self) -> Seq<char> {
        match self {
            Source::Zip(z) => z.content@,
            Source::Git(g) => g.content@,
        }
    }

    pub open spec fn excludes_view(&self) -> Seq<String> {
        match self {
            Source::Zip(z) => z.excludes@,
            Source::Git(g) => g.excludes@,
        }
    }

    /// Resolves the source's paths for a fetch: the content directory, and
    /// each excluded path taken inside the content directory. A path that
    /// would leave the directory that the fetch fills is refused.
    pub fn fetch_plan(&self) -> (r: Result<FetchPlan, FetchError>)
        ensures
            r is Err <==> !self.paths_stay_inside(),
            r matches Ok(plan) ==> {
                &&& plan.kind == self.kind()
                &&& plan.url@ == self.url_view()
                &&& plan.content@ == normalized(self.content_view())
                &&& plan.excludes@.len() == self.excludes_view().len()
                &&& forall|i: int|
                    0 <= i < plan.excludes@.len() ==> #[trigger] plan.excludes@[i]@ == normalized(
                        joined(self.content_view(), self.excludes_view()[i]@),
                    )
            },
    {
        let (kind, url, content, excludes) = match self {
            Source::Zip(z) => (UrlType::Zip, &z.url, &z.content, &z.excludes),
            Source::Git(g) => (UrlType::Git, &g.url, &g.content, &g.excludes),
        };
        let mut out: Vec<String> = Vec::new();
        let mut i: usize = 0;
        while i < excludes.len()
            invariant
                i <= excludes@.len(),
                excludes@ == self.excludes_view(),
                content@ == self.content_view(),
                out@.len() == i,
                forall|j: int|
                    0 <= j < i ==> #[trigger] out@[j]@ == normalized(
                        joined(content@, excludes@[j]@),
                    ),
                forall|j: int| 0 <= j < i ==> stays_inside(#[trigger] out@[j]@),
            decreases excludes@.len() - i,
        {
            let inside = join(content.as_str(), excludes[i].as_str());
            let ex = normalize(inside.as_str());
            if !stays_inside_dir(ex.as_str()) {
                return Err(FetchError::LeavesFetchDir);
            }
            out.push(ex);
            i = i + 1;
        }
        let dir = normalize(content.as_str());
        if !stays_inside_dir(dir.as_str()) {
            return Err(FetchError::LeavesFetchDir);
        }
        assert forall|j: int| 0 <= j < self.excludes_view().len() implies stays_inside(
            normalized(joined(self.content_view(), #[trigger] self.excludes_view()[j]@)),
        ) by {
            assert(stays_inside(out@[j]@));
        }
        Ok(FetchPlan { kind, url: url.clone(), content: dir, excludes: out })
    }
}


/// An optional part of a package: one file of the fetched content.
#[derive(Debug)]
pub struct SubPackage {
    pub id: String,
    pub file: ObjName,
}

/// Why a manifest was refused.
#[derive(Clone, Copy, Debug, PartialEq, Eq, Structural)]
pub enum ManifestError {
    /// A default names a sub-package that the manifest does not declare.
    UnknownDefault,
    /// Two assets have the same name.
    DuplicateAsset,
}

/// Whether no two of `assets` have the same name.
pub open spec fn distinct_names(assets: Seq<ObjName>) -> bool {
    forall|i: int, j: int| 0 <= i < j < assets.len() ==> assets[i]@ != assets[j]@
}

/// Whether one of `pkgs` has the id `id`.
pub open spec fn declares_sub(pkgs: Seq<SubPackage>, id: Seq<char>) -> bool {
    exists|j: int| 0 <= j < pkgs.len() && (#[trigger] pkgs[j]).id@ == id
}

/// Where the first of `pkgs` with the id `id` stands.
pub open spec fn first_sub_pos(pkgs: Seq<SubPackage>, id: Seq<char>) -> int {
    choose|k: int|
        0 <= k < pkgs.len() && (#[trigger] pkgs[k]).id@ == id && forall|j: int|
            0 <= j < k ==> (#[trigger] pkgs[j]).id@ != id
}

/// Whether every id of `default` names one of `pkgs`.
pub open spec fn defaults_declared(pkgs: Seq<SubPackage>, default: Seq<String>) -> bool {
    forall|i: int| 0 <= i < default.len() ==> declares_sub(pkgs, #[trigger] default[i]@)
}

/// The declarative description of an installable package.
#[derive(Debug)]
pub struct Manifest {
    id: String,
    name: String,
    version: String,
    source: Source,
    assets: Vec<ObjName>,
    pkgs: Vec<SubPackage>,
    default: Vec<String>,
}

/// The file of package `id` in the manifest store `store`.
pub open spec fn manifest_file_path(store: Seq<char>, id: Seq<char>) -> Seq<char> {
    joined(store, id + seq!['.', 'j', 's', 'o', 'n'])
}

/// The path of the file of package `id` in the manifest store `store`.
pub fn manifest_file(store: &str, id: &str) -> (r: String)
    ensures
        r@ == manifest_file_path(store@, id@),
{
    let mut file = id.to_owned();
    proof {
        reveal_strlit(".json");
    }
    file.append(".json");
    join(store, file.as_str())
}

impl Manifest {
    pub closed spec fn id_view(&self) -> Seq<char> {
        self.id@
    }

    pub closed spec fn name_view(&self) -> Seq<char> {
        self.name@
    }

    pub closed spec fn version_view(&self) -> Seq<char> {
        self.version@
    }

    pub closed spec fn assets_view(&self) -> Seq<ObjName> {
        self.assets@
    }

    pub closed spec fn pkgs_view(&self) -> Seq<SubPackage> {
        self.pkgs@
    }

    pub closed spec fn default_view(&self) -> Seq<String> {
        self.default@
    }

    pub closed spec fn source_view(&self) -> &Source {
        &self.source
    }

    /// Every default is declared, and the assets form a set.
    #[verifier::type_invariant]
    pub closed spec fn wf(self) -> bool {
        defaults_declared(self.pkgs@, self.default@) && distinct_names(self.assets@)
    }

    /// Builds a manifest, provided that each default sub-package is one it
    /// declares and that no two assets have the same name.
    pub fn new(
        id: String,
        name: String,
        version: String,
        source: Source,
        assets: Vec<ObjName>,
        pkgs: Vec<SubPackage>,
        default: Vec<String>,
    ) -> (r: Result<Manifest, ManifestError>)
        ensures
            r == Err::<Manifest, ManifestError>(ManifestError::UnknownDefault) <==> !defaults_declared(
                pkgs@,
                default@,
            ),
            r == Err::<Manifest, ManifestError>(ManifestError::DuplicateAsset) <==> defaults_declared(
                pkgs@,
                default@,
            ) && !distinct_names(assets@),
            r matches Ok(m) ==> {
                &&& m.wf()
                &&& m.id_view() == id@
                &&& m.name_view() == name@
                &&& m.version_view() == version@
                &&& m.assets_view() == assets@
                &&& m.pkgs_view() == pkgs@
                &&& m.default_view() == default@
                &&& m.source_view() == &source
            },
    {
        let mut i: usize = 0;
        while i < default.len()
            invariant
                i <= default@.len(),
                forall|k: int| 0 <= k < i ==> declares_sub(pkgs@, #[trigger] default@[k]@),
            decreases default@.len() - i,
        {
            if find_sub_in(&pkgs, default[i].as_str()).is_none() {
                return Err(ManifestError::UnknownDefault);
            }
            i = i + 1;
        }
        let mut j: usize = 0;
        while j < assets.len()
            invariant
                defaults_declared(pkgs@, default@),
                j <= assets@.len(),
                forall|a: int, b: int| 0 <= a < b < j ==> assets@[a]@ != assets@[b]@,
            decreases assets@.len() - j,
        {
            let mut k: usize = 0;
            while k < j
                invariant
                    defaults_declared(pkgs@, default@),
                    k <= j < assets@.len(),
                    forall|a: int| 0 <= a < k ==> assets@[a]@ != assets@[j as int]@,
                decreases j - k,
            {
                if same_text(assets[k].as_str(), assets[j].as_str()) {
                    assert(!distinct_names(assets@));
                    return Err(ManifestError::DuplicateAsset);
                }
                k = k + 1;
            }
            j = j + 1;
        }
        Ok(Manifest { id, name, version, source, assets, pkgs, default })
    }

    pub fn id(&self) -> (r: &str)
        ensures
            r@ == self.id_view(),
    {
        self.id.as_str()
    }

    pub fn name(&self) -> (r: &str)
        ensures
            r@ == self.name_view(),
    {
        self.name.as_str()
    }

    pub fn version(&self) -> (r: &str)
        ensures
            r@ == self.version_view(),
    {
        self.version.as_str()
    }

    pub fn source(&self) -> (r: &Source)
        ensures
            r == self.source_view(),
    {
        &self.source
    }

    pub fn assets(&self) -> (r: &Vec<ObjName>)
        ensures
            r@ == self.assets_view(),
            distinct_names(r@),
    {
        proof {
            use_type_invariant(self);
        }
        &self.assets
    }

    pub fn pkgs(&self) -> (r: &Vec<SubPackage>)
        ensures
            r@ == self.pkgs_view(),
    {
        &self.pkgs
    }

    /// The ids of the sub-packages installed unless asked otherwise.
    pub fn defaults(&self) -> (r: &Vec<String>)
        ensures
            r@ == self.default_view(),
            defaults_declared(self.pkgs_view(), r@),
    {
        proof {
            use_type_invariant(self);
        }
        &self.default
    }

    /// The sub-packages to add on an installation: the defaults, unless
    /// `no_default`, then those asked for, in that order.
    pub fn selected_subs(&self, asked: &Vec<String>, no_default: bool) -> (r: Vec<String>)
        ensures
            texts(r@) == (if no_default {
                Seq::<Seq<char>>::empty()
            } else {
                texts(self.default_view())
            }) + texts(asked@),
    {
        let mut r: Vec<String> = Vec::new();
        let ghost first = if no_default {
            Seq::<Seq<char>>::empty()
        } else {
            texts(self.default_view())
        };
        if !no_default {
            let mut i: usize = 0;
            while i < self.default.len()
                invariant
                    i <= self.default@.len(),
                    texts(r@) == texts(self.default@).take(i as int),
                decreases self.default@.len() - i,
            {
                let ghost prev = r@;
                r.push(self.default[i].clone());
                assert(texts(r@) =~= texts(prev).push(self.default@[i as int]@));
                assert(texts(r@) =~= texts(self.default@).take(i + 1));
                i = i + 1;
            }
            assert(texts(self.default@).take(i as int) =~= texts(self.default@));
        } else {
            assert(texts(r@) =~= Seq::<Seq<char>>::empty());
        }
        let mut j: usize = 0;
        while j < asked.len()
            invariant
                j <= asked@.len(),
                texts(r@) == first + texts(asked@).take(j as int),
            decreases asked@.len() - j,
        {
            let ghost prev = r@;
            r.push(asked[j].clone());
            assert(texts(r@) =~= texts(prev).push(asked@[j as int]@));
            assert(texts(r@) =~= first + texts(asked@).take(j + 1));
            j = j + 1;
        }
        assert(texts(asked@).take(j as int) =~= texts(asked@));
        r
    }

    /// The first declared sub-package with the id `id`.
    pub fn find_sub(&self, id: &str) -> (r: Option<&SubPackage>)
        ensures
            r is None <==> !declares_sub(self.pkgs_view(), id@),
            r matches Some(p) ==> p.id@ == id@ && *p == self.pkgs_view()[first_sub_pos(
                self.pkgs_view(),
                id@,
            )],
    {
        match find_sub_in(&self.pkgs, id) {
            Some(k) => {
                assert(self.pkgs_view()[k as int] == self.pkgs@[k as int]);
                Some(&self.pkgs[k])
            },
            None => None,
        }
    }
}

/// The position of the first of `pkgs` with the id `id`.
fn find_sub_in(pkgs: &Vec<SubPackage>, id: &str) -> (r: Option<usize>)
    ensures
        r is None <==> !declares_sub(pkgs@, id@),
        r matches Some(k) ==> k < pkgs@.len() && pkgs@[k as int].id@ == id@ && k == first_sub_pos(
            pkgs@,
            id@,
        ),
{
    let mut i: usize = 0;
    while i < pkgs.len()
        invariant
            i <= pkgs@.len(),
            forall|j: int| 0 <= j < i ==> (#[trigger] pkgs@[j]).id@ != id@,
        decreases pkgs@.len() - i,
    {
        if same_text(pkgs[i].id.as_str(), id) {
            proof {
                let k = first_sub_pos(pkgs@, id@);
                assert(pkgs@[i as int].id@ == id@);
                assert(forall|j: int| 0 <= j < i ==> (#[trigger] pkgs@[j]).id@ != id@);
                assert(0 <= k < pkgs@.len() && pkgs@[k].id@ == id@ && forall|j: int|
                    0 <= j < k ==> (#[trigger] pkgs@[j]).id@ != id@);
                assert(k == i) by {
                    if k < i {
                        assert(pkgs@[k].id@ != id@);
                    } else if k > i {
                        assert(pkgs@[i as int].id@ != id@);
                    }
                }
            }
            return Some(i);
        }
        i = i + 1;
    }
    None
}

} // verus!

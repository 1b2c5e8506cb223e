//! The directories the tool works in, derived once from the user's data
//! directory, and the start-up check of those directories.

use vstd::prelude::*;
use crate::paths::{join, joined};

verus! {

/// The directories of one installation of the tool.
#[derive(Debug)]
pub struct Layout {
    /// The editor's own directory.
    pub typora: String,
    /// The editor's theme directory, where themes are installed.
    pub themes: String,
    /// The records of installed packages, inside the theme directory.
    pub installed: String,
    /// The tool's own directory.
    pub tytm: String,
    /// The local manifest store.
    pub manifests: String,
}

pub open spec fn themes_of(typora: Seq<char>) -> Seq<char> {
    joined(typora, seq!['t', 'h', 'e', 'm', 'e', 's'])
}

pub open spec fn installed_of(typora: Seq<char>) -> Seq<char> {
    joined(themes_of(typora), seq!['t', 'y', 't', 'm', '-', 'p', 'k', 'g', 's'])
}

pub open spec fn tytm_of(data: Seq<char>) -> Seq<char> {
    joined(data, seq!['t', 'y', 't', 'm'])
}

pub open spec fn manifests_of(data: Seq<char>) -> Seq<char> {
    joined(tytm_of(data), seq!['m', 'a', 'n', 'i', 'f', 'e', 's', 't'])
}

impl Layout {
    /// The layout under the user's data directory `data`, where the editor
    /// keeps its files in the directory named `editor_dir`.
    pub fn new(data: &str, editor_dir: &str) -> (r: Layout)
        ensures
            r.typora@ == joined(data@, editor_dir@),
            r.themes@ == themes_of(r.typora@),
            r.installed@ == installed_of(r.typora@),
            r.tytm@ == tytm_of(data@),
            r.manifests@ == manifests_of(data@),
    {
        proof {
            reveal_strlit("themes");
            reveal_strlit("tytm-pkgs");
            reveal_strlit("tytm");
            reveal_strlit("manifest");
        }
        let typora = join(data, editor_dir);
        let themes = join(typora.as_str(), "themes");
        let installed = join(themes.as_str(), "tytm-pkgs");
        let tytm = join(data, "tytm");
        let manifests = join(tytm.as_str(), "manifest");
        Layout { typora, themes, installed, tytm, manifests }
    }
}

/// Which directories of a layout exist.
#[derive(Clone, Copy, Debug)]
pub struct Probe {
    pub typora: bool,
    pub themes: bool,
    pub installed: bool,
    pub tytm: bool,
    pub manifests: bool,
}

/// A directory that the tool needs and cannot create itself.
#[derive(Clone, Copy, Debug, PartialEq, Eq, Structural)]
pub enum InitError {
    /// The editor's directory is not there: the editor is not installed.
    EditorMissing,
    /// The editor's theme directory is not there.
    ThemesMissing,
}

/// The directories that `init` creates, in order, given which exist.
pub open spec fn dirs_to_create(l: Layout, p: Probe) -> Seq<Seq<char>> {
    (if p.installed { seq![] } else { seq![l.installed@] }) + (if p.tytm { seq![] } else { seq![l.tytm@] })
        + (if p.manifests { seq![] } else { seq![l.manifests@] })
}

/// Checks the layout at start-up: the editor's directory and its theme
/// directory must exist; the tool's own directories are created where
/// missing, parents first.
pub fn init(l: &Layout, p: Probe) -> (r: Result<Vec<String>, InitError>)
    ensures
        r == Err::<Vec<String>, InitError>(InitError::EditorMissing) <==> !p.typora,
        r == Err::<Vec<String>, InitError>(InitError::ThemesMissing) <==> p.typora && !p.themes,
        r matches Ok(dirs) ==> p.typora && p.themes && dirs@.map_values(|d: String| d@)
            == dirs_to_create(*l, p),
{
    if !p.typora {
        return Err(InitError::EditorMissing);
    }
    if !p.themes {
        return Err(InitError::ThemesMissing);
    }
    let mut dirs: Vec<String> = Vec::new();
    if !p.installed {
        dirs.push(l.installed.clone());
    }
    if !p.tytm {
        dirs.push(l.tytm.clone());
    }
    if !p.manifests {
        dirs.push(l.manifests.clone());
    }
    assert(dirs@.map_values(|d: String| d@) =~= dirs_to_create(*l, p));
    Ok(dirs)
}

} // verus!

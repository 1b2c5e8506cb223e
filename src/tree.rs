//! A snapshot of a directory tree, and the search for a theme's base
//! directory inside fetched content.

use vstd::prelude::*;
use crate::paths::{join, joined, ends_with, is_obj_name, is_obj_name_str};

verus! {

/// A directory as it was listed: its own name, the names of the files
/// directly inside it and its subdirectories.
#[derive(Debug)]
pub struct DirTree {
    pub name: String,
    pub files: Vec<String>,
    pub dirs: Vec<DirTree>,
}

/// Whether everything that `t` holds is well named: each file name and,
/// at any depth, each directory name is a single path segment, so that no
/// path built from them leaves the directory it is taken in.
pub open spec fn contents_wf(t: DirTree) -> bool
    decreases t, 0nat,
{
    &&& forall|i: int| 0 <= i < t.files@.len() ==> is_obj_name(#[trigger] t.files@[i]@)
    &&& dirs_wf(t.dirs@)
}

/// Whether each of `ds` is a well-formed directory.
pub open spec fn dirs_wf(ds: Seq<DirTree>) -> bool
    decreases ds,
{
    ds.len() == 0 || (dirs_wf(ds.drop_last()) && tree_wf(ds.last()))
}

/// Whether the directory `t` is well named, itself and all it holds.
pub open spec fn tree_wf(t: DirTree) -> bool
    decreases t, 1nat,
{
    is_obj_name(t.name@) && contents_wf(t)
}

/// Whether a file name has the extension `css`: it ends in `.css` and
/// something stands before that dot.
pub open spec fn is_css_name(name: Seq<char>) -> bool {
    name.len() >= 5 && ends_with(name, seq!['.', 'c', 's', 's'])
}

/// Whether the directory holds a stylesheet directly.
pub open spec fn has_css_file(t: DirTree) -> bool {
    exists|i: int| 0 <= i < t.files@.len() && is_css_name(#[trigger] t.files@[i]@)
}

/// The base directory found from `t`, which lies at `path`: `t` itself
/// when it directly holds a stylesheet, otherwise the first base directory
/// found in its subdirectories, in their order.
pub open spec fn base_dir(path: Seq<char>, t: DirTree) -> Option<Seq<char>>
    decreases t,
{
    if has_css_file(t) {
        Some(path)
    } else {
        base_dir_in(path, t.dirs@)
    }
}

/// The first base directory found among `ds`, subdirectories of `path`.
pub open spec fn base_dir_in(path: Seq<char>, ds: Seq<DirTree>) -> Option<Seq<char>>
    decreases ds,
{
    if ds.len() == 0 {
        None
    } else {
        match base_dir(joined(path, ds[0].name@), ds[0]) {
            Some(p) => Some(p),
            None => base_dir_in(path, ds.drop_first()),
        }
    }
}

/// Tells whether everything that `t` holds is well named.
pub fn check_contents(t: &DirTree) -> (r: bool)
    ensures
        r == contents_wf(*t),
    decreases t, 0nat,
{
    let mut i: usize = 0;
    while i < t.files.len()
        invariant
            i <= t.files@.len(),
            forall|j: int| 0 <= j < i ==> is_obj_name(#[trigger] t.files@[j]@),
        decreases t.files@.len() - i,
    {
        if !is_obj_name_str(t.files[i].as_str()) {
            return false;
        }
        i = i + 1;
    }
    let mut k: usize = 0;
    while k < t.dirs.len()
        invariant
            k <= t.dirs@.len(),
            dirs_wf(t.dirs@.take(k as int)),
        decreases t.dirs@.len() - k,
    {
        assert(t.dirs@.take(k + 1).drop_last() =~= t.dirs@.take(k as int));
        if !check_tree(&t.dirs[k]) {
            proof {
                if dirs_wf(t.dirs@) {
                    lemma_dirs_wf_each(t.dirs@, k as int);
                }
            }
            return false;
        }
        k = k + 1;
    }
    assert(t.dirs@.take(k as int) =~= t.dirs@);
    true
}

/// Tells whether the directory `t` is well named, itself and all it holds.
pub fn check_tree(t: &DirTree) -> (r: bool)
    ensures
        r == tree_wf(*t),
    decreases t, 1nat,
{
    is_obj_name_str(t.name.as_str()) && check_contents(t)
}

/// Each directory of a well-formed list is well formed.
pub proof fn lemma_dirs_wf_each(ds: Seq<DirTree>, k: int)
    requires
        dirs_wf(ds),
        0 <= k < ds.len(),
    ensures
        tree_wf(ds[k]),
    decreases ds.len(),
{
    if k < ds.len() - 1 {
        assert(ds.drop_last()[k] == ds[k]);
        lemma_dirs_wf_each(ds.drop_last(), k);
    }
}

pub fn is_css_file_name(name: &str) -> (r: bool)
    ensures
        r == is_css_name(name@),
{
    let n = name.unicode_len();
    if n < 5 {
        return false;
    }
    let r = name.get_char(n - 4) == '.' && name.get_char(n - 3) == 'c' && name.get_char(n - 2)
        == 's' && name.get_char(n - 1) == 's';
    proof {
        let tail = name@.subrange(n - 4, n as int);
        if r {
            assert(tail =~= seq!['.', 'c', 's', 's']);
        } else {
            assert(tail[0] == name@[n - 4]);
            assert(tail[1] == name@[n - 3]);
            assert(tail[2] == name@[n - 2]);
            assert(tail[3] == name@[n - 1]);
        }
    }
    r
}

/// Finds the directory that holds the theme's stylesheets, searching
/// from `t`, which lies at `path`.
pub fn find_base_dir(path: &str, t: &DirTree) -> (r: Option<String>)
    requires
        contents_wf(*t),
    ensures
        r matches Some(p) ==> base_dir(path@, *t) == Some(p@),
        r is None ==> base_dir(path@, *t) is None,
    decreases t,
{
    let mut i: usize = 0;
    while i < t.files.len()
        invariant
            i <= t.files@.len(),
            forall|j: int| 0 <= j < i ==> !is_css_name(#[trigger] t.files@[j]@),
        decreases t.files@.len() - i,
    {
        if is_css_file_name(t.files[i].as_str()) {
            return Some(path.to_owned());
        }
        i = i + 1;
    }
    assert(t.dirs@.skip(0) =~= t.dirs@);
    let mut k: usize = 0;
    while k < t.dirs.len()
        invariant
            contents_wf(*t),
            k <= t.dirs@.len(),
            !has_css_file(*t),
            base_dir(path@, *t) == base_dir_in(path@, t.dirs@.skip(k as int)),
        decreases t.dirs@.len() - k,
    {
        let d = &t.dirs[k];
        let sub = join(path, d.name.as_str());
        proof {
            lemma_dirs_wf_each(t.dirs@, k as int);
        }
        let found = find_base_dir(sub.as_str(), d);
        assert(t.dirs@.skip(k as int)[0] == *d);
        assert(t.dirs@.skip(k as int).drop_first() =~= t.dirs@.skip(k + 1));
        if found.is_some() {
            return found;
        }
        k = k + 1;
    }
    assert(t.dirs@.skip(k as int) =~= Seq::<DirTree>::empty());
    None
}

} // verus!

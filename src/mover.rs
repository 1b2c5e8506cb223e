//! Planning of moves of files and whole directories. A directory is moved
//! by fusion: each of its files is renamed into a destination directory of
//! the same name, which is created only where it does not exist yet, and
//! each source directory, once emptied, is removed, children first, so that
//! nothing of the source remains. A file that already lies at a rename's
//! destination is replaced by it.

use vstd::prelude::*;
use crate::paths::{join, joined};
use crate::tree::{DirTree, is_css_name, is_css_file_name, contents_wf, tree_wf, lemma_dirs_wf_each};

verus! {

/// One filesystem action of a move.
pub enum MoveStep {
    /// Create the directory unless it already exists.
    EnsureDir(Seq<char>),
    /// Rename a file from the first path to the second.
    Rename(Seq<char>, Seq<char>),
    /// Remove the directory, which the steps before have emptied.
    RemoveDir(Seq<char>),
}

/// One filesystem action of a move, to be carried out in order.
#[derive(Debug)]
pub enum MoveOp {
    EnsureDir { path: String },
    Rename { from: String, to: String },
    RemoveDir { path: String },
}

impl View for MoveOp {
    type V = MoveStep;

    open spec fn view(&self) -> MoveStep {
        match self {
            MoveOp::EnsureDir { path } => MoveStep::EnsureDir(path@),
            MoveOp::Rename { from, to } => MoveStep::Rename(from@, to@),
            MoveOp::RemoveDir { path } => MoveStep::RemoveDir(path@),
        }
    }
}

pub open spec fn steps(ops: Seq<MoveOp>) -> Seq<MoveStep> {
    ops.map_values(|o: MoveOp| o@)
}

/// Renames of the files `files` of directory `src` into directory `dst`.
pub open spec fn file_steps(src: Seq<char>, dst: Seq<char>, files: Seq<String>) -> Seq<MoveStep> {
    files.map_values(|f: String| MoveStep::Rename(joined(src, f@), joined(dst, f@)))
}

/// Moving each of `ds`, subdirectories of `src`, into `dst`.
pub open spec fn dirs_steps(src: Seq<char>, dst: Seq<char>, ds: Seq<DirTree>) -> Seq<MoveStep>
    decreases ds,
{
    if ds.len() == 0 {
        seq![]
    } else {
        dirs_steps(src, dst, ds.drop_last()) + tree_steps(src, dst, ds.last())
    }
}

/// Moving what the directory `t`, which lies at `src`, holds into `dst`.
pub open spec fn inside_steps(src: Seq<char>, dst: Seq<char>, t: DirTree) -> Seq<MoveStep>
    decreases t, 0nat,
{
    file_steps(src, dst, t.files@) + dirs_steps(src, dst, t.dirs@)
}

/// Moving the directory `t`, which lies in `src`, into the directory `dst`:
/// the directory `dst/<name>` is made sure of, what `t` holds moves there,
/// and the emptied `src/<name>` is removed.
pub open spec fn tree_steps(src: Seq<char>, dst: Seq<char>, t: DirTree) -> Seq<MoveStep>
    decreases t, 1nat,
{
    let from = joined(src, t.name@);
    let to = joined(dst, t.name@);
    seq![MoveStep::EnsureDir(to)] + inside_steps(from, to, t) + seq![MoveStep::RemoveDir(from)]
}


fn push_op(ops: &mut Vec<MoveOp>, op: MoveOp)
    ensures
        steps(final(ops)@) == steps(old(ops)@).push(op@),
{
    ops.push(op);
    assert(steps(final(ops)@) =~= steps(old(ops)@).push(op@));
}

/// Appends to `ops` the moves of what the directory `t`, which lies at
/// `src`, holds into the directory `dst`.
fn push_inside_moves(src: &str, dst: &str, t: &DirTree, ops: &mut Vec<MoveOp>)
    requires
        contents_wf(*t),
    ensures
        steps(final(ops)@) == steps(old(ops)@) + inside_steps(src@, dst@, *t),
    decreases t, 0nat,
{
    let ghost start = steps(ops@);
    let mut i: usize = 0;
    while i < t.files.len()
        invariant
            i <= t.files@.len(),
            steps(ops@) == start + file_steps(src@, dst@, t.files@.take(i as int)),
        decreases t.files@.len() - i,
    {
        let f = t.files[i].as_str();
        push_op(ops, MoveOp::Rename { from: join(src, f), to: join(dst, f) });
        assert(t.files@.take(i + 1) =~= t.files@.take(i as int).push(t.files@[i as int]));
        assert(file_steps(src@, dst@, t.files@.take(i + 1)) =~= file_steps(
            src@,
            dst@,
            t.files@.take(i as int),
        ).push(MoveStep::Rename(joined(src@, f@), joined(dst@, f@))));
        i = i + 1;
    }
    assert(t.files@.take(i as int) =~= t.files@);
    let mut k: usize = 0;
    while k < t.dirs.len()
        invariant
            contents_wf(*t),
            k <= t.dirs@.len(),
            steps(ops@) == start + file_steps(src@, dst@, t.files@) + dirs_steps(
                src@,
                dst@,
                t.dirs@.take(k as int),
            ),
        decreases t.dirs@.len() - k,
    {
        let d = &t.dirs[k];
        proof {
            lemma_dirs_wf_each(t.dirs@, k as int);
        }
        push_tree_moves(src, dst, d, ops);
        assert(t.dirs@.take(k + 1).drop_last() =~= t.dirs@.take(k as int));
        k = k + 1;
    }
    assert(t.dirs@.take(k as int) =~= t.dirs@);
}

/// Appends to `ops` the moves of the directory `t`, which lies in `src`,
/// into the directory `dst`.
fn push_tree_moves(src: &str, dst: &str, t: &DirTree, ops: &mut Vec<MoveOp>)
    requires
        tree_wf(*t),
    ensures
        steps(final(ops)@) == steps(old(ops)@) + tree_steps(src@, dst@, *t),
    decreases t, 1nat,
{
    let from = join(src, t.name.as_str());
    let to = join(dst, t.name.as_str());
    let ghost start = steps(ops@);
    push_op(ops, MoveOp::EnsureDir { path: to.clone() });
    push_inside_moves(from.as_str(), to.as_str(), t, ops);
    push_op(ops, MoveOp::RemoveDir { path: from });
    assert(steps(ops@) =~= start + tree_steps(src@, dst@, *t));
}

/// The moves of a directory, and where the directory stands after them.
#[derive(Debug)]
pub struct MovePlan {
    pub ops: Vec<MoveOp>,
    pub dest: String,
}

/// Plans the move of the directory `t`, which lies in `src`, into the
/// directory `dst`, fusing it with a directory of the same name there.
pub fn move_to(src: &str, t: &DirTree, dst: &str) -> (r: MovePlan)
    requires
        tree_wf(*t),
    ensures
        steps(r.ops@) == tree_steps(src@, dst@, *t),
        r.dest@ == joined(dst@, t.name@),
{
    let mut ops: Vec<MoveOp> = Vec::new();
    push_tree_moves(src, dst, t, &mut ops);
    assert(steps(ops@) =~= tree_steps(src@, dst@, *t));
    MovePlan { ops, dest: join(dst, t.name.as_str()) }
}

/// Plans the move of everything that the directory `t`, which lies at
/// `src`, holds into the directory `dst`, which then stands for it; the
/// emptied `src` is removed last.
pub fn move_inside_to(src: &str, t: &DirTree, dst: &str) -> (r: MovePlan)
    requires
        contents_wf(*t),
    ensures
        steps(r.ops@) == inside_steps(src@, dst@, *t) + seq![MoveStep::RemoveDir(src@)],
        r.dest@ == dst@,
{
    let mut ops: Vec<MoveOp> = Vec::new();
    push_inside_moves(src, dst, t, &mut ops);
    push_op(&mut ops, MoveOp::RemoveDir { path: src.to_owned() });
    assert(steps(ops@) =~= inside_steps(src@, dst@, *t) + seq![MoveStep::RemoveDir(src@)]);
    MovePlan { ops, dest: dst.to_owned() }
}

/// Plans the move of the single file `name` of directory `src` into `dst`.
pub fn move_file_to(src: &str, name: &str, dst: &str) -> (r: MovePlan)
    ensures
        steps(r.ops@) == seq![MoveStep::Rename(joined(src@, name@), joined(dst@, name@))],
        r.dest@ == joined(dst@, name@),
{
    let mut ops: Vec<MoveOp> = Vec::new();
    push_op(&mut ops, MoveOp::Rename { from: join(src, name), to: join(dst, name) });
    assert(steps(ops@) =~= seq![MoveStep::Rename(joined(src@, name@), joined(dst@, name@))]);
    MovePlan { ops, dest: join(dst, name) }
}


/// The name of a version-control directory, which is never installed.
pub open spec fn is_vcs_dir_name(name: Seq<char>) -> bool {
    name == seq!['.', 'g', 'i', 't']
}

/// Moves of the stylesheets among `files` of directory `src` into `dst`.
pub open spec fn css_steps(src: Seq<char>, dst: Seq<char>, files: Seq<String>) -> Seq<MoveStep>
    decreases files.len(),
{
    if files.len() == 0 {
        seq![]
    } else {
        css_steps(src, dst, files.drop_last()) + if is_css_name(files.last()@) {
            seq![MoveStep::Rename(joined(src, files.last()@), joined(dst, files.last()@))]
        } else {
            seq![]
        }
    }
}

/// Moves of the directories among `ds`, subdirectories of `src`, into
/// `dst`, leaving out version-control data.
pub open spec fn theme_dirs_steps(src: Seq<char>, dst: Seq<char>, ds: Seq<DirTree>) -> Seq<MoveStep>
    decreases ds.len(),
{
    if ds.len() == 0 {
        seq![]
    } else {
        theme_dirs_steps(src, dst, ds.drop_last()) + if is_vcs_dir_name(ds.last().name@) {
            seq![]
        } else {
            tree_steps(src, dst, ds.last())
        }
    }
}

pub fn is_vcs_dir(name: &str) -> (r: bool)
    ensures
        r == is_vcs_dir_name(name@),
{
    if name.unicode_len() != 4 {
        return false;
    }
    let r = name.get_char(0) == '.' && name.get_char(1) == 'g' && name.get_char(2) == 'i'
        && name.get_char(3) == 't';
    proof {
        if r {
            assert(name@ =~= seq!['.', 'g', 'i', 't']);
        } else if name@ == seq!['.', 'g', 'i', 't'] {
            assert(name@[0] == '.' && name@[1] == 'g' && name@[2] == 'i' && name@[3] == 't');
        }
    }
    r
}

/// Plans the installation of a theme found at `base`, the directory `t`:
/// each stylesheet directly in it and each of its subdirectories but
/// version-control data moves into the theme directory `dst`.
pub fn theme_moves(base: &str, t: &DirTree, dst: &str) -> (r: Vec<MoveOp>)
    requires
        contents_wf(*t),
    ensures
        steps(r@) == css_steps(base@, dst@, t.files@) + theme_dirs_steps(base@, dst@, t.dirs@),
{
    let mut ops: Vec<MoveOp> = Vec::new();
    let mut i: usize = 0;
    while i < t.files.len()
        invariant
            i <= t.files@.len(),
            steps(ops@) == css_steps(base@, dst@, t.files@.take(i as int)),
        decreases t.files@.len() - i,
    {
        let f = t.files[i].as_str();
        assert(t.files@.take(i + 1).drop_last() =~= t.files@.take(i as int));
        if is_css_file_name(f) {
            push_op(&mut ops, MoveOp::Rename { from: join(base, f), to: join(dst, f) });
        }
        i = i + 1;
    }
    assert(t.files@.take(i as int) =~= t.files@);
    let mut k: usize = 0;
    while k < t.dirs.len()
        invariant
            contents_wf(*t),
            k <= t.dirs@.len(),
            steps(ops@) == css_steps(base@, dst@, t.files@) + theme_dirs_steps(
                base@,
                dst@,
                t.dirs@.take(k as int),
            ),
        decreases t.dirs@.len() - k,
    {
        let d = &t.dirs[k];
        assert(t.dirs@.take(k + 1).drop_last() =~= t.dirs@.take(k as int));
        if !is_vcs_dir(d.name.as_str()) {
            proof {
                lemma_dirs_wf_each(t.dirs@, k as int);
            }
            push_tree_moves(base, dst, d, &mut ops);
        }
        proof {
            assert(t.dirs@.take(k + 1).last() == *d);
        }
        k = k + 1;
    }
    assert(t.dirs@.take(k as int) =~= t.dirs@);
    ops
}


/// The files that the renames among `s` take away, in order.
pub open spec fn rename_sources(s: Seq<MoveStep>) -> Seq<Seq<char>>
    decreases s.len(),
{
    if s.len() == 0 {
        seq![]
    } else {
        rename_sources(s.drop_last()) + match s.last() {
            MoveStep::Rename(from, _) => seq![from],
            _ => seq![],
        }
    }
}

/// The files that the renames among `s` create, in order.
pub open spec fn rename_targets(s: Seq<MoveStep>) -> Seq<Seq<char>>
    decreases s.len(),
{
    if s.len() == 0 {
        seq![]
    } else {
        rename_targets(s.drop_last()) + match s.last() {
            MoveStep::Rename(_, to) => seq![to],
            _ => seq![],
        }
    }
}

/// The directories that the steps `s` remove, in order.
pub open spec fn removed_dirs(s: Seq<MoveStep>) -> Seq<Seq<char>>
    decreases s.len(),
{
    if s.len() == 0 {
        seq![]
    } else {
        removed_dirs(s.drop_last()) + match s.last() {
            MoveStep::RemoveDir(d) => seq![d],
            _ => seq![],
        }
    }
}

/// The paths of all files that the directory `t` holds, at any depth, when
/// it lies at `dir`.
pub open spec fn files_inside(dir: Seq<char>, t: DirTree) -> Seq<Seq<char>>
    decreases t, 0nat,
{
    t.files@.map_values(|f: String| joined(dir, f@)) + files_in_dirs(dir, t.dirs@)
}

/// The paths of all files of the directories `ds`, subdirectories of `dir`.
pub open spec fn files_in_dirs(dir: Seq<char>, ds: Seq<DirTree>) -> Seq<Seq<char>>
    decreases ds,
{
    if ds.len() == 0 {
        seq![]
    } else {
        files_in_dirs(dir, ds.drop_last()) + files_of_tree(dir, ds.last())
    }
}

/// The paths of all files of the directory `t`, which lies in `parent`.
pub open spec fn files_of_tree(parent: Seq<char>, t: DirTree) -> Seq<Seq<char>>
    decreases t, 1nat,
{
    files_inside(joined(parent, t.name@), t)
}

/// The paths of the directories `ds`, subdirectories of `dir`, and of all
/// directories inside them, each after the directories it holds.
pub open spec fn dirs_in_dirs(dir: Seq<char>, ds: Seq<DirTree>) -> Seq<Seq<char>>
    decreases ds,
{
    if ds.len() == 0 {
        seq![]
    } else {
        dirs_in_dirs(dir, ds.drop_last()) + dirs_of_tree(dir, ds.last())
    }
}

/// The paths of the directory `t`, which lies in `parent`, and of all
/// directories inside it, each after the directories it holds.
pub open spec fn dirs_of_tree(parent: Seq<char>, t: DirTree) -> Seq<Seq<char>>
    decreases t, 1nat,
{
    let here = joined(parent, t.name@);
    dirs_in_dirs(here, t.dirs@) + seq![here]
}

/// How many files the directory `t` holds, at any depth.
pub open spec fn file_count(t: DirTree) -> nat
    decreases t, 1nat,
{
    t.files@.len() + dirs_file_count(t.dirs@)
}

pub open spec fn dirs_file_count(ds: Seq<DirTree>) -> nat
    decreases ds,
{
    if ds.len() == 0 {
        0
    } else {
        dirs_file_count(ds.drop_last()) + file_count(ds.last())
    }
}

proof fn lemma_steps_concat(a: Seq<MoveStep>, b: Seq<MoveStep>)
    ensures
        rename_sources(a + b) == rename_sources(a) + rename_sources(b),
        rename_targets(a + b) == rename_targets(a) + rename_targets(b),
        removed_dirs(a + b) == removed_dirs(a) + removed_dirs(b),
    decreases b.len(),
{
    if b.len() == 0 {
        assert(a + b =~= a);
        assert(rename_sources(a) + rename_sources(b) =~= rename_sources(a));
        assert(rename_targets(a) + rename_targets(b) =~= rename_targets(a));
        assert(removed_dirs(a) + removed_dirs(b) =~= removed_dirs(a));
    } else {
        lemma_steps_concat(a, b.drop_last());
        assert((a + b).drop_last() =~= a + b.drop_last());
        assert((a + b).last() == b.last());
        assert(rename_sources(a + b) =~= rename_sources(a) + rename_sources(b));
        assert(rename_targets(a + b) =~= rename_targets(a) + rename_targets(b));
        assert(removed_dirs(a + b) =~= removed_dirs(a) + removed_dirs(b));
    }
}

proof fn lemma_single_step(m: MoveStep)
    ensures
        rename_sources(seq![m]) == match m {
            MoveStep::Rename(from, _) => seq![from],
            _ => Seq::<Seq<char>>::empty(),
        },
        rename_targets(seq![m]) == match m {
            MoveStep::Rename(_, to) => seq![to],
            _ => Seq::<Seq<char>>::empty(),
        },
        removed_dirs(seq![m]) == match m {
            MoveStep::RemoveDir(d) => seq![d],
            _ => Seq::<Seq<char>>::empty(),
        },
{
    let one = seq![m];
    assert(one.drop_last() =~= Seq::<MoveStep>::empty());
    assert(one.last() == m);
    assert(rename_sources(one.drop_last()) =~= seq![]);
    assert(rename_targets(one.drop_last()) =~= seq![]);
    assert(removed_dirs(one.drop_last()) =~= seq![]);
    assert(rename_sources(one) =~= rename_sources(one.drop_last()) + match m {
        MoveStep::Rename(from, _) => seq![from],
        _ => Seq::<Seq<char>>::empty(),
    });
    assert(rename_targets(one) =~= rename_targets(one.drop_last()) + match m {
        MoveStep::Rename(_, to) => seq![to],
        _ => Seq::<Seq<char>>::empty(),
    });
    assert(removed_dirs(one) =~= removed_dirs(one.drop_last()) + match m {
        MoveStep::RemoveDir(d) => seq![d],
        _ => Seq::<Seq<char>>::empty(),
    });
}

proof fn lemma_file_renames(src: Seq<char>, dst: Seq<char>, files: Seq<String>)
    ensures
        rename_sources(file_steps(src, dst, files)) == files.map_values(|f: String| joined(src, f@)),
        rename_targets(file_steps(src, dst, files)) == files.map_values(|f: String| joined(dst, f@)),
        removed_dirs(file_steps(src, dst, files)) == Seq::<Seq<char>>::empty(),
    decreases files.len(),
{
    if files.len() > 0 {
        let fs = files.drop_last();
        lemma_file_renames(src, dst, fs);
        assert(file_steps(src, dst, files).drop_last() =~= file_steps(src, dst, fs));
        assert(files.map_values(|f: String| joined(src, f@)) =~= fs.map_values(
            |f: String| joined(src, f@),
        ) + seq![joined(src, files.last()@)]);
        assert(files.map_values(|f: String| joined(dst, f@)) =~= fs.map_values(
            |f: String| joined(dst, f@),
        ) + seq![joined(dst, files.last()@)]);
        assert(removed_dirs(file_steps(src, dst, files)) =~= removed_dirs(file_steps(src, dst, fs)));
    } else {
        assert(file_steps(src, dst, files) =~= seq![]);
        assert(files.map_values(|f: String| joined(src, f@)) =~= seq![]);
        assert(files.map_values(|f: String| joined(dst, f@)) =~= seq![]);
    }
}

proof fn lemma_inside_renames(src: Seq<char>, dst: Seq<char>, t: DirTree)
    ensures
        rename_sources(inside_steps(src, dst, t)) == files_inside(src, t),
        rename_targets(inside_steps(src, dst, t)) == files_inside(dst, t),
        removed_dirs(inside_steps(src, dst, t)) == dirs_in_dirs(src, t.dirs@),
        files_inside(src, t).len() == file_count(t),
        files_inside(dst, t).len() == file_count(t),
    decreases t, 0nat,
{
    lemma_file_renames(src, dst, t.files@);
    lemma_dirs_renames(src, dst, t.dirs@);
    lemma_steps_concat(file_steps(src, dst, t.files@), dirs_steps(src, dst, t.dirs@));
    assert(Seq::<Seq<char>>::empty() + dirs_in_dirs(src, t.dirs@) =~= dirs_in_dirs(src, t.dirs@));
}

proof fn lemma_dirs_renames(src: Seq<char>, dst: Seq<char>, ds: Seq<DirTree>)
    ensures
        rename_sources(dirs_steps(src, dst, ds)) == files_in_dirs(src, ds),
        rename_targets(dirs_steps(src, dst, ds)) == files_in_dirs(dst, ds),
        removed_dirs(dirs_steps(src, dst, ds)) == dirs_in_dirs(src, ds),
        files_in_dirs(src, ds).len() == dirs_file_count(ds),
        files_in_dirs(dst, ds).len() == dirs_file_count(ds),
    decreases ds,
{
    if ds.len() > 0 {
        lemma_dirs_renames(src, dst, ds.drop_last());
        lemma_tree_renames(src, dst, ds.last());
        lemma_steps_concat(dirs_steps(src, dst, ds.drop_last()), tree_steps(src, dst, ds.last()));
    } else {
        assert(removed_dirs(dirs_steps(src, dst, ds)) =~= dirs_in_dirs(src, ds));
    }
}

proof fn lemma_tree_renames(src: Seq<char>, dst: Seq<char>, t: DirTree)
    ensures
        rename_sources(tree_steps(src, dst, t)) == files_of_tree(src, t),
        rename_targets(tree_steps(src, dst, t)) == files_of_tree(dst, t),
        removed_dirs(tree_steps(src, dst, t)) == dirs_of_tree(src, t),
        files_of_tree(src, t).len() == file_count(t),
        files_of_tree(dst, t).len() == file_count(t),
    decreases t, 1nat,
{
    let from = joined(src, t.name@);
    let to = joined(dst, t.name@);
    let head = seq![MoveStep::EnsureDir(to)];
    let tail = seq![MoveStep::RemoveDir(from)];
    let body = inside_steps(from, to, t);
    lemma_inside_renames(from, to, t);
    lemma_single_step(MoveStep::EnsureDir(to));
    lemma_single_step(MoveStep::RemoveDir(from));
    lemma_steps_concat(head, body);
    lemma_steps_concat(head + body, tail);
    assert(tree_steps(src, dst, t) == head + body + tail);
    assert(rename_sources(tree_steps(src, dst, t)) =~= files_of_tree(src, t));
    assert(rename_targets(tree_steps(src, dst, t)) =~= files_of_tree(dst, t));
    assert(removed_dirs(tree_steps(src, dst, t)) =~= dirs_of_tree(src, t));
}

/// Moving a directory of N files renames exactly those N files, each from
/// its place under the source to the same place under the destination, so
/// N arrive at the destination; then it removes every directory of the
/// source, each after the directories it holds and the source itself last,
/// so nothing of the source remains.
pub proof fn lemma_move_keeps_files(src: Seq<char>, dst: Seq<char>, t: DirTree)
    ensures
        rename_sources(tree_steps(src, dst, t)) == files_of_tree(src, t),
        rename_targets(tree_steps(src, dst, t)) == files_of_tree(dst, t),
        files_of_tree(src, t).len() == file_count(t),
        files_of_tree(dst, t).len() == file_count(t),
        removed_dirs(tree_steps(src, dst, t)) == dirs_of_tree(src, t),
        tree_steps(src, dst, t).last() == MoveStep::RemoveDir(joined(src, t.name@)),
{
    lemma_tree_renames(src, dst, t);
}

/// Whether the path `p` lies inside the directory `dir`.
pub open spec fn within(p: Seq<char>, dir: Seq<char>) -> bool {
    (dir + seq!['/']).is_prefix_of(p)
}

proof fn lemma_within_joined(dir: Seq<char>, name: Seq<char>, p: Seq<char>)
    requires
        within(p, joined(dir, name)) || p == joined(dir, name),
    ensures
        within(p, dir),
{
    let pre = dir + seq!['/'];
    let j = joined(dir, name);
    assert(pre.len() <= j.len());
    assert(j.subrange(0, pre.len() as int) =~= pre);
    if p != j {
        let q = j + seq!['/'];
        assert(p.subrange(0, q.len() as int) =~= q);
        assert(p.subrange(0, pre.len() as int) =~= q.subrange(0, pre.len() as int));
        assert(q.subrange(0, pre.len() as int) =~= pre);
    }
}

proof fn lemma_inside_within(dir: Seq<char>, t: DirTree)
    ensures
        forall|k: int|
            0 <= k < files_inside(dir, t).len() ==> within(#[trigger] files_inside(dir, t)[k], dir),
    decreases t, 0nat,
{
    let fs = t.files@.map_values(|f: String| joined(dir, f@));
    lemma_dirs_within(dir, t.dirs@);
    assert forall|k: int| 0 <= k < fs.len() implies within(#[trigger] fs[k], dir) by {
        lemma_within_joined(dir, t.files@[k]@, fs[k]);
    }
    let all = files_inside(dir, t);
    assert forall|k: int| 0 <= k < all.len() implies within(#[trigger] all[k], dir) by {
        if k < fs.len() {
            assert(all[k] == fs[k]);
        } else {
            assert(all[k] == files_in_dirs(dir, t.dirs@)[k - fs.len()]);
        }
    }
}

proof fn lemma_dirs_within(dir: Seq<char>, ds: Seq<DirTree>)
    ensures
        forall|k: int|
            0 <= k < files_in_dirs(dir, ds).len() ==> within(
                #[trigger] files_in_dirs(dir, ds)[k],
                dir,
            ),
    decreases ds,
{
    if ds.len() > 0 {
        let a = files_in_dirs(dir, ds.drop_last());
        let b = files_of_tree(dir, ds.last());
        lemma_dirs_within(dir, ds.drop_last());
        lemma_tree_within(dir, ds.last());
        let all = files_in_dirs(dir, ds);
        assert forall|k: int| 0 <= k < all.len() implies within(#[trigger] all[k], dir) by {
            if k < a.len() {
                assert(all[k] == a[k]);
            } else {
                assert(all[k] == b[k - a.len()]);
            }
        }
    }
}

proof fn lemma_tree_within(dir: Seq<char>, t: DirTree)
    ensures
        forall|k: int|
            0 <= k < files_of_tree(dir, t).len() ==> within(#[trigger] files_of_tree(dir, t)[k], dir),
        forall|k: int|
            0 <= k < files_of_tree(dir, t).len() ==> within(
                #[trigger] files_of_tree(dir, t)[k],
                joined(dir, t.name@),
            ),
    decreases t, 1nat,
{
    let sub = joined(dir, t.name@);
    lemma_inside_within(sub, t);
    assert(files_of_tree(dir, t) == files_inside(sub, t));
    assert forall|k: int| 0 <= k < files_of_tree(dir, t).len() implies within(
        #[trigger] files_of_tree(dir, t)[k],
        dir,
    ) by {
        lemma_within_joined(dir, t.name@, files_of_tree(dir, t)[k]);
    }
}

/// Moving the directory `t` into `dst` fuses it with `dst/<name>`: the
/// move first makes sure of that directory, without replacing it, and
/// every file that the move renames lands inside it.
pub proof fn lemma_move_fuses_into_dir(src: Seq<char>, dst: Seq<char>, t: DirTree)
    ensures
        tree_steps(src, dst, t)[0] == MoveStep::EnsureDir(joined(dst, t.name@)),
        forall|k: int|
            0 <= k < rename_targets(tree_steps(src, dst, t)).len() ==> within(
                #[trigger] rename_targets(tree_steps(src, dst, t))[k],
                joined(dst, t.name@),
            ),
{
    lemma_tree_renames(src, dst, t);
    lemma_tree_within(dst, t);
}

} // verus!

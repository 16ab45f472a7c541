//! The copy-and-substitute engine over a directory tree.
//!
//! A template tree is mirrored into an output tree: each directory of the
//! template has exactly one output directory at the same relative path,
//! each regular file is run through the substitution engine and written
//! under the same name, and the manifest file is skipped everywhere.  The
//! embedding program walks the real filesystem with one concurrent task
//! per subdirectory; every task applies the same per-entry decisions that
//! [`plan_entry`] states and every file the same rewriting that
//! [`crate::subst::substitute`] states, so the tree functions here are the
//! engine's semantics with the scheduling stripped away.

use vstd::prelude::*;
use crate::error::Error;
use crate::index::Index;
use crate::manifest::{manifest_file_name, is_manifest_name};
use crate::subst::{substitute, substitute_spec};

verus! {

broadcast use vstd::seq_lib::lemma_seq_contains;

/// One regular file of a directory tree: its name and its content.
#[derive(Debug, PartialEq, Eq)]
pub struct FileEntry {
    pub name: Vec<u8>,
    pub content: Vec<u8>,
}

/// One subdirectory of a directory tree: its name and its own tree.
#[derive(Debug, PartialEq, Eq)]
pub struct SubdirEntry {
    pub name: Vec<u8>,
    pub tree: DirTree,
}

/// A directory tree: the regular files and the subdirectories of one
/// directory, each subdirectory carrying its own tree.
#[derive(Debug, PartialEq, Eq)]
pub struct DirTree {
    pub files: Vec<FileEntry>,
    pub subdirs: Vec<SubdirEntry>,
}

/// The files of `fs` that are copied: all but the manifest file.
pub open spec fn kept_files(fs: Seq<FileEntry>) -> Seq<FileEntry> {
    fs.filter(|f: FileEntry| f.name@ != manifest_file_name())
}

/// Whether `of` holds exactly the kept files of `tf`, in order, each with
/// its name kept and its content run through substitution with `ps`.
pub open spec fn files_rendered(
    tf: Seq<FileEntry>,
    ps: Seq<(Seq<u8>, Seq<u8>)>,
    of: Seq<FileEntry>,
) -> bool {
    let kept = kept_files(tf);
    &&& of.len() == kept.len()
    &&& forall|i: int|
        0 <= i < kept.len() ==> (#[trigger] of[i]).name@ == kept[i].name@ && of[i].content@
            == substitute_spec(kept[i].content@, ps)
}

/// Whether output tree `o` is the rendering of template tree `t` under the
/// index pairs `ps`: files rendered, the manifest skipped, and one output
/// subdirectory per template subdirectory, same name, rendered recursively.
pub open spec fn renders_to(t: DirTree, ps: Seq<(Seq<u8>, Seq<u8>)>, o: DirTree) -> bool
    decreases t,
{
    &&& files_rendered(t.files@, ps, o.files@)
    &&& o.subdirs@.len() == t.subdirs@.len()
    &&& forall|i: int|
        0 <= i < t.subdirs@.len() ==> (#[trigger] o.subdirs@[i]).name@ == t.subdirs@[i].name@
            && renders_to(t.subdirs@[i].tree, ps, o.subdirs@[i].tree)
}

/// Extending the scanned prefix by one file extends its kept files by that
/// file exactly when it is not the manifest.
proof fn lemma_kept_files_take_step(fs: Seq<FileEntry>, i: int)
    requires
        0 <= i < fs.len(),
    ensures
        fs[i].name@ != manifest_file_name() ==> kept_files(fs.take(i + 1)) == kept_files(
            fs.take(i),
        ).push(fs[i]),
        fs[i].name@ == manifest_file_name() ==> kept_files(fs.take(i + 1)) == kept_files(
            fs.take(i),
        ),
{
    reveal(Seq::filter);
    assert(fs.take(i + 1).drop_last() =~= fs.take(i));
    assert(fs.take(i + 1).last() == fs[i]);
}

/// Renders template tree `t` into a fresh output tree: one output
/// directory per template directory, the manifest file skipped, every
/// other file rewritten by the substitution engine.
pub fn render_tree(t: &DirTree, index: &Index) -> (o: DirTree)
    ensures
        renders_to(*t, index.pairs(), o),
    decreases *t,
{
    let ghost ps = index.pairs();
    let mut files: Vec<FileEntry> = Vec::new();
    let mut i: usize = 0;
    proof {
        reveal(Seq::filter);
        assert(t.files@.take(0) =~= Seq::<FileEntry>::empty());
        assert(kept_files(Seq::<FileEntry>::empty()) =~= Seq::<FileEntry>::empty());
    }
    while i < t.files.len()
        invariant
            i <= t.files@.len(),
            ps == index.pairs(),
            files_rendered(t.files@.take(i as int), ps, files@),
        decreases t.files@.len() - i,
    {
        let f = &t.files[i];
        proof {
            lemma_kept_files_take_step(t.files@, i as int);
        }
        if !is_manifest_name(&f.name) {
            let name = f.name.clone();
            assert(name@ =~= f.name@);
            let raw = f.content.clone();
            assert(raw@ =~= f.content@);
            let content = substitute(raw, index);
            files.push(FileEntry { name, content });
        }
        i += 1;
    }
    assert(t.files@.take(t.files@.len() as int) =~= t.files@);

    let mut subdirs: Vec<SubdirEntry> = Vec::new();
    let mut j: usize = 0;
    while j < t.subdirs.len()
        invariant
            j <= t.subdirs@.len(),
            ps == index.pairs(),
            subdirs@.len() == j,
            forall|x: int|
                0 <= x < j ==> (#[trigger] subdirs@[x]).name@ == t.subdirs@[x].name@
                    && renders_to(t.subdirs@[x].tree, ps, subdirs@[x].tree),
        decreases t.subdirs@.len() - j,
    {
        let s = &t.subdirs[j];
        let sub = render_tree(&s.tree, index);
        let name = s.name.clone();
        assert(name@ =~= s.name@);
        subdirs.push(SubdirEntry { name, tree: sub });
        j += 1;
    }
    DirTree { files, subdirs }
}

/// Whether two trees are byte-identical: same file names and contents and
/// same subdirectory names, in order, recursively.
pub open spec fn same_tree(a: DirTree, b: DirTree) -> bool
    decreases a,
{
    &&& a.files@.len() == b.files@.len()
    &&& forall|i: int|
        0 <= i < a.files@.len() ==> (#[trigger] a.files@[i]).name@ == b.files@[i].name@
            && a.files@[i].content@ == b.files@[i].content@
    &&& a.subdirs@.len() == b.subdirs@.len()
    &&& forall|i: int|
        0 <= i < a.subdirs@.len() ==> (#[trigger] a.subdirs@[i]).name@ == b.subdirs@[i].name@
            && same_tree(a.subdirs@[i].tree, b.subdirs@[i].tree)
}

/// Running the engine twice with an identical template and index produces
/// byte-identical output trees: rendering is deterministic, whatever order
/// the concurrent tasks of a run complete in.
pub proof fn lemma_render_deterministic(
    t: DirTree,
    ps: Seq<(Seq<u8>, Seq<u8>)>,
    o1: DirTree,
    o2: DirTree,
)
    requires
        renders_to(t, ps, o1),
        renders_to(t, ps, o2),
    ensures
        same_tree(o1, o2),
    decreases t,
{
    assert forall|i: int| 0 <= i < o1.subdirs@.len() implies (#[trigger] o1.subdirs@[i]).name@
        == o2.subdirs@[i].name@ && same_tree(o1.subdirs@[i].tree, o2.subdirs@[i].tree) by {
        lemma_render_deterministic(t.subdirs@[i].tree, ps, o1.subdirs@[i].tree,
            o2.subdirs@[i].tree);
    }
}

/// Whether for every directory of `t` there is one directory of `o` with
/// the same name at the same relative place, and no others.
pub open spec fn mirrors_dirs(t: DirTree, o: DirTree) -> bool
    decreases t,
{
    &&& o.subdirs@.len() == t.subdirs@.len()
    &&& forall|i: int|
        0 <= i < t.subdirs@.len() ==> (#[trigger] o.subdirs@[i]).name@ == t.subdirs@[i].name@
            && mirrors_dirs(t.subdirs@[i].tree, o.subdirs@[i].tree)
}

/// The subdirectory names of `ds`, in order.
pub open spec fn subdir_names(ds: Seq<SubdirEntry>) -> Seq<Seq<u8>> {
    Seq::new(ds.len(), |i: int| ds[i].name@)
}

/// The file names of `fs`, in order.
pub open spec fn file_names(fs: Seq<FileEntry>) -> Seq<Seq<u8>> {
    Seq::new(fs.len(), |i: int| fs[i].name@)
}

/// Whether no two files and no two subdirectories of one directory share
/// a name, recursively: what a real filesystem guarantees of a tree.
pub open spec fn wf_tree(t: DirTree) -> bool
    decreases t,
{
    &&& file_names(t.files@).no_duplicates()
    &&& subdir_names(t.subdirs@).no_duplicates()
    &&& forall|i: int| 0 <= i < t.subdirs@.len() ==> wf_tree((#[trigger] t.subdirs@[i]).tree)
}

/// Every file name kept by the manifest filter is a file name of `fs`.
proof fn lemma_kept_names_contained(fs: Seq<FileEntry>, x: Seq<u8>)
    requires
        file_names(kept_files(fs)).contains(x),
    ensures
        file_names(fs).contains(x),
    decreases fs.len(),
{
    reveal(Seq::filter);
    if fs.len() > 0 {
        let kn = file_names(kept_files(fs));
        let j = choose|j: int| 0 <= j < kn.len() && kn[j] == x;
        if fs.last().name@ != manifest_file_name() && j == kn.len() - 1 {
            assert(file_names(fs)[fs.len() - 1] == x);
        } else {
            assert(file_names(kept_files(fs.drop_last()))[j] == x);
            lemma_kept_names_contained(fs.drop_last(), x);
            let l = choose|l: int|
                0 <= l < file_names(fs.drop_last()).len() && file_names(fs.drop_last())[l] == x;
            assert(file_names(fs)[l] == x);
        }
    }
}

/// The manifest filter keeps file names free of duplicates.
proof fn lemma_kept_names_no_duplicates(fs: Seq<FileEntry>)
    requires
        file_names(fs).no_duplicates(),
    ensures
        file_names(kept_files(fs)).no_duplicates(),
    decreases fs.len(),
{
    reveal(Seq::filter);
    if fs.len() > 0 {
        let dn = file_names(fs.drop_last());
        assert forall|a: int, b: int|
            0 <= a < dn.len() && 0 <= b < dn.len() && a != b implies dn[a] != dn[b] by {
            assert(dn[a] == file_names(fs)[a]);
            assert(dn[b] == file_names(fs)[b]);
        }
        assert(dn.no_duplicates());
        lemma_kept_names_no_duplicates(fs.drop_last());
        if fs.last().name@ != manifest_file_name() {
            let kd = kept_files(fs.drop_last());
            assert(!file_names(kd).contains(fs.last().name@)) by {
                if file_names(kd).contains(fs.last().name@) {
                    lemma_kept_names_contained(fs.drop_last(), fs.last().name@);
                    let l = choose|l: int|
                        0 <= l < file_names(fs.drop_last()).len() && file_names(
                            fs.drop_last(),
                        )[l] == fs.last().name@;
                    assert(file_names(fs)[l] == file_names(fs)[fs.len() - 1]);
                }
            }
            assert(file_names(kept_files(fs)) =~= file_names(kd).push(fs.last().name@));
            let kn = file_names(kd);
            let s = kn.push(fs.last().name@);
            assert forall|a: int, b: int|
                0 <= a < s.len() && 0 <= b < s.len() && a != b implies s[a] != s[b] by {
                if a < kn.len() && b == kn.len() && s[a] == s[b] {
                    assert(kn[a] == fs.last().name@);
                } else if b < kn.len() && a == kn.len() && s[a] == s[b] {
                    assert(kn[b] == fs.last().name@);
                }
            }
        } else {
            assert(file_names(kept_files(fs)) =~= file_names(kept_files(fs.drop_last())));
        }
    }
}

/// Structural mirroring: for every directory of the template tree there is
/// exactly one directory of the output tree at the same relative path,
/// whether or not it holds any files; names stay free of duplicates, so no
/// two template directories collapse into one.
pub proof fn lemma_render_mirrors_structure(t: DirTree, ps: Seq<(Seq<u8>, Seq<u8>)>, o: DirTree)
    requires
        renders_to(t, ps, o),
    ensures
        mirrors_dirs(t, o),
        wf_tree(t) ==> wf_tree(o),
    decreases t,
{
    assert forall|i: int| 0 <= i < t.subdirs@.len() implies (#[trigger] o.subdirs@[i]).name@
        == t.subdirs@[i].name@ && mirrors_dirs(t.subdirs@[i].tree, o.subdirs@[i].tree)
        && (wf_tree(t.subdirs@[i].tree) ==> wf_tree(o.subdirs@[i].tree)) by {
        lemma_render_mirrors_structure(t.subdirs@[i].tree, ps, o.subdirs@[i].tree);
    }
    if wf_tree(t) {
        assert(subdir_names(o.subdirs@) =~= subdir_names(t.subdirs@));
        lemma_kept_names_no_duplicates(t.files@);
        assert(file_names(o.files@) =~= file_names(kept_files(t.files@)));
    }
}

/// Whether no file anywhere in `t` bears the manifest file's name.
pub open spec fn no_manifest_file(t: DirTree) -> bool
    decreases t,
{
    &&& forall|i: int|
        0 <= i < t.files@.len() ==> (#[trigger] t.files@[i]).name@ != manifest_file_name()
    &&& forall|i: int|
        0 <= i < t.subdirs@.len() ==> no_manifest_file((#[trigger] t.subdirs@[i]).tree)
}

/// Manifest exclusion: the manifest file never appears anywhere under the
/// output root.
pub proof fn lemma_render_excludes_manifest(t: DirTree, ps: Seq<(Seq<u8>, Seq<u8>)>, o: DirTree)
    requires
        renders_to(t, ps, o),
    ensures
        no_manifest_file(o),
    decreases t,
{
    let kept = kept_files(t.files@);
    assert forall|i: int| 0 <= i < o.files@.len() implies (#[trigger] o.files@[i]).name@
        != manifest_file_name() by {
        t.files@.lemma_filter_pred(|f: FileEntry| f.name@ != manifest_file_name(), i);
    }
    assert forall|i: int| 0 <= i < o.subdirs@.len() implies no_manifest_file(
        (#[trigger] o.subdirs@[i]).tree,
    ) by {
        lemma_render_excludes_manifest(t.subdirs@[i].tree, ps, o.subdirs@[i].tree);
    }
}

/// What kind of directory entry the walker met.
#[derive(Clone, Copy, Debug, PartialEq, Eq, Structural)]
pub enum EntryKind {
    /// A regular file.
    File,
    /// A directory.
    Directory,
    /// Neither a regular file nor a directory: a symlink or special file.
    Other,
}

/// What the walker does with one directory entry.
#[derive(Clone, Copy, Debug, PartialEq, Eq, Structural)]
pub enum EntryAction {
    /// The manifest file: never copied.
    SkipManifest,
    /// A symlink or special file: outside the contract, skipped.
    SkipOther,
    /// A regular file: read, substitute, write under the same name.
    RewriteFile,
    /// A subdirectory: create the mirrored output directory and spawn one
    /// concurrent copy task that walks it with the same logic.
    EnterDirectory,
}

/// The walker's decision for one directory entry.
pub open spec fn plan_entry_spec(name: Seq<u8>, kind: EntryKind) -> EntryAction {
    match kind {
        EntryKind::File => if name == manifest_file_name() {
            EntryAction::SkipManifest
        } else {
            EntryAction::RewriteFile
        },
        EntryKind::Directory => EntryAction::EnterDirectory,
        EntryKind::Other => EntryAction::SkipOther,
    }
}

/// Decides what to do with one directory entry: skip the manifest file,
/// rewrite every other regular file, enter directories, skip the rest.
pub fn plan_entry(name: &Vec<u8>, kind: EntryKind) -> (a: EntryAction)
    ensures
        a == plan_entry_spec(name@, kind),
{
    match kind {
        EntryKind::File => {
            if is_manifest_name(name) {
                EntryAction::SkipManifest
            } else {
                EntryAction::RewriteFile
            }
        },
        EntryKind::Directory => EntryAction::EnterDirectory,
        EntryKind::Other => EntryAction::SkipOther,
    }
}

/// The first failure of `rs`, or success when every outcome succeeded.
pub open spec fn first_failure_spec(rs: Seq<Result<(), Error>>) -> Result<(), Error>
    decreases rs.len(),
{
    if rs.len() == 0 {
        Ok(())
    } else {
        match rs[0] {
            Err(e) => Err(e),
            Ok(_) => first_failure_spec(rs.skip(1)),
        }
    }
}

/// Aggregates the outcomes of the awaited copy tasks, in registration
/// order: the first failure encountered is surfaced as the overall result;
/// the run succeeds only when every task succeeded.  A failed task never
/// cancels its siblings — every outcome handed in here is a task that ran
/// to its own completion or failure.
pub fn first_failure(results: &Vec<Result<(), Error>>) -> (r: Result<(), Error>)
    ensures
        r == first_failure_spec(results@),
        (r matches Ok(_)) <==> (forall|i: int|
            0 <= i < results@.len() ==> (#[trigger] results@[i]) matches Ok(_)),
{
    let ghost rs = results@;
    let mut i: usize = 0;
    assert(rs.skip(0) =~= rs);
    while i < results.len()
        invariant
            i <= rs.len(),
            rs == results@,
            first_failure_spec(rs.skip(i as int)) == first_failure_spec(rs),
            forall|j: int| 0 <= j < i ==> (#[trigger] rs[j]) matches Ok(_),
        decreases rs.len() - i,
    {
        proof {
            assert(rs.skip(i as int)[0] == rs[i as int]);
            assert(rs.skip(i as int).skip(1) =~= rs.skip(i + 1));
        }
        match results[i] {
            Err(e) => {
                return Err(e);
            },
            Ok(_) => {},
        }
        i += 1;
    }
    proof {
        assert(rs.skip(rs.len() as int) =~= Seq::<Result<(), Error>>::empty());
    }
    Ok(())
}

} // verus!

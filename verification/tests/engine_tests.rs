use template::engine::{
    first_failure, plan_entry, render_tree, DirTree, EntryAction, EntryKind, FileEntry,
    SubdirEntry,
};
use template::error::Error;
use template::index::Index;

fn file(name: &[u8], content: &[u8]) -> FileEntry {
    FileEntry { name: name.to_vec(), content: content.to_vec() }
}

fn dir(files: Vec<FileEntry>, subdirs: Vec<SubdirEntry>) -> DirTree {
    DirTree { files, subdirs }
}

fn sub(name: &[u8], tree: DirTree) -> SubdirEntry {
    SubdirEntry { name: name.to_vec(), tree }
}

fn name_index() -> Index {
    let mut idx = Index::new();
    idx.insert(b"NAME".to_vec(), b"demo".to_vec());
    idx
}

#[test]
fn two_subdirectories_are_rendered_independently() {
    let template = dir(
        vec![file(b"template.txt", b"NAME\n")],
        vec![
            sub(b"a", dir(vec![file(b"f.txt", b"hi %NAME%")], vec![])),
            sub(b"b", dir(vec![file(b"g.txt", b"%NAME%!")], vec![])),
        ],
    );
    let out = render_tree(&template, &name_index());
    assert_eq!(out.subdirs.len(), 2);
    assert_eq!(out.subdirs[0].name, b"a".to_vec());
    assert_eq!(out.subdirs[0].tree.files, vec![file(b"f.txt", b"hi demo")]);
    assert_eq!(out.subdirs[1].name, b"b".to_vec());
    assert_eq!(out.subdirs[1].tree.files, vec![file(b"g.txt", b"demo!")]);
}

#[test]
fn empty_directories_are_mirrored() {
    let template = dir(vec![], vec![sub(b"empty", dir(vec![], vec![]))]);
    let out = render_tree(&template, &name_index());
    assert_eq!(out, dir(vec![], vec![sub(b"empty", dir(vec![], vec![]))]));
}

#[test]
fn manifest_file_never_reaches_the_output() {
    let template = dir(
        vec![file(b"template.txt", b"NAME\n"), file(b"kept.txt", b"%NAME%")],
        vec![sub(
            b"inner",
            dir(vec![file(b"template.txt", b"stray copy")], vec![]),
        )],
    );
    let out = render_tree(&template, &name_index());
    assert_eq!(out.files, vec![file(b"kept.txt", b"demo")]);
    assert!(out.subdirs[0].tree.files.is_empty());
}

#[test]
fn rendering_twice_gives_identical_trees() {
    let template = dir(
        vec![file(b"a.txt", b"%NAME% and %NAME%"), file(b"raw.bin", &[1, 2, 0xff])],
        vec![sub(b"d", dir(vec![file(b"b.txt", b"%NAME%")], vec![]))],
    );
    let idx = name_index();
    let once = render_tree(&template, &idx);
    let twice = render_tree(&template, &idx);
    assert_eq!(once, twice);
}

#[test]
fn binary_files_pass_through_the_tree_unchanged() {
    let payload = vec![0x89, b'P', b'N', b'G', 0x00, b'%', b'N', b'A', b'M', b'E', b'%'];
    let template = dir(vec![file(b"img", &payload)], vec![]);
    let out = render_tree(&template, &name_index());
    assert_eq!(out.files, vec![file(b"img", &payload)]);
}

#[test]
fn plan_entry_decides_per_entry() {
    assert_eq!(
        plan_entry(&b"template.txt".to_vec(), EntryKind::File),
        EntryAction::SkipManifest
    );
    assert_eq!(plan_entry(&b"main.rs".to_vec(), EntryKind::File), EntryAction::RewriteFile);
    assert_eq!(
        plan_entry(&b"template.txt".to_vec(), EntryKind::Directory),
        EntryAction::EnterDirectory
    );
    assert_eq!(plan_entry(&b"src".to_vec(), EntryKind::Directory), EntryAction::EnterDirectory);
    assert_eq!(plan_entry(&b"link".to_vec(), EntryKind::Other), EntryAction::SkipOther);
}

#[test]
fn unreadable_subtree_fails_while_siblings_complete() {
    // one subdirectory could not be listed; its sibling still renders
    let sibling = dir(vec![file(b"ok.txt", b"%NAME%")], vec![]);
    let rendered = render_tree(&sibling, &name_index());
    assert_eq!(rendered.files, vec![file(b"ok.txt", b"demo")]);
    let outcomes = vec![Ok(()), Err(Error::DirectoryUnreadable)];
    assert_eq!(first_failure(&outcomes), Err(Error::DirectoryUnreadable));
}

#[test]
fn first_failure_surfaces_the_first_in_order() {
    let outcomes = vec![Ok(()), Err(Error::FileReadFailed), Err(Error::FileWriteFailed)];
    assert_eq!(first_failure(&outcomes), Err(Error::FileReadFailed));
    assert_eq!(first_failure(&vec![]), Ok(()));
    assert_eq!(first_failure(&vec![Ok(()), Ok(())]), Ok(()));
    assert_eq!(
        first_failure(&vec![Err(Error::TaskJoinFailed)]),
        Err(Error::TaskJoinFailed)
    );
    assert_eq!(
        first_failure(&vec![Ok(()), Err(Error::DirectoryCreateFailed)]),
        Err(Error::DirectoryCreateFailed)
    );
    assert_eq!(
        first_failure(&vec![Err(Error::PromptAborted), Ok(())]),
        Err(Error::PromptAborted)
    );
}

#[test]
fn error_messages_name_the_conditions() {
    assert_eq!(
        Error::ManifestUnreadable.message(),
        "manifest file missing or unreadable"
    );
    assert_eq!(Error::PromptAborted.message(), "placeholder prompt aborted");
    assert_eq!(
        Error::DirectoryUnreadable.message(),
        "template directory could not be listed"
    );
    assert_eq!(
        Error::DirectoryCreateFailed.message(),
        "output directory could not be created"
    );
    assert_eq!(Error::FileReadFailed.message(), "template file could not be read");
    assert_eq!(Error::FileWriteFailed.message(), "output file could not be written");
    assert_eq!(Error::TaskJoinFailed.message(), "a copy task terminated abnormally");
}

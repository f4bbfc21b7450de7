use edge_compile::memory_fs::{FsError, MockFileSystem};

#[test]
fn write_then_read_round_trips() {
    let mut fs = MockFileSystem::new();
    let path = String::from("dist/main.js");
    let content = vec![1u8, 2, 3, 4];
    assert!(fs.write(&path, content.clone()).is_ok());
    assert_eq!(fs.read(&path).unwrap(), content);
}

#[test]
fn write_overwrites_last_write_wins() {
    let mut fs = MockFileSystem::new();
    let path = String::from("a.js");
    assert!(fs.write(&path, vec![1u8]).is_ok());
    assert!(fs.write(&path, vec![2u8, 2]).is_ok());
    assert_eq!(fs.read(&path).unwrap(), vec![2u8, 2]);
}

#[test]
fn read_never_written_is_not_found() {
    let fs = MockFileSystem::new();
    let path = String::from("absent.js");
    assert_eq!(fs.read(&path).unwrap_err(), FsError::NotFound);
}

#[test]
fn read_other_path_is_not_found() {
    let mut fs = MockFileSystem::new();
    assert!(fs.write(&String::from("a.js"), vec![1u8]).is_ok());
    assert_eq!(fs.read(&String::from("b.js")).unwrap_err(), FsError::NotFound);
}

#[test]
fn create_dir_twice_succeeds_and_keeps_files() {
    let mut fs = MockFileSystem::new();
    let file = String::from("dist/out.js");
    let dir = String::from("dist");
    assert!(fs.write(&file, vec![9u8]).is_ok());
    assert!(fs.create_dir(&dir).is_ok());
    assert!(fs.create_dir(&dir).is_ok());
    assert_eq!(fs.read(&file).unwrap(), vec![9u8]);
}

#[test]
fn create_dir_all_same_contract_as_create_dir() {
    let mut fs = MockFileSystem::new();
    let dir = String::from("a/b/c");
    assert!(fs.create_dir_all(&dir).is_ok());
    assert!(fs.create_dir_all(&dir).is_ok());
    assert!(fs.remove_dir_all(&dir).is_ok());
    assert_eq!(fs.remove_dir_all(&dir).unwrap_err(), FsError::NotFound);
}

#[test]
fn remove_file_absent_is_not_found() {
    let mut fs = MockFileSystem::new();
    let path = String::from("gone.js");
    assert_eq!(fs.remove_file(&path).unwrap_err(), FsError::NotFound);
}

#[test]
fn remove_file_present_then_read_is_not_found() {
    let mut fs = MockFileSystem::new();
    let path = String::from("tmp.js");
    assert!(fs.write(&path, vec![5u8, 6]).is_ok());
    assert!(fs.remove_file(&path).is_ok());
    assert_eq!(fs.read(&path).unwrap_err(), FsError::NotFound);
}

#[test]
fn two_writes_same_path_leave_one_content_whole() {
    let c1 = vec![1u8, 1, 1];
    let c2 = vec![2u8, 2];
    // Writes to one instance are serialized: two concurrent writes take
    // effect in one of the two orders. Either order leaves exactly the later
    // content, never a mixture of the two.
    let path = String::from("p.js");
    let mut first = MockFileSystem::new();
    assert!(first.write(&path, c1.clone()).is_ok());
    assert!(first.write(&path, c2.clone()).is_ok());
    let seen = first.read(&path).unwrap();
    assert!(seen == c1 || seen == c2);
    assert_eq!(seen, c2);

    let mut second = MockFileSystem::new();
    assert!(second.write(&path, c2.clone()).is_ok());
    assert!(second.write(&path, c1.clone()).is_ok());
    let seen = second.read(&path).unwrap();
    assert!(seen == c1 || seen == c2);
    assert_eq!(seen, c1);
}

#[test]
fn remove_dir_all_absent_is_not_found() {
    let mut fs = MockFileSystem::new();
    assert_eq!(
        fs.remove_dir_all(&String::from("nowhere")).unwrap_err(),
        FsError::NotFound
    );
}

#[test]
fn remove_dir_all_removes_only_the_exact_marker() {
    let mut fs = MockFileSystem::new();
    let parent = String::from("dist");
    let sibling = String::from("dist/sub");
    let file_under = String::from("dist/kept.js");
    assert!(fs.create_dir(&parent).is_ok());
    assert!(fs.create_dir(&sibling).is_ok());
    assert!(fs.write(&file_under, vec![3u8]).is_ok());
    assert!(fs.remove_dir_all(&parent).is_ok());
    // Only the literal key leaves the directory set; nothing cascades.
    assert_eq!(fs.remove_dir_all(&parent).unwrap_err(), FsError::NotFound);
    assert!(fs.remove_dir_all(&sibling).is_ok());
    assert_eq!(fs.read(&file_under).unwrap(), vec![3u8]);
}

#[test]
fn write_needs_no_parent_directory() {
    let mut fs = MockFileSystem::new();
    let path = String::from("never/created/dir/file.js");
    assert!(fs.write(&path, vec![8u8]).is_ok());
    assert_eq!(fs.read(&path).unwrap(), vec![8u8]);
}

#[test]
fn files_and_directories_are_separate_maps() {
    let mut fs = MockFileSystem::new();
    let path = String::from("dist");
    assert!(fs.create_dir(&path).is_ok());
    // A directory marker is not a file entry, and vice versa.
    assert_eq!(fs.read(&path).unwrap_err(), FsError::NotFound);
    assert_eq!(fs.remove_file(&path).unwrap_err(), FsError::NotFound);
    assert!(fs.write(&path, vec![1u8]).is_ok());
    assert!(fs.remove_dir_all(&path).is_ok());
    assert_eq!(fs.read(&path).unwrap(), vec![1u8]);
}

#[test]
fn snapshot_holds_exactly_the_drained_files() {
    let mut fs = MockFileSystem::new();
    let a = String::from("a.js");
    let b = String::from("b.js");
    assert!(fs.write(&a, vec![1u8]).is_ok());
    assert!(fs.write(&b, vec![2u8]).is_ok());
    assert!(fs.create_dir(&String::from("dist")).is_ok());
    let snap = fs.into_snapshot();
    assert_eq!(snap.len(), 2);
    assert_eq!(snap.get(&a).unwrap(), &vec![1u8]);
    assert_eq!(snap.get(&b).unwrap(), &vec![2u8]);
    assert!(snap.get(&String::from("dist")).is_none());
    assert!(snap.get(&String::from("c.js")).is_none());
}

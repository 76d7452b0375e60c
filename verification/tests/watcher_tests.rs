use file_syncer::checksum::FileState;
use file_syncer::directory_watcher::{DirectoryWatcher, ObservedEntry};
use file_syncer::error::{PathError, TraversalError};
use file_syncer::registry::WatchRegistry;

fn file_entry(path: &str, content: &[u8]) -> ObservedEntry {
    ObservedEntry { path: String::from(path), is_file: true, content: Some(content.to_vec()) }
}

fn unreadable_entry(path: &str) -> ObservedEntry {
    ObservedEntry { path: String::from(path), is_file: true, content: None }
}

fn dir_entry(path: &str) -> ObservedEntry {
    ObservedEntry { path: String::from(path), is_file: false, content: None }
}

#[test]
fn test_new_directorywatcher_path_ok() {
    let test = DirectoryWatcher::new(5, "./test.d", true, false);
    assert!(test.is_ok());
}

#[test]
fn test_new_directorywatcher_error_path() {
    let test = DirectoryWatcher::new(5, "./test_.d", false, false);
    assert!(test.is_err());
}

#[test]
fn test_emitted_changed_files_only_one_file_added() {
    let mut test = DirectoryWatcher::new(5, "./test.d/1", true, false).unwrap();
    for i in 0..5 {
        let listing = Ok(vec![file_entry("./test.d/1/file.log", b"a log line")]);
        let files = test.collect_changed_files(listing).unwrap();
        if i == 0 {
            assert_eq!(1, files.len());
        } else {
            assert_eq!(0, files.len());
        }
    }
}

#[test]
fn test_emitted_changed_files_one_file_added_and_add_another_one_afterwards() {
    let create_file = "test.d/2/test.txt";
    let mut test = DirectoryWatcher::new(5, "./test.d/2", true, false).unwrap();

    for i in 0..5 {
        let mut entries = vec![file_entry("test.d/2/existing.log", b"already present")];
        if i >= 1 {
            entries.push(file_entry(create_file, b"A simple text"));
        }
        let files = test.collect_changed_files(Ok(entries)).unwrap();

        match i {
            0 => assert_eq!(1, files.len()),
            1 => assert_eq!(1, files.len()),
            _ => assert_eq!(0, files.len(), "{:?}", files),
        }
    }
}

#[test]
fn test_emitted_changed_files_one_file_added_and_change_it_afterwards() {
    let create_file = "test.d/4/test.txt";
    let mut test = DirectoryWatcher::new(5, "./test.d/4", true, false).unwrap();

    for i in 0..5 {
        let content: &[u8] = if i == 0 {
            b"A simple text"
        } else {
            b"A simple textcould this be real?"
        };
        let files = test.collect_changed_files(Ok(vec![file_entry(create_file, content)])).unwrap();
        match i {
            0 => assert_eq!(1, files.len()),
            1 => assert_eq!(1, files.len()),
            _ => assert_eq!(0, files.len(), "{:?}", files),
        }
    }
}

#[test]
fn test_emitted_changed_files_recursivly() {
    let mut test = DirectoryWatcher::new(5, "./test.d/5", true, true).unwrap();
    for i in 0..5 {
        let entries = vec![
            file_entry("./test.d/5/direct.log", b"direct"),
            dir_entry("./test.d/5/sub"),
            file_entry("./test.d/5/sub/a.log", b"aaa"),
            file_entry("./test.d/5/sub/b.log", b"bbb"),
            file_entry("./test.d/5/sub/c.log", b"ccc"),
        ];
        let files = test.collect_changed_files(Ok(entries)).unwrap();
        if i == 0 {
            assert_eq!(4, files.len());
        } else {
            assert_eq!(0, files.len());
        }
    }
}

#[test]
fn test_non_recursive_watcher_does_not_descend() {
    let watcher = DirectoryWatcher::new(5, "./test.d/5", true, false).unwrap();
    assert!(!watcher.should_descend(true));
    assert!(!watcher.should_descend(false));
    let recursive = DirectoryWatcher::new(5, "./test.d/5", true, true).unwrap();
    assert!(recursive.should_descend(true));
    assert!(!recursive.should_descend(false));
}

#[test]
fn test_new_files_reported_once_each() {
    let mut watcher = DirectoryWatcher::new(1, "./root", true, false).unwrap();
    let entries = vec![file_entry("./root/a", b""), file_entry("./root/b", b"x")];
    let files = watcher.collect_changed_files(Ok(entries)).unwrap();
    assert_eq!(vec![String::from("./root/a"), String::from("./root/b")], files);
}

#[test]
fn test_empty_listing_gives_empty_batch() {
    let mut watcher = DirectoryWatcher::new(1, "./root", true, false).unwrap();
    let files = watcher.collect_changed_files(Ok(Vec::new())).unwrap();
    assert_eq!(0, files.len());
}

#[test]
fn test_directories_are_not_reported() {
    let mut watcher = DirectoryWatcher::new(1, "./root", true, true).unwrap();
    let entries = vec![dir_entry("./root/sub"), dir_entry("./root/sub/inner")];
    let files = watcher.collect_changed_files(Ok(entries)).unwrap();
    assert_eq!(0, files.len());
}

#[test]
fn test_unreadable_file_reported_each_cycle() {
    let mut watcher = DirectoryWatcher::new(1, "./root", true, false).unwrap();
    for _ in 0..3 {
        let files = watcher.collect_changed_files(Ok(vec![unreadable_entry("./root/locked")])).unwrap();
        assert_eq!(vec![String::from("./root/locked")], files);
    }
    // once readable it is reported one more time, then falls quiet
    let files = watcher
        .collect_changed_files(Ok(vec![file_entry("./root/locked", b"now readable")]))
        .unwrap();
    assert_eq!(1, files.len());
    let files = watcher
        .collect_changed_files(Ok(vec![file_entry("./root/locked", b"now readable")]))
        .unwrap();
    assert_eq!(0, files.len());
}

#[test]
fn test_content_change_reported_again() {
    let mut watcher = DirectoryWatcher::new(1, "./root", true, false).unwrap();
    let path = "./root/data.txt";
    let files = watcher.collect_changed_files(Ok(vec![file_entry(path, b"first")])).unwrap();
    assert_eq!(1, files.len());
    let files = watcher.collect_changed_files(Ok(vec![file_entry(path, b"second")])).unwrap();
    assert_eq!(vec![String::from(path)], files);
    let files = watcher.collect_changed_files(Ok(vec![file_entry(path, b"second")])).unwrap();
    assert_eq!(0, files.len());
}

#[test]
fn test_fatal_listing_failure_leaves_registry_unmodified() {
    let mut watcher = DirectoryWatcher::new(1, "./root", true, false).unwrap();
    let files = watcher.collect_changed_files(Ok(vec![file_entry("./root/a", b"abc")])).unwrap();
    assert_eq!(1, files.len());
    let failed = watcher.collect_changed_files(Err(TraversalError));
    assert!(failed.is_err());
    // the registry survived the failed cycle: the same content is unchanged
    let files = watcher.collect_changed_files(Ok(vec![file_entry("./root/a", b"abc")])).unwrap();
    assert_eq!(0, files.len());
}

#[test]
fn test_is_new_and_register_file() {
    let mut watcher = DirectoryWatcher::new(1, "./root", true, false).unwrap();
    let path = String::from("./root/f");
    assert!(watcher.is_new(&path));
    watcher.register_file(path.clone(), FileState::Readable(7));
    assert!(!watcher.is_new(&path));
}

#[test]
fn test_has_file_changed_on_watcher() {
    let mut watcher = DirectoryWatcher::new(1, "./root", true, false).unwrap();
    let path = String::from("./root/f");
    // an unregistered path never counts as changed, whatever the read outcome
    let (changed, state) = watcher.has_file_changed(&path, &None);
    assert!(!changed);
    assert_eq!(FileState::Unreadable, state);
    watcher.register_file(path.clone(), FileState::Unreadable);
    let (changed, state) = watcher.has_file_changed(&path, &None);
    assert!(changed);
    assert_eq!(FileState::Unreadable, state);
}

#[test]
fn test_watch_registry_overwrites() {
    let mut registry = WatchRegistry::new();
    let path = String::from("./root/x");
    assert!(!registry.contains(&path));
    assert_eq!(None, registry.get(&path));
    registry.insert(path.clone(), FileState::Readable(1));
    assert_eq!(Some(FileState::Readable(1)), registry.get(&path));
    registry.insert(path.clone(), FileState::Readable(2));
    assert!(registry.contains(&path));
    assert_eq!(Some(FileState::Readable(2)), registry.get(&path));
}

#[test]
fn test_error_messages() {
    assert_eq!(
        String::from("expected path: no valid path to a directory found"),
        PathError.message()
    );
    assert_eq!(
        String::from("traversal failed: the directory could not be listed"),
        TraversalError.message()
    );
}

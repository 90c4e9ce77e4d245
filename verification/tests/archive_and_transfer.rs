use hydra::docker::extraction_path;
use hydra::archive::{zip_entry_action, zip_entry_name, ZipEntryAction};
use hydra::transfer::{Entry, FileInner, SftpAction};

#[test]
fn zip_entry_names_are_relative_to_the_archived_directory() {
    for (prefix, path) in [
        ("/var/lib/docker/containers", "/var/lib/docker/containers"),
        ("/var/lib/docker/containers", "/var/lib/docker/containers/abc/config.json"),
        ("src/", "src/lib.rs"),
        ("src", "src/a/b"),
        ("", "a/b"),
        ("a/b/", "a/b"),
        ("a/b", "a/b/"),
        ("a/b/", "a/b/c/"),
        ("/", "/etc"),
        ("./a", "./a/b"),
        ("src//", "src//a"),
        ("src//", "src//a/b"),
        ("src//", "src//"),
        ("a/.", "a/./b"),
        ("/var/x", "/var/x/"),
        ("a/b//", "a/b"),
    ] {
        let expected = std::path::Path::new(path)
            .strip_prefix(prefix)
            .unwrap()
            .to_str()
            .unwrap()
            .to_string();
        assert_eq!(zip_entry_name(prefix, path), Some(expected), "{prefix} {path}");
    }
    assert_eq!(zip_entry_name("src", "srcx/a"), None);
    assert_eq!(zip_entry_name("src", "other"), None);
    assert_eq!(zip_entry_name("a", "/a/b"), None);
}

#[test]
fn archived_entries_extract_under_the_destination() {
    for (src, child) in [("src//", "src//a/b"), ("src", "src/a/b"), ("/var/lib/", "/var/lib/a/b")] {
        let name = zip_entry_name(src, child).unwrap();
        assert_eq!(name, "a/b");
        assert_eq!(extraction_path("/dest", &name), "/dest/a/b");
        assert_eq!(extraction_path("/dest/", &name), "/dest/a/b");
    }
}

#[test]
fn zip_entry_kinds() {
    assert_eq!(zip_entry_action("a/b".to_string(), true), ZipEntryAction::AddFile("a/b".to_string()));
    assert_eq!(zip_entry_action("a".to_string(), false), ZipEntryAction::AddDirectory("a".to_string()));
    assert_eq!(zip_entry_action(String::new(), false), ZipEntryAction::Skip);
}

#[test]
fn transfer_plan_creates_directories_before_contents() {
    let tree = Entry {
        path: "root".to_string(),
        inner: FileInner::Directory(vec![
            Entry { path: "root/a".to_string(), inner: FileInner::File(vec![1, 2]) },
            Entry {
                path: "root/sub".to_string(),
                inner: FileInner::Directory(vec![Entry {
                    path: "root/sub/b".to_string(),
                    inner: FileInner::File(vec![]),
                }]),
            },
            Entry { path: "root/empty".to_string(), inner: FileInner::Directory(vec![]) },
        ]),
    };
    assert_eq!(
        tree.transfer_plan(),
        vec![
            SftpAction::CreateDir("root".to_string()),
            SftpAction::WriteFile("root/a".to_string(), vec![1, 2]),
            SftpAction::CreateDir("root/sub".to_string()),
            SftpAction::WriteFile("root/sub/b".to_string(), vec![]),
            SftpAction::CreateDir("root/empty".to_string()),
        ]
    );
    let file = Entry { path: "f".to_string(), inner: FileInner::File(vec![9]) };
    assert_eq!(file.transfer_plan(), vec![SftpAction::WriteFile("f".to_string(), vec![9])]);
}

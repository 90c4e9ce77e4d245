use hydra::docker::{
    archive_dir_name, checkpoints_from_nonces, commit_plan, commit_plan_with_repo,
    container_config, export_path, extraction_path, file_stem, normalize_image_id,
    remote_container_path, restore_command, Checkpoint, DockerBackend, ImportedContainer,
};

fn strings(items: &[&str]) -> Vec<String> {
    items.iter().map(|s| s.to_string()).collect()
}

#[test]
fn checkpoints_are_named_by_their_nonces() {
    let ids = strings(&["abc", "def"]);
    let cps = checkpoints_from_nonces(&ids, &vec![0, 18446744073709551615]);
    assert_eq!(cps.len(), 2);
    assert_eq!(cps[0].container_id, "abc");
    assert_eq!(cps[0].checkpoint_name, "0");
    assert_eq!(cps[1].container_id, "def");
    assert_eq!(cps[1].checkpoint_name, "18446744073709551615");
}

#[test]
fn distinct_nonces_give_distinct_checkpoint_names() {
    let ids = strings(&["a", "a"]);
    let cps = checkpoints_from_nonces(&ids, &vec![12, 120]);
    assert_ne!(cps[0].checkpoint_name, cps[1].checkpoint_name);
    assert_eq!(cps[0].checkpoint_name.parse::<u64>().unwrap(), 12);
    assert_eq!(cps[1].checkpoint_name.parse::<u64>().unwrap(), 120);
}

#[test]
fn random_checkpoints_keep_container_order() {
    let backend = DockerBackend::new();
    let ids = strings(&["first", "second", "third"]);
    let cps = backend.checkpoint_all_containers(&ids);
    assert_eq!(cps.len(), 3);
    for (cp, id) in cps.iter().zip(ids.iter()) {
        assert_eq!(&cp.container_id, id);
        assert!(!cp.checkpoint_name.is_empty());
        assert!(cp.checkpoint_name.chars().all(|c| c.is_ascii_digit()));
        assert_eq!(cp.checkpoint_name.parse::<u64>().unwrap().to_string(), cp.checkpoint_name);
    }
}

#[test]
fn commit_plan_fixes_everything_but_the_repository() {
    let p = commit_plan_with_repo("c0ffee", "quietotter".to_string());
    assert_eq!(p.container, "c0ffee");
    assert_eq!(p.repo, "quietotter");
    assert_eq!(p.tag, "checkpointedlatest");
    assert_eq!(p.comment, "Autocheckpointed by hydra");
    assert_eq!(p.author, "hydra");
    assert!(!p.pause);
}

#[test]
fn random_commit_repository_is_two_words() {
    let p = commit_plan("c0ffee");
    assert_eq!(p.container, "c0ffee");
    assert!(!p.repo.is_empty());
    assert!(p.repo.chars().all(|c| c.is_ascii_lowercase() || c == '-'));
    assert_eq!(p.tag, "checkpointedlatest");
}

#[test]
fn export_and_remote_paths() {
    assert_eq!(export_path("abc123"), "containers/abc123.tar.gz");
    assert_eq!(remote_container_path("abc123.tar.gz"), "containers/abc123.tar.gz");
}

#[test]
fn file_stems_follow_std() {
    for name in ["abc.tar.gz", "abc", ".hidden", "..", "a.", "x.y"] {
        let expected = std::path::Path::new(name)
            .file_stem()
            .map(|s| s.to_str().unwrap().to_string())
            .unwrap_or_else(|| name.to_string());
        assert_eq!(file_stem(name), expected, "stem of {name}");
    }
    assert_eq!(file_stem("abc.tar.gz"), "abc.tar");
}

#[test]
fn created_container_sleeps() {
    let c = container_config("abc.tar", "deadbeef");
    assert_eq!(c.name, "abc.tar");
    assert_eq!(c.image, "deadbeef");
    assert_eq!(c.cmd, strings(&["/bin/sh", "-c", "sleep", "10"]));
}

#[test]
fn image_id_is_stripped_of_digest_prefix_and_newlines() {
    assert_eq!(normalize_image_id("sha256:0123abcd\n"), "0123abcd");
    assert_eq!(normalize_image_id("\n\nsha256:ff\n"), "ff");
    assert_eq!(normalize_image_id("plain"), "plain");
    assert_eq!(normalize_image_id("a sha256:b sha256:c"), "a b c");
    assert_eq!(normalize_image_id("\n\n"), "");
    for s in ["x\nsha256:y\n", "shsha256:a256:", "sha256:sha256:", ""] {
        assert_eq!(normalize_image_id(s), s.trim_matches('\n').replace("sha256:", ""));
    }
}

#[test]
fn restore_command_embeds_archive_and_checkpoints() {
    assert_eq!(
        restore_command("./containers.zip", "[]"),
        "nohup sudo RUST_BACKTRACE=1 RUST_LOG=info DOCKER_HOST=unix:///var/run/docker.sock ./hydra restore ./containers.zip '[]' > output.txt & disown"
    );
}

#[test]
fn extraction_paths_follow_path_join() {
    for (dest, name) in [
        ("/var/lib/docker/containers", "abc/checkpoints/1"),
        ("/var/lib/docker/containers/", "abc/"),
        ("", "abc"),
        ("/dest", "/abs/file"),
    ] {
        let expected = std::path::Path::new(dest).join(name).to_str().unwrap().to_string();
        assert_eq!(extraction_path(dest, name), expected);
    }
}

#[test]
fn archive_directory_names() {
    assert_eq!(archive_dir_name("abc/checkpoints"), "checkpoints");
    assert_eq!(archive_dir_name("abc/"), "");
    assert_eq!(archive_dir_name("abc"), "abc");
}

#[test]
fn import_then_restore_moves_checkpoint_to_new_container() {
    let mut backend = DockerBackend::new();
    backend.import_containers(&vec![
        ImportedContainer { container_id: "old1.tar".to_string(), new_container_id: "new1".to_string() },
        ImportedContainer { container_id: "old2.tar".to_string(), new_container_id: "new2".to_string() },
    ]);
    assert_eq!(backend.container_names().len(), 2);
    assert_eq!(backend.container_names().get(&"old1".to_string()), Some("new1".to_string()));
    assert_eq!(backend.container_names().get(&"old1.tar".to_string()), None);
    let cps = vec![
        Checkpoint { checkpoint_name: "42".to_string(), container_id: "old2".to_string() },
        Checkpoint { checkpoint_name: "7".to_string(), container_id: "old1".to_string() },
    ];
    let steps = backend.restore_containers(&cps);
    assert_eq!(steps.len(), 2);
    assert_eq!(steps[0].checkpoints_dir, "/var/lib/docker/containers/old2/checkpoints");
    assert_eq!(steps[0].checkpoint_path, "/var/lib/docker/containers/old2/checkpoints/42");
    assert_eq!(steps[0].target_dir, "/var/lib/docker/containers/new2/");
    assert_eq!(steps[0].checkpoint_name, "42");
    assert_eq!(steps[0].container_name, "new2");
    assert_eq!(steps[1].container_name, "new1");
    assert_eq!(steps[1].target_dir, "/var/lib/docker/containers/new1/");
}

#[test]
fn later_import_of_same_old_name_wins() {
    let mut backend = DockerBackend::new();
    backend.import_containers(&vec![
        ImportedContainer { container_id: "same.tar".to_string(), new_container_id: "first".to_string() },
        ImportedContainer { container_id: "same.gz".to_string(), new_container_id: "second".to_string() },
    ]);
    assert_eq!(backend.container_names().len(), 1);
    assert_eq!(backend.container_names().get(&"same".to_string()), Some("second".to_string()));
}

#[test]
fn recorded_checkpoints_are_kept() {
    let mut backend = DockerBackend::new();
    assert!(backend.checkpoints().is_empty());
    backend.record_checkpoints(vec![Checkpoint {
        checkpoint_name: "1".to_string(),
        container_id: "c".to_string(),
    }]);
    assert_eq!(backend.checkpoints().len(), 1);
    assert_eq!(backend.checkpoints()[0].container_id, "c");
    assert_eq!(backend.container_names().len(), 0);
}

#[test]
fn exported_containers_come_back_under_their_ids() {
    let ids = ["4f2a9c", "b71e00d3"];
    let mut backend = DockerBackend::new();
    let mut imported = vec![];
    for (n, id) in ids.iter().enumerate() {
        let path = export_path(id);
        let file_name = path.rsplit('/').next().unwrap();
        let stem = file_stem(file_name);
        assert_eq!(stem, format!("{id}.tar"));
        imported.push(ImportedContainer { container_id: stem, new_container_id: format!("new{n}") });
    }
    backend.import_containers(&imported);
    assert_eq!(backend.container_names().len(), 2);
    for (n, id) in ids.iter().enumerate() {
        assert_eq!(backend.container_names().get(&id.to_string()), Some(format!("new{n}")));
    }
}

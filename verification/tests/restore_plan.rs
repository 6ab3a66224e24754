use hydra_saves::hydra::plan_ludusavi_restore;
use hydra_saves::hydra::BackupManifest;
use hydra_saves::hydra::FileMetadata;
use hydra_saves::hydra::LudusaviBackup;

fn manifest_with_keys(keys: Vec<&str>) -> BackupManifest {
    BackupManifest {
        drives: vec![("C:".to_string(), "drive_c".to_string())],
        backups: vec![LudusaviBackup {
            files: keys.into_iter().map(|k| (k.to_string(), FileMetadata {})).collect(),
        }],
    }
}

#[test]
fn source_path_resolves_drive_token() {
    let manifest = manifest_with_keys(vec!["drive_c/users/alice/Saves/save1.dat"]);
    let plan = plan_ludusavi_restore(
        &manifest,
        "/backups/game",
        "C:/users/alice",
        "C:/users/alice",
        Some("/prefix"),
        None,
    );
    assert_eq!(plan.len(), 1);
    assert_eq!(plan[0].source, "/backups/game/C:/users/alice/Saves/save1.dat");
}

#[test]
fn destination_maps_home_under_prefix() {
    let manifest = manifest_with_keys(vec!["drive_c/users/alice/Saves/save1.dat"]);
    let plan = plan_ludusavi_restore(
        &manifest,
        "/backups/game",
        "C:/users/alice",
        "C:/users/alice",
        Some("/prefix"),
        None,
    );
    assert_eq!(
        plan[0].destination,
        "/prefix/drive_c/users/alice/Saves/save1.dat"
    );
}

#[test]
fn destination_strips_artifact_prefix_first() {
    let manifest = manifest_with_keys(vec!["/other/drive_c/users/bob/cfg.ini"]);
    let plan = plan_ludusavi_restore(
        &manifest,
        "/backups/game",
        "C:/users/bob",
        "C:/users/bob",
        Some("/prefix"),
        Some("/other"),
    );
    assert_eq!(plan[0].destination, "/prefix/drive_c/users/bob/cfg.ini");
}

#[test]
fn destination_maps_public_profile() {
    let manifest = manifest_with_keys(vec!["drive_c/users/Public/Documents/shared.cfg"]);
    let plan = plan_ludusavi_restore(
        &manifest,
        "/backups/game",
        "C:/users/alice",
        "C:/users/alice",
        Some("/prefix"),
        None,
    );
    assert_eq!(
        plan[0].destination,
        "/prefix/drive_c/users/Public/Documents/shared.cfg"
    );
}

#[test]
fn plan_keeps_manifest_order_across_backups() {
    let manifest = BackupManifest {
        drives: vec![("C:".to_string(), "drive_c".to_string())],
        backups: vec![
            LudusaviBackup {
                files: vec![
                    ("drive_c/a.dat".to_string(), FileMetadata {}),
                    ("drive_c/b.dat".to_string(), FileMetadata {}),
                ],
            },
            LudusaviBackup {
                files: vec![("drive_c/c.dat".to_string(), FileMetadata {})],
            },
        ],
    };
    let plan = plan_ludusavi_restore(&manifest, "/r", "C:/users/u", "C:/users/u", None, None);
    assert_eq!(plan.len(), 3);
    assert_eq!(plan[0].source, "/r/C:/a.dat");
    assert_eq!(plan[1].source, "/r/C:/b.dat");
    assert_eq!(plan[2].source, "/r/C:/c.dat");
}

#[test]
fn unresolved_key_passes_through() {
    let manifest = BackupManifest {
        drives: vec![("C:".to_string(), "drive_c".to_string())],
        backups: vec![LudusaviBackup {
            files: vec![("drive_d/odd.dat".to_string(), FileMetadata {})],
        }],
    };
    let plan = plan_ludusavi_restore(&manifest, "/r", "C:/users/u", "C:/users/u", None, None);
    assert_eq!(plan[0].source, "/r/drive_d/odd.dat");
}

use sealvault::atomic::TempNameCounter;
use sealvault::folder::{
    append_svlt_suffix, has_svlt_extension, plan_decrypt_entry, plan_encrypt_entry, remove_svlt_extension,
    safe_join, validate_relative_path, EntryKind, FolderAction, PathComponent,
};
use sealvault::SealVaultError;

fn normal(s: &[u8]) -> PathComponent {
    PathComponent::Normal(s.to_vec())
}

fn root() -> Vec<PathComponent> {
    vec![PathComponent::RootDir, normal(b"out")]
}

fn names_of(p: &[PathComponent]) -> Vec<Vec<u8>> {
    p.iter()
        .map(|c| match c {
            PathComponent::Normal(n) => n.clone(),
            PathComponent::RootDir => b"/".to_vec(),
            other => panic!("unexpected component {other:?}"),
        })
        .collect()
}

#[test]
fn parent_dir_is_rejected_anywhere() {
    for rel in [
        vec![PathComponent::ParentDir],
        vec![normal(b"a"), PathComponent::ParentDir, normal(b"b")],
        vec![normal(b"a"), normal(b"b"), PathComponent::ParentDir],
    ] {
        assert_eq!(validate_relative_path(&rel), Err(SealVaultError::UnsafePath));
        assert!(matches!(plan_encrypt_entry(&root(), &rel, EntryKind::File), Err(SealVaultError::UnsafePath)));
        assert!(matches!(plan_decrypt_entry(&root(), &rel, EntryKind::Directory), Err(SealVaultError::UnsafePath)));
    }
}

#[test]
fn root_and_prefix_components_are_rejected() {
    assert_eq!(validate_relative_path(&vec![PathComponent::RootDir, normal(b"etc")]), Err(SealVaultError::UnsafePath));
    assert_eq!(validate_relative_path(&vec![PathComponent::Prefix(b"C:".to_vec())]), Err(SealVaultError::UnsafePath));
    assert_eq!(validate_relative_path(&vec![normal(b"a/b")]), Err(SealVaultError::UnsafePath));
    assert_eq!(validate_relative_path(&vec![normal(b"..")]), Err(SealVaultError::UnsafePath));
}

#[test]
fn current_dir_components_are_dropped() {
    let rel = vec![PathComponent::CurDir, normal(b"a"), PathComponent::CurDir, normal(b"b")];
    assert_eq!(validate_relative_path(&rel), Ok(vec![b"a".to_vec(), b"b".to_vec()]));
    assert_eq!(validate_relative_path(&Vec::new()), Ok(Vec::new()));
}

#[test]
fn safe_join_puts_names_under_root() {
    let joined = safe_join(&root(), &vec![b"a".to_vec(), b"b".to_vec()]).expect("join");
    assert_eq!(names_of(&joined), vec![b"/".to_vec(), b"out".to_vec(), b"a".to_vec(), b"b".to_vec()]);
}

#[test]
fn suffix_is_appended_and_removed_exactly() {
    assert_eq!(append_svlt_suffix(b"report.txt"), b"report.txt.svlt".to_vec());
    assert_eq!(append_svlt_suffix(b"report.svlt"), b"report.svlt.svlt".to_vec());
    assert!(has_svlt_extension(b"report.svlt"));
    assert!(!has_svlt_extension(b".svlt"));
    assert!(!has_svlt_extension(b"report.svl"));
    assert!(!has_svlt_extension(b"report"));
    assert_eq!(remove_svlt_extension(&vec![b"d".to_vec(), b"report.svlt.svlt".to_vec()]), Ok(vec![b"d".to_vec(), b"report.svlt".to_vec()]));
    assert_eq!(remove_svlt_extension(&vec![b"report".to_vec()]), Err(SealVaultError::InvalidInput));
    assert_eq!(remove_svlt_extension(&vec![b"..svlt".to_vec()]), Err(SealVaultError::UnsafePath));
}

#[test]
fn encrypt_plan_mirrors_tree() {
    match plan_encrypt_entry(&root(), &Vec::new(), EntryKind::Directory) {
        Ok(FolderAction::CreateDir(p)) => assert_eq!(names_of(&p), vec![b"/".to_vec(), b"out".to_vec()]),
        other => panic!("{other:?}"),
    }
    let rel = vec![normal(b"a"), normal(b"b"), normal(b"nested.log")];
    match plan_encrypt_entry(&root(), &rel, EntryKind::File) {
        Ok(FolderAction::EncryptTo(p)) => assert_eq!(
            names_of(&p),
            vec![b"/".to_vec(), b"out".to_vec(), b"a".to_vec(), b"b".to_vec(), b"nested.log.svlt".to_vec()]
        ),
        other => panic!("{other:?}"),
    }
    assert!(matches!(plan_encrypt_entry(&root(), &rel, EntryKind::Other), Ok(FolderAction::Skip)));
    assert!(matches!(plan_encrypt_entry(&root(), &Vec::new(), EntryKind::File), Err(SealVaultError::InvalidInput)));
}

#[test]
fn decrypt_plan_strips_suffix_and_skips_others() {
    match plan_decrypt_entry(&root(), &vec![normal(b"report.svlt.svlt")], EntryKind::File) {
        Ok(FolderAction::DecryptTo(p)) => assert_eq!(names_of(&p), vec![b"/".to_vec(), b"out".to_vec(), b"report.svlt".to_vec()]),
        other => panic!("{other:?}"),
    }
    assert!(matches!(plan_decrypt_entry(&root(), &vec![normal(b"report")], EntryKind::File), Ok(FolderAction::Skip)));
    assert!(matches!(plan_decrypt_entry(&root(), &vec![normal(b".svlt")], EntryKind::File), Ok(FolderAction::Skip)));
    assert!(matches!(plan_decrypt_entry(&root(), &vec![normal(b"..svlt")], EntryKind::File), Err(SealVaultError::UnsafePath)));
}

#[test]
fn folder_plans_round_trip_names() {
    let names: Vec<&[u8]> = vec![b"report", b"report.svlt", &[0x66, 0x6f, 0x80, 0x2e, 0x73, 0x76, 0x6c, 0x74]];
    for name in names {
        let rel = vec![normal(b"sub"), normal(name)];
        let encrypted = match plan_encrypt_entry(&Vec::new(), &rel, EntryKind::File) {
            Ok(FolderAction::EncryptTo(p)) => p,
            other => panic!("{other:?}"),
        };
        match plan_decrypt_entry(&root(), &encrypted, EntryKind::File) {
            Ok(FolderAction::DecryptTo(p)) => {
                assert_eq!(names_of(&p), vec![b"/".to_vec(), b"out".to_vec(), b"sub".to_vec(), name.to_vec()])
            },
            other => panic!("{other:?}"),
        }
    }
}

#[test]
fn temp_names_are_unique_and_exact() {
    let mut c = TempNameCounter::new();
    assert_eq!(c.next_name(b"out.bin", 42, 1700, ), b".out.bin.tmp-42-1700-0".to_vec());
    assert_eq!(c.next_name(b"out.bin", 42, 1700), b".out.bin.tmp-42-1700-1".to_vec());
    assert_eq!(c.next_name(b"", 7, 0), b".sealvault-output.tmp-7-0-2".to_vec());
}

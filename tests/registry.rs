use tytm::registry::{RegistryAction, RegistryError, ShareDir};

#[test]
fn shared_dir_survives_until_last_user_leaves() {
    let mut d = ShareDir::new("/themes/icons");
    assert_eq!(d.used_by("a"), RegistryAction::Persist);
    assert_eq!(d.used_by("b"), RegistryAction::Persist);
    assert_eq!(d.removed_by("a"), RegistryAction::Persist);
    assert_eq!(d.users_list().clone(), vec!["b".to_string()]);
    assert_eq!(d.removed_by("b"), RegistryAction::DeleteDir);
    assert!(d.users_list().is_empty());
}

#[test]
fn same_user_twice_counts_once() {
    let mut d = ShareDir::new("/themes/icons");
    d.used_by("a");
    d.used_by("a");
    assert_eq!(d.users_list().len(), 1);
    assert_eq!(d.removed_by("a"), RegistryAction::DeleteDir);
}

#[test]
fn removing_a_stranger_keeps_users() {
    let mut d = ShareDir::new("/themes/icons");
    d.used_by("a");
    assert_eq!(d.removed_by("zzz"), RegistryAction::Persist);
    assert_eq!(d.users_list().clone(), vec!["a".to_string()]);
}

#[test]
fn record_of_another_directory_is_broken() {
    let ids = vec!["a".to_string()];
    let r = ShareDir::from_record("/themes/icons", "/elsewhere/icons", &ids);
    assert_eq!(r.unwrap_err(), RegistryError::BrokenRecord);
}

#[test]
fn record_is_read_back_without_duplicates() {
    let ids = vec!["a".to_string(), "b".to_string(), "a".to_string()];
    let d = ShareDir::from_record("/themes/icons", "/themes/icons", &ids).unwrap();
    assert_eq!(d.path(), "/themes/icons");
    assert_eq!(d.users_list().clone(), vec!["a".to_string(), "b".to_string()]);
}

#[test]
fn sidecar_lies_in_the_directory() {
    let d = ShareDir::new("/themes/icons");
    assert_eq!(d.sidecar_path(), "/themes/icons/.lock");
}

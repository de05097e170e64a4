use vb_manager::storage::{is_legacy_data_file, legacy_data_exists};
use vb_manager::storage::{
    file_version_of, migration_plan, newest_storage_file, parse_version, plan_data_storage_load,
    split_at, DataStorage, DataStorageLoadError, MigrationPlan, ProjectList, ProjectListEntry,
    ProjectListFolder, ProjectListProject,
};

#[test]
fn version_numbers_are_read_as_unsigned_integers() {
    assert_eq!(parse_version("42"), Some(42));
    assert_eq!(parse_version("+7"), Some(7));
    assert_eq!(parse_version("007"), Some(7));
    assert_eq!(parse_version(""), None);
    assert_eq!(parse_version("+"), None);
    assert_eq!(parse_version("-1"), None);
    assert_eq!(parse_version("1a"), None);
    assert_eq!(parse_version("18446744073709551615"), Some(u64::MAX));
    assert_eq!(parse_version("18446744073709551616"), None);
}

#[test]
fn splitting_at_a_character_keeps_empty_pieces() {
    assert_eq!(split_at("a..b", '.'), vec!["a", "", "b"]);
    assert_eq!(split_at("", '.'), vec![""]);
}

#[test]
fn storage_file_names_carry_their_version() {
    assert_eq!(file_version_of("data.3.bincode", "data"), Some(3));
    assert_eq!(file_version_of("project.10.bincode", "project"), Some(10));
    assert_eq!(file_version_of("data.3", "data"), None);
    assert_eq!(file_version_of("data.x.bincode", "data"), None);
    assert_eq!(file_version_of("data.3.bincode.bak", "data"), None);
    assert_eq!(file_version_of("project.3.bincode", "data"), None);
}

#[test]
fn the_newest_file_wins_and_later_ties_win() {
    let names: Vec<String> = ["data.1.bincode", "other", "data.3.bincode", "data.2.bincode"]
        .iter()
        .map(|s| s.to_string())
        .collect();
    assert_eq!(newest_storage_file(&names, "data"), Some((3, 2)));
    let ties: Vec<String> = ["data.2.a", "data.2.b"].iter().map(|s| s.to_string()).collect();
    assert_eq!(newest_storage_file(&ties, "data"), Some((2, 1)));
    assert_eq!(newest_storage_file(&vec![], "data"), None);
}

#[test]
fn migrations_go_one_version_at_a_time() {
    assert_eq!(migration_plan(1, 3), Some(MigrationPlan { read_as: 1, upgrades: vec![1, 2] }));
    assert_eq!(migration_plan(3, 3), Some(MigrationPlan { read_as: 3, upgrades: vec![] }));
    assert_eq!(migration_plan(0, 3), None);
    assert_eq!(migration_plan(4, 3), None);
    assert_eq!(migration_plan(7, 10).unwrap().upgrades, vec![7, 8, 9]);
}

#[test]
fn data_storage_load_plans() {
    assert_eq!(plan_data_storage_load(&vec![]), Err(DataStorageLoadError::DataStorageMissing));
    assert_eq!(
        plan_data_storage_load(&vec!["data.7.bincode".to_string()]),
        Err(DataStorageLoadError::InvalidVersionNumber)
    );
    assert_eq!(
        plan_data_storage_load(&vec!["data.1.bincode".to_string(), "data.2.bincode".to_string()]),
        Ok((1, MigrationPlan { read_as: 2, upgrades: vec![2] }))
    );
}

#[test]
fn project_list_lookups() {
    let list = ProjectList {
        entries: vec![
            ProjectListEntry::Project(ProjectListProject { id: 1, name: "P".to_string(), last_interaction: 0 }),
            ProjectListEntry::Folder(ProjectListFolder { id: 2, name: "F".to_string(), children: vec![] }),
        ],
    };
    assert!(list.has(1));
    assert!(!list.has(3));
    assert_eq!(list.get(2).map(|e| e.name()), Some("F"));
    assert!(list.get_folder(2).is_some());
    assert!(list.get_folder(1).is_none());
    assert_eq!(list.position(2), Some(1));
    let mut e = ProjectListEntry::Project(ProjectListProject { id: 9, name: "Old".to_string(), last_interaction: 0 });
    e.set_name("New".to_string());
    assert_eq!((e.id(), e.name()), (9, "New"));
    let storage = DataStorage::new();
    assert!(storage.projects.entries.is_empty());
}

#[test]
fn legacy_data_files_are_recognised_by_name() {
    assert!(is_legacy_data_file("data.3.bincode"));
    assert!(is_legacy_data_file("data..bincode"));
    assert!(!is_legacy_data_file("data.3.json"));
    assert!(!is_legacy_data_file("project.data.bincode"));
    assert!(!is_legacy_data_file("data.bincod"));
    assert!(legacy_data_exists(&vec!["a.txt".to_string(), "data.2.bincode".to_string()]));
    assert!(!legacy_data_exists(&vec!["a.txt".to_string()]));
}

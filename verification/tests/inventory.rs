use cairn::store::inventory::{Change, Inventory, Target};

fn inventory() -> Inventory {
    Inventory {
        changes: vec![
            Change::HelperInstalled { installed_at: 1 },
            Change::BackupWritten { target: Target::SystemHosts, captured_at: 2, sha256: "ab".to_string() },
            Change::HostsSection { target: Target::SystemHosts, applied_at: 3, separator_added: true },
            Change::HostsSection { target: Target::SystemHosts, applied_at: 4, separator_added: false },
        ],
    }
}

#[test]
fn the_inventory_finds_the_first_record_of_each_kind() {
    let inventory = inventory();
    assert!(inventory.has_backup(Target::SystemHosts));
    assert_eq!(inventory.backup_record(Target::SystemHosts), Some(1));
    assert_eq!(inventory.backup_digest(Target::SystemHosts).map(|(at, digest)| (at, digest)), Some((1, "ab".to_string())));
    assert_eq!(inventory.hosts_section(Target::SystemHosts), Some(2));
    assert!(inventory.separator_added(Target::SystemHosts));
}

#[test]
fn an_empty_inventory_records_nothing() {
    let inventory = Inventory { changes: vec![] };
    assert!(!inventory.has_backup(Target::SystemHosts));
    assert_eq!(inventory.backup_digest(Target::SystemHosts), None);
    assert_eq!(inventory.hosts_section(Target::SystemHosts), None);
    assert!(!inventory.separator_added(Target::SystemHosts));
}

#[test]
fn changes_are_named_for_a_teardown_report() {
    let changes = inventory().changes;
    assert_eq!(changes[0].label(), "Cairn's background component");
    assert_eq!(changes[1].label(), "the copy Cairn kept of the system's list of site addresses");
    assert_eq!(changes[2].label(), "Cairn's section in the system's list of site addresses");
}

#[test]
fn forgetting_a_change_keeps_every_other_in_order() {
    let mut inventory = inventory();
    let section = Change::HostsSection { target: Target::SystemHosts, applied_at: 3, separator_added: true };
    inventory.forget(&section);
    assert_eq!(inventory.changes.len(), 3);
    assert_eq!(inventory.hosts_section(Target::SystemHosts), Some(2));
    assert!(!inventory.separator_added(Target::SystemHosts));
    inventory.forget(&Change::BackupWritten { target: Target::SystemHosts, captured_at: 2, sha256: "ab".to_string() });
    assert!(!inventory.has_backup(Target::SystemHosts));
    assert_eq!(inventory.changes.len(), 2);
}

#[test]
fn changes_are_undone_last_first() {
    assert_eq!(inventory().teardown_order(), vec![3, 2, 1, 0]);
    assert_eq!(Inventory { changes: vec![] }.teardown_order(), Vec::<usize>::new());
}

//! Every verb that changes the machine, exercised together with the verb
//! that undoes it, against a machine held in memory. The helper's steps are
//! the library's; this file plays the helper process, doing exactly what
//! each step asks and reporting back.
//!
//! What is asserted is byte-level restoration, not "no error was returned".
use cairn::domain::entries::{Domain, ReachMode};
use cairn::domain::gate::TrustedClock;
use cairn::domain::normalize::{normalize, ReservedNames};
use cairn::domain::splice;
use cairn::helper::applying::{ApplyAction, ApplyEvent, Applying};
use cairn::helper::backup::{copy_removed, restored, BackingUp, BackupAction, BackupEvent};
use cairn::helper::checking::{repair_next, repaired, verification_answer, RepairNext};
use cairn::helper::heartbeat::{beat_of, Beat, HelperClock, HEARTBEAT_SECONDS};
use cairn::helper::removing::{RemoveAction, RemoveEvent, Removing};
use cairn::helper::uninstall::{uninstalled, Undone};
use cairn::helper::verbs::{section_domains, section_state};
use cairn::protocol::{Response, TroubleKind};
use cairn::store::inventory::{sha256_hex, to_lower_hex, Target};

/// A hosts file as it might really be found, awkward parts included.
const ORIGINALS: [(&str, &[u8]); 5] = [
    ("an ordinary file", b"127.0.0.1 localhost\n::1 localhost\n"),
    ("windows line endings", b"127.0.0.1 localhost\r\n::1 localhost\r\n"),
    ("no trailing newline", b"127.0.0.1 localhost\n10.0.0.5 build-server"),
    ("a byte-order mark", b"\xef\xbb\xbf127.0.0.1 localhost\n"),
    ("an empty file", b""),
];

#[derive(Clone, Debug)]
enum Change {
    Backup { sha256: String },
    Section { separator_added: bool },
}

/// The machine the helper acts on: the hosts file, the copy kept of it, the
/// inventory of changes, what is in force, and the trusted clock.
#[derive(Clone)]
struct Machine {
    hosts: Vec<u8>,
    copy: Option<Vec<u8>>,
    changes: Vec<Change>,
    in_force: Option<(Vec<Domain>, ReachMode)>,
    clock: HelperClock,
}

fn machine(original: &[u8]) -> Machine {
    Machine {
        hosts: original.to_vec(),
        copy: None,
        changes: Vec::new(),
        in_force: None,
        clock: HelperClock::default().on_start(1_700_000_000),
    }
}


fn entries(inputs: &[&str]) -> Vec<Domain> {
    let reserved = ReservedNames::default();
    inputs.iter().flat_map(|input| normalize(input, &reserved).unwrap()).collect()
}

fn section_record(machine: &Machine) -> Option<bool> {
    machine.changes.iter().find_map(|change| match change {
        Change::Section { separator_added } => Some(*separator_added),
        _ => None,
    })
}

fn write_backup_once(machine: &mut Machine) -> Response {
    let (mut state, mut action) = BackingUp::start();
    loop {
        let event = match action {
            BackupAction::LoadInventory => BackupEvent::InventoryLoaded {
                has_backup: machine.changes.iter().any(|change| matches!(change, Change::Backup { .. })),
                copy_exists: machine.copy.is_some(),
            },
            BackupAction::ReadExisting => BackupEvent::ExistingRead { bytes: machine.copy.clone().unwrap() },
            BackupAction::ReadOriginal => {
                BackupEvent::OriginalRead { bytes: machine.hosts.clone() }
            },
            BackupAction::WriteCopy { bytes } => {
                machine.copy = Some(bytes);
                BackupEvent::CopyWritten
            },
            BackupAction::Record { sha256 } => {
                machine.changes.push(Change::Backup { sha256 });
                BackupEvent::Recorded
            },
            BackupAction::Answer(answer) => return answer,
        };
        assert!(state.answered_by(&event));
        (state, action) = state.advance(event, Target::SystemHosts);
    }
}

fn apply_hosts_section(machine: &mut Machine, protected: &[Domain], mode: ReachMode) -> Response {
    let (mut state, mut action) = Applying::start();
    loop {
        let event = match action {
            ApplyAction::LoadInventory => ApplyEvent::InventoryLoaded {
                has_backup: machine.changes.iter().any(|change| matches!(change, Change::Backup { .. })),
                has_record: section_record(machine).is_some(),
            },
            ApplyAction::ReadOriginal => ApplyEvent::OriginalRead { bytes: machine.hosts.clone() },
            ApplyAction::Record { separator_added } => {
                machine.changes.push(Change::Section { separator_added });
                ApplyEvent::Recorded
            },
            ApplyAction::Write { bytes } => {
                machine.hosts = bytes;
                ApplyEvent::Written
            },
            ApplyAction::ReadBack => ApplyEvent::ReadBack { bytes: machine.hosts.clone() },
            ApplyAction::Remember => {
                machine.in_force = Some((protected.to_vec(), mode));
                ApplyEvent::Remembered
            },
            ApplyAction::Answer(answer) => return answer,
        };
        assert!(state.answered_by(&event));
        (state, action) = state.advance(event, protected, mode);
    }
}

fn remove_hosts_section(machine: &mut Machine) -> Response {
    let (mut state, mut action) = Removing::start();
    loop {
        let event = match action {
            RemoveAction::LoadInventory => RemoveEvent::InventoryLoaded {
                separator_added: section_record(machine).unwrap_or(false),
                has_record: section_record(machine).is_some(),
            },
            RemoveAction::ReadCurrent => RemoveEvent::CurrentRead { bytes: machine.hosts.clone() },
            RemoveAction::Write { bytes } => {
                machine.hosts = bytes;
                RemoveEvent::Written
            },
            RemoveAction::ReadBack => RemoveEvent::ReadBack { bytes: machine.hosts.clone() },
            RemoveAction::Forget => {
                machine.changes.retain(|change| !matches!(change, Change::Section { .. }));
                RemoveEvent::Forgotten
            },
            RemoveAction::ClearInForce => {
                machine.in_force = None;
                RemoveEvent::InForceCleared
            },
            RemoveAction::Answer(answer) => return answer,
        };
        assert!(state.answered_by(&event));
        (state, action) = state.advance(event);
    }
}

fn remove_backup(machine: &mut Machine) -> Response {
    let recorded = machine.changes.iter().find_map(|change| match change {
        Change::Backup { sha256 } => Some(sha256.clone()),
        _ => None,
    });
    let matched = restored(recorded.as_ref(), &machine.hosts);
    machine.copy = None;
    let (answer, forget) = copy_removed(true, recorded.is_some(), matched);
    if forget {
        machine.changes.retain(|change| !matches!(change, Change::Backup { .. }));
    }
    answer
}

fn verify_hosts_section(machine: &Machine, expected: &[Domain]) -> Response {
    verification_answer(&machine.hosts, expected)
}

fn repair_hosts_section(machine: &mut Machine, protected: &[Domain], mode: ReachMode) -> Response {
    match repair_next(verify_hosts_section(machine, protected), protected.len()) {
        RepairNext::Answer(answer) => answer,
        RepairNext::Apply => repaired(apply_hosts_section(machine, protected, mode)),
    }
}

fn uninstall(machine: &mut Machine) -> Response {
    let mut undone = Vec::new();
    for change in machine.changes.clone().into_iter().rev() {
        match change {
            Change::Section { .. } => undone.push(Undone::HostsSection {
                answer: remove_hosts_section(machine),
                label: "Cairn's section in the system's list of site addresses".to_string(),
            }),
            Change::Backup { .. } => undone.push(Undone::Backup {
                answer: remove_backup(machine),
                label: "the copy Cairn kept of the system's list of site addresses".to_string(),
            }),
        }
    }
    uninstalled(undone)
}

fn cycle(machine: &mut Machine) -> Beat {
    let wall = machine.clock.clock.last_wall_seconds + HEARTBEAT_SECONDS as i64;
    let monotonic = machine.clock.clock.last_monotonic_seconds + HEARTBEAT_SECONDS;
    machine.clock = machine.clock.on_beat(wall, monotonic);
    let repair = match machine.in_force.clone() {
        Some((protected, mode)) => Some(repair_hosts_section(machine, &protected, mode)),
        None => None,
    };
    beat_of(machine.clock.clock.trusted_seconds, repair.as_ref())
}

#[test]
fn every_verb_pair_puts_the_file_back_exactly() {
    for (description, original) in ORIGINALS {
        let mut machine = machine(original);
        let protected = entries(&["example.com", "news.example"]);

        let backed_up = write_backup_once(&mut machine);
        assert!(
            matches!(backed_up, Response::BackupWritten { written: true, .. }),
            "{description}: the original had to be captured first, got {backed_up:?}"
        );

        let applied = apply_hosts_section(&mut machine, &protected, ReachMode::Counted);
        assert!(
            matches!(applied, Response::HostsApplied { verified_count, .. } if verified_count == protected.len()),
            "{description}: {applied:?}"
        );
        assert_ne!(machine.hosts, original, "{description}: something changed");

        let removed = remove_hosts_section(&mut machine);
        assert!(
            matches!(&removed, Response::HostsRemoved { removed: true, residue } if residue.is_empty()),
            "{description}: {removed:?}"
        );
        assert_eq!(machine.hosts, original, "{description}: the file is not byte-for-byte what it was");

        let backup_removed = remove_backup(&mut machine);
        assert!(
            matches!(backup_removed, Response::BackupRemoved { removed: true, restored_sha256_match: true }),
            "{description}: {backup_removed:?}"
        );
        assert!(machine.copy.is_none(), "{description}: the copy Cairn kept is gone too");
    }
}

#[test]
fn a_full_teardown_leaves_no_residue_and_no_record() {
    for (description, original) in ORIGINALS {
        let mut machine = machine(original);
        write_backup_once(&mut machine);
        apply_hosts_section(&mut machine, &entries(&["example.com"]), ReachMode::Counted);

        let torn_down = uninstall(&mut machine);
        assert!(
            matches!(&torn_down, Response::Uninstalled { removed: true, residue } if residue.is_empty()),
            "{description}: {torn_down:?}"
        );
        assert_eq!(machine.hosts, original, "{description}");
        assert!(machine.changes.is_empty(), "{description}: nothing is left on the list of things Cairn changed");
    }
}

#[test]
fn nothing_is_written_before_the_original_is_safe() {
    let original = b"127.0.0.1 localhost\n";
    let mut machine = machine(original);

    let refused = apply_hosts_section(&mut machine, &entries(&["example.com"]), ReachMode::Counted);
    assert!(matches!(refused, Response::Trouble { kind: TroubleKind::NoBackupYet, .. }), "{refused:?}");
    assert_eq!(machine.hosts, original);
    assert!(machine.changes.is_empty());
}

#[test]
fn a_second_backup_never_replaces_the_first() {
    let original = b"127.0.0.1 localhost\n";
    let mut machine = machine(original);

    let first = write_backup_once(&mut machine);
    let Response::BackupWritten { sha256: before, .. } = first else {
        panic!("{first:?}");
    };

    apply_hosts_section(&mut machine, &entries(&["example.com"]), ReachMode::Counted);

    let second = write_backup_once(&mut machine);
    assert!(
        matches!(&second, Response::BackupWritten { written: false, sha256 } if *sha256 == before),
        "the copy is still of the machine as Cairn found it: {second:?}"
    );
    assert_eq!(before, sha256_hex(original));
    assert_eq!(machine.copy.as_deref(), Some(&original[..]));
}

#[test]
fn applying_twice_leaves_one_section_and_still_restores() {
    let original = b"127.0.0.1 localhost\n10.0.0.5 build-server";
    let mut machine = machine(original);

    write_backup_once(&mut machine);
    apply_hosts_section(&mut machine, &entries(&["example.com"]), ReachMode::Counted);
    apply_hosts_section(&mut machine, &entries(&["example.com", "news.example"]), ReachMode::Counted);

    let marker = splice::begin_marker();
    assert_eq!(
        machine.hosts.windows(marker.len()).filter(|window| *window == marker).count(),
        1,
        "one section, never two"
    );
    assert_eq!(
        machine.changes.iter().filter(|change| matches!(change, Change::Section { .. })).count(),
        1,
        "the first record stands"
    );

    uninstall(&mut machine);
    assert_eq!(machine.hosts, original);
}

#[test]
fn silent_repair_puts_the_section_back_and_teardown_still_restores() {
    let original = b"127.0.0.1 localhost\n";
    let mut machine = machine(original);
    let protected = entries(&["example.com"]);

    write_backup_once(&mut machine);
    apply_hosts_section(&mut machine, &protected, ReachMode::Counted);

    machine.hosts = original.to_vec();

    let state = verify_hosts_section(&machine, &protected);
    assert!(matches!(&state, Response::HostsVerified(state) if state.drift), "drift has to be noticed: {state:?}");

    let repaired = repair_hosts_section(&mut machine, &protected, ReachMode::Counted);
    assert!(matches!(repaired, Response::HostsRepaired { repaired: true, .. }), "{repaired:?}");

    let after = verify_hosts_section(&machine, &protected);
    assert!(matches!(&after, Response::HostsVerified(state) if !state.drift));

    uninstall(&mut machine);
    assert_eq!(machine.hosts, original);
}

#[test]
fn repairing_a_file_that_is_already_right_changes_nothing() {
    let mut machine = machine(b"127.0.0.1 localhost\n");
    let protected = entries(&["example.com"]);

    write_backup_once(&mut machine);
    apply_hosts_section(&mut machine, &protected, ReachMode::Counted);
    let before = machine.hosts.clone();

    let repaired = repair_hosts_section(&mut machine, &protected, ReachMode::Counted);
    assert!(matches!(repaired, Response::HostsRepaired { repaired: false, .. }));
    assert_eq!(machine.hosts, before);
}

#[test]
fn a_malformed_section_leaves_the_file_alone() {
    let mut original = b"127.0.0.1 localhost\n".to_vec();
    original.extend_from_slice(splice::begin_marker());
    original.extend_from_slice(b"\n127.0.0.1 example.com\n");

    let mut machine = machine(&original);
    write_backup_once(&mut machine);

    let refused = apply_hosts_section(&mut machine, &entries(&["example.com"]), ReachMode::Counted);
    match refused {
        Response::Trouble { kind, message } => {
            assert_eq!(kind, TroubleKind::SectionUnreadable);
            assert_eq!(
                message,
                "Cairn left the system's list of site addresses alone, because Cairn's section in the system file has no closing line. Nothing has been changed."
            );
        },
        other => panic!("{other:?}"),
    }
    assert_eq!(machine.hosts, original, "untouched");
}

#[test]
fn teardown_survives_a_machine_with_no_credential_store() {
    let original = b"127.0.0.1 localhost\n";
    let mut machine = machine(original);

    write_backup_once(&mut machine);
    apply_hosts_section(&mut machine, &entries(&["example.com"]), ReachMode::Counted);

    // A fresh helper over the same files, with no key material of any kind.
    let mut fresh = machine.clone();
    let torn_down = uninstall(&mut fresh);

    assert!(
        matches!(&torn_down, Response::Uninstalled { removed: true, residue } if residue.is_empty()),
        "{torn_down:?}"
    );
    assert_eq!(fresh.hosts, original);
}

#[test]
fn what_cairn_did_not_write_is_never_touched() {
    let original: &[u8] = b"# my own notes\n127.0.0.1 localhost\n0.0.0.0 example.com # mine\n\n\n";
    let mut machine = machine(original);
    let protected = entries(&["example.com", "another.example"]);

    write_backup_once(&mut machine);
    apply_hosts_section(&mut machine, &protected, ReachMode::Counted);

    let separator_added = section_record(&machine).unwrap();
    assert_eq!(
        splice::outside(&machine.hosts, separator_added).unwrap(),
        original.to_vec(),
        "everything that is not Cairn's is exactly as it was"
    );

    uninstall(&mut machine);
    assert_eq!(machine.hosts, original);
}

const IN_FORCE_ORIGINAL: &[u8] = b"127.0.0.1 localhost\n::1 localhost\n";

fn in_force() -> Machine {
    let mut machine = machine(IN_FORCE_ORIGINAL);
    write_backup_once(&mut machine);
    apply_hosts_section(&mut machine, &entries(&["example.com", "news.example"]), ReachMode::Counted);
    machine
}

#[test]
fn a_section_deleted_by_hand_is_put_back_on_the_next_beat() {
    let mut machine = in_force();
    let expected = machine.hosts.clone();

    machine.hosts = IN_FORCE_ORIGINAL.to_vec();
    let beat = cycle(&mut machine);

    assert!(beat.repaired, "drift has to be noticed and put back");
    assert_eq!(machine.hosts, expected);
}

#[test]
fn one_entry_removed_by_hand_is_put_back_too() {
    let mut machine = in_force();

    let tampered = String::from_utf8(machine.hosts.clone())
        .unwrap()
        .lines()
        .filter(|line| !line.contains("news.example"))
        .collect::<Vec<_>>()
        .join("\n");
    machine.hosts = tampered.into_bytes();

    cycle(&mut machine);

    let state = verify_hosts_section(&machine, &entries(&["example.com", "news.example"]));
    assert!(matches!(&state, Response::HostsVerified(state) if !state.drift), "{state:?}");
}

#[test]
fn a_file_that_is_already_right_is_not_rewritten() {
    let mut machine = in_force();
    let before = machine.hosts.clone();

    let beat = cycle(&mut machine);

    assert!(!beat.repaired, "nothing had changed, so nothing was written");
    assert_eq!(machine.hosts, before);
}

#[test]
fn a_beat_carries_nothing_that_could_be_shown_to_anyone() {
    let mut machine = in_force();
    machine.hosts = IN_FORCE_ORIGINAL.to_vec();

    let beat = cycle(&mut machine);
    let rendered = format!("{beat:?}");

    assert!(beat.repaired);
    for name in ["example.com", "news.example", "www."] {
        assert!(!rendered.contains(name), "a beat must not carry a domain");
    }
}

#[test]
fn the_heartbeat_interval_bounds_how_long_a_repair_waits() {
    assert!(HEARTBEAT_SECONDS <= 60);
}

#[test]
fn nothing_in_force_means_nothing_to_put_back() {
    let mut machine = machine(b"127.0.0.1 localhost\n");
    let beat = cycle(&mut machine);
    assert!(!beat.repaired);
    assert_eq!(beat.trusted_seconds, HEARTBEAT_SECONDS);
}

#[test]
fn the_helper_clock_credits_downtime_on_start_and_running_time_on_each_beat() {
    let fresh = HelperClock::default().on_start(1_000);
    assert_eq!(fresh.clock, TrustedClock { trusted_seconds: 0, last_wall_seconds: 1_000, last_monotonic_seconds: 0 });

    let resumed = fresh.on_start(1_500);
    assert_eq!(resumed.clock.trusted_seconds, 500, "time the machine was off is credited");

    let beaten = resumed.on_beat(1_560, 60);
    assert_eq!(beaten.clock.trusted_seconds, 560);
    assert_eq!(beaten.running_seconds, HEARTBEAT_SECONDS);

    let jumped = beaten.on_beat(100_000, 120);
    assert_eq!(jumped.clock.trusted_seconds, 620, "a wall-clock jump is credited only as far as the monotonic clock");

    assert_eq!(
        jumped.answer(),
        Response::TrustedClock { trusted_seconds: 620, running_seconds: 120, last_heartbeat_wall: 100_000 }
    );
}

#[test]
fn a_file_that_cannot_be_read_is_left_alone_and_said_so() {
    let (state, _) = Applying::start();
    let (state, _) = state.advance(
        ApplyEvent::InventoryLoaded { has_backup: true, has_record: false },
        &entries(&["example.com"]),
        ReachMode::Counted,
    );
    let (_, action) = state.advance(
        ApplyEvent::FileFailed { error: "permission denied".to_string() },
        &entries(&["example.com"]),
        ReachMode::Counted,
    );
    match action {
        ApplyAction::Answer(Response::Trouble { kind, message }) => {
            assert_eq!(kind, TroubleKind::Unreachable);
            assert_eq!(
                message,
                "Cairn could not open the system's list of site addresses (permission denied). Nothing on this machine has been changed."
            );
        },
        _ => panic!("a failed read is answered at once"),
    }
}

#[test]
fn an_inventory_that_cannot_be_loaded_is_reported_in_its_own_words() {
    let (state, _) = Removing::start();
    let (_, action) = state.advance(RemoveEvent::StoreFailed { message: "the inventory is unreadable".to_string() });
    match action {
        RemoveAction::Answer(Response::Trouble { kind, message }) => {
            assert_eq!(kind, TroubleKind::Unreachable);
            assert_eq!(message, "the inventory is unreadable");
        },
        _ => panic!("a failed load is answered at once"),
    }
}

#[test]
fn a_copy_that_cannot_be_read_is_not_replaced() {
    let (state, _) = BackingUp::start();
    let (state, action) = state.advance(BackupEvent::InventoryLoaded { has_backup: true, copy_exists: true }, Target::SystemHosts);
    assert!(matches!(action, BackupAction::ReadExisting));
    let (_, action) = state.advance(BackupEvent::ExistingUnreadable { error: "gone".to_string() }, Target::SystemHosts);
    match action {
        BackupAction::Answer(Response::Trouble { kind, message }) => {
            assert_eq!(kind, TroubleKind::Unreachable);
            assert_eq!(
                message,
                "Cairn has a record of an earlier copy of the system's list of site addresses but cannot read it (gone). Nothing has been changed."
            );
        },
        _ => panic!("an unreadable copy is reported, never replaced"),
    }
}

#[test]
fn a_file_not_restored_exactly_is_reported_as_residue() {
    let undone = vec![
        Undone::Backup {
            answer: Response::BackupRemoved { removed: true, restored_sha256_match: false },
            label: "the copy".to_string(),
        },
        Undone::HostsSection {
            answer: Response::Trouble { message: "could not write".to_string(), kind: TroubleKind::Unreachable },
            label: "the section".to_string(),
        },
        Undone::HelperInstalled,
    ];
    match uninstalled(undone) {
        Response::Uninstalled { removed, residue } => {
            assert!(!removed);
            assert_eq!(
                residue,
                vec![
                    "the system's list of site addresses is not exactly as it was before Cairn \u{2014} the copy Cairn kept has been left in place so nothing is lost".to_string(),
                    "could not write".to_string(),
                ]
            );
        },
        other => panic!("{other:?}"),
    }
    assert!(matches!(uninstalled(vec![Undone::HelperInstalled]), Response::Uninstalled { removed: true, .. }));
}

#[test]
fn silent_mode_blocks_the_same_names() {
    let protected = entries(&["example.com"]);
    let mut counted = machine(b"");
    write_backup_once(&mut counted);
    apply_hosts_section(&mut counted, &protected, ReachMode::Counted);
    let mut silent = machine(b"");
    write_backup_once(&mut silent);
    apply_hosts_section(&mut silent, &protected, ReachMode::Silent);
    assert_eq!(section_domains(&counted.hosts), section_domains(&silent.hosts));
    let text = String::from_utf8(silent.hosts).unwrap();
    assert!(text.contains("0.0.0.0 example.com\n"));
    assert!(text.contains(":: www.example.com\n"));
}

#[test]
fn an_unexpected_name_in_the_section_is_reported_once() {
    let protected = entries(&["example.com"]);
    let mut machine = machine(b"");
    write_backup_once(&mut machine);
    apply_hosts_section(&mut machine, &entries(&["example.com", "other.example"]), ReachMode::Counted);
    let state = section_state(&section_domains(&machine.hosts).unwrap(), &protected);
    assert_eq!(state.unexpected, vec!["other.example".to_string(), "www.other.example".to_string()]);
    assert!(state.drift);
    assert_eq!(state.entry_count, 4);
}

#[test]
fn the_recorded_digest_is_the_sha256_of_the_bytes_in_hex() {
    assert_eq!(sha256_hex(b""), "e3b0c44298fc1c149afbf4c8996fb92427ae41e4649b934ca495991b7852b855");
    assert_eq!(sha256_hex(b"abc"), "ba7816bf8f01cfea414140de5dae2223b00361a396177a9cb410ff61f20015ad");
    assert_eq!(to_lower_hex(&[0x0f, 0xa0, 0x00, 0xff]), "0fa000ff");
}

#[test]
fn a_file_ending_in_a_lone_carriage_return_comes_back_whole() {
    let original = b"127.0.0.1 localhost\r".to_vec();
    let spliced = splice::apply(&original, b"0.0.0.0 example.com\n").unwrap();
    assert!(spliced.separator_added);
    assert_eq!(splice::remove(&spliced.bytes, spliced.separator_added).unwrap(), original);
    assert_eq!(splice::outside(&spliced.bytes, spliced.separator_added).unwrap(), original);
    let crlf = b"a\r\nb\r\nc".to_vec();
    let spliced = splice::apply(&crlf, b"0.0.0.0 example.com\r\n").unwrap();
    assert_eq!(splice::remove(&spliced.bytes, spliced.separator_added).unwrap(), crlf);
}

#[test]
fn a_closing_line_before_the_opening_one_is_refused() {
    let mut bytes = Vec::new();
    bytes.extend_from_slice(splice::end_marker());
    bytes.push(b'\n');
    bytes.extend_from_slice(splice::begin_marker());
    bytes.push(b'\n');
    bytes.extend_from_slice(splice::end_marker());
    bytes.push(b'\n');
    assert_eq!(splice::find_section(&bytes), Err(splice::SpliceError::Unopened));
    assert_eq!(splice::apply(&bytes, b"").err(), Some(splice::SpliceError::Unopened));
}

#[test]
fn a_body_without_a_final_line_ending_still_comes_out_whole() {
    let original = b"127.0.0.1 localhost".to_vec();
    let spliced = splice::apply(&original, b"0.0.0.0 example.com").unwrap();
    assert_eq!(splice::remove(&spliced.bytes, spliced.separator_added).unwrap(), original);
    let again = splice::apply(&spliced.bytes, b"0.0.0.0 example.com").unwrap();
    assert_eq!(again.bytes, spliced.bytes);
    assert!(!again.separator_added);
}

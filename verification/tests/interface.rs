use cairn::counting::availability::Counting;
use cairn::counting::listener::note_reach;
use cairn::domain::entries::{CategoryId, Domain, ReachMode, Trail};
use cairn::domain::gate::{draw_id, PendingChange, PendingKind, TrustedClock};
use cairn::domain::normalize::{normalize, ReservedNames};
use cairn::enforcement::seed::CategoryList;
use cairn::helper::uninstall::{dns_flushed, port_taken};
use cairn::ipc::state::{
    already_waiting, category_preset, clock_from, deletion_refused, deletion_report, disclosures,
    history_not_kept, pending_view, what_it_would_do,
};
use cairn::link::{handover_ports, not_reachable};
use cairn::platform::credentials::{classify, fresh_key, key_from_draw, key_from_store, key_removed, KeyNext, StoreProblem, StoredKey};
use cairn::platform::elevation::{
    elevated_outcome, helper_missing, installed_afterwards, linux_install_script, quote_for_powershell,
    removal_leaving, MacosElevation,
};
use cairn::protocol::{CountingSockets, Response, TroubleKind};
use cairn::services::{ElevationService, HelperStatus, KeyUnavailable, Trouble};
use cairn::store::config::ProtectionIntent;
use std::cell::RefCell;

fn domains(inputs: &[&str]) -> Vec<Domain> {
    let reserved = ReservedNames::default();
    inputs.iter().flat_map(|input| normalize(input, &reserved).unwrap()).collect()
}

fn waiting(kind: PendingKind, eligible_after_trusted: u64) -> PendingChange {
    let clock = TrustedClock { trusted_seconds: 0, last_wall_seconds: 0, last_monotonic_seconds: 0 };
    let mut pending = PendingChange::request(kind, &clock, 1_700_000_000, draw_id().unwrap());
    pending.eligible_after_trusted = eligible_after_trusted;
    pending
}

#[test]
fn a_waiting_change_is_described_in_plain_words() {
    assert_eq!(what_it_would_do(&PendingKind::TurnOffProtection), "Turn protection off");
    let one = domains(&["example.com"]);
    assert_eq!(
        what_it_would_do(&PendingKind::RemoveEntries { domains: vec![one[0].clone()] }),
        "Stop protecting example.com"
    );
    assert_eq!(what_it_would_do(&PendingKind::RemoveEntries { domains: one }), "Stop protecting 2 addresses");
    assert_eq!(
        what_it_would_do(&PendingKind::DisableCategory { category: CategoryId::Gambling }),
        "Switch the Gambling list off"
    );
}

#[test]
fn a_waiting_change_shows_rough_time_left_and_whether_it_is_ready() {
    let pending = waiting(PendingKind::TurnOffProtection, 86_400);
    let view = pending_view(&pending, 0);
    assert_eq!(view.what, "Turn protection off");
    assert_eq!(view.time_remaining, "24 hours");
    assert!(!view.eligible_now);
    assert_eq!(view.id, pending.id.to_string());
    assert_eq!(view.id.len(), 36);

    let ready = pending_view(&pending, 90_000);
    assert!(ready.eligible_now);
    assert_eq!(ready.time_remaining, "no time");
}

#[test]
fn a_second_reduction_is_told_what_already_waits() {
    let pending = waiting(PendingKind::TurnOffProtection, 7_200);
    assert_eq!(
        already_waiting(&pending, 3_600).message,
        "One change is already waiting: Turn protection off. It takes effect in about an hour. You can keep things as they are on the protection screen, and then ask for this instead."
    );
}

#[test]
fn a_category_shows_its_own_copy() {
    let mut trail = Trail { entries: Vec::new(), enabled_categories: vec![CategoryId::News] };
    let list = CategoryList {
        id: "news".to_string(),
        label: "News".to_string(),
        domains: vec!["a.example".to_string(), "b.example".to_string()],
        edited: true,
    };
    let preset = category_preset(CategoryId::News, &trail, Some(&list));
    assert_eq!(preset.label, "News");
    assert!(preset.enabled);
    assert_eq!(preset.entry_count, 2);
    assert!(preset.edited);

    trail.enabled_categories.clear();
    let absent = category_preset(CategoryId::News, &trail, None);
    assert!(!absent.enabled);
    assert_eq!(absent.entry_count, 0);
    assert!(!absent.edited);
}

#[test]
fn what_is_not_covered_is_named() {
    let told = disclosures(&HelperStatus::NotInstalled);
    assert_eq!(told.in_force.len(), 2);
    assert_eq!(told.not_covered.len(), 2);
    assert!(told.helper.starts_with("Cairn will ask once for permission"));
    assert!(told.not_covered[0].starts_with("An application that looks up addresses on its own"));
    assert!(told.administrator.ends_with("not a lock."));
    let unsupported = disclosures(&HelperStatus::Unsupported { because: "no".to_string() });
    assert!(unsupported.helper.starts_with("On this machine Cairn cannot run its background component"));
    let installed = disclosures(&HelperStatus::Installed { version: "1".to_string() });
    assert!(installed.helper.starts_with("Cairn runs a small background component"));
}

#[test]
fn the_waiting_period_clock_comes_from_the_helper_only() {
    let clock = clock_from(Ok(Response::TrustedClock { trusted_seconds: 42, running_seconds: 7, last_heartbeat_wall: 99 }));
    assert_eq!(clock, Ok(TrustedClock { trusted_seconds: 42, last_wall_seconds: 99, last_monotonic_seconds: 0 }));
    assert_eq!(
        clock_from(Ok(Response::Trouble { message: "busy".to_string(), kind: TroubleKind::Unreachable })),
        Err(Trouble::new("busy".to_string()))
    );
    assert_eq!(clock_from(Ok(Response::SocketsReleased { released: true })), Err(not_reachable()));
    assert_eq!(
        not_reachable().message,
        "Cairn cannot reach the background component that keeps protection in force. Nothing on this machine has been changed."
    );
}

#[test]
fn deleting_data_is_refused_while_protection_is_on() {
    let refused = deletion_refused(ProtectionIntent::On).unwrap();
    assert!(refused.message.starts_with("Protection is on, so Cairn is keeping what it needs to keep it on."));
    assert_eq!(deletion_refused(ProtectionIntent::Off), None);
}

#[test]
fn only_what_was_actually_removed_is_reported() {
    assert_eq!(
        deletion_report(true, false, true, Ok(())).unwrap(),
        vec![
            "your settings and what you chose to protect".to_string(),
            "everything Cairn recorded about the sites you reached for".to_string(),
            "the key that kept your history sealed".to_string(),
        ]
    );
    let trouble = Trouble::new("locked".to_string());
    assert_eq!(deletion_report(true, true, true, Err(trouble.clone())), Err(trouble));
}

#[test]
fn a_build_without_history_says_so() {
    let day = history_not_kept();
    assert!(day.reaches.is_empty() && day.gaps.is_empty() && day.coverage_note.is_none());
    assert_eq!(day.sealed.as_deref(), Some("This build of Cairn does not keep a history. Protection is unaffected."));
}

#[test]
fn counting_ports_are_taken_only_when_the_helper_bound_some() {
    assert_eq!(handover_ports(Response::CountingSockets(CountingSockets::Bound { ports: vec![80, 443] })), Ok(vec![80, 443]));
    assert_eq!(
        handover_ports(Response::CountingSockets(CountingSockets::Conflict { reason: "taken".to_string() })),
        Err("taken".to_string())
    );
    let empty = handover_ports(Response::CountingSockets(CountingSockets::Bound { ports: vec![] })).unwrap_err();
    assert!(empty.starts_with("Cairn is not counting the sites you reach for on this machine yet."));
    assert_eq!(handover_ports(Response::Pong { version: "1".to_string(), healthy: true }), Err(empty));
}

#[test]
fn a_taken_port_is_explained_in_one_sentence() {
    match port_taken(443) {
        Response::CountingSockets(CountingSockets::Conflict { reason }) => assert_eq!(
            reason,
            "Something else on this machine is already using port 443, so Cairn is not counting the sites you reach for. Everything you have protected is still protected."
        ),
        other => panic!("{other:?}"),
    }
}

#[test]
fn a_flush_that_did_not_happen_is_said_plainly() {
    assert_eq!(
        dns_flushed(Some("nscd".to_string())),
        Response::DnsFlushed { flushed: true, mechanism: "nscd".to_string(), note: None }
    );
    match dns_flushed(None) {
        Response::DnsFlushed { flushed: false, mechanism, note: Some(note) } => {
            assert_eq!(mechanism, "none");
            assert!(note.starts_with("Nothing on this machine keeps a cache of site addresses"));
        },
        other => panic!("{other:?}"),
    }
}

#[test]
fn a_connection_naming_a_site_is_noted_and_nothing_else_is() {
    let noted = note_reach(b"GET / HTTP/1.1\r\nHost: example.com:8080\r\n\r\n", 77);
    assert_eq!(noted, Some(("example.com".to_string(), 77)));
    assert_eq!(note_reach(b"", 78), None, "a connection that said nothing costs nothing");
}

#[test]
fn the_stored_key_is_used_only_at_its_full_length() {
    match key_from_store(StoredKey::Found { secret: vec![7; 32] }) {
        KeyNext::Done(Ok(key)) => assert_eq!(key.expose(), &[7u8; 32]),
        _ => panic!("a full-length key is the key"),
    }
    match key_from_store(StoredKey::Found { secret: vec![7; 31] }) {
        KeyNext::Done(Err(KeyUnavailable::Unreadable { because })) => {
            assert_eq!(because, "the stored key is not the right length")
        },
        _ => panic!("a short key is unreadable"),
    }
    assert!(matches!(key_from_store(StoredKey::Failed(StoreProblem::NoEntry)), KeyNext::Create));
    assert!(matches!(
        key_from_store(StoredKey::Failed(StoreProblem::NoStorageAccess { said: "locked".to_string() })),
        KeyNext::Done(Err(KeyUnavailable::Locked))
    ));
}

#[test]
fn a_store_problem_is_classified_fail_closed() {
    assert_eq!(
        classify(StoreProblem::PlatformFailure { inner: "no dbus".to_string(), said: "x".to_string() }),
        KeyUnavailable::NoCredentialStore { because: "no dbus".to_string() }
    );
    assert_eq!(
        classify(StoreProblem::Other { said: "odd".to_string() }),
        KeyUnavailable::Unreadable { because: "odd".to_string() }
    );
    assert_eq!(
        classify(StoreProblem::NoEntry),
        KeyUnavailable::Unreadable { because: "No matching entry found in secure storage".to_string() }
    );
}

#[test]
fn two_fresh_keys_differ() {
    let first = fresh_key().unwrap();
    let second = fresh_key().unwrap();
    assert_ne!(first.expose(), second.expose());
    assert_ne!(first.expose(), &[0u8; 32]);
}

#[test]
fn removing_a_key_that_was_never_there_is_done() {
    assert_eq!(key_removed(Ok(())), Ok(()));
    assert_eq!(key_removed(Err(StoreProblem::NoEntry)), Ok(()));
    assert_eq!(
        key_removed(Err(StoreProblem::Other { said: "refused".to_string() })).unwrap_err().message,
        "Cairn could not remove the key it kept for your history (refused)."
    );
}

#[test]
fn installing_is_judged_by_what_is_there_afterwards() {
    assert_eq!(
        installed_afterwards(HelperStatus::Installed { version: "2".to_string() }),
        Ok(HelperStatus::Installed { version: "2".to_string() })
    );
    assert_eq!(
        installed_afterwards(HelperStatus::NotInstalled).unwrap_err().message,
        "Cairn asked to install its background component, but it is not there afterwards. Nothing has been changed."
    );
    assert!(helper_missing().message.starts_with("Cairn cannot find the background component"));
    assert_eq!(elevated_outcome(Ok(true)), Ok(()));
    assert!(elevated_outcome(Ok(false)).unwrap_err().message.starts_with("Cairn was not given permission"));
    assert_eq!(
        elevated_outcome(Err("no pkexec".to_string())).unwrap_err().message,
        "Cairn could not ask for permission to change this machine (no pkexec). Nothing has been changed."
    );
    let left = removal_leaving(vec!["/etc/systemd/system/cairn-helper.service".to_string()]);
    assert!(!left.removed);
    assert!(removal_leaving(Vec::new()).removed);
}

#[test]
fn a_script_travels_as_one_quoted_line() {
    assert_eq!(quote_for_powershell("sc.exe stop 'X'\nRemove-Item 'Y'\n"), "sc.exe stop ''X''; Remove-Item ''Y''; ");
    let script = linux_install_script("/opt/cairn/cairn-helper", 1000, "0.1.0");
    assert!(script.starts_with("set -e\ninstall -d -m 0755 /usr/local/lib/cairn\ninstall -m 0755 '/opt/cairn/cairn-helper' "));
    assert!(script.contains("printf '%s\\n' '1000' > '/var/lib/cairn/owner'"));
    assert!(script.contains("Description=Cairn helper 0.1.0\n"));
    assert!(script.ends_with("systemctl enable --now cairn-helper.service\n"));
}

#[test]
fn a_mac_says_the_helper_is_not_there_yet() {
    let mac = MacosElevation;
    assert!(matches!(mac.helper_status(), HelperStatus::Unsupported { .. }));
    assert!(mac.install_helper().unwrap_err().message.starts_with("On this Mac, Cairn cannot yet keep protection in force"));
    assert!(mac.uninstall_helper().unwrap().is_clean());
}

#[test]
fn counting_decides_the_mode() {
    assert_eq!(Counting::Available.mode(), ReachMode::Counted);
    assert_eq!(Counting::Unavailable { because: "x".to_string() }.mode(), ReachMode::Silent);
}

#[test]
fn a_new_key_is_exactly_the_bytes_drawn() {
    let key = key_from_draw(Ok([7u8; 32])).unwrap();
    assert_eq!(key.expose(), &[7u8; 32]);
    let refused = key_from_draw(Err("no randomness".to_string()));
    assert!(matches!(refused, Err(KeyUnavailable::Unreadable { because }) if because == "no randomness"));
}

#[test]
fn the_view_names_the_waiting_change_by_its_own_identifier() {
    let id = uuid::Uuid::from_bytes([0x00, 0x11, 0x22, 0x33, 0x44, 0x55, 0x66, 0x77, 0x88, 0x99, 0xaa, 0xbb, 0xcc, 0xdd, 0xee, 0xff]);
    let pending = PendingChange::request(PendingKind::TurnOffProtection, &TrustedClock::default(), 0, id);
    let view = pending_view(&pending, 0);
    assert_eq!(view.id, "00112233-4455-6677-8899-aabbccddeeff");
    let drawn = draw_id().unwrap();
    let bytes = drawn.as_bytes();
    assert_eq!(bytes[6] >> 4, 4);
    assert_eq!(bytes[8] >> 6, 0b10);
}

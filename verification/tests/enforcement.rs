use cairn::counting::availability::Counting;
use cairn::domain::entries::{CategoryId, ReachMode, Trail};
use cairn::domain::gate::{draw_id, PendingKind, TrustedClock};
use cairn::domain::normalize::{normalize, ReservedNames};
use cairn::enforcement::apply::{backup_answer, current_state, flush_answer, has_drifted, section_answer};
use cairn::enforcement::reach_mode::{choose_mode, settle};
use cairn::enforcement::reduce::{apply_reduction, cancel, plain_duration, request, time_remaining};
use cairn::enforcement::state::{ProtectionState, ProtectionStatus};
use cairn::enforcement::teardown::teardown_report;
use cairn::enforcement::trail::{add_custom_entry, enable_category};
use cairn::protocol::{Response, SectionState, TroubleKind};
use cairn::services::{Removal, Trouble, Verification};
use cairn::store::config::{ChosenBy, Config, ProtectionIntent, ReachModeSetting};

fn config() -> Config {
    Config {
        intent: ProtectionIntent::On,
        trail: Trail::default(),
        reach_mode: choose_mode(ReachMode::Counted),
        pending_change: None,
    }
}

fn clock(trusted: u64) -> TrustedClock {
    TrustedClock { trusted_seconds: trusted, last_wall_seconds: 0, last_monotonic_seconds: 0 }
}

#[test]
fn a_persons_choice_of_silence_stands() {
    let chosen = ReachModeSetting { mode: ReachMode::Silent, chosen_by: ChosenBy::Person, fallback_reason: None };
    assert_eq!(settle(&chosen, &Counting::Available), chosen);
}

#[test]
fn a_conflict_drops_to_silent_and_says_why() {
    let chosen = choose_mode(ReachMode::Counted);
    let found = Counting::Unavailable { because: "Port 80 is in use.".to_string() };
    let settled = settle(&chosen, &found);
    assert_eq!(settled.mode, ReachMode::Silent);
    assert_eq!(settled.chosen_by, ChosenBy::Automatic);
    assert_eq!(settled.fallback_reason.as_deref(), Some("Port 80 is in use."));
    assert_eq!(settle(&settled, &found), settled);
    assert_eq!(found.mode(), ReachMode::Silent);
    assert_eq!(settle(&settled, &Counting::Available).mode, ReachMode::Counted);
}

#[test]
fn asking_again_for_the_same_reduction_does_not_restart_the_wait() {
    let mut config = config();
    let first = request(&mut config, PendingKind::TurnOffProtection, &clock(100), 5, draw_id().unwrap()).unwrap();
    let again = request(&mut config, PendingKind::TurnOffProtection, &clock(5_000), 6, draw_id().unwrap()).unwrap();
    assert_eq!(again.id, first.id);
    assert_eq!(again.eligible_after_trusted, 100 + 86_400);
    let other = request(&mut config, PendingKind::DisableCategory { category: CategoryId::News }, &clock(5_000), 6, draw_id().unwrap());
    assert_eq!(other.unwrap_err().existing.id, first.id);
    assert_eq!(time_remaining(&config, 100), Some(86_400));
}

#[test]
fn nothing_reduces_before_the_wait_is_served() {
    let mut config = config();
    add_custom_entry(&mut config.trail, "example.com", &ReservedNames::default()).unwrap();
    request(&mut config, PendingKind::TurnOffProtection, &clock(0), 0, draw_id().unwrap()).unwrap();
    let early = apply_reduction(&mut config, 86_399).unwrap_err();
    assert_eq!(early.message, "That change has 1 minutes to wait. Protection stays on until then.");
    assert_eq!(config.trail.entries.len(), 2);
    assert_eq!(config.intent, ProtectionIntent::On);
    let applied = apply_reduction(&mut config, 86_400).unwrap();
    assert_eq!(applied, PendingKind::TurnOffProtection);
    assert_eq!(config.intent, ProtectionIntent::Off);
    assert!(config.trail.entries.is_empty());
    assert!(config.pending_change.is_none());
}

#[test]
fn with_nothing_waiting_there_is_nothing_to_apply() {
    let mut config = config();
    assert_eq!(
        apply_reduction(&mut config, 1_000_000).unwrap_err().message,
        "There is no change waiting, so there is nothing to apply."
    );
}

#[test]
fn removing_a_root_takes_its_generated_www_form_but_not_a_typed_one() {
    let mut config = config();
    let reserved = ReservedNames::default();
    add_custom_entry(&mut config.trail, "example.com", &reserved).unwrap();
    add_custom_entry(&mut config.trail, "www.other.example.org", &reserved).unwrap();
    enable_category(&mut config.trail, CategoryId::News, &["news.example".to_string()], &reserved);
    let domains = normalize("example.com", &reserved).unwrap();
    request(&mut config, PendingKind::RemoveEntries { domains: vec![domains[0].clone()] }, &clock(0), 0, draw_id().unwrap()).unwrap();
    apply_reduction(&mut config, 86_400).unwrap();
    let left: Vec<String> = config.trail.domains().iter().map(|d| d.as_str().to_string()).collect();
    assert_eq!(left, vec!["news.example", "www.news.example", "www.other.example.org"]);
}

#[test]
fn disabling_a_category_keeps_what_the_person_typed() {
    let mut config = config();
    let reserved = ReservedNames::default();
    add_custom_entry(&mut config.trail, "example.com", &reserved).unwrap();
    enable_category(&mut config.trail, CategoryId::Social, &["example.com".to_string(), "social.example".to_string()], &reserved);
    request(&mut config, PendingKind::DisableCategory { category: CategoryId::Social }, &clock(0), 0, draw_id().unwrap()).unwrap();
    apply_reduction(&mut config, 86_400).unwrap();
    let left: Vec<String> = config.trail.domains().iter().map(|d| d.as_str().to_string()).collect();
    assert_eq!(left, vec!["example.com", "www.example.com"]);
    assert!(config.trail.enabled_categories.is_empty());
}

#[test]
fn cancelling_is_always_available_and_only_for_the_change_waiting() {
    let mut config = config();
    let pending = request(&mut config, PendingKind::TurnOffProtection, &clock(0), 0, draw_id().unwrap()).unwrap();
    let stranger = uuid::Uuid::new_v4();
    assert_eq!(
        cancel(&mut config, stranger).unwrap_err().message,
        "That change is not waiting any more. Nothing has changed."
    );
    assert!(cancel(&mut config, pending.id).is_ok());
    assert!(config.pending_change.is_none());
    assert!(cancel(&mut config, pending.id).is_err());
}

#[test]
fn waiting_times_are_said_plainly() {
    assert_eq!(plain_duration(0), "no time");
    assert_eq!(plain_duration(1), "1 minutes");
    assert_eq!(plain_duration(2_400), "40 minutes");
    assert_eq!(plain_duration(3_600), "about an hour");
    assert_eq!(plain_duration(7_199), "about an hour");
    assert_eq!(plain_duration(7_200), "2 hours");
    assert_eq!(plain_duration(82_800), "23 hours");
}

fn verification(present: bool, count: usize, missing: usize, unexpected: usize) -> Verification {
    let domain = normalize("example.com", &ReservedNames::default()).unwrap().remove(0);
    Verification {
        section_present: present,
        entry_count: count,
        missing: vec![domain; missing],
        unexpected: vec!["stray.example".to_string(); unexpected],
    }
}

#[test]
fn protection_is_shown_in_force_only_from_a_matching_read_back() {
    let in_force = ProtectionState::from_verification(&verification(true, 2, 0, 0), 2, 50, Some(10));
    assert_eq!(in_force.status, ProtectionStatus::InForce);
    assert_eq!(in_force.summary(), "Protection is on, and Cairn has checked it.");
    let short = ProtectionState::from_verification(&verification(true, 1, 1, 0), 2, 50, Some(10));
    assert_eq!(short.status, ProtectionStatus::NotVerified);
    assert_eq!(ProtectionState::from_verification(&verification(false, 0, 0, 0), 0, 50, None), ProtectionState::off());
    assert!(has_drifted(&verification(true, 2, 0, 1), 2));
    assert!(!has_drifted(&verification(true, 2, 0, 0), 2));
    let unreachable = current_state(Err(Trouble::new("no".to_string())), 2, 50, Some(1));
    assert_eq!(unreachable.status, ProtectionStatus::NotVerified);
    assert_eq!(unreachable.verified_at, None);
}

#[test]
fn helper_answers_are_read_step_by_step() {
    assert!(backup_answer(Ok(Response::BackupWritten { written: false, sha256: String::new() })).is_ok());
    let refused = Response::Trouble { message: "No copy yet.".to_string(), kind: TroubleKind::NoBackupYet };
    assert_eq!(section_answer(Ok(refused)).unwrap_err().message, "No copy yet.");
    assert_eq!(
        backup_answer(Ok(Response::SocketsReleased { released: true })).unwrap_err().message,
        "Cairn got an answer it did not understand from its background component. Nothing on this machine has been changed."
    );
    assert_eq!(flush_answer(Ok(Response::DnsFlushed { flushed: true, mechanism: "x".to_string(), note: None })), None);
    assert!(flush_answer(Err(Trouble::new("gone".to_string()))).unwrap().starts_with("Cairn could not clear"));
    let state = SectionState { present: true, entry_count: 1, drift: false, missing: vec![], unexpected: vec![] };
    assert!(section_answer(Ok(Response::HostsVerified(state))).is_err());
}

#[test]
fn teardown_reports_what_it_left_behind() {
    let clean = teardown_report(Response::Uninstalled { removed: true, residue: vec![] }, Ok(Removal::clean()));
    assert!(clean.complete);
    assert_eq!(clean.confirmed.len(), 2);
    assert_eq!(
        clean.summary(),
        "This machine is back to how it was before Cairn. What Cairn did not write is untouched."
    );
    let partial = teardown_report(
        Response::Uninstalled { removed: false, residue: vec!["a backup".to_string()] },
        Err(Trouble::new("The helper is still installed.".to_string())),
    );
    assert!(!partial.complete);
    assert_eq!(partial.residue, vec!["a backup".to_string(), "The helper is still installed.".to_string()]);
    assert_eq!(
        partial.summary(),
        "Cairn removed what it could. 2 thing(s) are still here, listed below, so you can decide what to do with them."
    );
}

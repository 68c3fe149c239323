use cairn::helper::channel::{frame_length, frame_prefix, MAX_FRAME_BYTES};
use cairn::protocol::Request;
use cairn::services::{Capability, KeyUnavailable, Key, Removal};
use cairn::services::layers::{BrowserPolicyNotInThisRelease, BrowserPolicyService, ResolverRulesNotInThisRelease, ResolverRulesService};
use cairn::store::inventory::Target;

#[test]
fn a_frame_length_round_trips_through_its_prefix() {
    for length in [0usize, 1, 255, 256, 65_536, MAX_FRAME_BYTES] {
        let prefix = frame_prefix(length).unwrap();
        assert_eq!(prefix, (length as u32).to_be_bytes());
        assert_eq!(frame_length(prefix), Some(length));
    }
}

#[test]
fn an_oversized_frame_is_refused_before_it_is_read() {
    assert_eq!(frame_length(((MAX_FRAME_BYTES + 1) as u32).to_be_bytes()), None);
    assert_eq!(frame_length([0xff; 4]), None);
    assert_eq!(frame_prefix(MAX_FRAME_BYTES + 1), None);
}

#[test]
fn the_layers_not_built_yet_say_so() {
    let resolver = ResolverRulesNotInThisRelease.capability();
    assert!(!resolver.is_available());
    assert_eq!(resolver, BrowserPolicyNotInThisRelease.capability());
    assert!(Capability::Available.is_available());
}

#[test]
fn an_unavailable_key_is_explained_without_alarm() {
    assert_eq!(
        KeyUnavailable::Locked.message(),
        "Your keychain is locked, so your history stays sealed until it is unlocked. Protection is unaffected, and Cairn keeps recording."
    );
    let key = Key::from_bytes([9u8; 32]);
    assert_eq!(key.expose(), &[9u8; 32]);
}

#[test]
fn a_removal_is_clean_only_with_no_residue() {
    assert!(Removal::clean().is_clean());
    assert!(!Removal { removed: true, residue: vec!["x".to_string()] }.is_clean());
    assert!(!Removal::default().is_clean());
}

#[test]
fn the_one_target_has_a_name_a_person_can_read() {
    assert_eq!(Target::SystemHosts.label(), "the system's list of site addresses");
    assert_eq!(Request::RemoveBackup { target: Target::SystemHosts }, Request::RemoveBackup { target: Target::SystemHosts });
}

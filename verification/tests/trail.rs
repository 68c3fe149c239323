use cairn::domain::entries::{CategoryId, ProtectedEntry, SourceRef, Trail};
use cairn::domain::normalize::{normalize, ReservedNames};
use cairn::enforcement::trail::{add_custom_entry, enable_category};

fn reserved() -> ReservedNames {
    ReservedNames::default()
}

fn listed(trail: &Trail) -> Vec<(String, Vec<SourceRef>, bool)> {
    trail
        .entries
        .iter()
        .map(|entry| (entry.domain.as_str().to_string(), entry.sources.clone(), entry.auto_www))
        .collect()
}

#[test]
fn a_typed_root_and_its_www_form_are_both_protected() {
    let mut trail = Trail::default();
    let added = add_custom_entry(&mut trail, "example.com", &reserved()).unwrap();
    assert_eq!(added.len(), 2);
    assert_eq!(
        listed(&trail),
        vec![
            ("example.com".to_string(), vec![SourceRef::Custom], false),
            ("www.example.com".to_string(), vec![SourceRef::Custom, SourceRef::AutoWww], true),
        ]
    );
}

#[test]
fn a_refused_entry_changes_nothing() {
    let mut trail = Trail::default();
    add_custom_entry(&mut trail, "example.com", &reserved()).unwrap();
    let before = listed(&trail);
    assert!(add_custom_entry(&mut trail, "localhost", &reserved()).is_err());
    assert_eq!(listed(&trail), before);
}

#[test]
fn one_entry_however_many_sources() {
    let mut trail = Trail::default();
    add_custom_entry(&mut trail, "example.com", &reserved()).unwrap();
    let skipped = enable_category(
        &mut trail,
        CategoryId::News,
        &["example.com".to_string(), "news.example".to_string(), "not an address".to_string()],
        &reserved(),
    );
    assert_eq!(skipped, vec!["not an address".to_string()]);
    assert_eq!(trail.enabled_categories, vec![CategoryId::News]);
    let entries = listed(&trail);
    assert_eq!(entries.len(), 4);
    assert_eq!(entries[0], ("example.com".to_string(), vec![SourceRef::Custom, SourceRef::Category(CategoryId::News)], false));
    assert_eq!(entries[2], ("www.example.com".to_string(), vec![SourceRef::Custom, SourceRef::Category(CategoryId::News), SourceRef::AutoWww], false));
}

#[test]
fn entries_are_kept_in_order_of_their_names() {
    let mut trail = Trail::default();
    for input in ["zebra.example", "apple.example", "mango.example"] {
        add_custom_entry(&mut trail, input, &reserved()).unwrap();
    }
    let names: Vec<String> = trail.domains().iter().map(|d| d.as_str().to_string()).collect();
    let mut sorted = names.clone();
    sorted.sort();
    assert_eq!(names, sorted);
}

#[test]
fn removing_a_reason_keeps_what_another_still_needs() {
    let mut trail = Trail::default();
    add_custom_entry(&mut trail, "example.com", &reserved()).unwrap();
    enable_category(&mut trail, CategoryId::Social, &["example.com".to_string()], &reserved());
    trail.remove_source(&SourceRef::Category(CategoryId::Social));
    assert_eq!(trail.entries.len(), 2);
    trail.remove_source(&SourceRef::Custom);
    assert_eq!(listed(&trail), vec![("www.example.com".to_string(), vec![SourceRef::AutoWww], false)]);
}

#[test]
fn an_entry_with_no_reason_yet_is_inserted_and_merged() {
    let mut trail = Trail::default();
    let domain = normalize("quiet.example", &reserved()).unwrap().remove(0);
    trail.insert(ProtectedEntry { domain: domain.clone(), sources: vec![], auto_www: true });
    assert_eq!(listed(&trail), vec![("quiet.example".to_string(), vec![], true)]);
    trail.insert(ProtectedEntry::new(domain, SourceRef::Custom));
    assert_eq!(listed(&trail), vec![("quiet.example".to_string(), vec![SourceRef::Custom], false)]);
}

#[test]
fn enabling_categories_keeps_them_in_their_order_once_each() {
    let mut trail = Trail::default();
    enable_category(&mut trail, CategoryId::Social, &[], &reserved());
    enable_category(&mut trail, CategoryId::Adult, &[], &reserved());
    enable_category(&mut trail, CategoryId::Social, &[], &reserved());
    assert_eq!(trail.enabled_categories, vec![CategoryId::Adult, CategoryId::Social]);
}

#[test]
fn an_entry_can_be_built_and_inserted_directly() {
    let mut trail = Trail::default();
    let domain = normalize("sub.example.org", &reserved()).unwrap().remove(0);
    trail.insert(ProtectedEntry::new(domain, SourceRef::Custom));
    assert_eq!(listed(&trail), vec![("sub.example.org".to_string(), vec![SourceRef::Custom], false)]);
}

#[test]
fn categories_have_labels_and_slugs() {
    assert_eq!(CategoryId::Ai.label(), "AI");
    assert_eq!(CategoryId::all().len(), 9);
    assert_eq!(CategoryId::all()[0], CategoryId::Adult);
}

use rpub::extract::resolve;
use rpub::extract::Extractor;
use rpub::models::ContentProcessor;
use rpub::models::ProcessorType;
use rpub::registry::extract_domain;
use rpub::registry::resolve_processor;
use rpub::registry::Registry;

fn processor(kind: ProcessorType) -> ContentProcessor {
    ContentProcessor { id: 1, processor: kind, custom_config: None }
}

#[test]
fn extract_domain_lowercases_host() {
    assert_eq!(extract_domain("https://Example.COM/a/b"), Some("example.com".to_string()));
    assert_eq!(extract_domain("not a url"), None);
    assert_eq!(extract_domain("mailto:x"), None);
}

#[test]
fn override_wins_over_fallback() {
    let mut reg = Registry::new();
    reg.refresh_domain_overrides(vec![("example.com".to_string(), processor(
        ProcessorType::TextOnly,
    ))]);
    let fallback = processor(ProcessorType::Default);
    let selected = resolve_processor(&reg, "https://example.com/a", Some(&fallback));
    assert!(matches!(selected, Some(ContentProcessor { processor: ProcessorType::TextOnly, .. })));
    let strategy = resolve(&reg, "https://example.com/a", Some(&fallback)).unwrap();
    assert!(matches!(strategy, Extractor::TextOnly(_)));
}

#[test]
fn fallback_applies_without_override() {
    let reg = Registry::new();
    let fallback = processor(ProcessorType::DomSmoothie);
    let selected = resolve_processor(&reg, "https://other.org/x", Some(&fallback));
    assert!(matches!(
        selected,
        Some(ContentProcessor { processor: ProcessorType::DomSmoothie, .. })
    ));
    let none = resolve_processor(&reg, "https://other.org/x", None);
    assert!(none.is_none());
    let strategy = resolve(&reg, "https://other.org/x", None).unwrap();
    assert!(matches!(strategy, Extractor::Default(_)));
}

#[test]
fn override_lookup_folds_case() {
    let mut reg = Registry::new();
    reg.refresh_domain_overrides(vec![("Example.COM".to_string(), processor(
        ProcessorType::TextOnly,
    ))]);
    let found = reg.get_domain_override("https://EXAMPLE.com/a");
    assert!(matches!(found, Some(ContentProcessor { processor: ProcessorType::TextOnly, .. })));
}

#[test]
fn refresh_replaces_whole_table() {
    let mut reg = Registry::new();
    reg.refresh_domain_overrides(vec![
        ("a.com".to_string(), processor(ProcessorType::TextOnly)),
        ("b.com".to_string(), processor(ProcessorType::DomSmoothie)),
    ]);
    assert!(reg.get_domain_override("https://a.com/").is_some());
    assert!(reg.get_domain_override("https://b.com/").is_some());
    reg.refresh_domain_overrides(vec![("c.com".to_string(), processor(
        ProcessorType::Default,
    ))]);
    assert!(reg.get_domain_override("https://a.com/").is_none());
    assert!(reg.get_domain_override("https://b.com/").is_none());
    assert!(reg.get_domain_override("https://c.com/").is_some());
}

#[test]
fn later_record_wins_for_a_duplicate_domain() {
    let mut reg = Registry::new();
    reg.refresh_domain_overrides(vec![
        ("d.com".to_string(), processor(ProcessorType::TextOnly)),
        ("d.com".to_string(), processor(ProcessorType::DomSmoothie)),
    ]);
    let found = reg.get_domain_override("https://d.com/x");
    assert!(matches!(
        found,
        Some(ContentProcessor { processor: ProcessorType::DomSmoothie, .. })
    ));
}

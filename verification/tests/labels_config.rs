use blackbox_exporter::config::BlackboxExporterConfig;
use blackbox_exporter::enrich::OptionalLabels;
use blackbox_exporter::tags::TagMap;

#[test]
fn test_optional_labels_from_config_with_all_fields() {
    // Test building OptionalLabels from config with all fields populated
    let mut labels_map = TagMap::new();
    labels_map.insert("environment".to_string(), "production".to_string());
    labels_map.insert("team".to_string(), "platform".to_string());

    let config = BlackboxExporterConfig {
        url: "http://localhost:9115".to_string(),
        targets: vec!["https://example.com".to_string()],
        module: "http_2xx".to_string(),
        interval_secs: 15,
        timeout_secs: 5,
        geohash: Some("9qx7hh9jd".to_string()),
        region: Some("AMER".to_string()),
        location: Some("Oregon".to_string()),
        country: Some("US".to_string()),
        name: Some("Example Check".to_string()),
        provider: Some("AWS".to_string()),
        labels: Some(labels_map),
    };

    let optional_labels = OptionalLabels::from_config(&config);

    // Verify all predefined labels are set
    assert_eq!(optional_labels.geohash, Some("9qx7hh9jd".to_string()));
    assert_eq!(optional_labels.region, Some("AMER".to_string()));
    assert_eq!(optional_labels.location, Some("Oregon".to_string()));
    assert_eq!(optional_labels.country, Some("US".to_string()));
    assert_eq!(optional_labels.name, Some("Example Check".to_string()));
    assert_eq!(optional_labels.provider, Some("AWS".to_string()));

    // Verify custom labels are set
    assert_eq!(optional_labels.custom.len(), 2);
    assert_eq!(
        optional_labels.custom.get("environment"),
        Some(&"production".to_string())
    );
    assert_eq!(
        optional_labels.custom.get("team"),
        Some(&"platform".to_string())
    );
}

#[test]
fn test_optional_labels_from_config_with_subset_of_fields() {
    // Test building OptionalLabels from config with only some fields populated
    let config = BlackboxExporterConfig {
        url: "http://localhost:9115".to_string(),
        targets: vec!["https://example.com".to_string()],
        module: "http_2xx".to_string(),
        interval_secs: 15,
        timeout_secs: 5,
        geohash: Some("9qx7hh9jd".to_string()),
        region: None,
        location: Some("Oregon".to_string()),
        country: None,
        name: Some("Example Check".to_string()),
        provider: None,
        labels: None,
    };

    let optional_labels = OptionalLabels::from_config(&config);

    // Verify specified labels are set
    assert_eq!(optional_labels.geohash, Some("9qx7hh9jd".to_string()));
    assert_eq!(optional_labels.location, Some("Oregon".to_string()));
    assert_eq!(optional_labels.name, Some("Example Check".to_string()));

    // Verify unspecified labels are None
    assert_eq!(optional_labels.region, None);
    assert_eq!(optional_labels.country, None);
    assert_eq!(optional_labels.provider, None);

    // Verify custom labels are empty
    assert!(optional_labels.custom.is_empty());
}

#[test]
fn test_optional_labels_from_config_with_no_optional_labels() {
    // Test building OptionalLabels from config with no optional labels
    let config = BlackboxExporterConfig {
        url: "http://localhost:9115".to_string(),
        targets: vec!["https://example.com".to_string()],
        module: "http_2xx".to_string(),
        interval_secs: 15,
        timeout_secs: 5,
        geohash: None,
        region: None,
        location: None,
        country: None,
        name: None,
        provider: None,
        labels: None,
    };

    let optional_labels = OptionalLabels::from_config(&config);

    // Verify all predefined labels are None
    assert_eq!(optional_labels.geohash, None);
    assert_eq!(optional_labels.region, None);
    assert_eq!(optional_labels.location, None);
    assert_eq!(optional_labels.country, None);
    assert_eq!(optional_labels.name, None);
    assert_eq!(optional_labels.provider, None);

    // Verify custom labels are empty
    assert!(optional_labels.custom.is_empty());
}

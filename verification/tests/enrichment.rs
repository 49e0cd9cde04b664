use blackbox_exporter::enrich::{
    BlackboxExporterBuilder, BlackboxExporterContext, OptionalLabels,
};
use blackbox_exporter::probe::ProbeUrl;
use blackbox_exporter::tags::{Measurement, MeasurementKind, TagMap};

fn no_labels() -> OptionalLabels {
    OptionalLabels {
        geohash: None,
        region: None,
        location: None,
        country: None,
        name: None,
        provider: None,
        custom: TagMap::new(),
    }
}

fn gauge(value: f64) -> Measurement {
    Measurement::new("probe_success".to_string(), MeasurementKind::Absolute, value.to_bits())
}

fn tag_of<'a>(m: &'a Measurement, key: &str) -> Option<&'a str> {
    m.tags().get(key).map(|s| s.as_str())
}

#[test]
fn test_enrich_events_adds_tags() {
    // Test that enrich_events adds target and module tags
    let mut context = BlackboxExporterContext {
        target: "https://example.com".to_string(),
        module: "http_2xx".to_string(),
        optional_labels: no_labels(),
    };

    // Create a simple metric event
    let event = gauge(1.0);

    let mut events = vec![event];

    // Call enrich_events
    context.enrich_events(&mut events);

    // Verify tags were added
    let metric = &events[0];
    assert_eq!(tag_of(metric, "target"), Some("https://example.com"));
    assert_eq!(tag_of(metric, "module"), Some("http_2xx"));
}

#[test]
fn test_enrich_events_handles_tag_conflicts() {
    // Test that enrich_events renames conflicting tags to exported_*
    let mut context = BlackboxExporterContext {
        target: "https://example.com".to_string(),
        module: "http_2xx".to_string(),
        optional_labels: no_labels(),
    };

    // Create a metric event with existing target and module tags
    let mut metric = gauge(1.0);
    metric.replace_tag("target".to_string(), "internal".to_string());
    metric.replace_tag("module".to_string(), "internal_module".to_string());

    let mut events = vec![metric];

    // Call enrich_events
    context.enrich_events(&mut events);

    // Verify conflicting tags were renamed and new tags were added
    let metric = &events[0];
    assert_eq!(tag_of(metric, "target"), Some("https://example.com"));
    assert_eq!(tag_of(metric, "module"), Some("http_2xx"));
    assert_eq!(tag_of(metric, "exported_target"), Some("internal"));
    assert_eq!(tag_of(metric, "exported_module"), Some("internal_module"));
}

#[test]
fn test_enrich_events_preserves_other_tags() {
    // Test that enrich_events preserves existing tags
    let mut context = BlackboxExporterContext {
        target: "https://example.com".to_string(),
        module: "http_2xx".to_string(),
        optional_labels: no_labels(),
    };

    // Create a metric event with other tags
    let mut metric = gauge(1.0);
    metric.replace_tag("instance".to_string(), "server1".to_string());
    metric.replace_tag("job".to_string(), "blackbox".to_string());

    let mut events = vec![metric];

    // Call enrich_events
    context.enrich_events(&mut events);

    // Verify existing tags are preserved
    let metric = &events[0];
    assert_eq!(tag_of(metric, "instance"), Some("server1"));
    assert_eq!(tag_of(metric, "job"), Some("blackbox"));
    // And new tags were added
    assert_eq!(tag_of(metric, "target"), Some("https://example.com"));
    assert_eq!(tag_of(metric, "module"), Some("http_2xx"));
}

#[test]
fn test_builder_decodes_url_encoded_target() {
    // Test that the builder properly decodes URL-encoded target from query parameters
    let builder = BlackboxExporterBuilder {
        module: "http_2xx".to_string(),
        optional_labels: no_labels(),
    };

    // Create a URL with URL-encoded target (https://www.google.com encoded)
    let url = ProbeUrl {
        scheme: "http".to_string(),
        authority: "blackbox.example.com".to_string(),
        path: "/probe".to_string(),
        query: "target=https%3A%2F%2Fwww%2Egoogle%2Ecom&module=http_2xx".to_string(),
        url: "http://blackbox.example.com/probe?target=https%3A%2F%2Fwww%2Egoogle%2Ecom&module=http_2xx"
            .to_string(),
    };

    let context = builder.build(&url);

    // Verify the target is decoded properly
    assert_eq!(context.target, "https://www.google.com");
    assert_eq!(context.module, "http_2xx");
}

#[test]
fn test_enrich_events_adds_predefined_labels_without_conflicts() {
    // Test adding predefined labels to metrics without conflicts
    let mut context = BlackboxExporterContext {
        target: "https://example.com".to_string(),
        module: "http_2xx".to_string(),
        optional_labels: OptionalLabels {
            geohash: Some("9qx7hh9jd".to_string()),
            region: Some("AMER".to_string()),
            location: Some("Oregon".to_string()),
            country: Some("US".to_string()),
            name: Some("Example Check".to_string()),
            provider: Some("AWS".to_string()),
            custom: TagMap::new(),
        },
    };

    let metric = gauge(1.0);

    let mut events = vec![metric];
    context.enrich_events(&mut events);

    let enriched_metric = &events[0];

    // Verify all predefined labels are added
    assert_eq!(tag_of(enriched_metric, "geohash"), Some("9qx7hh9jd"));
    assert_eq!(tag_of(enriched_metric, "region"), Some("AMER"));
    assert_eq!(tag_of(enriched_metric, "location"), Some("Oregon"));
    assert_eq!(tag_of(enriched_metric, "country"), Some("US"));
    assert_eq!(tag_of(enriched_metric, "name"), Some("Example Check"));
    assert_eq!(tag_of(enriched_metric, "provider"), Some("AWS"));

    // Verify target and module are also present
    assert_eq!(tag_of(enriched_metric, "target"), Some("https://example.com"));
    assert_eq!(tag_of(enriched_metric, "module"), Some("http_2xx"));
}

#[test]
fn test_enrich_events_adds_adhoc_labels_without_conflicts() {
    // Test adding ad-hoc labels to metrics without conflicts
    let mut custom_labels = TagMap::new();
    custom_labels.insert("environment".to_string(), "production".to_string());
    custom_labels.insert("team".to_string(), "platform".to_string());
    custom_labels.insert("cost_center".to_string(), "engineering".to_string());

    let mut context = BlackboxExporterContext {
        target: "https://example.com".to_string(),
        module: "http_2xx".to_string(),
        optional_labels: OptionalLabels {
            geohash: None,
            region: None,
            location: None,
            country: None,
            name: None,
            provider: None,
            custom: custom_labels,
        },
    };

    let metric = gauge(1.0);

    let mut events = vec![metric];
    context.enrich_events(&mut events);

    let enriched_metric = &events[0];

    // Verify all ad-hoc labels are added
    assert_eq!(tag_of(enriched_metric, "environment"), Some("production"));
    assert_eq!(tag_of(enriched_metric, "team"), Some("platform"));
    assert_eq!(tag_of(enriched_metric, "cost_center"), Some("engineering"));

    // Verify target and module are also present
    assert_eq!(tag_of(enriched_metric, "target"), Some("https://example.com"));
    assert_eq!(tag_of(enriched_metric, "module"), Some("http_2xx"));
}

#[test]
fn test_enrich_events_conflict_resolution_for_predefined_labels() {
    // Test conflict resolution for predefined labels
    let mut context = BlackboxExporterContext {
        target: "https://example.com".to_string(),
        module: "http_2xx".to_string(),
        optional_labels: OptionalLabels {
            geohash: Some("9qx7hh9jd".to_string()),
            region: Some("AMER".to_string()),
            location: Some("Oregon".to_string()),
            country: None,
            name: None,
            provider: None,
            custom: TagMap::new(),
        },
    };

    // Create metric with conflicting tags
    let mut metric = gauge(1.0);
    metric.replace_tag("region".to_string(), "internal_region".to_string());
    metric.replace_tag("location".to_string(), "internal_location".to_string());

    let mut events = vec![metric];
    context.enrich_events(&mut events);

    let enriched_metric = &events[0];

    // Verify new labels are added with configured values
    assert_eq!(tag_of(enriched_metric, "geohash"), Some("9qx7hh9jd"));
    assert_eq!(tag_of(enriched_metric, "region"), Some("AMER"));
    assert_eq!(tag_of(enriched_metric, "location"), Some("Oregon"));

    // Verify conflicting tags are renamed to exported_*
    assert_eq!(tag_of(enriched_metric, "exported_region"), Some("internal_region"));
    assert_eq!(tag_of(enriched_metric, "exported_location"), Some("internal_location"));
}

#[test]
fn test_enrich_events_conflict_resolution_for_adhoc_labels() {
    // Test conflict resolution for ad-hoc labels
    let mut custom_labels = TagMap::new();
    custom_labels.insert("environment".to_string(), "production".to_string());
    custom_labels.insert("team".to_string(), "platform".to_string());

    let mut context = BlackboxExporterContext {
        target: "https://example.com".to_string(),
        module: "http_2xx".to_string(),
        optional_labels: OptionalLabels {
            geohash: None,
            region: None,
            location: None,
            country: None,
            name: None,
            provider: None,
            custom: custom_labels,
        },
    };

    // Create metric with conflicting tags
    let mut metric = gauge(1.0);
    metric.replace_tag("environment".to_string(), "internal_env".to_string());

    let mut events = vec![metric];
    context.enrich_events(&mut events);

    let enriched_metric = &events[0];

    // Verify new labels are added with configured values
    assert_eq!(tag_of(enriched_metric, "environment"), Some("production"));
    assert_eq!(tag_of(enriched_metric, "team"), Some("platform"));

    // Verify conflicting tag is renamed to exported_*
    assert_eq!(tag_of(enriched_metric, "exported_environment"), Some("internal_env"));
}

#[test]
fn test_enrich_events_empty_string_values_not_added() {
    // Test that empty string values are not added as tags
    let mut context = BlackboxExporterContext {
        target: "https://example.com".to_string(),
        module: "http_2xx".to_string(),
        optional_labels: OptionalLabels {
            geohash: Some(String::new()),  // Empty string
            region: Some("AMER".to_string()),
            location: Some(String::new()),  // Empty string
            country: Some("US".to_string()),
            name: Some(String::new()),  // Empty string
            provider: None,
            custom: TagMap::new(),
        },
    };

    let metric = gauge(1.0);

    let mut events = vec![metric];
    context.enrich_events(&mut events);

    let enriched_metric = &events[0];

    // Verify empty string labels are not added
    assert!(tag_of(enriched_metric, "geohash").is_none());
    assert!(tag_of(enriched_metric, "location").is_none());
    assert!(tag_of(enriched_metric, "name").is_none());

    // Verify non-empty labels are added
    assert_eq!(tag_of(enriched_metric, "region"), Some("AMER"));
    assert_eq!(tag_of(enriched_metric, "country"), Some("US"));
}

#[test]
fn test_enrich_events_preserves_existing_tags() {
    // Test that existing tags are preserved during enrichment
    let mut context = BlackboxExporterContext {
        target: "https://example.com".to_string(),
        module: "http_2xx".to_string(),
        optional_labels: OptionalLabels {
            geohash: Some("9qx7hh9jd".to_string()),
            region: Some("AMER".to_string()),
            location: None,
            country: None,
            name: None,
            provider: None,
            custom: TagMap::new(),
        },
    };

    // Create metric with existing tags
    let mut metric = gauge(1.0);
    metric.replace_tag("instance".to_string(), "server1".to_string());
    metric.replace_tag("job".to_string(), "blackbox".to_string());
    metric.replace_tag("custom_tag".to_string(), "custom_value".to_string());

    let mut events = vec![metric];
    context.enrich_events(&mut events);

    let enriched_metric = &events[0];

    // Verify existing tags are preserved
    assert_eq!(tag_of(enriched_metric, "instance"), Some("server1"));
    assert_eq!(tag_of(enriched_metric, "job"), Some("blackbox"));
    assert_eq!(tag_of(enriched_metric, "custom_tag"), Some("custom_value"));

    // Verify new labels are added
    assert_eq!(tag_of(enriched_metric, "geohash"), Some("9qx7hh9jd"));
    assert_eq!(tag_of(enriched_metric, "region"), Some("AMER"));

    // Verify target and module are also present
    assert_eq!(tag_of(enriched_metric, "target"), Some("https://example.com"));
    assert_eq!(tag_of(enriched_metric, "module"), Some("http_2xx"));
}

#[test]
fn test_adhoc_labels_override_predefined_labels_with_same_key() {
    // Test that ad-hoc labels override predefined labels when keys conflict
    let mut custom_labels = TagMap::new();
    custom_labels.insert("region".to_string(), "adhoc_region".to_string());
    custom_labels.insert("location".to_string(), "adhoc_location".to_string());
    custom_labels.insert("custom_key".to_string(), "custom_value".to_string());

    let mut context = BlackboxExporterContext {
        target: "https://example.com".to_string(),
        module: "http_2xx".to_string(),
        optional_labels: OptionalLabels {
            geohash: Some("9qx7hh9jd".to_string()),
            region: Some("AMER".to_string()),
            location: Some("Oregon".to_string()),
            country: Some("US".to_string()),
            name: None,
            provider: None,
            custom: custom_labels,
        },
    };

    let metric = gauge(1.0);

    let mut events = vec![metric];
    context.enrich_events(&mut events);

    let enriched_metric = &events[0];

    // Verify ad-hoc labels override predefined labels
    assert_eq!(tag_of(enriched_metric, "region"), Some("adhoc_region"));
    assert_eq!(tag_of(enriched_metric, "location"), Some("adhoc_location"));

    // Verify non-conflicting predefined labels are still present
    assert_eq!(tag_of(enriched_metric, "geohash"), Some("9qx7hh9jd"));
    assert_eq!(tag_of(enriched_metric, "country"), Some("US"));

    // Verify non-conflicting ad-hoc label is present
    assert_eq!(tag_of(enriched_metric, "custom_key"), Some("custom_value"));
}

#[test]
fn test_both_predefined_and_adhoc_labels_added_when_keys_dont_conflict() {
    // Test that both predefined and ad-hoc labels are added when keys don't conflict
    let mut custom_labels = TagMap::new();
    custom_labels.insert("environment".to_string(), "production".to_string());
    custom_labels.insert("team".to_string(), "platform".to_string());

    let mut context = BlackboxExporterContext {
        target: "https://example.com".to_string(),
        module: "http_2xx".to_string(),
        optional_labels: OptionalLabels {
            geohash: Some("9qx7hh9jd".to_string()),
            region: Some("AMER".to_string()),
            location: Some("Oregon".to_string()),
            country: None,
            name: None,
            provider: None,
            custom: custom_labels,
        },
    };

    let metric = gauge(1.0);

    let mut events = vec![metric];
    context.enrich_events(&mut events);

    let enriched_metric = &events[0];

    // Verify all predefined labels are present
    assert_eq!(tag_of(enriched_metric, "geohash"), Some("9qx7hh9jd"));
    assert_eq!(tag_of(enriched_metric, "region"), Some("AMER"));
    assert_eq!(tag_of(enriched_metric, "location"), Some("Oregon"));

    // Verify all ad-hoc labels are present
    assert_eq!(tag_of(enriched_metric, "environment"), Some("production"));
    assert_eq!(tag_of(enriched_metric, "team"), Some("platform"));

    // Verify target and module are present
    assert_eq!(tag_of(enriched_metric, "target"), Some("https://example.com"));
    assert_eq!(tag_of(enriched_metric, "module"), Some("http_2xx"));
}

#[test]
fn test_scenario_minimal_context_tags() {
    // A measurement with one existing tag and a context without labels ends
    // with exactly that tag plus target and module.
    let mut context = BlackboxExporterContext {
        target: "t1".to_string(),
        module: "m1".to_string(),
        optional_labels: no_labels(),
    };
    let mut metric = gauge(1.0);
    metric.replace_tag("instance".to_string(), "s1".to_string());

    let mut events = vec![metric];
    context.enrich_events(&mut events);

    let enriched = &events[0];
    assert_eq!(enriched.tags().len(), 3);
    assert_eq!(tag_of(enriched, "instance"), Some("s1"));
    assert_eq!(tag_of(enriched, "target"), Some("t1"));
    assert_eq!(tag_of(enriched, "module"), Some("m1"));
}

#[test]
fn test_cascading_rename_overwrites_original() {
    // When an ad-hoc key collides with a predefined key that itself collided
    // with a pre-existing tag, the second rename overwrites the value the
    // first rename preserved: only the predefined value survives under
    // exported_region, and the pre-existing tag's value is lost.
    let mut custom_labels = TagMap::new();
    custom_labels.insert("region".to_string(), "adhoc".to_string());

    let mut context = BlackboxExporterContext {
        target: "t".to_string(),
        module: "m".to_string(),
        optional_labels: OptionalLabels {
            geohash: None,
            region: Some("AMER".to_string()),
            location: None,
            country: None,
            name: None,
            provider: None,
            custom: custom_labels,
        },
    };
    let mut metric = gauge(1.0);
    metric.replace_tag("region".to_string(), "original".to_string());

    let mut events = vec![metric];
    context.enrich_events(&mut events);

    let enriched = &events[0];
    assert_eq!(tag_of(enriched, "region"), Some("adhoc"));
    assert_eq!(tag_of(enriched, "exported_region"), Some("AMER"));
}

#[test]
fn test_adhoc_empty_value_skipped() {
    // An ad-hoc label with an empty value adds no tag and renames nothing.
    let mut custom_labels = TagMap::new();
    custom_labels.insert("environment".to_string(), String::new());

    let mut context = BlackboxExporterContext {
        target: "t".to_string(),
        module: "m".to_string(),
        optional_labels: OptionalLabels {
            geohash: None,
            region: None,
            location: None,
            country: None,
            name: None,
            provider: None,
            custom: custom_labels,
        },
    };
    let mut metric = gauge(1.0);
    metric.replace_tag("environment".to_string(), "kept".to_string());

    let mut events = vec![metric];
    context.enrich_events(&mut events);

    let enriched = &events[0];
    assert_eq!(tag_of(enriched, "environment"), Some("kept"));
    assert!(tag_of(enriched, "exported_environment").is_none());
}

#[test]
fn test_enrich_applies_empty_target() {
    // Unlike optional labels, the target and module tags are set even when
    // their values are empty strings.
    let mut context = BlackboxExporterContext {
        target: String::new(),
        module: String::new(),
        optional_labels: no_labels(),
    };
    let mut events = vec![gauge(0.0)];
    context.enrich_events(&mut events);
    let enriched = &events[0];
    assert_eq!(tag_of(enriched, "target"), Some(""));
    assert_eq!(tag_of(enriched, "module"), Some(""));
}

#[test]
fn test_enrich_keeps_name_kind_value() {
    let mut context = BlackboxExporterContext {
        target: "t".to_string(),
        module: "m".to_string(),
        optional_labels: no_labels(),
    };
    let mut events = vec![gauge(0.25)];
    context.enrich_events(&mut events);
    assert_eq!(events[0].name, "probe_success");
    assert_eq!(events[0].kind, MeasurementKind::Absolute);
    assert_eq!(f64::from_bits(events[0].value_bits), 0.25);
}

#[test]
fn test_enrich_events_whole_batch() {
    // Every measurement of a batch is enriched, independently.
    let mut context = BlackboxExporterContext {
        target: "t".to_string(),
        module: "m".to_string(),
        optional_labels: no_labels(),
    };
    let mut second = gauge(2.0);
    second.replace_tag("target".to_string(), "old".to_string());
    let mut events = vec![gauge(1.0), second, gauge(3.0)];
    context.enrich_events(&mut events);
    assert_eq!(events.len(), 3);
    for m in &events {
        assert_eq!(tag_of(m, "target"), Some("t"));
        assert_eq!(tag_of(m, "module"), Some("m"));
    }
    assert_eq!(tag_of(&events[1], "exported_target"), Some("old"));
    assert!(tag_of(&events[0], "exported_target").is_none());
    assert!(tag_of(&events[2], "exported_target").is_none());
}

#[test]
fn test_tag_map_operations() {
    let mut m = TagMap::new();
    assert!(m.is_empty());
    m.insert("a".to_string(), "1".to_string());
    m.insert("b".to_string(), "2".to_string());
    assert_eq!(m.len(), 2);
    // Inserting an existing key replaces its value and adds no entry.
    m.insert("a".to_string(), "3".to_string());
    assert_eq!(m.len(), 2);
    assert_eq!(m.get("a").map(|s| s.as_str()), Some("3"));
    assert_eq!(m.get("b").map(|s| s.as_str()), Some("2"));
    assert!(m.get("c").is_none());
    assert!(m.contains_key("a"));
    assert_eq!(m.remove("a"), Some("3".to_string()));
    assert_eq!(m.remove("a"), None);
    assert_eq!(m.len(), 1);
    let copy = m.clone();
    assert_eq!(copy.get("b").map(|s| s.as_str()), Some("2"));
}

use std::collections::HashMap;

use prometheus::proto::{Gauge, Metric, MetricFamily, MetricType};
use prometheus::{Counter, Registry};
use tempmon::cache::TemperatureCache;
use tempmon::metrics::{encode_families, exposition};
use tempmon::server::handle_request;

fn family(name: &str, kind: MetricType, value: f64) -> MetricFamily {
    let mut gauge = Gauge::default();
    gauge.set_value(value);
    let mut metric = Metric::default();
    metric.set_gauge(gauge);
    let mut family = MetricFamily::default();
    family.set_name(name.to_string());
    family.set_help(format!("help for {}", name));
    family.set_field_type(kind);
    family.set_metric(vec![metric]);
    family
}

/// A collector that reports one family of a given kind.
struct Fixed {
    desc: prometheus::core::Desc,
    kind: MetricType,
}

impl Fixed {
    fn new(name: &str, kind: MetricType) -> Fixed {
        let desc =
            prometheus::core::Desc::new(name.to_string(), format!("help for {}", name), vec![], HashMap::new())
                .unwrap();
        Fixed { desc, kind }
    }
}

impl prometheus::core::Collector for Fixed {
    fn desc(&self) -> Vec<&prometheus::core::Desc> {
        vec![&self.desc]
    }

    fn collect(&self) -> Vec<MetricFamily> {
        vec![family(&self.desc.fq_name, self.kind, 1.5)]
    }
}

#[test]
fn no_families_encode_to_nothing() {
    assert_eq!(encode_families(&Vec::new()), Some(String::new()));
}

#[test]
fn gauge_family_is_encoded() {
    let families = vec![family("attic", MetricType::GAUGE, 22.5)];
    assert_eq!(
        encode_families(&families),
        Some("# HELP attic help for attic\n# TYPE attic gauge\nattic 22.5\n".to_string())
    );
}

#[test]
fn every_typed_kind_is_encoded() {
    for kind in
        [MetricType::COUNTER, MetricType::GAUGE, MetricType::SUMMARY, MetricType::HISTOGRAM]
    {
        let text = encode_families(&vec![family("m", kind, 1.0)]).unwrap();
        assert!(text.starts_with("# HELP m help for m\n# TYPE m "), "{:?}", kind);
    }
}

#[test]
fn untyped_family_is_not_encoded() {
    assert_eq!(encode_families(&vec![family("odd", MetricType::UNTYPED, 1.0)]), None);
}

#[test]
fn one_untyped_family_among_others_is_enough() {
    for at in 0..3 {
        let mut families = vec![
            family("a", MetricType::GAUGE, 1.0),
            family("b", MetricType::COUNTER, 2.0),
            family("c", MetricType::GAUGE, 3.0),
        ];
        families[at].set_field_type(MetricType::UNTYPED);
        assert_eq!(encode_families(&families), None, "{}", at);
    }
}

#[test]
fn family_that_the_encoder_refuses_is_not_encoded() {
    let mut nameless = family("", MetricType::GAUGE, 1.0);
    assert_eq!(encode_families(&vec![nameless.clone()]), None);
    nameless.set_name("named".to_string());
    nameless.set_metric(Vec::new());
    assert_eq!(encode_families(&vec![nameless]), None);
}

#[test]
fn registry_with_an_untyped_family_has_no_exposition() {
    let registry = Registry::new();
    let counter = Counter::new("dash_test_counter", "a counter for the test").unwrap();
    registry.register(Box::new(counter.clone())).unwrap();
    counter.inc();
    assert!(exposition(&registry).unwrap().contains("dash_test_counter 1\n"));

    registry.register(Box::new(Fixed::new("dash_test_odd", MetricType::UNTYPED))).unwrap();
    assert_eq!(exposition(&registry), None);
}

#[test]
fn registry_with_a_foreign_gauge_is_exposed() {
    let registry = Registry::new();
    registry.register(Box::new(Fixed::new("dash_test_fixed", MetricType::GAUGE))).unwrap();
    assert_eq!(
        exposition(&registry),
        Some(
            "# HELP dash_test_fixed help for dash_test_fixed\n\
             # TYPE dash_test_fixed gauge\ndash_test_fixed 1.5\n"
                .to_string()
        )
    );
}

#[test]
fn metrics_with_an_untyped_family_answer_an_internal_error() {
    let registry = Registry::new();
    registry.register(Box::new(Fixed::new("dash_test_odd", MetricType::UNTYPED))).unwrap();
    let cache = TemperatureCache::new(&[]);

    let metrics = handle_request("/metrics", &cache, &registry);
    assert_eq!(metrics.status, 500);
    assert_eq!(metrics.content_type, None);
    assert_eq!(metrics.body, "500 Internal Server Error");

    let health = handle_request("/health", &cache, &registry);
    assert_eq!((health.status, health.body.as_str()), (200, "OK"));
    let dashboard = handle_request("/", &cache, &registry);
    assert_eq!(dashboard.status, 200);
}

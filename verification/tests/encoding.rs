use chrono::{TimeZone, Timelike};
use influxdb_metrics::distribution::expand_sorted;
use influxdb_metrics::escape::encode_key;
use influxdb_metrics::kv::{FieldMap, TagMap};
use influxdb_metrics::render::{encode_fields, encode_tags};
use influxdb_metrics::time::encode_timestamp;
use influxdb_metrics::{encode_events, encode_namespace, Field, FloatVal, Metric, MetricKind, MetricValue};

fn fv(x: f64) -> FloatVal {
    FloatVal { bits: x.to_bits(), text: x.to_string() }
}

fn ts() -> i64 {
    chrono::Utc
        .with_ymd_and_hms(2018, 11, 14, 8, 9, 10)
        .unwrap()
        .with_nanosecond(11)
        .unwrap()
        .timestamp_nanos_opt()
        .unwrap()
}

fn tags() -> TagMap {
    let mut t = TagMap::new();
    t.insert("normal_tag".to_string(), "value".to_string());
    t.insert("true_tag".to_string(), "true".to_string());
    t.insert("empty_tag".to_string(), "".to_string());
    t
}

fn dist_value(values: Vec<f64>, sample_rates: Vec<u32>) -> MetricValue {
    let fvals: Vec<FloatVal> = values.iter().map(|v| fv(*v)).collect();
    let (sum, avg) = match expand_sorted(&fvals, &sample_rates) {
        Some(sorted) => {
            let mut s = 0.0f64;
            for x in &sorted {
                s += f64::from_bits(x.bits);
            }
            let n = sorted.len() as f64;
            (fv(s), fv(s / n))
        }
        None => (fv(0.0), fv(0.0)),
    };
    MetricValue::Distribution { values: fvals, sample_rates, sum, avg }
}

#[test]
fn test_encode_timestamp() {
    let start = chrono::Utc::now().timestamp_nanos_opt().unwrap();
    assert_eq!(encode_timestamp(Some(ts())), 1542182950000000011);
    assert!(encode_timestamp(None) >= start)
}

#[test]
fn test_encode_namespace() {
    assert_eq!(encode_namespace("services", "status"), "services.status");
    assert_eq!(encode_namespace("", "status"), "status")
}

#[test]
fn test_encode_key() {
    assert_eq!(
        encode_key("measurement_name".to_string()),
        "measurement_name"
    );
    assert_eq!(
        encode_key("measurement name".to_string()),
        "measurement\\ name"
    );
    assert_eq!(
        encode_key("measurement=name".to_string()),
        "measurement\\=name"
    );
    assert_eq!(
        encode_key("measurement,name".to_string()),
        "measurement\\,name"
    );
}

#[test]
fn test_encode_tags() {
    assert_eq!(encode_tags(tags()), "normal_tag=value,true_tag=true");

    let mut tags_to_escape = TagMap::new();
    tags_to_escape.insert("tag".to_string(), "val=ue".to_string());
    tags_to_escape.insert("name escape".to_string(), "true".to_string());
    tags_to_escape.insert("value_escape".to_string(), "value escape".to_string());
    tags_to_escape.insert("a_first_place".to_string(), "10".to_string());

    assert_eq!(
        encode_tags(tags_to_escape),
        "a_first_place=10,name\\ escape=true,tag=val\\=ue,value_escape=value\\ escape"
    );
}

#[test]
fn test_encode_fields() {
    let mut fields = FieldMap::new();
    fields.insert(
        "field_string".to_string(),
        Field::String("string value".to_string()),
    );
    fields.insert(
        "field_string_escape".to_string(),
        Field::String("string\\val\"ue".to_string()),
    );
    fields.insert("field_float".to_string(), Field::Float(123.45f64.to_string()));
    fields.insert("escape key".to_string(), Field::Float(10.0f64.to_string()));

    assert_eq!(encode_fields(fields), "escape\\ key=10,field_float=123.45,field_string=\"string value\",field_string_escape=\"string\\\\val\\\"ue\"");
}

#[test]
fn encode_counter() {
    let events = vec![
        Metric {
            name: "total".to_string(),
            timestamp: Some(ts()),
            tags: None,
            kind: MetricKind::Incremental,
            value: MetricValue::Counter { value: fv(1.5) },
        },
        Metric {
            name: "check".to_string(),
            timestamp: Some(ts()),
            tags: Some(tags()),
            kind: MetricKind::Incremental,
            value: MetricValue::Counter { value: fv(1.0) },
        },
    ];

    let line_protocols = encode_events(events, "ns");
    assert_eq!(
        line_protocols,
        vec!["ns.total,metric_type=counter value=1.5 1542182950000000011", "ns.check,metric_type=counter,normal_tag=value,true_tag=true value=1 1542182950000000011", ]
    );
}

#[test]
fn encode_gauge() {
    let events = vec![Metric {
        name: "meter".to_string(),
        timestamp: Some(ts()),
        tags: Some(tags()),
        kind: MetricKind::Incremental,
        value: MetricValue::Gauge { value: fv(-1.5) },
    }];

    let line_protocols = encode_events(events, "ns");
    assert_eq!(
        line_protocols,
        vec!["ns.meter,metric_type=gauge,normal_tag=value,true_tag=true value=-1.5 1542182950000000011", ]
    );
}

#[test]
fn encode_set() {
    let events = vec![Metric {
        name: "users".to_string(),
        timestamp: Some(ts()),
        tags: Some(tags()),
        kind: MetricKind::Incremental,
        value: MetricValue::ValueSet {
            values: vec!["alice".to_string(), "bob".to_string()],
        },
    }];

    let line_protocols = encode_events(events, "ns");
    assert_eq!(
        line_protocols,
        vec!["ns.users,metric_type=set,normal_tag=value,true_tag=true value=2 1542182950000000011", ]
    );
}

#[test]
fn encode_histogram() {
    let events = vec![Metric {
        name: "requests".to_string(),
        timestamp: Some(ts()),
        tags: Some(tags()),
        kind: MetricKind::Absolute,
        value: MetricValue::AggregatedHistogram {
            buckets: vec![fv(1.0), fv(2.1), fv(3.0)],
            counts: vec![1, 2, 3],
            count: 6,
            sum: fv(12.5),
        },
    }];

    let line_protocols = encode_events(events, "ns");
    assert_eq!(
        line_protocols,
        vec!["ns.requests,metric_type=histogram,normal_tag=value,true_tag=true bucket_1=1i,bucket_2.1=2i,bucket_3=3i,count=6i,sum=12.5 1542182950000000011", ]
    );
}

#[test]
fn encode_summary() {
    let events = vec![Metric {
        name: "requests_sum".to_string(),
        timestamp: Some(ts()),
        tags: Some(tags()),
        kind: MetricKind::Absolute,
        value: MetricValue::AggregatedSummary {
            quantiles: vec![fv(0.01), fv(0.5), fv(0.99)],
            values: vec![fv(1.5), fv(2.0), fv(3.0)],
            count: 6,
            sum: fv(12.0),
        },
    }];

    let line_protocols = encode_events(events, "ns");
    assert_eq!(
        line_protocols,
        vec!["ns.requests_sum,metric_type=summary,normal_tag=value,true_tag=true count=6i,quantile_0.01=1.5,quantile_0.5=2,quantile_0.99=3,sum=12 1542182950000000011", ]
    );
}

#[test]
fn encode_distribution() {
    let events = vec![
        Metric {
            name: "requests".to_string(),
            timestamp: Some(ts()),
            tags: Some(tags()),
            kind: MetricKind::Incremental,
            value: dist_value(vec![1.0, 2.0, 3.0], vec![3, 3, 2]),
        },
        Metric {
            name: "dense_stats".to_string(),
            timestamp: Some(ts()),
            tags: None,
            kind: MetricKind::Incremental,
            value: dist_value((0..20).map(f64::from).collect::<Vec<_>>(), vec![1; 20]),
        },
        Metric {
            name: "sparse_stats".to_string(),
            timestamp: Some(ts()),
            tags: None,
            kind: MetricKind::Incremental,
            value: dist_value(
                (1..5).map(f64::from).collect::<Vec<_>>(),
                (1..5).collect::<Vec<_>>(),
            ),
        },
    ];

    let line_protocols = encode_events(events, "ns");
    assert_eq!(
        line_protocols,
        vec![
            "ns.requests,metric_type=distribution,normal_tag=value,true_tag=true avg=1.875,count=8,max=3,median=2,min=1,quantile_0.95=3,sum=15 1542182950000000011",
            "ns.dense_stats,metric_type=distribution avg=9.5,count=20,max=19,median=9,min=0,quantile_0.95=18,sum=190 1542182950000000011",
            "ns.sparse_stats,metric_type=distribution avg=3,count=10,max=4,median=3,min=1,quantile_0.95=4,sum=30 1542182950000000011",
        ]
    );
}

#[test]
fn encode_distribution_empty_stats() {
    let events = vec![Metric {
        name: "requests".to_string(),
        timestamp: Some(ts()),
        tags: Some(tags()),
        kind: MetricKind::Incremental,
        value: dist_value(vec![], vec![]),
    }];

    let line_protocols = encode_events(events, "ns");
    assert_eq!(line_protocols.len(), 0);
}

#[test]
fn encode_distribution_zero_counts_stats() {
    let events = vec![Metric {
        name: "requests".to_string(),
        timestamp: Some(ts()),
        tags: Some(tags()),
        kind: MetricKind::Incremental,
        value: dist_value(vec![1.0, 2.0], vec![0, 0]),
    }];

    let line_protocols = encode_events(events, "ns");
    assert_eq!(line_protocols.len(), 0);
}

#[test]
fn encode_distribution_unequal_stats() {
    let events = vec![Metric {
        name: "requests".to_string(),
        timestamp: Some(ts()),
        tags: Some(tags()),
        kind: MetricKind::Incremental,
        value: dist_value(vec![1.0], vec![1, 2, 3]),
    }];

    let line_protocols = encode_events(events, "ns");
    assert_eq!(line_protocols.len(), 0);
}

#[test]
fn encode_distribution_single_sample() {
    let events = vec![Metric {
        name: "once".to_string(),
        timestamp: Some(ts()),
        tags: None,
        kind: MetricKind::Incremental,
        value: dist_value(vec![1.0], vec![1]),
    }];

    let line_protocols = encode_events(events, "ns");
    assert_eq!(
        line_protocols,
        vec!["ns.once,metric_type=distribution avg=1,count=1,max=1,median=1,min=1,quantile_0.95=1,sum=1 1542182950000000011", ]
    );
}

#[test]
fn encode_distribution_repeated_single_value() {
    let events = vec![Metric {
        name: "thrice".to_string(),
        timestamp: Some(ts()),
        tags: None,
        kind: MetricKind::Incremental,
        value: dist_value(vec![1.0], vec![3]),
    }];

    let line_protocols = encode_events(events, "ns");
    assert_eq!(
        line_protocols,
        vec!["ns.thrice,metric_type=distribution avg=1,count=3,max=1,median=1,min=1,quantile_0.95=1,sum=3 1542182950000000011", ]
    );
}

#[test]
fn encode_histogram_unequal_lengths() {
    let events = vec![Metric {
        name: "requests".to_string(),
        timestamp: Some(ts()),
        tags: None,
        kind: MetricKind::Absolute,
        value: MetricValue::AggregatedHistogram {
            buckets: vec![fv(1.0)],
            counts: vec![1, 2, 3],
            count: 6,
            sum: fv(12.5),
        },
    }];

    let line_protocols = encode_events(events, "ns");
    assert_eq!(line_protocols.len(), 0);
}

#[test]
fn encode_summary_unequal_lengths() {
    let events = vec![Metric {
        name: "requests".to_string(),
        timestamp: Some(ts()),
        tags: None,
        kind: MetricKind::Absolute,
        value: MetricValue::AggregatedSummary {
            quantiles: vec![fv(0.5)],
            values: vec![],
            count: 6,
            sum: fv(12.0),
        },
    }];

    let line_protocols = encode_events(events, "ns");
    assert_eq!(line_protocols.len(), 0);
}

#[test]
fn encode_events_deterministic() {
    let make = || {
        vec![Metric {
            name: "total".to_string(),
            timestamp: Some(ts()),
            tags: Some(tags()),
            kind: MetricKind::Incremental,
            value: dist_value(vec![2.0, 1.0], vec![2, 5]),
        }]
    };
    let first = encode_events(make(), "ns");
    let second = encode_events(make(), "ns");
    assert_eq!(first, second);
}

#[test]
fn encode_events_preserves_order() {
    let events = vec![
        Metric {
            name: "a".to_string(),
            timestamp: Some(ts()),
            tags: None,
            kind: MetricKind::Incremental,
            value: MetricValue::Counter { value: fv(1.0) },
        },
        Metric {
            name: "skipped".to_string(),
            timestamp: Some(ts()),
            tags: None,
            kind: MetricKind::Incremental,
            value: dist_value(vec![], vec![]),
        },
        Metric {
            name: "b".to_string(),
            timestamp: Some(ts()),
            tags: None,
            kind: MetricKind::Incremental,
            value: MetricValue::Counter { value: fv(2.0) },
        },
    ];

    let line_protocols = encode_events(events, "ns");
    assert_eq!(
        line_protocols,
        vec![
            "ns.a,metric_type=counter value=1 1542182950000000011",
            "ns.b,metric_type=counter value=2 1542182950000000011",
        ]
    );
}

#[test]
fn distribution_fields_direct() {
    let values = vec![fv(1.0), fv(2.0), fv(3.0)];
    let rates: Vec<u32> = vec![3, 3, 2];
    let sorted = expand_sorted(&values, &rates).unwrap();
    assert_eq!(sorted.len(), 8);
    let texts: Vec<&str> = sorted.iter().map(|x| x.text.as_str()).collect();
    assert_eq!(texts, vec!["1", "1", "1", "2", "2", "2", "3", "3"]);

    let fields = influxdb_metrics::distribution::encode_distribution(&values, &rates, &fv(15.0), &fv(1.875))
        .unwrap();
    assert_eq!(
        encode_fields(fields),
        "avg=1.875,count=8,max=3,median=2,min=1,quantile_0.95=3,sum=15"
    );

    assert!(influxdb_metrics::distribution::encode_distribution(&values, &vec![1, 2], &fv(0.0), &fv(0.0))
        .is_none());
    assert!(influxdb_metrics::distribution::encode_distribution(&values, &vec![0, 0, 0], &fv(0.0), &fv(0.0))
        .is_none());
    assert!(expand_sorted(&Vec::new(), &Vec::new()).is_none());
}

#[test]
fn tag_insert_overwrites() {
    let mut t = TagMap::new();
    t.insert("host".to_string(), "first".to_string());
    t.insert("host".to_string(), "second".to_string());
    assert_eq!(encode_tags(t), "host=second");
}

#[test]
fn metric_type_tag_overwrites() {
    let mut t = TagMap::new();
    t.insert("metric_type".to_string(), "bogus".to_string());
    let events = vec![Metric {
        name: "total".to_string(),
        timestamp: Some(ts()),
        tags: Some(t),
        kind: MetricKind::Incremental,
        value: MetricValue::Counter { value: fv(1.0) },
    }];
    let line_protocols = encode_events(events, "");
    assert_eq!(
        line_protocols,
        vec!["total,metric_type=counter value=1 1542182950000000011"]
    );
}

#[test]
fn encode_distribution_two_samples() {
    let events = vec![Metric {
        name: "pair".to_string(),
        timestamp: Some(ts()),
        tags: None,
        kind: MetricKind::Incremental,
        value: dist_value(vec![1.0, 2.0], vec![1, 1]),
    }];

    let line_protocols = encode_events(events, "ns");
    assert_eq!(
        line_protocols,
        vec!["ns.pair,metric_type=distribution avg=1.5,count=2,max=2,median=1,min=1,quantile_0.95=2,sum=3 1542182950000000011", ]
    );
}

#[test]
fn encode_distribution_three_samples() {
    let events = vec![Metric {
        name: "triple".to_string(),
        timestamp: Some(ts()),
        tags: None,
        kind: MetricKind::Incremental,
        value: dist_value(vec![1.0, 2.0, 3.0], vec![1, 1, 1]),
    }];

    let line_protocols = encode_events(events, "ns");
    assert_eq!(
        line_protocols,
        vec!["ns.triple,metric_type=distribution avg=2,count=3,max=3,median=2,min=1,quantile_0.95=3,sum=6 1542182950000000011", ]
    );
}

#[test]
fn encode_negative_timestamp() {
    let events = vec![Metric {
        name: "old_sample".to_string(),
        timestamp: Some(-1),
        tags: None,
        kind: MetricKind::Incremental,
        value: MetricValue::Counter { value: fv(1.0) },
    }];

    let line_protocols = encode_events(events, "ns");
    assert_eq!(
        line_protocols,
        vec!["ns.old_sample,metric_type=counter value=1 -1"]
    );
}

use docker_stats_exporter::decimal::Decimal;
use docker_stats_exporter::docker::DockerContainerStats;
use docker_stats_exporter::error::Error;
use docker_stats_exporter::metrics::{gauges_for_container, get_gauge, NamingMode};
use docker_stats_exporter::render::{get_prometheus_format, render};
use docker_stats_exporter::units::UnitTable;

fn web_record() -> DockerContainerStats {
    DockerContainerStats {
        container: "web".to_string(),
        cpu_perc: "12.5%".to_string(),
        mem_perc: None,
        mem_usage: Some("100MiB / 200MiB".to_string()),
        net_io: "1kB / 2kB".to_string(),
        block_io: None,
    }
}

#[test]
fn end_to_end_label_based_scrape() {
    let t = UnitTable::standard();
    let out = get_prometheus_format(&vec![web_record()], &Vec::new(), NamingMode::LabelBased, &t)
        .unwrap();
    assert!(out.contains("container_cpu_usage{container=\"web\"} 12.5\n"));
    assert!(out.contains("container_memory_usage_bytes{container=\"web\"} 104857600\n"));
    assert!(out.contains("container_memory_limit_bytes{container=\"web\"} 209715200\n"));
    assert!(out.contains("container_network_input_bytes{container=\"web\"} 2000\n"));
    assert!(out.contains("container_network_output_bytes{container=\"web\"} 1000\n"));
    assert!(out.contains("# HELP container_cpu_usage CPU usage percentage for container\n"));
    assert!(out.contains("# TYPE container_cpu_usage gauge\n"));
}

#[test]
fn end_to_end_name_embedded_scrape() {
    let t = UnitTable::standard();
    let mut rec = web_record();
    rec.container = "my-app".to_string();
    let out = get_prometheus_format(&vec![rec], &Vec::new(), NamingMode::NameEmbedded, &t)
        .unwrap();
    assert!(out.contains("my_app_container_cpu_usage 12.5\n"));
    assert!(!out.contains("container=\"my-app\""));
}

#[test]
fn user_labels_are_merged_after_the_container_label() {
    let t = UnitTable::standard();
    let labels = vec![("env".to_string(), "prod".to_string())];
    let out = get_prometheus_format(&vec![web_record()], &labels, NamingMode::LabelBased, &t)
        .unwrap();
    assert!(out.contains("container_cpu_usage{container=\"web\",env=\"prod\"} 12.5\n"));
}

#[test]
fn block_io_variant_emits_read_and_write_gauges() {
    let t = UnitTable::standard();
    let mut rec = web_record();
    rec.block_io = Some("5MB / 7MB".to_string());
    let out = get_prometheus_format(&vec![rec], &Vec::new(), NamingMode::LabelBased, &t)
        .unwrap();
    assert!(out.contains("container_block_read_bytes{container=\"web\"} 7000000\n"));
    assert!(out.contains("container_block_write_bytes{container=\"web\"} 5000000\n"));
}

#[test]
fn mem_percent_variant_emits_one_memory_gauge() {
    let t = UnitTable::standard();
    let rec = DockerContainerStats {
        container: "db".to_string(),
        cpu_perc: "1%".to_string(),
        mem_perc: Some("33.3%".to_string()),
        mem_usage: None,
        net_io: "0B / 0B".to_string(),
        block_io: None,
    };
    let out = get_prometheus_format(&vec![rec], &Vec::new(), NamingMode::LabelBased, &t)
        .unwrap();
    assert!(out.contains("container_memory_usage{container=\"db\"} 33.3\n"));
    assert!(!out.contains("container_memory_usage_bytes"));
}

#[test]
fn malformed_field_fails_the_whole_scrape() {
    let t = UnitTable::standard();
    let mut rec = web_record();
    rec.net_io = "1kB".to_string();
    let r = get_prometheus_format(&vec![rec], &Vec::new(), NamingMode::LabelBased, &t);
    assert!(matches!(r, Err(Error::MalformedPair(_))));
}

#[test]
fn duplicate_container_names_trigger_duplicate_metric() {
    let t = UnitTable::standard();
    let r = get_prometheus_format(
        &vec![web_record(), web_record()],
        &Vec::new(),
        NamingMode::LabelBased,
        &t,
    );
    match r.unwrap_err() {
        Error::DuplicateMetric(name) => assert_eq!(name, "container_cpu_usage"),
        other => panic!("wrong error: {:?}", other),
    }
}

#[test]
fn same_name_with_distinct_label_sets_is_two_series() {
    let t = UnitTable::standard();
    let mut rec2 = web_record();
    rec2.container = "api".to_string();
    let out = get_prometheus_format(
        &vec![web_record(), rec2],
        &Vec::new(),
        NamingMode::LabelBased,
        &t,
    )
    .unwrap();
    assert!(out.contains("container_cpu_usage{container=\"web\"} 12.5\n"));
    assert!(out.contains("container_cpu_usage{container=\"api\"} 12.5\n"));
    assert_eq!(out.matches("# TYPE container_cpu_usage gauge\n").count(), 1);
}

#[test]
fn derivation_and_rendering_are_idempotent() {
    let t = UnitTable::standard();
    let stats = vec![web_record()];
    let labels = vec![("env".to_string(), "prod".to_string())];
    let once = get_prometheus_format(&stats, &labels, NamingMode::LabelBased, &t).unwrap();
    let twice = get_prometheus_format(&stats, &labels, NamingMode::LabelBased, &t).unwrap();
    assert_eq!(once, twice);
}

#[test]
fn derive_alone_is_stable_and_ordered() {
    let t = UnitTable::standard();
    let rec = web_record();
    let gauges = gauges_for_container(&rec, &Vec::new(), NamingMode::LabelBased, &t).unwrap();
    let names: Vec<&str> = gauges.iter().map(|g| g.name.as_str()).collect();
    assert_eq!(
        names,
        vec![
            "container_cpu_usage",
            "container_memory_usage_bytes",
            "container_memory_limit_bytes",
            "container_network_input_bytes",
            "container_network_output_bytes",
        ]
    );
}

#[test]
fn gauge_names_replace_dashes_with_underscores() {
    let g = get_gauge(
        "some-metric-name",
        "help text",
        Decimal { mantissa: 1, scale: 0 },
        "box",
        &Vec::new(),
        NamingMode::LabelBased,
    );
    assert_eq!(g.name, "some_metric_name");
}

#[test]
fn render_rejects_identical_identity_directly() {
    let g1 = get_gauge(
        "m",
        "h",
        Decimal { mantissa: 1, scale: 0 },
        "box",
        &Vec::new(),
        NamingMode::LabelBased,
    );
    let g2 = get_gauge(
        "m",
        "h",
        Decimal { mantissa: 2, scale: 0 },
        "box",
        &Vec::new(),
        NamingMode::LabelBased,
    );
    let r = render(&vec![g1, g2]);
    assert!(matches!(r, Err(Error::DuplicateMetric(_))));
}

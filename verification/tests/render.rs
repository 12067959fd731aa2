use axum_prometheus::metrics_exporter_prometheus::{PrometheusBuilder, PrometheusRecorder};
use dsmr_exporter::measurement::{RawMeasurement, RawValue};
use dsmr_exporter::scrape::complete_scrape;
use dsmr_exporter::sink::Sink;
use metrics::{Key, Recorder};

fn reading(name: &str, value: RawValue, unit: Option<&str>) -> RawMeasurement {
    RawMeasurement { name: name.to_string(), value, unit: unit.map(|u| u.to_string()) }
}

fn publish(sink: &Sink, recorder: &PrometheusRecorder) {
    for entry in sink.snapshot() {
        recorder
            .register_gauge(&Key::from_name(entry.metric_name))
            .set(f64::from_bits(entry.value_bits));
    }
}

#[test]
fn stored_power_reading_renders_as_its_line() {
    let mut sink = Sink::new();
    let batch = vec![reading("power_delivered", RawValue::Number(1.23f64.to_bits()), Some("kW"))];
    assert_eq!(complete_scrape(&mut sink, Ok(batch)), Ok(()));

    let recorder = PrometheusBuilder::new().build_recorder();
    publish(&sink, &recorder);
    let text = recorder.handle().render();
    assert!(text.lines().any(|line| line == "dsmr_logger_power_delivered_kw 1.23"));
}

#[test]
fn status_text_leaves_the_rendering_as_it_was() {
    let mut sink = Sink::new();
    let recorder = PrometheusBuilder::new().build_recorder();
    let first = vec![reading("voltage_l1", RawValue::Number(230.5f64.to_bits()), Some("V"))];
    assert_eq!(complete_scrape(&mut sink, Ok(first)), Ok(()));
    publish(&sink, &recorder);
    let before = recorder.handle().render();
    assert!(before.lines().any(|line| line == "dsmr_logger_voltage_l1_v 230.5"));

    let second = vec![reading("status", RawValue::Other, None)];
    assert_eq!(complete_scrape(&mut sink, Ok(second)), Ok(()));
    publish(&sink, &recorder);
    assert_eq!(recorder.handle().render(), before);
}

#[test]
fn second_scrape_renders_one_line_with_the_later_value() {
    let mut sink = Sink::new();
    let recorder = PrometheusBuilder::new().build_recorder();
    for value in [1.23f64, 4.5f64] {
        let batch = vec![reading("power_delivered", RawValue::Number(value.to_bits()), Some("kW"))];
        assert_eq!(complete_scrape(&mut sink, Ok(batch)), Ok(()));
        publish(&sink, &recorder);
    }
    let text = recorder.handle().render();
    let lines: Vec<&str> =
        text.lines().filter(|line| line.starts_with("dsmr_logger_power_delivered_kw")).collect();
    assert_eq!(lines, vec!["dsmr_logger_power_delivered_kw 4.5"]);
}

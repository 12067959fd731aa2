use dsmr_exporter::measurement::GaugeUpdate;
use dsmr_exporter::sink::Sink;

fn update(name: &str, value: f64) -> GaugeUpdate {
    GaugeUpdate { metric_name: name.to_string(), value_bits: value.to_bits() }
}

#[test]
fn new_sink_is_empty() {
    let sink = Sink::new();
    assert_eq!(sink.len(), 0);
    assert_eq!(sink.get("dsmr_logger_power_delivered_kw"), None);
    assert!(sink.snapshot().is_empty());
}

#[test]
fn apply_stores_the_value_under_the_name() {
    let mut sink = Sink::new();
    sink.apply(update("dsmr_logger_power_delivered_kw", 1.23));
    assert_eq!(sink.get("dsmr_logger_power_delivered_kw"), Some(1.23f64.to_bits()));
    assert_eq!(sink.get("dsmr_logger_power_delivered"), None);
    assert_eq!(sink.len(), 1);
}

#[test]
fn applying_the_same_update_twice_is_applying_it_once() {
    let mut once = Sink::new();
    once.apply(update("a", 5.0));
    let mut twice = Sink::new();
    twice.apply(update("a", 5.0));
    twice.apply(update("a", 5.0));
    assert_eq!(twice.get("a"), once.get("a"));
    assert_eq!(twice.get("a"), Some(5.0f64.to_bits()));
    assert_eq!(twice.len(), 1);
    assert_eq!(twice.snapshot(), once.snapshot());
}

#[test]
fn later_value_overwrites_and_does_not_duplicate() {
    let mut sink = Sink::new();
    sink.apply(update("a", 1.0));
    sink.apply(update("b", 2.0));
    sink.apply(update("a", 3.0));
    assert_eq!(sink.len(), 2);
    assert_eq!(sink.get("a"), Some(3.0f64.to_bits()));
    assert_eq!(sink.get("b"), Some(2.0f64.to_bits()));
    assert_eq!(sink.snapshot(), vec![update("a", 3.0), update("b", 2.0)]);
}

#[test]
fn names_that_differ_in_case_are_two_gauges() {
    let mut sink = Sink::new();
    sink.apply(update("p_Power", 1.0));
    sink.apply(update("p_power", 2.0));
    assert_eq!(sink.len(), 2);
    assert_eq!(sink.get("p_Power"), Some(1.0f64.to_bits()));
    assert_eq!(sink.get("p_power"), Some(2.0f64.to_bits()));
}

#[test]
fn apply_all_applies_in_order() {
    let mut sink = Sink::new();
    sink.apply(update("z", 9.0));
    sink.apply_all(vec![update("a", 1.0), update("b", 2.0), update("a", 4.0), update("z", 0.5)]);
    assert_eq!(sink.len(), 3);
    assert_eq!(sink.get("a"), Some(4.0f64.to_bits()));
    assert_eq!(sink.get("b"), Some(2.0f64.to_bits()));
    assert_eq!(sink.get("z"), Some(0.5f64.to_bits()));
    assert_eq!(sink.snapshot(), vec![update("z", 0.5), update("a", 4.0), update("b", 2.0)]);
}

#[test]
fn apply_all_of_nothing_changes_nothing() {
    let mut sink = Sink::new();
    sink.apply(update("a", 1.0));
    sink.apply_all(Vec::new());
    assert_eq!(sink.snapshot(), vec![update("a", 1.0)]);
}

#[test]
fn snapshot_applied_to_an_empty_sink_gives_the_sink_again() {
    let mut sink = Sink::new();
    sink.apply_all(vec![update("c", 3.0), update("a", 1.0), update("c", 5.0), update("b", 2.0)]);
    let mut copy = Sink::new();
    copy.apply_all(sink.snapshot());
    assert_eq!(copy.snapshot(), sink.snapshot());
    assert_eq!(copy.len(), 3);
    assert_eq!(copy.get("c"), Some(5.0f64.to_bits()));
}

#[test]
fn two_sinks_do_not_share_their_gauges() {
    let mut one = Sink::new();
    let other = Sink::new();
    one.apply(update("a", 1.0));
    assert_eq!(one.len(), 1);
    assert_eq!(other.len(), 0);
    assert_eq!(other.get("a"), None);
}

#[test]
fn empty_name_is_a_name_like_any_other() {
    let mut sink = Sink::new();
    sink.apply(update("", 1.0));
    assert_eq!(sink.get(""), Some(1.0f64.to_bits()));
    assert_eq!(sink.len(), 1);
}

use dynamic_string::aggregator::{DynamicString, Output, Producer};
use dynamic_string::template::compile;

fn primary(s: &str) -> Output {
    Output::Primary(s.to_string())
}

#[test]
fn uptime_scenario() {
    let mut d = DynamicString::new("Uptime: {{uptime -p}}");
    assert_eq!(d.current(), "Uptime: ");
    assert_eq!(
        d.update(1, primary("up 2 hours")),
        Some("Uptime: up 2 hours".to_string())
    );
    assert_eq!(d.current(), "Uptime: up 2 hours");
}

#[test]
fn interleaved_producers_scenario() {
    let mut d = DynamicString::new("{{x}}-{{y}}");
    let producers = d.producers();
    let x = producers[0].index;
    let y = producers[1].index;
    let mut published = vec![d.current()];
    published.push(d.update(x, primary("1")).unwrap());
    published.push(d.update(y, primary("2")).unwrap());
    published.push(d.update(x, primary("3")).unwrap());
    assert_eq!(published, vec!["-", "1-", "1-2", "3-2"]);
}

#[test]
fn static_template_is_published_verbatim_once() {
    let d = DynamicString::new("no expressions here");
    assert_eq!(d.current(), "no expressions here");
    assert!(d.producers().is_empty());
}

#[test]
fn initial_value_leaves_expressions_empty() {
    let d = DynamicString::new("a{{x}}b{{y}}c");
    assert_eq!(d.current(), "abc");
}

#[test]
fn empty_template_composes_to_empty() {
    let d = DynamicString::new("");
    assert_eq!(d.current(), "");
    assert!(d.producers().is_empty());
}

#[test]
fn producers_list_dynamic_slots_in_order() {
    let d = DynamicString::new("a{{x}}b{{y}}");
    assert_eq!(
        d.producers(),
        vec![
            Producer { index: 1, expression: "x".to_string() },
            Producer { index: 3, expression: "y".to_string() },
        ]
    );
}

#[test]
fn same_value_is_published_again() {
    let mut d = DynamicString::new("v={{x}}");
    assert_eq!(d.update(1, primary("7")), Some("v=7".to_string()));
    assert_eq!(d.update(1, primary("7")), Some("v=7".to_string()));
    assert_eq!(d.current(), "v=7");
}

#[test]
fn diagnostic_output_is_ignored() {
    let mut d = DynamicString::new("v={{x}}");
    assert_eq!(d.update(1, Output::Diagnostic("oops".to_string())), None);
    assert_eq!(d.current(), "v=");
}

#[test]
fn static_slot_is_not_written() {
    let mut d = DynamicString::new("v={{x}}");
    assert_eq!(d.update(0, primary("w")), None);
    assert_eq!(d.update(5, primary("w")), None);
    assert_eq!(d.current(), "v=");
}

#[test]
fn stopped_consumer_gets_no_more_updates() {
    let mut d = DynamicString::new("{{x}}");
    assert!(d.is_active());
    d.acknowledge(true);
    assert!(d.is_active());
    assert_eq!(d.update(0, primary("1")), Some("1".to_string()));
    d.acknowledge(false);
    assert!(!d.is_active());
    assert_eq!(d.update(0, primary("2")), None);
    d.acknowledge(true);
    assert!(!d.is_active());
    assert_eq!(d.current(), "1");
}

#[test]
fn last_write_per_slot_wins() {
    let mut d = DynamicString::new("[{{a}}|{{b}}|{{c}}]");
    d.update(3, primary("b1"));
    d.update(1, primary("a1"));
    d.update(3, primary("b2"));
    d.update(5, primary("c1"));
    d.update(1, primary("a2"));
    assert_eq!(d.current(), "[a2|b2|c1]");
}

#[test]
fn from_segments_matches_new() {
    let a = DynamicString::from_segments(compile("p{{q}}r"));
    let b = DynamicString::new("p{{q}}r");
    assert_eq!(a.current(), b.current());
    assert_eq!(a.producers(), b.producers());
}

use atomic_metrics_core::collector::{insert_name, ordered_names_of};
use atomic_metrics_core::emitter::render_metrics_recorder;
use atomic_metrics_core::name_order::name_precedes;
use atomic_metrics_core::pipeline::{
    metric_names_in_sources, recorder_source_for_names, recorder_source_for_sources,
};
use atomic_metrics_core::scanner::metric_names_in_text;

fn strings(names: &[&str]) -> Vec<String> {
    names.iter().map(|s| s.to_string()).collect()
}

fn expected_source(names: &[&str]) -> String {
    let mut s = String::from("use std::sync::atomic::AtomicU64;\n\npub struct MetricsRecorder {\n");
    for n in names {
        s.push_str(&format!("pub {n}: AtomicU64,\n"));
    }
    s.push_str("}\n\nimpl MetricsRecorder {\npub const fn new() -> Self {\nSelf {\n");
    for n in names {
        s.push_str(&format!("{n}: AtomicU64::new(0),\n"));
    }
    s.push_str("}\n}\n}\n\npub static METRICS_RECORDER: MetricsRecorder = MetricsRecorder::new();\n");
    s
}

#[test]
fn names_order_bytewise() {
    assert!(name_precedes("a", "b"));
    assert!(!name_precedes("b", "a"));
    assert!(!name_precedes("a", "a"));
    assert!(name_precedes("a", "ab"));
    assert!(!name_precedes("ab", "a"));
    assert!(name_precedes("Z", "a"));
    assert!(name_precedes("_x", "a"));
    assert!(name_precedes("value", "value_inc"));
    assert!(name_precedes("z", "\u{e9}"));
}

#[test]
fn insert_keeps_order_and_drops_repeats() {
    let mut v: Vec<String> = Vec::new();
    insert_name(&mut v, "m".to_string());
    insert_name(&mut v, "b".to_string());
    insert_name(&mut v, "x".to_string());
    insert_name(&mut v, "m".to_string());
    insert_name(&mut v, "a".to_string());
    assert_eq!(v, strings(&["a", "b", "m", "x"]));
}

#[test]
fn ordered_names_sorted_without_repeats() {
    let v = ordered_names_of(&strings(&["c", "a", "b", "a", "c", "c"]));
    assert_eq!(v, strings(&["a", "b", "c"]));
    assert!(ordered_names_of(&Vec::new()).is_empty());
}

#[test]
fn render_exact_text() {
    let out = render_metrics_recorder(&strings(&["hits", "misses"]));
    let expected = "use std::sync::atomic::AtomicU64;\n\npub struct MetricsRecorder {\npub hits: AtomicU64,\npub misses: AtomicU64,\n}\n\nimpl MetricsRecorder {\npub const fn new() -> Self {\nSelf {\nhits: AtomicU64::new(0),\nmisses: AtomicU64::new(0),\n}\n}\n}\n\npub static METRICS_RECORDER: MetricsRecorder = MetricsRecorder::new();\n";
    assert_eq!(out, expected);
}

#[test]
fn render_keeps_given_order() {
    let out = render_metrics_recorder(&strings(&["z", "a"]));
    assert_eq!(out, expected_source(&["z", "a"]));
}

#[test]
fn explicit_names_deduplicated_and_sorted() {
    let out = recorder_source_for_names(&strings(&["z", "a", "a"]));
    assert_eq!(out, expected_source(&["a", "z"]));
    assert_eq!(out.matches(": AtomicU64,").count(), 2);
}

#[test]
fn explicit_names_same_as_canonical_input() {
    let messy = recorder_source_for_names(&strings(&["q", "b", "q", "k", "b"]));
    let canonical = recorder_source_for_names(&strings(&["b", "k", "q"]));
    let other = recorder_source_for_names(&strings(&["k", "q", "b"]));
    assert_eq!(messy, canonical);
    assert_eq!(messy, other);
    assert_eq!(canonical, expected_source(&["b", "k", "q"]));
}

#[test]
fn empty_names_give_empty_struct() {
    let out = recorder_source_for_names(&Vec::new());
    assert_eq!(out, expected_source(&[]));
}

#[test]
fn empty_source_set_gives_valid_empty_registry() {
    let names = metric_names_in_sources(&Vec::new()).ok().unwrap();
    assert!(names.is_empty());
    let out = recorder_source_for_sources(&Vec::new()).ok().unwrap();
    assert_eq!(out, expected_source(&[]));
    assert!(out.contains("pub struct MetricsRecorder {\n}"));
    assert!(out.contains("MetricsRecorder::new();"));
}

#[test]
fn scan_two_names_from_three_sites() {
    let file = "fn f() {\n    tick_metric!(foo);\n    tick_metric!(foo);\n    increment_metric!(bar, 3);\n}\n";
    let found = metric_names_in_text(file).ok().unwrap();
    assert_eq!(found, strings(&["bar", "foo", "foo"]));
    let names = metric_names_in_sources(&strings(&[file])).ok().unwrap();
    assert_eq!(names, strings(&["bar", "foo"]));
    let out = recorder_source_for_sources(&strings(&[file])).ok().unwrap();
    assert_eq!(out, expected_source(&["bar", "foo"]));
    assert!(out.find("pub bar").unwrap() < out.find("pub foo").unwrap());
}

#[test]
fn scan_name_after_line_break() {
    let split = "let c = get_counter!(\n    long_name\n);\n";
    let single = "let c = get_counter!(long_name);\n";
    let a = metric_names_in_text(split).ok().unwrap();
    let b = metric_names_in_text(single).ok().unwrap();
    assert_eq!(a, strings(&["long_name"]));
    assert_eq!(a, b);
}

#[test]
fn scan_each_of_the_six_forms() {
    let text = "load_metric!(f)\nreset_metric!(e)\nset_metric!(d, 7)\ntick_metric!(c)\nincrement_metric!(b, 2)\nget_counter!(a)\n";
    let found = metric_names_in_text(text).ok().unwrap();
    // The set-to pattern also matches the tail of `reset_metric!(e)`.
    assert_eq!(found, strings(&["a", "b", "c", "e", "d", "e", "f"]));
    let names = metric_names_in_sources(&strings(&[text])).ok().unwrap();
    assert_eq!(names, strings(&["a", "b", "c", "d", "e", "f"]));
}

#[test]
fn scan_ignores_other_text() {
    let text = "counter(a)\nget_counter!(x y)\nmetric!(z)\nlet tick = 1;\n";
    let found = metric_names_in_text(text).ok().unwrap();
    assert!(found.is_empty());
    assert!(metric_names_in_text("").ok().unwrap().is_empty());
}

#[test]
fn scan_enumeration_order_irrelevant() {
    let f1 = "set_metric!(gamma, 1);\nload_metric!(alpha);\n";
    let f2 = "get_counter!(beta);\nreset_metric!(gamma);\n";
    let f3 = "fn main() {}\n";
    let a = recorder_source_for_sources(&strings(&[f1, f2, f3])).ok().unwrap();
    let b = recorder_source_for_sources(&strings(&[f3, f2, f1])).ok().unwrap();
    let c = recorder_source_for_sources(&strings(&[f2, f1, f3])).ok().unwrap();
    assert_eq!(a, b);
    assert_eq!(a, c);
    assert_eq!(a, expected_source(&["alpha", "beta", "gamma"]));
}

#[test]
fn scan_fields_are_referenced_names() {
    let f1 = "tick_metric!(value_tick);\nget_counter!(value);\n";
    let f2 = "load_metric!(value_only_loaded)\nincrement_metric!(value_inc, 3);\n";
    let names = metric_names_in_sources(&strings(&[f1, f2])).ok().unwrap();
    assert_eq!(
        names,
        strings(&["value", "value_inc", "value_only_loaded", "value_tick"])
    );
    let out = recorder_source_for_sources(&strings(&[f1, f2])).ok().unwrap();
    assert_eq!(out, recorder_source_for_names(&names));
}

#[test]
fn scan_same_name_under_several_forms() {
    let file = "set_metric!(hits, 7);\nload_metric!(hits);\nreset_metric!(hits);\n";
    let names = metric_names_in_sources(&strings(&[file, file])).ok().unwrap();
    assert_eq!(names, strings(&["hits"]));
}

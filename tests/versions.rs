use anicla::versions::{order_versions, text_less};

fn texts(names: &[&str]) -> Vec<String> {
    names.iter().map(|s| s.to_string()).collect()
}

#[test]
fn versions_come_in_ascending_order() {
    let got = order_versions(&texts(&["0.2.0", "0.1.0", "1.0.0", "0.1.1"]));
    assert_eq!(got, texts(&["0.1.0", "0.1.1", "0.2.0", "1.0.0"]));
}

#[test]
fn ordering_keeps_duplicates_and_empty_input() {
    assert_eq!(order_versions(&texts(&["b", "a", "b"])), texts(&["a", "b", "b"]));
    assert_eq!(order_versions(&Vec::new()), Vec::<String>::new());
}

#[test]
fn prefix_comes_first() {
    assert!(text_less("0.1", "0.1.0"));
    assert!(!text_less("0.1.0", "0.1"));
    assert!(!text_less("same", "same"));
    assert!(text_less("", "a"));
    assert!(text_less("0.10.0", "0.9.0"));
}

use anicla::classify::{rank_labels, rank_scores, ClassifyError};

fn labels(names: &[&str]) -> Vec<String> {
    names.iter().map(|s| s.to_string()).collect()
}

#[test]
fn ranks_highest_first() {
    assert_eq!(rank_scores(&vec![100, 700, 200]), vec![1, 2, 0]);
}

#[test]
fn ties_keep_original_order() {
    assert_eq!(rank_scores(&vec![5, 9, 5, 9]), vec![1, 3, 0, 2]);
    assert_eq!(rank_scores(&vec![]), Vec::<usize>::new());
}

#[test]
fn top_label_is_argmax() {
    let r = rank_labels(&labels(&["cat", "dog", "bird"]), &vec![250_000, 600_000, 150_000]).unwrap();
    assert_eq!(r.top_label, "dog");
    assert_eq!(r.top_score, 600_000);
    let order: Vec<(String, u32)> = r.classes.iter().map(|c| (c.label.clone(), c.score)).collect();
    assert_eq!(
        order,
        vec![("dog".to_string(), 600_000), ("cat".to_string(), 250_000), ("bird".to_string(), 150_000)]
    );
    let total: u32 = r.classes.iter().map(|c| c.score).sum();
    assert_eq!(total, 1_000_000);
}

#[test]
fn mismatched_output_is_inference_error() {
    assert!(matches!(rank_labels(&labels(&["a", "b"]), &vec![1]), Err(ClassifyError::InferenceError)));
    assert!(matches!(rank_labels(&labels(&[]), &vec![]), Err(ClassifyError::InferenceError)));
}

//! The order of the device models offered by the preview.
use trmnl_console::preview::{picker_model_order, str_le};

fn models(v: &[(&str, &str)]) -> Vec<(String, String)> {
    v.iter().map(|(k, l)| (k.to_string(), l.to_string())).collect()
}

#[test]
fn strings_compare_like_rust_strings() {
    for (a, b) in [("", ""), ("", "a"), ("a", "b"), ("ab", "b"), ("a", "ab"), ("B", "a"), ("é", "z"), ("z", "é"), ("abc", "abd")] {
        assert_eq!(str_le(a, b), a <= b, "{a:?} <= {b:?}");
    }
}

#[test]
fn trmnl_models_come_first_by_label() {
    let m = models(&[
        ("kindle", "Kindle 2024"),
        ("trmnl", "TRMNL X"),
        ("byod", "Boox"),
        ("trmnl", "TRMNL"),
        ("kindle", "Kindle 2024"),
    ]);
    let order = picker_model_order(&m);
    assert_eq!(order, vec![3, 1, 2, 0, 4]);
    let sorted: Vec<&(String, String)> = order.iter().map(|&i| &m[i]).collect();
    let trmnl_count = sorted.iter().filter(|m| m.0 == "trmnl").count();
    assert_eq!(trmnl_count, 2);
    assert!(sorted[..trmnl_count].iter().all(|m| m.0 == "trmnl"));
    assert!(sorted[..trmnl_count].windows(2).all(|w| w[0].1 <= w[1].1));
    assert!(sorted[trmnl_count..].windows(2).all(|w| w[0].1 <= w[1].1));
}

#[test]
fn empty_model_list_has_empty_order() {
    assert!(picker_model_order(&Vec::new()).is_empty());
}

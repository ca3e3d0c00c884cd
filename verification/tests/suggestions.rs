use sigma::registry::Registry;
use sigma::suggest::{did_you_mean, pick_best, CONFIDENCE};

fn strings(items: &[&str]) -> Vec<String> {
    items.iter().map(|s| s.to_string()).collect()
}

#[test]
fn threshold_is_eight_tenths() {
    assert_eq!(CONFIDENCE, 0.8f64.to_bits());
}

#[test]
fn best_score_is_the_first_of_the_highest() {
    let lo = 0.5f64.to_bits();
    let mid = 0.85f64.to_bits();
    let hi = 0.95f64.to_bits();
    assert_eq!(pick_best(&vec![]), None);
    assert_eq!(pick_best(&vec![lo, lo]), None);
    assert_eq!(pick_best(&vec![CONFIDENCE]), None);
    assert_eq!(pick_best(&vec![CONFIDENCE + 1]), Some(0));
    assert_eq!(pick_best(&vec![lo, mid, hi, mid]), Some(2));
    assert_eq!(pick_best(&vec![hi, mid, hi]), Some(0));
    assert_eq!(pick_best(&vec![lo, mid, mid]), Some(1));
    assert_eq!(pick_best(&vec![0, 1.0f64.to_bits()]), Some(1));
}

#[test]
fn suggestion_needs_enough_similarity() {
    let p_vals = strings(&["foo", "bar"]);
    assert_eq!(did_you_mean("fop", &p_vals), Some("foo".to_string()));
    assert_eq!(did_you_mean("quux", &p_vals), None);
    assert_eq!(did_you_mean("", &p_vals), None);
    assert_eq!(did_you_mean("anything", &strings(&[])), None);
}

#[test]
fn suggestion_is_the_most_similar() {
    let p_vals = strings(&["u8", "u16", "u32", "u64", "i8", "i16", "i32", "i64"]);
    assert_eq!(did_you_mean("u32x", &p_vals), Some("u32".to_string()));
    assert_eq!(did_you_mean("i6", &p_vals), Some("i64".to_string()));
}

#[test]
fn of_equally_similar_candidates_the_first_is_suggested() {
    assert_eq!(did_you_mean("abc", &strings(&["abc", "abc"])), Some("abc".to_string()));
    assert_eq!(did_you_mean("ab1", &strings(&["ab2", "ab3"])), Some("ab2".to_string()));
    assert_eq!(did_you_mean("ab1", &strings(&["ab3", "ab2"])), Some("ab3".to_string()));
}

#[test]
fn suggestion_follows_the_similarity_of_the_outside_measure() {
    let cands = strings(&["possible", "values", "test", "text"]);
    for probe in ["tst", "tex", "valus", "posible", "zzz", ""] {
        let mut best: Option<(f64, &String)> = None;
        for c in &cands {
            let score = strsim::jaro_winkler(probe, c);
            if score > 0.8 && (best.is_none() || best.unwrap().0 < score) {
                best = Some((score, c));
            }
        }
        assert_eq!(did_you_mean(probe, &cands), best.map(|b| b.1.clone()), "{}", probe);
    }
}

#[test]
fn registry_keeps_first_order_and_last_value() {
    let mut r: Registry<u32> = Registry::new();
    assert_eq!(r.len(), 0);
    r.insert("a".to_string(), 1);
    r.insert("b".to_string(), 2);
    r.insert("a".to_string(), 3);
    assert_eq!(r.len(), 2);
    assert_eq!(r.names(), strings(&["a", "b"]));
    assert_eq!(r.get("a"), Some(&3));
    assert_eq!(r.get("b"), Some(&2));
    assert_eq!(r.get("c"), None);
    assert_eq!(r.find("b"), Some(1));
    assert!(r.contains_key("a"));
    assert!(!r.contains_key("A"));
    assert_eq!(r.key_at(1), "b");
    assert_eq!(*r.value_at(0), 3);
}

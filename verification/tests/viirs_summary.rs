use goes_abi::viirs::summary::{summarize, tally_labels, DetectionLabels};
use std::collections::BTreeMap;

fn labels(confidence: &str, satellite: &str, day_night: Option<&str>) -> DetectionLabels {
    DetectionLabels {
        confidence: confidence.to_string(),
        satellite: satellite.to_string(),
        day_night: day_night.map(|s| s.to_string()),
    }
}

fn strings(v: &[&str]) -> Vec<String> {
    v.iter().map(|s| s.to_string()).collect()
}

#[test]
fn tallies_each_label_once_in_key_order() {
    assert_eq!(
        tally_labels(&strings(&["b", "a", "b", "c", "b"])),
        vec![("a".to_string(), 1), ("b".to_string(), 3), ("c".to_string(), 1)]
    );
    assert_eq!(tally_labels(&Vec::new()), Vec::<(String, usize)>::new());
}

#[test]
fn tally_orders_keys_as_a_btree_map_does() {
    let input = strings(&["a", "Z", "é", "ab", "", "a", "zz", "Ä", "a"]);
    let mut expected: BTreeMap<String, usize> = BTreeMap::new();
    for s in &input {
        *expected.entry(s.clone()).or_insert(0) += 1;
    }
    let expected: Vec<(String, usize)> = expected.into_iter().collect();
    assert_eq!(tally_labels(&input), expected);
}

#[test]
fn summary_counts_every_detection() {
    let d = vec![
        labels("high", "N20", Some("N")),
        labels("low", "N21", Some("D")),
        labels("high", "N20", None),
    ];
    let s = summarize(&d);
    assert_eq!(s.by_confidence, vec![("high".to_string(), 2), ("low".to_string(), 1)]);
    assert_eq!(s.by_satellite, vec![("N20".to_string(), 2), ("N21".to_string(), 1)]);
    assert_eq!(
        s.by_day_night,
        vec![("D".to_string(), 1), ("N".to_string(), 1), ("unknown".to_string(), 1)]
    );
    for part in [&s.by_confidence, &s.by_satellite, &s.by_day_night] {
        assert_eq!(part.iter().map(|(_, n)| n).sum::<usize>(), d.len());
    }
}

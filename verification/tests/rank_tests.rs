use scoreboard::rank;

fn pairs(items: &[(&str, u16)]) -> Vec<(String, u16)> {
    let mut v: Vec<(String, u16)> = Vec::new();
    for (id, metric) in items {
        v.push((id.to_string(), *metric));
    }
    v
}

#[test]
fn rank_sorts_descending_with_id_tiebreak() {
    let items = pairs(&[("zeta", 4), ("beta", 9), ("alpha", 4), ("gamma", 7)]);
    let r = rank(&items, 10);
    assert_eq!(r, vec!["beta", "gamma", "alpha", "zeta"]);
}

#[test]
fn rank_boundary_tie_is_included() {
    let items = pairs(&[("A", 5), ("B", 5), ("C", 3)]);
    let r = rank(&items, 2);
    assert_eq!(r, vec!["A", "B"]);
}

#[test]
fn rank_extends_past_limit_on_tie() {
    let items = pairs(&[("A", 5), ("B", 5), ("C", 5), ("D", 1)]);
    let r = rank(&items, 2);
    assert_eq!(r, vec!["A", "B", "C"]);
}

#[test]
fn rank_length_is_min_without_boundary_tie() {
    let items = pairs(&[("A", 9), ("B", 8), ("C", 7), ("D", 6)]);
    assert_eq!(rank(&items, 3).len(), 3);
    assert_eq!(rank(&items, 10).len(), 4);
}

#[test]
fn rank_of_empty_is_empty() {
    let items: Vec<(String, u16)> = Vec::new();
    assert_eq!(rank(&items, 1).len(), 0);
    assert_eq!(rank(&items, 10).len(), 0);
}

#[test]
fn rank_twice_gives_identical_sequences() {
    let items = pairs(&[("u", 2), ("v", 2), ("w", 8), ("x", 0)]);
    let first = rank(&items, 3);
    let second = rank(&items, 3);
    assert_eq!(first, second);
}

#[test]
fn rank_twenty_distinct_keeps_ten_highest() {
    let mut items: Vec<(String, u16)> = Vec::new();
    for i in 0..20 {
        items.push((format!("id{:02}", i), i as u16));
    }
    let r = rank(&items, 10);
    assert_eq!(r.len(), 10);
    for (pos, id) in r.iter().enumerate() {
        let expected_metric = 19 - pos; // descending from the highest value
        assert_eq!(id, &format!("id{:02}", expected_metric));
    }
}

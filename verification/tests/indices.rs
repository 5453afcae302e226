//! From raw positions to highlight ranges.

use devicons::FileIcon;
use television::channels::alias::make_entry;
use television::entry::PreviewType;
use television::fuzzy::Candidate;
use television::utils::indices::{indices_to_ranges, sep_name_and_value_indices, sort_dedup};

#[test]
fn sort_dedup_orders_and_drops_repetitions() {
    let mut indices = vec![5, 1, 3, 1, 5, 0, 3];
    sort_dedup(&mut indices);
    assert_eq!(indices, vec![0, 1, 3, 5]);
}

#[test]
fn sort_dedup_on_the_edges() {
    let mut empty: Vec<u32> = vec![];
    sort_dedup(&mut empty);
    assert!(empty.is_empty());
    let mut one = vec![7];
    sort_dedup(&mut one);
    assert_eq!(one, vec![7]);
    let mut same = vec![2, 2, 2];
    sort_dedup(&mut same);
    assert_eq!(same, vec![2]);
    let mut wide = vec![u32::MAX, 0, u32::MAX];
    sort_dedup(&mut wide);
    assert_eq!(wide, vec![0, u32::MAX]);
    let mut sorted = vec![1, 2, 3];
    sort_dedup(&mut sorted);
    assert_eq!(sorted, vec![1, 2, 3]);
    let mut reversed = vec![3, 2, 1];
    sort_dedup(&mut reversed);
    assert_eq!(reversed, vec![1, 2, 3]);
}

#[test]
fn sort_dedup_agrees_with_std() {
    let mut seed: u32 = 12345;
    for round in 0..50 {
        let mut indices = Vec::new();
        for _ in 0..(round % 17) {
            seed = seed.wrapping_mul(1664525).wrapping_add(1013904223);
            indices.push((seed >> 16) % 12);
        }
        let mut expected = indices.clone();
        expected.sort_unstable();
        expected.dedup();
        sort_dedup(&mut indices);
        assert_eq!(indices, expected);
    }
}

#[test]
fn positions_are_cut_at_the_name() {
    let mut indices = vec![0, 1, 2, 3, 7];
    let (name, value, has_name, has_value) = sep_name_and_value_indices(&mut indices, 2);
    assert!(indices.is_empty());
    assert_eq!(name, vec![0, 1]);
    assert_eq!(value, vec![0, 1, 5]);
    assert!(has_name);
    assert!(has_value);
}

#[test]
fn position_at_the_cut_belongs_to_the_value() {
    let mut indices = vec![3];
    let (name, value, has_name, has_value) = sep_name_and_value_indices(&mut indices, 3);
    assert!(name.is_empty());
    assert_eq!(value, vec![0]);
    assert!(!has_name);
    assert!(has_value);
}

#[test]
fn cut_keeps_the_order_it_is_given() {
    let mut indices = vec![9, 1, 4, 0];
    let (name, value, _, _) = sep_name_and_value_indices(&mut indices, 4);
    assert_eq!(name, vec![1, 0]);
    assert_eq!(value, vec![5, 0]);
}

#[test]
fn cut_on_the_edges() {
    let mut none: Vec<u32> = vec![];
    let (name, value, has_name, has_value) = sep_name_and_value_indices(&mut none, 4);
    assert!(name.is_empty() && value.is_empty());
    assert!(!has_name && !has_value);

    let mut all_value = vec![0, 1];
    let (name, value, has_name, has_value) = sep_name_and_value_indices(&mut all_value, 0);
    assert!(name.is_empty());
    assert_eq!(value, vec![0, 1]);
    assert!(!has_name && has_value);

    let mut all_name = vec![0, 1];
    let (name, value, has_name, has_value) = sep_name_and_value_indices(&mut all_name, u32::MAX);
    assert_eq!(name, vec![0, 1]);
    assert!(value.is_empty());
    assert!(has_name && !has_value);
}

#[test]
fn each_position_becomes_a_range_of_one() {
    assert_eq!(indices_to_ranges(&vec![0, 1, 5]), vec![(0, 1), (1, 2), (5, 6)]);
    assert_eq!(indices_to_ranges(&vec![]), vec![]);
    assert_eq!(
        indices_to_ranges(&vec![u32::MAX - 1]),
        vec![(u32::MAX - 1, u32::MAX)]
    );
}

#[test]
fn entry_is_built_from_raw_positions() {
    let candidate = Candidate::new("ll".to_string(), Some("ls -la".to_string())).unwrap();
    let icon = FileIcon::from("nu");
    let entry = make_entry(&candidate, icon, PreviewType::EnvVar, vec![6, 1, 0, 1, 2, 6]);
    assert_eq!(entry.name, "ll");
    assert_eq!(entry.value, Some("ls -la".to_string()));
    assert_eq!(entry.icon, Some(icon));
    assert_eq!(entry.preview_type, PreviewType::EnvVar);
    assert_eq!(entry.name_match_ranges, Some(vec![(0, 1), (1, 2)]));
    assert_eq!(entry.value_match_ranges, Some(vec![(0, 1), (4, 5)]));
}

#[test]
fn entry_without_positions_has_no_highlight() {
    let candidate = Candidate::new("ll".to_string(), Some("ls -la".to_string())).unwrap();
    let entry = make_entry(&candidate, FileIcon::from("nu"), PreviewType::EnvVar, vec![]);
    assert_eq!(entry.name_match_ranges, None);
    assert_eq!(entry.value_match_ranges, None);
}

#[test]
fn entry_is_cut_at_the_bytes_of_the_name() {
    let candidate = Candidate::new("é".to_string(), Some("x".to_string())).unwrap();
    let entry = make_entry(&candidate, FileIcon::from("nu"), PreviewType::EnvVar, vec![1, 2]);
    assert_eq!(entry.name_match_ranges, Some(vec![(1, 2)]));
    assert_eq!(entry.value_match_ranges, Some(vec![(0, 1)]));
}

#[test]
fn entry_of_a_candidate_without_value() {
    let candidate = Candidate::new("README.md".to_string(), None).unwrap();
    let entry = make_entry(&candidate, FileIcon::from("nu"), PreviewType::Files, vec![2, 0]);
    assert_eq!(entry.value, None);
    assert_eq!(entry.name_match_ranges, Some(vec![(0, 1), (2, 3)]));
    assert_eq!(entry.value_match_ranges, None);
}

#[test]
fn candidate_keeps_what_it_was_given() {
    let candidate = Candidate::new("gs".to_string(), Some("git status".to_string())).unwrap();
    assert_eq!(candidate.name(), "gs");
    assert_eq!(candidate.value(), &Some("git status".to_string()));
    assert_eq!(candidate.name_len(), 2);
    assert_eq!(candidate.column(), "gsgit status");
    let copy = candidate.clone();
    assert_eq!(copy.name(), "gs");
    assert_eq!(copy.column(), "gsgit status");
    let bare = Candidate::new("päth".to_string(), None).unwrap();
    assert_eq!(bare.name_len(), 5);
    assert_eq!(bare.column(), "päth");
    assert_eq!(bare.value(), &None);
}

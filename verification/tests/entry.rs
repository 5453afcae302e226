//! Building entries.

use devicons::FileIcon;
use television::entry::{Entry, PreviewType};

#[test]
fn new_entry_holds_a_name_and_a_preview() {
    let entry = Entry::new("ll".to_string(), PreviewType::EnvVar);
    assert_eq!(entry.name, "ll");
    assert_eq!(entry.value, None);
    assert_eq!(entry.icon, None);
    assert_eq!(entry.name_match_ranges, None);
    assert_eq!(entry.value_match_ranges, None);
    assert_eq!(entry.preview_type, PreviewType::EnvVar);
}

#[test]
fn builders_set_one_field_each() {
    let icon = FileIcon::from("nu");
    let entry = Entry::new("ll".to_string(), PreviewType::Basic)
        .with_value("ls -la".to_string())
        .with_icon(icon)
        .with_name_match_ranges(vec![(0, 1)])
        .with_value_match_ranges(vec![(1, 2), (3, 4)]);
    assert_eq!(entry.name, "ll");
    assert_eq!(entry.value, Some("ls -la".to_string()));
    assert_eq!(entry.icon, Some(icon));
    assert_eq!(entry.name_match_ranges, Some(vec![(0, 1)]));
    assert_eq!(entry.value_match_ranges, Some(vec![(1, 2), (3, 4)]));
    assert_eq!(entry.preview_type, PreviewType::Basic);
}

#[test]
fn builder_leaves_the_entry_it_was_given_alone() {
    let plain = Entry::new("ll".to_string(), PreviewType::Files);
    let valued = plain.clone().with_value("ls".to_string());
    assert_eq!(plain.value, None);
    assert_eq!(valued.value, Some("ls".to_string()));
    assert_ne!(plain, valued);
    let again = valued.clone().with_value("ls -la".to_string());
    assert_eq!(valued.value, Some("ls".to_string()));
    assert_eq!(again.value, Some("ls -la".to_string()));
}

#[test]
fn clone_copies_every_field() {
    let entry = Entry::new("gs".to_string(), PreviewType::Directory)
        .with_value("git status".to_string())
        .with_icon(FileIcon::from("nu"))
        .with_name_match_ranges(vec![(0, 1), (1, 2)])
        .with_value_match_ranges(vec![(4, 5)]);
    assert_eq!(entry.clone(), entry);
    let bare = Entry::new("x".to_string(), PreviewType::Basic);
    assert_eq!(bare.clone(), bare);
}
